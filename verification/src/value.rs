//! Run-time values of the language and the compiled functions they refer to.

use vstd::prelude::*;

use crate::opcode::MathOp;

verus! {

/// The kind of a compiled function.
#[derive(Debug, Clone, Copy, PartialEq, Eq, Structural)]
pub enum FunctionType {
    TopLevel,
    NamedClosure,
    AnonClosure,
    Constructor,
    Method,
}

/// A value of the language.
///
/// A `Float` is carried as the bit pattern of a 64-bit IEEE number, and a
/// `Closure` as the index of its compiled function in the function table of
/// the virtual machine.
#[derive(Debug, Clone, PartialEq)]
pub enum Value {
    Nil,
    Bool(bool),
    Int(i64),
    Float(u64),
    String(String),
    Closure(usize),
}

/// Floating-point arithmetic, which the program that embeds the library
/// supplies. Nothing is assumed of the results: the library treats each as
/// an arbitrary bit pattern.
pub trait FloatOps {
    /// The bit pattern of the number that a literal such as `1.5` denotes.
    fn parse_literal(&self, text: &str) -> Option<u64>;

    /// The bit pattern of `a op b` for `Add`, `Subtract`, `Multiply`,
    /// `Divide` and `Power`.
    fn math(&self, op: MathOp, a: u64, b: u64) -> u64;

    /// The text under which a number is printed.
    fn to_text(&self, a: u64) -> String;
}

/// The sign bit of a 64-bit IEEE number.
pub open spec fn float_sign_bit() -> u64 {
    0x8000_0000_0000_0000u64
}

/// The bit pattern is that of a NaN: all exponent bits set and a non-zero
/// fraction.
pub open spec fn spec_float_is_nan(bits: u64) -> bool {
    (bits & 0x7ff0_0000_0000_0000u64) == 0x7ff0_0000_0000_0000u64
        && (bits & 0x000f_ffff_ffff_ffffu64) != 0
}

/// The number is at most zero in the total order in which every NaN is
/// greater than every other number: it is not a NaN and it is either a
/// zero or negative.
pub open spec fn spec_float_at_most_zero(bits: u64) -> bool {
    !spec_float_is_nan(bits) && ((bits & float_sign_bit()) != 0 || bits == 0)
}

/// Whether a float is at most zero (see `spec_float_at_most_zero`).
pub fn float_at_most_zero(bits: u64) -> (r: bool)
    ensures
        r == spec_float_at_most_zero(bits),
{
    let nan = (bits & 0x7ff0_0000_0000_0000u64) == 0x7ff0_0000_0000_0000u64
        && (bits & 0x000f_ffff_ffff_ffffu64) != 0;
    !nan && ((bits & 0x8000_0000_0000_0000u64) != 0 || bits == 0)
}

/// The negation of a float: its sign bit flipped.
pub fn float_negate(bits: u64) -> (r: u64)
    ensures
        r == bits ^ float_sign_bit(),
{
    bits ^ 0x8000_0000_0000_0000u64
}


/// The mathematical model of a value: strings become their text.
pub enum ValueV {
    Nil,
    Bool(bool),
    Int(i64),
    Float(u64),
    Str(Seq<char>),
    Closure(usize),
}

impl View for Value {
    type V = ValueV;

    open spec fn view(&self) -> ValueV {
        match self {
            Value::Nil => ValueV::Nil,
            Value::Bool(b) => ValueV::Bool(*b),
            Value::Int(i) => ValueV::Int(*i),
            Value::Float(f) => ValueV::Float(*f),
            Value::String(s) => ValueV::Str(s@),
            Value::Closure(c) => ValueV::Closure(*c),
        }
    }
}

impl ValueV {
    /// The name of the value's type, as error messages give it.
    pub open spec fn kind_name(self) -> Seq<char> {
        match self {
            ValueV::Nil => "nil"@,
            ValueV::Bool(_) => "bool"@,
            ValueV::Int(_) => "int"@,
            ValueV::Float(_) => "float"@,
            ValueV::Str(_) => "string"@,
            ValueV::Closure(_) => "closure"@,
        }
    }
}

/// The models of a sequence of values.
pub open spec fn values_view(s: Seq<Value>) -> Seq<ValueV> {
    s.map_values(|v: Value| v@)
}

impl Value {
    /// Two values are the same: equal fields, strings compared by their text.
    pub open spec fn same_as(self, other: Value) -> bool {
        self@ == other@
    }

    /// The name of the value's type, as error messages give it.
    pub open spec fn spec_type_name(self) -> Seq<char> {
        self@.kind_name()
    }

    /// A copy of the value.
    pub fn copy(&self) -> (r: Value)
        ensures
            r == *self,
    {
        match self {
            Value::Nil => Value::Nil,
            Value::Bool(b) => Value::Bool(*b),
            Value::Int(i) => Value::Int(*i),
            Value::Float(f) => Value::Float(*f),
            Value::String(s) => Value::String(s.clone()),
            Value::Closure(c) => Value::Closure(*c),
        }
    }

    /// Whether two values are the same (see `same_as`).
    pub fn same(&self, other: &Value) -> (r: bool)
        ensures
            r == self.same_as(*other),
    {
        match (self, other) {
            (Value::Nil, Value::Nil) => true,
            (Value::Bool(a), Value::Bool(b)) => *a == *b,
            (Value::Int(a), Value::Int(b)) => *a == *b,
            (Value::Float(a), Value::Float(b)) => *a == *b,
            (Value::String(a), Value::String(b)) => a.eq(b),
            (Value::Closure(a), Value::Closure(b)) => *a == *b,
            _ => false,
        }
    }

    /// The name of the value's type.
    pub fn value_type(&self) -> (r: &'static str)
        ensures
            r@ == self.spec_type_name(),
    {
        match self {
            Value::Nil => "nil",
            Value::Bool(_) => "bool",
            Value::Int(_) => "int",
            Value::Float(_) => "float",
            Value::String(_) => "string",
            Value::Closure(_) => "closure",
        }
    }
}

/// A value is false when it is `nil` or the boolean `false`.
pub open spec fn spec_is_false(x: Value) -> bool {
    x is Nil || x == Value::Bool(false)
}

/// Whether a value counts as false in a condition: `nil` and `false` do,
/// every other value does not.
pub fn is_false(x: Value) -> (r: bool)
    ensures
        r == spec_is_false(x),
{
    match x {
        Value::Nil => true,
        Value::Bool(b) => !b,
        _ => false,
    }
}

/// A compiled function: its name, arity, kind, byte code and constants.
pub struct FunctionCore {
    pub name: String,
    pub arity: usize,
    pub ty: FunctionType,
    pub code: Vec<u8>,
    pub constants: Vec<Value>,
}

impl FunctionCore {
    /// A function with no code yet.
    pub fn new(name: String, arity: usize, ty: FunctionType) -> (r: FunctionCore)
        ensures
            r.name == name,
            r.arity == arity,
            r.ty == ty,
            r.code@ == Seq::<u8>::empty(),
            r.constants@ == Seq::<Value>::empty(),
    {
        FunctionCore { name, arity, ty, code: Vec::new(), constants: Vec::new() }
    }
}

} // verus!
