//! The arithmetic of the language: what each operator gives for each pair of
//! operands, and its computation without overflow.

use vstd::prelude::*;

use crate::opcode::MathOp;
use crate::text::{concat2, owned};
use crate::value::{float_at_most_zero, spec_float_at_most_zero, FloatOps, Value, ValueV};

verus! {

/// What an operation gives: a value, some float (the embedding program
/// computes floats), or an error with its message.
pub enum Outcome {
    Exact(ValueV),
    SomeFloat,
    Fails(Seq<char>),
}

/// The result of an operation is the one that the outcome describes.
pub open spec fn outcome_holds(o: Outcome, r: Result<Value, String>) -> bool {
    match o {
        Outcome::Exact(v) => r is Ok && r->Ok_0@ == v,
        Outcome::SomeFloat => r matches Ok(Value::Float(_)),
        Outcome::Fails(m) => r is Err && r->Err_0@ == m,
    }
}

/// `b` to the power `e`.
pub open spec fn pow(b: int, e: nat) -> int
    decreases e,
{
    if e == 0 {
        1
    } else {
        b * pow(b, (e - 1) as nat)
    }
}

pub open spec fn fits_i64(n: int) -> bool {
    i64::MIN <= n <= i64::MAX
}

/// An integer result, or the overflow error.
pub open spec fn int_outcome(n: int) -> Outcome {
    if fits_i64(n) {
        Outcome::Exact(ValueV::Int(n as i64))
    } else {
        Outcome::Fails("integer overflow"@)
    }
}

/// Division that rounds toward zero, for a positive divisor.
pub open spec fn trunc_div(x: int, y: int) -> int {
    if x >= 0 {
        x / y
    } else {
        -((-x) / y)
    }
}

/// The remainder of `trunc_div`: it has the sign of the dividend.
pub open spec fn trunc_rem(x: int, y: int) -> int {
    if x >= 0 {
        x % y
    } else {
        -((-x) % y)
    }
}

/// `n` copies of a text, one after another.
pub open spec fn repeat_text(s: Seq<char>, n: nat) -> Seq<char>
    decreases n,
{
    if n == 0 {
        Seq::empty()
    } else {
        repeat_text(s, (n - 1) as nat) + s
    }
}

/// The symbol of an operator in error messages, with `=` after it for a
/// compound assignment.
pub open spec fn op_symbol(op: MathOp, assign: bool) -> Seq<char> {
    let s = match op {
        MathOp::Add => "+"@,
        MathOp::Subtract => "-"@,
        MathOp::Multiply => "*"@,
        MathOp::Divide => "/"@,
        MathOp::Modulo => if assign {
            "%"@
        } else {
            "/"@
        },
        MathOp::Power => "**"@,
        MathOp::Invalid => "?"@,
    };
    if assign {
        s + "="@
    } else {
        s
    }
}

/// The error for operands that the operator does not take.
pub open spec fn invalid_operands(op: MathOp, assign: bool, a: ValueV, b: ValueV) -> Outcome {
    Outcome::Fails(
        op_symbol(op, assign) + ": invalid operands "@ + a.kind_name() + " and "@ + b.kind_name(),
    )
}

/// What `a op b` gives. `assign` selects the compound assignment (`+=` and
/// the others), which differs for `%` (a remainder, where the plain operator
/// divides) and `**` (the compound form raises `a` to `a` to the `b`).
pub open spec fn spec_math(op: MathOp, assign: bool, a: ValueV, b: ValueV) -> Outcome {
    match op {
        MathOp::Add => match (a, b) {
            (ValueV::Int(x), ValueV::Int(y)) => int_outcome(x + y),
            (ValueV::Float(_), ValueV::Float(_)) => Outcome::SomeFloat,
            (ValueV::Str(x), ValueV::Str(y)) => Outcome::Exact(ValueV::Str(x + y)),
            _ => invalid_operands(op, assign, a, b),
        },
        MathOp::Subtract => match (a, b) {
            (ValueV::Int(x), ValueV::Int(y)) => int_outcome(x - y),
            (ValueV::Float(_), ValueV::Float(_)) => Outcome::SomeFloat,
            _ => invalid_operands(op, assign, a, b),
        },
        MathOp::Multiply => match (a, b) {
            (ValueV::Int(x), ValueV::Int(y)) => int_outcome(x * y),
            (ValueV::Float(_), ValueV::Float(_)) => Outcome::SomeFloat,
            (ValueV::Str(x), ValueV::Int(y)) => if y < 0 {
                Outcome::Fails(op_symbol(op, assign) + ": negative repeat count"@)
            } else {
                Outcome::Exact(ValueV::Str(repeat_text(x, y as nat)))
            },
            _ => invalid_operands(op, assign, a, b),
        },
        MathOp::Divide => match (a, b) {
            (ValueV::Int(x), ValueV::Int(y)) => if y <= 0 {
                Outcome::Fails("division by zero"@)
            } else {
                int_outcome(trunc_div(x as int, y as int))
            },
            (ValueV::Float(_), ValueV::Float(y)) => if spec_float_at_most_zero(y) {
                Outcome::Fails("division by zero"@)
            } else {
                Outcome::SomeFloat
            },
            _ => invalid_operands(op, assign, a, b),
        },
        MathOp::Modulo => match (a, b) {
            (ValueV::Int(x), ValueV::Int(y)) => if y <= 0 {
                Outcome::Fails("modulo by zero"@)
            } else if assign {
                int_outcome(trunc_rem(x as int, y as int))
            } else {
                int_outcome(trunc_div(x as int, y as int))
            },
            _ => invalid_operands(op, assign, a, b),
        },
        MathOp::Power => match (a, b) {
            (ValueV::Int(x), ValueV::Int(y)) => if !assign {
                int_outcome(pow(x as int, (y as u32) as nat))
            } else {
                let inner = pow(x as int, (y as u32) as nat);
                if fits_i64(inner) {
                    int_outcome(pow(x as int, ((inner as i64) as u32) as nat))
                } else {
                    Outcome::Fails("integer overflow"@)
                }
            },
            (ValueV::Float(_), ValueV::Float(_)) => Outcome::SomeFloat,
            _ => invalid_operands(op, assign, a, b),
        },
        MathOp::Invalid => Outcome::Fails("invalid math operator"@),
    }
}

proof fn lemma_pow_zero_one(x: int, e: nat)
    ensures
        x == 0 ==> pow(x, e) == (if e == 0 {
            1int
        } else {
            0int
        }),
        x == 1 ==> pow(x, e) == 1,
        x == -1 ==> pow(x, e) == (if e % 2 == 0 {
            1int
        } else {
            -1int
        }),
    decreases e,
{
    if e > 0 {
        lemma_pow_zero_one(x, (e - 1) as nat);
    }
}

proof fn lemma_pow_grows(x: int, k: nat, j: nat)
    requires
        x >= 2 || x <= -2,
        k < j,
    ensures
        abs(pow(x, j)) >= 2 * abs(pow(x, k)),
    decreases j - k,
{
    let p = pow(x, (j - 1) as nat);
    assert(pow(x, j) == x * p);
    assert(abs(x * p) >= 2 * abs(p)) by (nonlinear_arith)
        requires
            x >= 2 || x <= -2,
    ;
    if k + 1 < j {
        lemma_pow_grows(x, k, (j - 1) as nat);
    }
}

pub open spec fn abs(n: int) -> int {
    if n < 0 {
        -n
    } else {
        n
    }
}

/// `x` to the `e`, or `None` when it does not fit in an `i64`.
pub fn checked_pow(x: i64, e: u32) -> (r: Option<i64>)
    ensures
        r matches Some(v) ==> v as int == pow(x as int, e as nat),
        r is None ==> !fits_i64(pow(x as int, e as nat)),
{
    proof {
        lemma_pow_zero_one(x as int, e as nat);
    }
    if x == 0 {
        return if e == 0 {
            Some(1)
        } else {
            Some(0)
        };
    }
    if x == 1 {
        return Some(1);
    }
    if x == -1 {
        return if e % 2 == 0 {
            Some(1)
        } else {
            Some(-1)
        };
    }
    let mut acc: i64 = 1;
    let mut i: u32 = 0;
    while i < e
        invariant
            i <= e,
            x >= 2 || x <= -2,
            acc as int == pow(x as int, i as nat),
        decreases e - i,
    {
        assert(pow(x as int, (i + 1) as nat) == x * pow(x as int, i as nat));
        match acc.checked_mul(x) {
            Some(v) => {
                proof {
                    assert(acc * x == x * acc) by (nonlinear_arith);
                }
                acc = v;
            },
            None => {
                proof {
                    assert(acc * x == pow(x as int, (i + 1) as nat)) by (nonlinear_arith)
                        requires
                            acc as int == pow(x as int, i as nat),
                            pow(x as int, (i + 1) as nat) == x * pow(x as int, i as nat),
                    ;
                    if i + 1 < e {
                        lemma_pow_grows(x as int, (i + 1) as nat, e as nat);
                    }
                }
                return None;
            },
        }
        i = i + 1;
    }
    Some(acc)
}

/// `n` copies of a text.
pub fn repeat_string(s: &String, n: i64) -> (r: String)
    requires
        n >= 0,
    ensures
        r@ == repeat_text(s@, n as nat),
{
    let mut out = String::new();
    let mut i: i64 = 0;
    while i < n
        invariant
            0 <= i <= n,
            out@ == repeat_text(s@, i as nat),
        decreases n - i,
    {
        out.append(s.as_str());
        i = i + 1;
    }
    out
}

/// The symbol of an operator in error messages.
pub fn op_symbol_text(op: MathOp, assign: bool) -> (r: String)
    ensures
        r@ == op_symbol(op, assign),
{
    let s = match op {
        MathOp::Add => "+",
        MathOp::Subtract => "-",
        MathOp::Multiply => "*",
        MathOp::Divide => "/",
        MathOp::Modulo => if assign {
            "%"
        } else {
            "/"
        },
        MathOp::Power => "**",
        MathOp::Invalid => "?",
    };
    if assign {
        concat2(s, "=")
    } else {
        owned(s)
    }
}

/// The error for operands that the operator does not take.
fn invalid_operands_text(op: MathOp, assign: bool, a: &Value, b: &Value) -> (r: String)
    ensures
        Outcome::Fails(r@) == invalid_operands(op, assign, a@, b@),
{
    let mut s = op_symbol_text(op, assign);
    s.append(": invalid operands ");
    s.append(a.value_type());
    s.append(" and ");
    s.append(b.value_type());
    s
}

fn int_result(n: Option<i64>) -> (r: Result<Value, String>)
    ensures
        n matches Some(v) ==> r == Ok::<Value, String>(Value::Int(v)),
        n is None ==> r is Err && r->Err_0@ == "integer overflow"@,
{
    match n {
        Some(v) => Ok(Value::Int(v)),
        None => Err(owned("integer overflow")),
    }
}

/// Integer arithmetic does what its operators mean: `+` and `*` give the
/// sum and the product and `-` the number that added to the right operand
/// gives the left one, or an overflow error exactly when that number does
/// not fit in 64 bits; `+` and `*` do not depend on the order of the
/// operands; `/` by a positive divisor gives the quotient rounded toward
/// zero (what is left over is smaller than the divisor and has the sign of
/// the dividend).
pub proof fn lemma_int_arith(x: i64, y: i64)
    ensures
        spec_math(MathOp::Add, false, ValueV::Int(x), ValueV::Int(y)) matches Outcome::Exact(v) ==> (
        v matches ValueV::Int(n) && n == x + y),
        !fits_i64(x + y) ==> spec_math(MathOp::Add, false, ValueV::Int(x), ValueV::Int(y)) is Fails,
        spec_math(MathOp::Subtract, false, ValueV::Int(x), ValueV::Int(y)) matches Outcome::Exact(v) ==> (
        v matches ValueV::Int(n) && n + y == x),
        !fits_i64(x - y) ==> spec_math(MathOp::Subtract, false, ValueV::Int(x), ValueV::Int(y)) is Fails,
        spec_math(MathOp::Multiply, false, ValueV::Int(x), ValueV::Int(y)) matches Outcome::Exact(v) ==> (
        v matches ValueV::Int(n) && n == x * y),
        !fits_i64(x * y) ==> spec_math(MathOp::Multiply, false, ValueV::Int(x), ValueV::Int(y)) is Fails,
        spec_math(MathOp::Add, false, ValueV::Int(x), ValueV::Int(y)) == spec_math(
            MathOp::Add,
            false,
            ValueV::Int(y),
            ValueV::Int(x),
        ),
        spec_math(MathOp::Multiply, false, ValueV::Int(x), ValueV::Int(y)) == spec_math(
            MathOp::Multiply,
            false,
            ValueV::Int(y),
            ValueV::Int(x),
        ),
        y > 0 ==> (spec_math(MathOp::Divide, false, ValueV::Int(x), ValueV::Int(y)) matches Outcome::Exact(
            v,
        ) && v matches ValueV::Int(q) && (x >= 0 ==> 0 <= x - q * y < y) && (x < 0 ==> -y < x - q
            * y <= 0)),
        y == 0 ==> spec_math(MathOp::Divide, false, ValueV::Int(x), ValueV::Int(y)) is Fails,
{
    assert(x * y == y * x) by (nonlinear_arith);
    if y > 0 {
        let xi = x as int;
        let yi = y as int;
        if xi >= 0 {
            let q = xi / yi;
            assert(0 <= xi - q * yi < yi) by (nonlinear_arith)
                requires
                    yi > 0,
                    xi >= 0,
                    q == xi / yi,
            ;
            assert(0 <= q <= xi) by (nonlinear_arith)
                requires
                    yi > 0,
                    xi >= 0,
                    q == xi / yi,
            ;
            assert(trunc_div(xi, yi) == q);
            assert(fits_i64(q));
        } else {
            let q = (-xi) / yi;
            assert(0 <= (-xi) - q * yi < yi) by (nonlinear_arith)
                requires
                    yi > 0,
                    xi < 0,
                    q == (-xi) / yi,
            ;
            assert(0 <= q <= -xi) by (nonlinear_arith)
                requires
                    yi > 0,
                    xi < 0,
                    q == (-xi) / yi,
            ;
            assert(trunc_div(xi, yi) == -q);
            assert(fits_i64(-q));
            assert(xi - (-q) * yi == -((-xi) - q * yi)) by (nonlinear_arith);
        }
    }
}

/// String `+` joins the two texts, the left one first.
pub proof fn lemma_string_join(x: Seq<char>, y: Seq<char>)
    ensures
        spec_math(MathOp::Add, false, ValueV::Str(x), ValueV::Str(y)) matches Outcome::Exact(v) && (
        v matches ValueV::Str(t) && t.len() == x.len() + y.len() && t.subrange(0, x.len() as int) == x
            && t.subrange(x.len() as int, t.len() as int) == y),
{
    let t = x + y;
    assert(t.subrange(0, x.len() as int) =~= x);
    assert(t.subrange(x.len() as int, t.len() as int) =~= y);
}

/// `a op b`, as `spec_math` describes it; floats go to the embedding
/// program's arithmetic.
pub fn apply_math<F: FloatOps>(op: MathOp, assign: bool, a: &Value, b: &Value, fl: &F) -> (r:
    Result<Value, String>)
    ensures
        outcome_holds(spec_math(op, assign, a@, b@), r),
{
    match op {
        MathOp::Add => match (a, b) {
            (Value::Int(x), Value::Int(y)) => int_result(x.checked_add(*y)),
            (Value::Float(x), Value::Float(y)) => Ok(Value::Float(fl.math(op, *x, *y))),
            (Value::String(x), Value::String(y)) => {
                let mut s = x.clone();
                s.append(y.as_str());
                Ok(Value::String(s))
            },
            _ => Err(invalid_operands_text(op, assign, a, b)),
        },
        MathOp::Subtract => match (a, b) {
            (Value::Int(x), Value::Int(y)) => int_result(x.checked_sub(*y)),
            (Value::Float(x), Value::Float(y)) => Ok(Value::Float(fl.math(op, *x, *y))),
            _ => Err(invalid_operands_text(op, assign, a, b)),
        },
        MathOp::Multiply => match (a, b) {
            (Value::Int(x), Value::Int(y)) => int_result(x.checked_mul(*y)),
            (Value::Float(x), Value::Float(y)) => Ok(Value::Float(fl.math(op, *x, *y))),
            (Value::String(x), Value::Int(y)) => {
                if *y < 0 {
                    let mut s = op_symbol_text(op, assign);
                    s.append(": negative repeat count");
                    Err(s)
                } else {
                    Ok(Value::String(repeat_string(x, *y)))
                }
            },
            _ => Err(invalid_operands_text(op, assign, a, b)),
        },
        MathOp::Divide => match (a, b) {
            (Value::Int(x), Value::Int(y)) => {
                if *y <= 0 {
                    Err(owned("division by zero"))
                } else {
                    Ok(Value::Int(*x / *y))
                }
            },
            (Value::Float(x), Value::Float(y)) => {
                if float_at_most_zero(*y) {
                    Err(owned("division by zero"))
                } else {
                    Ok(Value::Float(fl.math(op, *x, *y)))
                }
            },
            _ => Err(invalid_operands_text(op, assign, a, b)),
        },
        MathOp::Modulo => match (a, b) {
            (Value::Int(x), Value::Int(y)) => {
                if *y <= 0 {
                    Err(owned("modulo by zero"))
                } else if assign {
                    Ok(Value::Int(*x % *y))
                } else {
                    Ok(Value::Int(*x / *y))
                }
            },
            _ => Err(invalid_operands_text(op, assign, a, b)),
        },
        MathOp::Power => match (a, b) {
            (Value::Int(x), Value::Int(y)) => {
                if !assign {
                    int_result(checked_pow(*x, *y as u32))
                } else {
                    match checked_pow(*x, *y as u32) {
                        Some(inner) => int_result(checked_pow(*x, inner as u32)),
                        None => Err(owned("integer overflow")),
                    }
                }
            },
            (Value::Float(x), Value::Float(y)) => Ok(Value::Float(fl.math(op, *x, *y))),
            _ => Err(invalid_operands_text(op, assign, a, b)),
        },
        MathOp::Invalid => Err(owned("invalid math operator")),
    }
}

} // verus!
