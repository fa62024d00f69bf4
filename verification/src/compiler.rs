//! The compiler's tables: modules and their variables, and the function
//! compilers that hold the locals, upvalues, code and constants of the
//! functions being compiled.

use vstd::prelude::*;

use crate::opcode::{MathOp, OpCode};
use crate::text::{concat2, concat3, owned, spec_decimal, usize_text};
use crate::value::{FunctionType, Value};

verus! {

pub const MAX_MODULES: usize = 65536;

pub const MAX_LOCALS: usize = 256;

pub const MAX_UPVALUES: usize = 256;

pub const MAX_CONSTANTS: usize = 65536;

pub const MAX_VARIABLES: usize = 65536;

pub const MAX_FIELDS: usize = 256;

pub const MAX_METHODS: usize = 65536;

/// What a name stands for.
#[derive(Debug, Clone, Copy, PartialEq, Eq, Structural)]
pub enum VarType {
    Unknown,
    Var,
    Function,
    Class,
    Const,
}

/// Where a variable lives: in a module, in the frame of a function, in an
/// enclosing function (an upvalue), or in a class.
#[derive(Debug, Clone, Copy, PartialEq, Eq, Structural)]
pub enum ScopeType {
    Module,
    Local,
    Upvalue,
    Class,
}

/// Whether a module variable can be seen from other modules.
#[derive(Debug, Clone, Copy, PartialEq, Eq, Structural)]
pub enum AccessType {
    Public,
    Private,
}

/// Why a name could not be declared or resolved.
#[derive(Debug, Clone, Copy, PartialEq, Eq, Structural)]
pub enum VarErrorType {
    Undefined,
    AlreadyExists,
    TooMany,
    SelfInit,
    IsFunction,
    Other,
}

/// A variable of a module.
#[derive(Debug)]
pub struct VarEntry {
    pub name: String,
    pub var_type: VarType,
    pub scope_type: ScopeType,
    pub access_type: AccessType,
    pub var_index: usize,
}

impl VarEntry {
    pub fn new(
        name: String,
        var_type: VarType,
        scope_type: ScopeType,
        access_type: AccessType,
        var_index: usize,
    ) -> (r: VarEntry)
        ensures
            r == (VarEntry { name, var_type, scope_type, access_type, var_index }),
    {
        VarEntry { name, var_type, scope_type, access_type, var_index }
    }

    pub fn get_name(&self) -> (r: String)
        ensures
            r == self.name,
    {
        self.name.clone()
    }

    pub fn get_var_type(&self) -> (r: VarType)
        ensures
            r == self.var_type,
    {
        self.var_type
    }

    pub fn get_scope_type(&self) -> (r: ScopeType)
        ensures
            r == self.scope_type,
    {
        self.scope_type
    }

    pub fn get_access_type(&self) -> (r: AccessType)
        ensures
            r == self.access_type,
    {
        self.access_type
    }

    pub fn get_index(&self) -> (r: usize)
        ensures
            r == self.var_index,
    {
        self.var_index
    }

    /// A copy of the entry.
    pub fn duplicate(&self) -> (r: VarEntry)
        ensures
            r == *self,
    {
        VarEntry {
            name: self.name.clone(),
            var_type: self.var_type,
            scope_type: self.scope_type,
            access_type: self.access_type,
            var_index: self.var_index,
        }
    }
}

/// A module: its name, its index, its parent and its variables.
pub struct Module {
    pub mod_name: String,
    pub mod_index: usize,
    pub mod_parent: Option<usize>,
    pub mod_vars: Vec<VarEntry>,
}

impl Module {
    /// The variables are numbered by their position and no two share a
    /// name.
    pub open spec fn wf(&self) -> bool {
        &&& forall|j: int|
            0 <= j < self.mod_vars@.len() ==> (#[trigger] self.mod_vars@[j]).var_index == j
        &&& forall|j: int, k: int|
            0 <= j < k < self.mod_vars@.len() ==> (#[trigger] self.mod_vars@[j]).name@
                != (#[trigger] self.mod_vars@[k]).name@
    }

    /// The position of the variable with a given name, if there is one.
    pub open spec fn find_var(&self, name: Seq<char>) -> Option<int> {
        if exists|j: int| 0 <= j < self.mod_vars@.len() && (#[trigger] self.mod_vars@[j]).name@ == name {
            Some(choose|j: int| 0 <= j < self.mod_vars@.len() && (#[trigger] self.mod_vars@[j]).name@ == name)
        } else {
            None
        }
    }

    pub fn new(name: String, index: usize, parent: Option<usize>) -> (r: Module)
        ensures
            r.mod_name == name,
            r.mod_index == index,
            r.mod_parent == parent,
            r.mod_vars@.len() == 0,
            r.wf(),
    {
        Module { mod_name: name, mod_index: index, mod_parent: parent, mod_vars: Vec::new() }
    }

    pub fn name(&self) -> (r: String)
        ensures
            r == self.mod_name,
    {
        self.mod_name.clone()
    }

    pub fn index(&self) -> (r: usize)
        ensures
            r == self.mod_index,
    {
        self.mod_index
    }

    pub fn parent(&self) -> (r: Option<usize>)
        ensures
            r == self.mod_parent,
    {
        self.mod_parent
    }

    /// The position of the variable named `name`.
    pub fn lookup(&self, name: &String) -> (r: Option<usize>)
        requires
            self.wf(),
        ensures
            r is None ==> self.find_var(name@) is None,
            r matches Some(j) ==> self.find_var(name@) == Some(j as int) && j < self.mod_vars@.len()
                && self.mod_vars@[j as int].name@ == name@,
    {
        let mut j: usize = 0;
        while j < self.mod_vars.len()
            invariant
                self.wf(),
                j <= self.mod_vars@.len(),
                forall|k: int| 0 <= k < j ==> (#[trigger] self.mod_vars@[k]).name@ != name@,
            decreases self.mod_vars@.len() - j,
        {
            if self.mod_vars[j].name.eq(name) {
                proof {
                    let c = choose|k: int| 0 <= k < self.mod_vars@.len() && (#[trigger] self.mod_vars@[k]).name@ == name@;
                    if c != j {
                        if c < j {
                            assert(self.mod_vars@[c].name@ != name@);
                        } else {
                            assert(self.mod_vars@[j as int].name@ != self.mod_vars@[c].name@);
                        }
                    }
                }
                return Some(j);
            }
            j = j + 1;
        }
        None
    }

    /// Adds a variable at the end; its name must be new.
    pub fn add_var(&mut self, var: VarEntry)
        requires
            old(self).wf(),
            var.var_index == old(self).mod_vars@.len(),
            old(self).find_var(var.name@) is None,
        ensures
            final(self).wf(),
            final(self).mod_vars@ == old(self).mod_vars@.push(var),
            final(self).mod_name == old(self).mod_name,
            final(self).mod_index == old(self).mod_index,
            final(self).mod_parent == old(self).mod_parent,
    {
        self.mod_vars.push(var);
        proof {
            assert forall|j: int, k: int|
                0 <= j < k < self.mod_vars@.len() implies (#[trigger] self.mod_vars@[j]).name@
                != (#[trigger] self.mod_vars@[k]).name@ by {
                if k == self.mod_vars@.len() - 1 {
                    assert(old(self).mod_vars@[j] == self.mod_vars@[j]);
                }
            }
        }
    }

    /// A copy of the variable named `name`, if there is one.
    pub fn get_var(&self, name: &String) -> (r: Option<VarEntry>)
        requires
            self.wf(),
        ensures
            r is None ==> self.find_var(name@) is None,
            r matches Some(v) ==> self.find_var(name@) matches Some(j) && v == self.mod_vars@[j],
    {
        match self.lookup(name) {
            Some(j) => Some(self.mod_vars[j].duplicate()),
            None => None,
        }
    }
}

/// A local variable of a function being compiled.
pub struct Local {
    pub name: String,
    pub scope: usize,
    pub upvalue: bool,
    pub defined: bool,
}

impl Local {
    /// A local that is declared but not yet initialized.
    pub fn new(name: String, scope: usize, upvalue: bool) -> (r: Local)
        ensures
            r == (Local { name, scope, upvalue, defined: false }),
    {
        Local { name, scope, upvalue, defined: false }
    }
}

/// A variable of an enclosing function that a closure uses: a local of the
/// function just outside (`local`) or one of its upvalues, by index.
pub struct Upvalue {
    pub local: bool,
    pub index: usize,
}

impl Upvalue {
    pub fn new(local: bool, index: usize) -> (r: Upvalue)
        ensures
            r == (Upvalue { local, index }),
    {
        Upvalue { local, index }
    }
}

/// What resolving a name found.
pub struct VarInfo {
    pub name: String,
    pub arity: Option<usize>,
    pub var_type: VarType,
    pub scope_type: ScopeType,
    pub scope: usize,
    pub index: usize,
    pub upvalue_local_index: usize,
}

impl VarInfo {
    pub fn new(
        name: String,
        arity: Option<usize>,
        var_type: VarType,
        scope_type: ScopeType,
        scope: usize,
        index: usize,
        upvalue_local_index: usize,
    ) -> (r: VarInfo)
        ensures
            r == (VarInfo {
                name,
                arity,
                var_type,
                scope_type,
                scope,
                index,
                upvalue_local_index,
            }),
    {
        VarInfo { name, arity, var_type, scope_type, scope, index, upvalue_local_index }
    }

    pub fn get_name(&self) -> (r: String)
        ensures
            r == self.name,
    {
        self.name.clone()
    }

    pub fn get_arity(&self) -> (r: Option<usize>)
        ensures
            r == self.arity,
    {
        self.arity
    }

    pub fn get_var_type(&self) -> (r: VarType)
        ensures
            r == self.var_type,
    {
        self.var_type
    }

    pub fn get_scope_depth(&self) -> (r: usize)
        ensures
            r == self.scope,
    {
        self.scope
    }

    pub fn get_index(&self) -> (r: usize)
        ensures
            r == self.index,
    {
        self.index
    }

    /// A copy of the record.
    pub fn duplicate(&self) -> (r: VarInfo)
        ensures
            r == *self,
    {
        VarInfo {
            name: self.name.clone(),
            arity: self.arity,
            var_type: self.var_type,
            scope_type: self.scope_type,
            scope: self.scope,
            index: self.index,
            upvalue_local_index: self.upvalue_local_index,
        }
    }
}

/// Why a name could not be declared or resolved, and the name.
pub struct VarError {
    pub name: String,
    pub error_type: VarErrorType,
}

impl VarError {
    pub fn new(name: String, error_type: VarErrorType) -> (r: VarError)
        ensures
            r == (VarError { name, error_type }),
    {
        VarError { name, error_type }
    }

    pub fn get_name(&self) -> (r: String)
        ensures
            r == self.name,
    {
        self.name.clone()
    }

    pub fn get_error_type(&self) -> (r: VarErrorType)
        ensures
            r == self.error_type,
    {
        self.error_type
    }
}

/// The high byte of a word operand.
pub open spec fn word_high(word: usize) -> u8 {
    ((word / 256) % 256) as u8
}

/// The low byte of a word operand.
pub open spec fn word_low(word: usize) -> u8 {
    (word % 256) as u8
}

/// A word below `0x10000` is its high byte times 256 plus its low byte.
pub proof fn lemma_word_roundtrip(w: usize)
    requires
        w < 65536,
    ensures
        word_high(w) as int * 256 + word_low(w) as int == w,
{
}

/// The operand of an instruction that `emit_word_op` appended is read back
/// by the machine, which takes the two bytes after the opcode, high byte
/// first, as the word.
pub proof fn lemma_emitted_word_decodes(code: Seq<u8>, op: u8, w: usize)
    requires
        w < 65536,
    ensures
        ({
            let c = code.push(op).push(word_high(w)).push(word_low(w));
            &&& c[code.len() as int] == op
            &&& c[code.len() + 1int] as int * 256 + c[code.len() + 2int] as int == w
        }),
{
}

/// The compiler of one function: its name, kind, scope depth and arity,
/// its locals and upvalues, the code and constants emitted so far, the
/// functions it declares, and its entry in the function table.
pub struct FunCompiler {
    pub name: String,
    pub ty: FunctionType,
    pub scope: usize,
    pub arity: usize,
    pub locals: Vec<Local>,
    pub upvalues: Vec<Upvalue>,
    pub code: Vec<u8>,
    pub constant_arr: Vec<Value>,
    pub local_fun_symtab: Vec<VarInfo>,
    pub closure: Option<usize>,
}

impl FunCompiler {
    /// The compiler of the top-level code.
    pub fn new_main() -> (r: FunCompiler)
        ensures
            r.name@ == "<main>"@,
            r.ty == FunctionType::TopLevel,
            r.arity == 0,
            r.scope == 0,
            r.locals@.len() == 1,
            r.locals@[0].name@ == Seq::<char>::empty(),
            r.code@.len() == 0,
            r.constant_arr@.len() == 0,
            r.upvalues@.len() == 0,
            r.closure is None,
    {
        Self::function_setup("<main>", 0, 0, FunctionType::TopLevel)
    }

    /// The compiler of a named function.
    pub fn new_named_closure(name: &str, arity: usize, scope: usize) -> (r: FunCompiler)
        ensures
            r.name@ == name@,
            r.ty == FunctionType::NamedClosure,
            r.arity == arity,
            r.scope == scope,
            r.locals@.len() == 1,
            r.code@.len() == 0,
            r.constant_arr@.len() == 0,
            r.upvalues@.len() == 0,
            r.closure is None,
    {
        Self::function_setup(name, arity, scope, FunctionType::NamedClosure)
    }

    /// The compiler of an anonymous function.
    pub fn new_anon_closure(arity: usize, scope: usize) -> (r: FunCompiler)
        ensures
            r.name@ == ""@,
            r.ty == FunctionType::AnonClosure,
            r.arity == arity,
            r.scope == scope,
            r.locals@.len() == 1,
            r.code@.len() == 0,
            r.constant_arr@.len() == 0,
            r.upvalues@.len() == 0,
            r.closure is None,
    {
        Self::function_setup("", arity, scope, FunctionType::AnonClosure)
    }

    /// A function compiler with no code yet; its first local is the slot of
    /// the called value, named `this` for constructors and methods.
    pub fn function_setup(name: &str, arity: usize, scope: usize, ty: FunctionType) -> (r:
        FunCompiler)
        ensures
            r.name@ == name@,
            r.ty == ty,
            r.arity == arity,
            r.scope == scope,
            r.locals@.len() == 1,
            r.locals@[0].scope == scope,
            !r.locals@[0].upvalue,
            r.locals@[0].name@ == (if ty == FunctionType::Constructor || ty == FunctionType::Method {
                "this"@
            } else {
                Seq::<char>::empty()
            }),
            r.upvalues@.len() == 0,
            r.code@.len() == 0,
            r.constant_arr@.len() == 0,
            r.local_fun_symtab@.len() == 0,
            r.closure is None,
    {
        let mut s = FunCompiler {
            name: owned(name),
            ty,
            scope,
            arity,
            locals: Vec::new(),
            upvalues: Vec::new(),
            code: Vec::new(),
            constant_arr: Vec::new(),
            local_fun_symtab: Vec::new(),
            closure: None,
        };
        if ty == FunctionType::Constructor || ty == FunctionType::Method {
            s.locals.push(Local::new(owned("this"), scope, false));
        } else {
            s.locals.push(Local::new(String::new(), scope, false));
        }
        s
    }

    pub fn get_scope_depth(&self) -> (r: usize)
        ensures
            r == self.scope,
    {
        self.scope
    }

    /// Enters a block.
    pub fn begin_scope(&mut self)
        requires
            old(self).scope < usize::MAX,
        ensures
            *final(self) == (FunCompiler { scope: (old(self).scope + 1) as usize, ..*old(self) }),
    {
        self.scope = self.scope + 1;
    }

    /// Leaves a block; the depth never goes below zero.
    pub fn end_scope(&mut self)
        ensures
            *final(self) == (FunCompiler {
                scope: if old(self).scope > 0 {
                    (old(self).scope - 1) as usize
                } else {
                    0
                },
                ..*old(self)
            }),
    {
        if self.scope > 0 {
            self.scope = self.scope - 1;
        }
    }

    /// The index of a constant in the constant table, added at the end when
    /// no constant there is the same.
    pub fn get_constant(&mut self, val: &Value) -> (r: usize)
        ensures
            (exists|j: int|
                0 <= j < old(self).constant_arr@.len() && (#[trigger] old(self).constant_arr@[j])@
                    == val@) ==> final(self).constant_arr@ == old(self).constant_arr@,
            (forall|j: int|
                0 <= j < old(self).constant_arr@.len() ==> (#[trigger] old(self).constant_arr@[j])@
                    != val@) ==> final(self).constant_arr@ == old(self).constant_arr@.push(*val)
                && r == old(self).constant_arr@.len(),
            r < final(self).constant_arr@.len(),
            final(self).constant_arr@[r as int]@ == val@,
            forall|k: int| 0 <= k < r ==> (#[trigger] final(self).constant_arr@[k])@ != val@,
            *final(self) == (FunCompiler { constant_arr: final(self).constant_arr, ..*old(self) }),
    {
        let mut j: usize = 0;
        while j < self.constant_arr.len()
            invariant
                j <= self.constant_arr@.len(),
                self.constant_arr == old(self).constant_arr,
                forall|k: int| 0 <= k < j ==> (#[trigger] self.constant_arr@[k])@ != val@,
            decreases self.constant_arr@.len() - j,
        {
            if self.constant_arr[j].same(val) {
                return j;
            }
            j = j + 1;
        }
        self.constant_arr.push(val.copy());
        j
    }

    /// Appends an instruction without operands.
    pub fn emit_op(&mut self, opcode: OpCode)
        ensures
            final(self).code@ == old(self).code@.push(opcode.spec_to_byte()),
            *final(self) == (FunCompiler { code: final(self).code, ..*old(self) }),
    {
        self.code.push(u8::from(opcode));
    }

    /// Appends an instruction with one operand byte.
    pub fn emit_byte_op(&mut self, opcode: OpCode, byte: u8)
        ensures
            final(self).code@ == old(self).code@.push(opcode.spec_to_byte()).push(byte),
            *final(self) == (FunCompiler { code: final(self).code, ..*old(self) }),
    {
        self.code.push(u8::from(opcode));
        self.code.push(byte);
    }

    /// Appends an instruction with a two-byte operand, high byte first; a
    /// word above `0xffff` keeps only its low two bytes.
    pub fn emit_word_op(&mut self, opcode: OpCode, word: usize)
        ensures
            final(self).code@ == old(self).code@.push(opcode.spec_to_byte()).push(
                word_high(word),
            ).push(word_low(word)),
            *final(self) == (FunCompiler { code: final(self).code, ..*old(self) }),
    {
        self.code.push(u8::from(opcode));
        self.code.push(((word / 256) % 256) as u8);
        self.code.push((word % 256) as u8);
    }

    /// Appends an instruction with a three-byte operand, high byte first.
    pub fn emit_three_byte_op(&mut self, opcode: OpCode, three_byte: u32)
        ensures
            final(self).code@ == old(self).code@.push(opcode.spec_to_byte()).push(
                ((three_byte / 65536) % 256) as u8,
            ).push(((three_byte / 256) % 256) as u8).push((three_byte % 256) as u8),
            *final(self) == (FunCompiler { code: final(self).code, ..*old(self) }),
    {
        self.code.push(u8::from(opcode));
        self.code.push(((three_byte / 65536) % 256) as u8);
        self.code.push(((three_byte / 256) % 256) as u8);
        self.code.push((three_byte % 256) as u8);
    }

    /// Appends an arithmetic instruction for `op`.
    pub fn emit_math_op(&mut self, op: MathOp)
        ensures
            final(self).code@ == old(self).code@.push(OpCode::MathOp.spec_to_byte()).push(
                op.spec_to_byte(),
            ),
            *final(self) == (FunCompiler { code: final(self).code, ..*old(self) }),
    {
        self.code.push(u8::from(OpCode::MathOp));
        self.code.push(u8::from(op));
    }
}


/// The position of the last local named `name` among the first `n`.
pub open spec fn last_local(locals: Seq<Local>, name: Seq<char>, n: int) -> Option<int>
    decreases n,
{
    if n <= 0 {
        None
    } else if locals[n - 1].name@ == name {
        Some(n - 1)
    } else {
        last_local(locals, name, n - 1)
    }
}

/// The name under which a local is declared: with `(#arity)` after it when
/// an arity is given.
pub open spec fn local_name(name: Seq<char>, arity: Option<usize>) -> Seq<char> {
    match arity {
        Some(a) => name + "(#"@ + spec_decimal(a as nat) + ")"@,
        None => name,
    }
}

/// Some local declared in the current scope, at a position from `n` on, has
/// the name `name` (the locals of the current scope are the last ones).
pub open spec fn clash_in_scope(locals: Seq<Local>, scope: usize, name: Seq<char>) -> bool {
    exists|i: int|
        0 <= i < locals.len() && (forall|k: int| i <= k < locals.len() ==> (#[trigger] locals[k]).scope
            >= scope) && (#[trigger] locals[i]).name@ == name
}

/// What `last_local` finds: the last local among the first `n` with the
/// name, or none when no such local has it.
pub proof fn lemma_last_local_some(locals: Seq<Local>, name: Seq<char>, n: int)
    requires
        0 <= n <= locals.len(),
    ensures
        last_local(locals, name, n) matches Some(i) ==> 0 <= i < n && locals[i].name@ == name
            && forall|k: int| i < k < n ==> (#[trigger] locals[k]).name@ != name,
        last_local(locals, name, n) is None ==> forall|k: int|
            0 <= k < n ==> (#[trigger] locals[k]).name@ != name,
    decreases n,
{
    if n > 0 {
        lemma_last_local_some(locals, name, n - 1);
    }
}

impl FunCompiler {
    /// The local named `name`, searched from the innermost: the error
    /// `SelfInit` when it is not yet initialized and `do_print_err` is set,
    /// `Undefined` when there is none.
    pub fn resolve_local_internal(&self, name: &String, arity: Option<usize>, do_print_err: bool) -> (r:
        Result<VarInfo, VarError>)
        ensures
            match last_local(self.locals@, name@, self.locals@.len() as int) {
                Some(i) => if !self.locals@[i].defined && do_print_err {
                    r matches Err(e) && e.error_type == VarErrorType::SelfInit && e.name@
                        == self.locals@[i].name@
                } else {
                    r matches Ok(v) && v == (VarInfo {
                        name: v.name,
                        arity,
                        var_type: VarType::Var,
                        scope_type: ScopeType::Local,
                        scope: self.locals@[i].scope,
                        index: i as usize,
                        upvalue_local_index: 0,
                    }) && v.name@ == name@
                },
                None => r matches Err(e) && e.error_type == VarErrorType::Undefined && e.name@
                    == name@,
            },
    {
        let mut i = self.locals.len();
        while i > 0
            invariant
                i <= self.locals@.len(),
                last_local(self.locals@, name@, self.locals@.len() as int) == last_local(
                    self.locals@,
                    name@,
                    i as int,
                ),
            decreases i,
        {
            if self.locals[i - 1].name.eq(name) {
                if !self.locals[i - 1].defined && do_print_err {
                    return Err(VarError::new(self.locals[i - 1].name.clone(), VarErrorType::SelfInit));
                } else {
                    return Ok(
                        VarInfo::new(
                            self.locals[i - 1].name.clone(),
                            arity,
                            VarType::Var,
                            ScopeType::Local,
                            self.locals[i - 1].scope,
                            i - 1,
                            0,
                        ),
                    );
                }
            }
            i = i - 1;
        }
        Err(VarError::new(name.clone(), VarErrorType::Undefined))
    }

    /// Records that the local at `index` is initialized.
    pub fn define_local(&mut self, index: usize)
        requires
            index < old(self).locals@.len(),
        ensures
            final(self).locals@ == old(self).locals@.update(
                index as int,
                Local { defined: true, ..old(self).locals@[index as int] },
            ),
            final(self).code == old(self).code,
            final(self).constant_arr == old(self).constant_arr,
            final(self).upvalues == old(self).upvalues,
            final(self).closure == old(self).closure,
            final(self).scope == old(self).scope,
            final(self).ty == old(self).ty,
    {
        let l = &self.locals[index];
        let nl = Local { name: l.name.clone(), scope: l.scope, upvalue: l.upvalue, defined: true };
        self.locals.set(index, nl);
    }

    /// Records that the local at `index` is used by an inner function.
    pub fn capture_local(&mut self, index: usize)
        requires
            index < old(self).locals@.len(),
        ensures
            final(self).locals@ == old(self).locals@.update(
                index as int,
                Local { upvalue: true, ..old(self).locals@[index as int] },
            ),
            final(self).code == old(self).code,
            final(self).constant_arr == old(self).constant_arr,
            final(self).upvalues == old(self).upvalues,
            final(self).closure == old(self).closure,
            final(self).scope == old(self).scope,
            final(self).ty == old(self).ty,
    {
        let l = &self.locals[index];
        let nl = Local { name: l.name.clone(), scope: l.scope, upvalue: true, defined: l.defined };
        self.locals.set(index, nl);
    }

    /// The upvalue for the local (`is_local`) or upvalue `index` of the
    /// enclosing function: the one already recorded, else a new one, unless
    /// there are `MAX_UPVALUES` already.
    pub fn add_upvalue(&mut self, name: &String, arity: Option<usize>, index: usize, is_local: bool) -> (r:
        Result<VarInfo, VarError>)
        ensures
            final(self).code == old(self).code,
            final(self).constant_arr == old(self).constant_arr,
            final(self).locals == old(self).locals,
            final(self).closure == old(self).closure,
            final(self).scope == old(self).scope,
            final(self).ty == old(self).ty,
            match r {
                Ok(v) => {
                    &&& v.scope_type == ScopeType::Upvalue
                    &&& v.name@ == name@
                    &&& v.arity == arity
                    &&& v.upvalue_local_index == index
                    &&& v.index < final(self).upvalues@.len()
                    &&& final(self).upvalues@[v.index as int] == (Upvalue { local: is_local, index })
                    &&& (final(self).upvalues@ == old(self).upvalues@ || final(self).upvalues@
                        == old(self).upvalues@.push(Upvalue { local: is_local, index }))
                },
                Err(e) => e.error_type == VarErrorType::TooMany && e.name@ == name@
                    && old(self).upvalues@.len() >= MAX_UPVALUES && final(self).upvalues
                    == old(self).upvalues,
            },
    {
        let mut i: usize = 0;
        while i < self.upvalues.len()
            invariant
                *self == *old(self),
                i <= self.upvalues@.len(),
            decreases self.upvalues@.len() - i,
        {
            if self.upvalues[i].index == index && self.upvalues[i].local == is_local {
                return Ok(
                    VarInfo::new(
                        name.clone(),
                        arity,
                        VarType::Var,
                        ScopeType::Upvalue,
                        self.scope,
                        i,
                        index,
                    ),
                );
            }
            i = i + 1;
        }
        if self.upvalues.len() >= MAX_UPVALUES {
            return Err(VarError::new(name.clone(), VarErrorType::TooMany));
        }
        self.upvalues.push(Upvalue::new(is_local, index));
        Ok(
            VarInfo::new(
                name.clone(),
                arity,
                VarType::Var,
                ScopeType::Upvalue,
                self.scope,
                self.upvalues.len() - 1,
                index,
            ),
        )
    }

    /// Adds a local, unless there are `MAX_LOCALS` already.
    pub fn push_local(&mut self, name: String, scope: usize, upvalue: bool) -> (r: bool)
        ensures
            r == (old(self).locals@.len() < MAX_LOCALS),
            r ==> final(self).locals@ == old(self).locals@.push(Local::new_spec(name, scope, upvalue)),
            !r ==> final(self).locals == old(self).locals,
            final(self).code == old(self).code,
            final(self).constant_arr == old(self).constant_arr,
            final(self).upvalues == old(self).upvalues,
            final(self).closure == old(self).closure,
            final(self).scope == old(self).scope,
            final(self).ty == old(self).ty,
    {
        if self.locals.len() >= MAX_LOCALS {
            return false;
        }
        self.locals.push(Local::new(name, scope, upvalue));
        true
    }

    /// The name under which a local is declared.
    pub fn local_name(name: &String, arity: Option<usize>) -> (r: String)
        ensures
            r@ == local_name(name@, arity),
    {
        match arity {
            Some(a) => {
                let mut s = name.clone();
                s.append("(#");
                let d = usize_text(a);
                s.append(d.as_str());
                s.append(")");
                s
            },
            None => name.clone(),
        }
    }

    /// Declares a local in the current scope (not yet initialized): the
    /// error `AlreadyExists` when a local of the current scope has its name,
    /// `TooMany` when there are `MAX_LOCALS` locals.
    pub fn declare_local(&mut self, name: &String, arity: Option<usize>) -> (r: Result<
        VarInfo,
        VarError,
    >)
        ensures
            final(self).code == old(self).code,
            final(self).constant_arr == old(self).constant_arr,
            final(self).upvalues == old(self).upvalues,
            final(self).closure == old(self).closure,
            final(self).scope == old(self).scope,
            final(self).ty == old(self).ty,
            clash_in_scope(old(self).locals@, old(self).scope, local_name(name@, arity)) ==> (r matches Err(e)
                && e.error_type == VarErrorType::AlreadyExists && e.name@ == local_name(
                name@,
                arity,
            ) && final(self).locals == old(self).locals),
            !clash_in_scope(old(self).locals@, old(self).scope, local_name(name@, arity)) ==> {
                if old(self).locals@.len() >= MAX_LOCALS {
                    r matches Err(e) && e.error_type == VarErrorType::TooMany
                        && final(self).locals == old(self).locals
                } else {
                    r matches Ok(v) && final(self).locals@ == old(self).locals@.push(
                        Local::new_spec(v.name, old(self).scope, false),
                    ) && v.name@ == local_name(name@, arity) && v.scope_type == ScopeType::Local
                        && v.index == old(self).locals@.len() && v.arity == arity && v.scope
                        == old(self).scope
                }
            },
    {
        let actual_name = Self::local_name(name, arity);
        let mut i = self.locals.len();
        while i > 0 && self.locals[i - 1].scope >= self.scope
            invariant
                *self == *old(self),
                actual_name@ == local_name(name@, arity),
                i <= self.locals@.len(),
                forall|k: int| i <= k < self.locals@.len() ==> (#[trigger] self.locals@[k]).scope
                    >= self.scope,
                forall|k: int| i <= k < self.locals@.len() ==> (#[trigger] self.locals@[k]).name@
                    != actual_name@,
            decreases i,
        {
            if self.locals[i - 1].name.eq(&actual_name) {
                proof {
                    assert(clash_in_scope(self.locals@, self.scope, actual_name@)) by {
                        assert(self.locals@[i - 1].name@ == actual_name@);
                    }
                }
                return Err(VarError::new(actual_name, VarErrorType::AlreadyExists));
            }
            i = i - 1;
        }
        proof {
            if clash_in_scope(self.locals@, self.scope, actual_name@) {
                let j = choose|j: int|
                    0 <= j < self.locals@.len() && (forall|k: int|
                        j <= k < self.locals@.len() ==> (#[trigger] self.locals@[k]).scope
                            >= self.scope) && (#[trigger] self.locals@[j]).name@ == actual_name@;
                if j < i {
                    assert(self.locals@[i - 1].scope >= self.scope);
                }
            }
        }
        let scope = self.scope;
        let pushed = self.push_local(actual_name.clone(), scope, false);
        if !pushed {
            return Err(VarError::new(actual_name, VarErrorType::TooMany));
        }
        Ok(
            VarInfo::new(
                actual_name,
                arity,
                VarType::Var,
                ScopeType::Local,
                scope,
                self.locals.len() - 1,
                0,
            ),
        )
    }

    /// Declares a function local to this one under `name(#arity)`: its
    /// closure goes into the constant table, and the error `AlreadyExists`
    /// comes when a local function of that name exists.
    pub fn declare_local_function(&mut self, name: &String, arity: usize) -> (r: Result<
        VarInfo,
        VarError,
    >)
        requires
            old(self).closure is Some,
        ensures
            final(self).code == old(self).code,
            final(self).locals == old(self).locals,
            final(self).closure == old(self).closure,
            match r {
                Ok(v) => {
                    &&& v.name@ == local_name(name@, Some(arity))
                    &&& v.arity == Some(arity)
                    &&& v.index < final(self).constant_arr@.len()
                    &&& final(self).constant_arr@[v.index as int]@ == crate::value::ValueV::Closure(
                        old(self).closure->0,
                    )
                    &&& final(self).local_fun_symtab@.len() == old(self).local_fun_symtab@.len() + 1
                },
                Err(e) => e.error_type == VarErrorType::AlreadyExists && e.name@ == local_name(
                    name@,
                    Some(arity),
                ) && exists|k: int|
                    0 <= k < old(self).local_fun_symtab@.len()
                        && (#[trigger] old(self).local_fun_symtab@[k]).name@ == local_name(
                        name@,
                        Some(arity),
                    ),
            },
    {
        let fun_name = Self::local_name(name, Some(arity));
        let mut i: usize = 0;
        while i < self.local_fun_symtab.len()
            invariant
                *self == *old(self),
                fun_name@ == local_name(name@, Some(arity)),
                i <= self.local_fun_symtab@.len(),
            decreases self.local_fun_symtab@.len() - i,
        {
            if self.local_fun_symtab[i].name.eq(&fun_name) {
                assert(self.local_fun_symtab@[i as int].name@ == local_name(name@, Some(arity)));
                return Err(VarError::new(fun_name, VarErrorType::AlreadyExists));
            }
            i = i + 1;
        }
        let c = match self.closure {
            Some(c) => c,
            None => 0,
        };
        let constant = self.get_constant(&Value::Closure(c));
        let scope = self.scope;
        let fun = VarInfo::new(
            fun_name,
            Some(arity),
            VarType::Var,
            ScopeType::Local,
            scope,
            constant,
            0,
        );
        self.local_fun_symtab.push(fun.duplicate());
        Ok(fun)
    }
}

impl Local {
    pub open spec fn new_spec(name: String, scope: usize, upvalue: bool) -> Local {
        Local { name, scope, upvalue, defined: false }
    }
}

} // verus!
