//! The compiler: from the syntax tree to byte code in the function table of
//! the virtual machine, with module variables, locals and upvalues resolved.

use vstd::prelude::*;

use crate::ast::{binop_text, Ast, BinaryOp, UnaryOp};
use crate::compiler::{
    clash_in_scope, last_local, lemma_last_local_some, local_name, MAX_LOCALS, AccessType, FunCompiler, Local, Module, ScopeType, Upvalue, VarEntry, VarError, VarErrorType, VarInfo,
    VarType, MAX_MODULES, MAX_VARIABLES, word_high, word_low,
};
use crate::opcode::{math_text, MathOp, OpCode, lemma_opcode_decode_encode};
use crate::text::{concat2, concat3, owned, spec_decimal, usize_text};
use crate::value::{FunctionCore, FunctionType, Value, ValueV};
use crate::vm::VM;

verus! {

/// How deeply functions may nest.
pub const MAX_NESTING: usize = 1024;

/// The name of the global module.
pub open spec fn global_name() -> Seq<char> {
    "."@
}

/// The modules, the module being compiled into, and the stack of function
/// compilers (the innermost function last).
pub struct SymbolTables {
    pub mods: Vec<Module>,
    pub curr_mod: usize,
    pub calls: Vec<FunCompiler>,
}

/// The compiler: its tables, whether it compiles to native code (which it
/// does not support), and its error state and messages.
pub struct Compiler {
    pub symbols: SymbolTables,
    pub compile_flag: bool,
    pub error_count: u8,
    pub in_panic_mode: bool,
    pub in_panic_lock_mode: bool,
    pub errors: Vec<String>,
}

/// Every function compiler has an entry in the function table and a scope
/// depth of at most `MAX_NESTING`.
pub open spec fn calls_ok(calls: Seq<FunCompiler>, n_functions: nat) -> bool {
    forall|k: int|
        0 <= k < calls.len() ==> {
            &&& (#[trigger] calls[k]).closure is Some
            &&& calls[k].closure->0 < n_functions
            &&& calls[k].scope <= MAX_NESTING
        }
}

/// The names of the modules are pairwise different.
pub open spec fn mod_names_distinct(mods: Seq<Module>) -> bool {
    forall|i: int, j: int|
        0 <= i < j < mods.len() ==> (#[trigger] mods[i]).mod_name@ != (#[trigger] mods[j]).mod_name@
}

impl SymbolTables {
    pub fn new() -> (r: SymbolTables)
        ensures
            r.mods@.len() == 0,
            r.calls@.len() == 0,
            r.curr_mod == 0,
    {
        SymbolTables { mods: Vec::new(), curr_mod: 0, calls: Vec::new() }
    }

    /// The position of the module named `name`.
    pub fn find_mod(&self, name: &String) -> (r: Option<usize>)
        ensures
            r matches Some(i) ==> i < self.mods@.len() && self.mods@[i as int].mod_name@ == name@,
            r is None ==> forall|i: int|
                0 <= i < self.mods@.len() ==> (#[trigger] self.mods@[i]).mod_name@ != name@,
    {
        let mut i: usize = 0;
        while i < self.mods.len()
            invariant
                i <= self.mods@.len(),
                forall|k: int| 0 <= k < i ==> (#[trigger] self.mods@[k]).mod_name@ != name@,
            decreases self.mods@.len() - i,
        {
            if self.mods[i].mod_name.eq(name) {
                return Some(i);
            }
            i = i + 1;
        }
        None
    }

    /// The module named `name`, or the error that it does not exist.
    pub fn get_mod(&self, name: &String) -> (r: Result<&Module, String>)
        ensures
            r matches Ok(m) ==> exists|i: int|
                0 <= i < self.mods@.len() && self.mods@[i] == *m && m.mod_name@ == name@,
            r is Err ==> (forall|i: int|
                0 <= i < self.mods@.len() ==> (#[trigger] self.mods@[i]).mod_name@ != name@)
                && r->Err_0@ == "Module '"@ + name@ + "' doesn't exist"@,
    {
        match self.find_mod(name) {
            Some(i) => Ok(&self.mods[i]),
            None => {
                let mut s = owned("Module '");
                s.append(name.as_str());
                s.append("' doesn't exist");
                Err(s)
            },
        }
    }
}

impl Compiler {
    /// The tables are consistent with the machine: there is a current
    /// module, module names are distinct, each module numbers its
    /// variables by position and the machine has a slot for each, and
    /// every function compiler has an entry in the function table.
    pub open spec fn wf(&self, vm: &VM) -> bool {
        &&& self.symbols.curr_mod < self.symbols.mods@.len()
        &&& mod_names_distinct(self.symbols.mods@)
        &&& forall|i: int|
            0 <= i < self.symbols.mods@.len() ==> {
                &&& (#[trigger] self.symbols.mods@[i]).wf()
                &&& self.symbols.mods@[i].mod_vars@.len() <= vm.vars@.len()
                &&& self.symbols.mods@[i].mod_vars@.len() <= MAX_VARIABLES
            }
        &&& calls_ok(self.symbols.calls@, vm.functions@.len())
        &&& vm.wf()
    }

    /// A compiler whose current module is the global module `.`, which has
    /// no variables.
    pub fn new(compile: bool) -> (r: Compiler)
        ensures
            r.compile_flag == compile,
            r.error_count == 0,
            !r.in_panic_mode,
            !r.in_panic_lock_mode,
            r.errors@.len() == 0,
            r.symbols.calls@.len() == 0,
            r.symbols.mods@.len() == 1,
            r.symbols.curr_mod == 0,
            r.symbols.mods@[0].mod_name@ == global_name(),
            r.symbols.mods@[0].mod_vars@.len() == 0,
            forall|vm: VM| vm.wf() ==> r.wf(&vm),
    {
        let mut symbols = SymbolTables::new();
        symbols.mods.push(Module::new(owned("."), 0, None));
        Compiler {
            symbols,
            compile_flag: compile,
            error_count: 0,
            in_panic_mode: false,
            in_panic_lock_mode: false,
            errors: Vec::new(),
        }
    }

    /// Records a compile error: its message, `error: ` first, is kept; the
    /// count goes up (to at most 255); from 20 errors on, an error that does
    /// not continue a run of errors sets the lock mode.
    pub fn error(&mut self, err_message: &str)
        ensures
            final(self).symbols == old(self).symbols,
            final(self).compile_flag == old(self).compile_flag,
            final(self).errors@ == old(self).errors@.push(final(self).errors@.last()),
            final(self).errors@.last()@ == "error: "@ + err_message@,
            final(self).error_count == if old(self).error_count < 255 {
                (old(self).error_count + 1) as u8
            } else {
                255u8
            },
            final(self).in_panic_mode,
            final(self).in_panic_lock_mode == (old(self).in_panic_lock_mode || (
            final(self).error_count >= 20 && !old(self).in_panic_mode)),
    {
        self.errors.push(concat2("error: ", err_message));
        if self.error_count < 255 {
            self.error_count = self.error_count + 1;
        }
        if self.error_count >= 20 {
            if !self.in_panic_mode {
                self.in_panic_lock_mode = true;
            }
        }
        self.in_panic_mode = true;
    }

    /// Declares a module: the global module `.` when there is none yet;
    /// refused when its parent is the global module or its name is taken.
    /// The new module becomes the current one.
    pub fn declare_mod(&mut self, name: &String, parent: Option<usize>, vm: &VM) -> (r: Result<
        (),
        String,
    >)
        requires
            old(self).symbols.curr_mod < old(self).symbols.mods@.len() || old(
                self,
            ).symbols.mods@.len() == 0,
            old(self).symbols.mods@.len() > 0 ==> old(self).wf(vm),
        ensures
            final(self).symbols.calls == old(self).symbols.calls,
            old(self).symbols.mods@.len() > 0 ==> final(self).wf(vm),
            r is Ok ==> final(self).symbols.mods@ == old(self).symbols.mods@.push(
                final(self).symbols.mods@.last(),
            ) && final(self).symbols.mods@.last().mod_name@ == name@
                && final(self).symbols.mods@.last().mod_vars@.len() == 0
                && final(self).symbols.curr_mod == old(self).symbols.mods@.len(),
            r is Err ==> final(self).symbols == old(self).symbols,
            parent matches Some(p) && p < old(self).symbols.mods@.len() && old(
                self,
            ).symbols.mods@[p as int].mod_name@ == global_name() ==> r is Err && r->Err_0@
                == "global module cannot be a parent of any other module"@,
    {
        if let Some(p) = parent {
            if p < self.symbols.mods.len() && self.symbols.mods[p].mod_name.eq(&owned(".")) {
                return Err(owned("global module cannot be a parent of any other module"));
            }
        }
        if self.symbols.mods.len() >= MAX_MODULES {
            return Err(owned("too many modules"));
        }
        match self.symbols.find_mod(name) {
            Some(_) => {
                let mut s = owned("module '");
                s.append(name.as_str());
                s.append("' already exists");
                Err(s)
            },
            None => {
                let index = self.symbols.mods.len();
                let ghost old_mods = self.symbols.mods@;
                self.symbols.mods.push(Module::new(name.clone(), index, parent));
                self.symbols.curr_mod = index;
                proof {
                    assert forall|i: int, j: int|
                        0 <= i < j < self.symbols.mods@.len() implies (#[trigger] self.symbols.mods@[i]).mod_name@
                        != (#[trigger] self.symbols.mods@[j]).mod_name@ by {
                        if j == index {
                            assert(old_mods[i] == self.symbols.mods@[i]);
                        }
                    }
                    assert forall|i: int| 0 <= i < self.symbols.mods@.len() implies {
                        &&& (#[trigger] self.symbols.mods@[i]).wf()
                        &&& self.symbols.mods@[i].mod_vars@.len() <= vm.vars@.len()
                    } by {
                        if i < index {
                            assert(old_mods[i] == self.symbols.mods@[i]);
                        }
                    }
                }
                Ok(())
            },
        }
    }

    /// Makes the module named `name` the current one.
    pub fn set_curr_mod(&mut self, name: &String) -> (r: Result<(), String>)
        ensures
            final(self).symbols.mods == old(self).symbols.mods,
            final(self).symbols.calls == old(self).symbols.calls,
            r is Ok ==> final(self).symbols.curr_mod < final(self).symbols.mods@.len()
                && final(self).symbols.mods@[final(self).symbols.curr_mod as int].mod_name@
                == name@,
            r is Err ==> final(self).symbols == old(self).symbols && (forall|i: int|
                0 <= i < old(self).symbols.mods@.len() ==> (#[trigger] old(
                    self,
                ).symbols.mods@[i]).mod_name@ != name@) && r->Err_0@
                == "cannot set current module to one which is invalid"@,
    {
        match self.symbols.find_mod(name) {
            Some(i) => {
                self.symbols.curr_mod = i;
                Ok(())
            },
            None => Err(owned("cannot set current module to one which is invalid")),
        }
    }

    /// The current module.
    pub fn get_curr_mod(&self) -> (r: &Module)
        requires
            self.symbols.curr_mod < self.symbols.mods@.len(),
        ensures
            *r == self.symbols.mods@[self.symbols.curr_mod as int],
    {
        &self.symbols.mods[self.symbols.curr_mod]
    }

    /// The module named `name`.
    pub fn get_mod(&self, name: &String) -> (r: Result<&Module, String>)
        ensures
            r matches Ok(m) ==> exists|i: int|
                0 <= i < self.symbols.mods@.len() && self.symbols.mods@[i] == *m && m.mod_name@
                    == name@,
            r is Err ==> r->Err_0@ == "Module '"@ + name@ + "' doesn't exist"@,
    {
        self.symbols.get_mod(name)
    }

    /// The depth of function nesting: how many function compilers enclose
    /// the innermost one.
    pub fn get_scope_depth(&self) -> (r: usize)
        requires
            self.symbols.calls@.len() > 0,
        ensures
            r == self.symbols.calls@.len() - 1,
    {
        self.symbols.calls.len() - 1
    }

    /// Declares a variable of the current module and gives the machine a
    /// slot for it: refused when the module has one of that name. A name
    /// that starts with `_` is private.
    #[verifier::rlimit(30)]
    pub fn declare_curr_mod_var(&mut self, name: &String, vm: &mut VM) -> (r: Result<
        VarEntry,
        VarError,
    >)
        requires
            old(self).wf(old(vm)),
        ensures
            final(self).wf(final(vm)),
            final(self).symbols.calls == old(self).symbols.calls,
            final(self).symbols.curr_mod == old(self).symbols.curr_mod,
            final(self).symbols.mods@.len() == old(self).symbols.mods@.len(),
            final(self).compile_flag == old(self).compile_flag,
            final(self).error_count == old(self).error_count,
            final(self).in_panic_mode == old(self).in_panic_mode,
            final(self).in_panic_lock_mode == old(self).in_panic_lock_mode,
            final(self).errors == old(self).errors,
            final(vm).functions == old(vm).functions,
            final(vm).calls == old(vm).calls,
            final(vm).stack == old(vm).stack,
            final(vm).output == old(vm).output,
            final(vm).vars@.len() >= old(vm).vars@.len(),
            forall|i: int| 0 <= i < old(vm).vars@.len() ==> final(vm).vars@[i] == old(vm).vars@[i],
            forall|i: int|
                0 <= i < old(self).symbols.mods@.len() && i != old(self).symbols.curr_mod
                    ==> final(self).symbols.mods@[i] == old(self).symbols.mods@[i],
            ({
                let m = old(self).symbols.mods@[old(self).symbols.curr_mod as int];
                let m2 = final(self).symbols.mods@[old(self).symbols.curr_mod as int];
                match m.find_var(name@) {
                    Some(j) => r matches Err(e) && e.error_type == VarErrorType::AlreadyExists
                        && e.name@ == name@ && m2 == m,
                    None => if m.mod_vars@.len() >= MAX_VARIABLES {
                        r matches Err(e) && e.error_type == VarErrorType::TooMany && m2 == m
                    } else {
                        r matches Ok(v) && v.name@ == name@ && v.var_index == m.mod_vars@.len()
                            && v.var_type == VarType::Var && v.scope_type == ScopeType::Module
                            && v.access_type == (if name@.len() > 0 && name@[0] == '_' {
                            AccessType::Private
                        } else {
                            AccessType::Public
                        })
                            && m2.mod_vars@ == m.mod_vars@.push(v) && m2.mod_name == m.mod_name
                            && v.var_index < final(vm).vars@.len()
                    },
                }
            }),
    {
        let cm = self.symbols.curr_mod;
        let existing = self.symbols.mods[cm].lookup(name);
        if existing.is_some() {
            return Err(VarError::new(name.clone(), VarErrorType::AlreadyExists));
        }
        let n = self.symbols.mods[cm].mod_vars.len();
        if n >= MAX_VARIABLES {
            return Err(VarError::new(name.clone(), VarErrorType::TooMany));
        }
        let private = name.as_str().unicode_len() > 0 && name.as_str().get_char(0) == '_';
        let access_type = if private {
            AccessType::Private
        } else {
            AccessType::Public
        };
        let var = VarEntry::new(name.clone(), VarType::Var, ScopeType::Module, access_type, n);
        let ret = var.duplicate();
        let ghost old_mods = self.symbols.mods@;
        let mut m = self.symbols.mods.remove(cm);
        m.add_var(var);
        self.symbols.mods.insert(cm, m);
        assert(self.symbols.mods@ =~= old_mods.update(cm as int, self.symbols.mods@[cm as int]));
        if vm.vars.len() <= n {
            vm.add_var();
        }
        proof {
            assert forall|i: int, j: int|
                0 <= i < j < self.symbols.mods@.len() implies (#[trigger] self.symbols.mods@[i]).mod_name@
                != (#[trigger] self.symbols.mods@[j]).mod_name@ by {
                assert(old_mods[i].mod_name@ != old_mods[j].mod_name@);
            }
            assert forall|i: int| 0 <= i < self.symbols.mods@.len() implies {
                &&& (#[trigger] self.symbols.mods@[i]).wf()
                &&& self.symbols.mods@[i].mod_vars@.len() <= vm.vars@.len()
                &&& self.symbols.mods@[i].mod_vars@.len() <= MAX_VARIABLES
            } by {
                if i != cm {
                    assert(old_mods[i] == self.symbols.mods@[i]);
                }
            }
        }
        Ok(ret)
    }
}


/// The code `c` ends with the code `tail`.
pub open spec fn ends_with(c: Seq<u8>, tail: Seq<u8>) -> bool {
    c.len() >= tail.len() && c.subrange(c.len() - tail.len(), c.len() as int) == tail
}

/// The code `b` starts with the code `a`.
pub open spec fn extends(a: Seq<u8>, b: Seq<u8>) -> bool {
    &&& a.len() <= b.len()
    &&& forall|i: int| 0 <= i < a.len() ==> #[trigger] b[i] == a[i]
}

/// The values `a` are the first of `b`.
pub open spec fn prefix_of(a: Seq<Value>, b: Seq<Value>) -> bool {
    a.len() <= b.len() && forall|i: int| 0 <= i < a.len() ==> #[trigger] b[i] == a[i]
}

/// The names of the locals of a function compiler, in order.
pub open spec fn local_names(fc: FunCompiler) -> Seq<Seq<char>> {
    fc.locals@.map_values(|l: Local| l.name@)
}

/// Two stacks of function compilers of one height whose compilers keep
/// their functions and depths, and whose locals only grow.
pub open spec fn calls_keep(a: Seq<FunCompiler>, b: Seq<FunCompiler>) -> bool {
    &&& a.len() == b.len()
    &&& forall|k: int|
        0 <= k < a.len() ==> {
            &&& (#[trigger] b[k]).closure == a[k].closure
            &&& b[k].scope == a[k].scope
            &&& b[k].locals@.len() >= a[k].locals@.len()
            &&& extends(a[k].code@, b[k].code@)
        }
}

proof fn lemma_keep_top(a: Seq<FunCompiler>, fc: FunCompiler)
    requires
        a.len() > 0,
        fc.closure == a.last().closure,
        fc.scope == a.last().scope,
        fc.locals@.len() >= a.last().locals@.len(),
        extends(a.last().code@, fc.code@),
    ensures
        calls_keep(a, a.drop_last().push(fc)),
{
    assert forall|k: int| 0 <= k < a.len() implies {
        &&& (#[trigger] a.drop_last().push(fc)[k]).closure == a[k].closure
        &&& a.drop_last().push(fc)[k].scope == a[k].scope
        &&& a.drop_last().push(fc)[k].locals@.len() >= a[k].locals@.len()
        &&& extends(a[k].code@, a.drop_last().push(fc)[k].code@)
    } by {
        if k < a.len() - 1 {
            assert(a.drop_last().push(fc)[k] == a[k]);
        }
    }
}

/// Two stacks equal below their innermost compilers have the same code,
/// local names and constants there.
proof fn lemma_lower_code(a: Seq<FunCompiler>, b: Seq<FunCompiler>)
    requires
        a.len() == b.len(),
        a.drop_last() == b.drop_last(),
    ensures
        forall|k: int|
            0 <= k < a.len() - 1 ==> (#[trigger] b[k]).code == a[k].code && local_names(b[k])
                == local_names(a[k]) && b[k].constant_arr == a[k].constant_arr,
{
    assert forall|k: int| 0 <= k < a.len() - 1 implies (#[trigger] b[k]).code == a[k].code
        && local_names(b[k]) == local_names(a[k]) && b[k].constant_arr == a[k].constant_arr by {
        assert(a[k] == a.drop_last()[k]);
        assert(b[k] == b.drop_last()[k]);
    }
}

proof fn lemma_keep_refl(a: Seq<FunCompiler>)
    ensures
        calls_keep(a, a),
{
}

/// A function compiler that may stand on the stack.
pub open spec fn fc_ok(fc: FunCompiler, n_functions: nat) -> bool {
    &&& fc.closure is Some
    &&& fc.closure->0 < n_functions
    &&& fc.scope <= MAX_NESTING
}

proof fn lemma_calls_push(calls: Seq<FunCompiler>, fc: FunCompiler, n: nat)
    requires
        calls_ok(calls, n),
        fc_ok(fc, n),
    ensures
        calls_ok(calls.push(fc), n),
{
    assert forall|k: int| 0 <= k < calls.push(fc).len() implies {
        &&& (#[trigger] calls.push(fc)[k]).closure is Some
        &&& calls.push(fc)[k].closure->0 < n
        &&& calls.push(fc)[k].scope <= MAX_NESTING
    } by {
        if k < calls.len() {
            assert(calls.push(fc)[k] == calls[k]);
        }
    }
}

proof fn lemma_calls_drop(calls: Seq<FunCompiler>, n: nat, n2: nat)
    requires
        calls_ok(calls, n),
        calls.len() > 0,
        n <= n2,
    ensures
        calls_ok(calls.drop_last(), n2),
        calls_ok(calls, n2),
        fc_ok(calls.last(), n2),
{
    assert forall|k: int| 0 <= k < calls.drop_last().len() implies {
        &&& (#[trigger] calls.drop_last()[k]).closure is Some
        &&& calls.drop_last()[k].closure->0 < n2
        &&& calls.drop_last()[k].scope <= MAX_NESTING
    } by {
        assert(calls.drop_last()[k] == calls[k]);
    }
    assert(calls[calls.len() - 1] == calls.last());
}

impl Compiler {
    /// What a step of code generation keeps: the tables stay consistent,
    /// the module's variables stay at their positions, the stack of
    /// function compilers keeps its height and the innermost one its
    /// function, the enclosing ones keep their code, constants and local
    /// names (so does the top-level code its local names), the innermost
    /// one only adds code and constants, the function table only grows,
    /// the globals stay and only more are added, and the calls of the
    /// machine are untouched.
    pub open spec fn cg_post(self, vm: VM, c0: Compiler, vm0: VM) -> bool {
        &&& self.wf(&vm)
        &&& self.symbols.calls@.len() == c0.symbols.calls@.len()
        &&& self.symbols.calls@.last().closure == c0.symbols.calls@.last().closure
        &&& self.symbols.curr_mod == c0.symbols.curr_mod
        &&& self.symbols.mods@.len() == c0.symbols.mods@.len()
        &&& self.symbols.mods@[self.symbols.curr_mod as int].mod_vars@.len()
            >= c0.symbols.mods@[c0.symbols.curr_mod as int].mod_vars@.len()
        &&& forall|j: int|
            0 <= j < c0.symbols.mods@[c0.symbols.curr_mod as int].mod_vars@.len()
                ==> #[trigger] self.symbols.mods@[self.symbols.curr_mod as int].mod_vars@[j]
                == c0.symbols.mods@[c0.symbols.curr_mod as int].mod_vars@[j]
        &&& self.symbols.calls@.last().locals@.len() >= c0.symbols.calls@.last().locals@.len()
        &&& calls_keep(c0.symbols.calls@, self.symbols.calls@)
        &&& extends(c0.symbols.calls@.last().code@, self.symbols.calls@.last().code@)
        &&& forall|k: int|
            0 <= k < c0.symbols.calls@.len() - 1 ==> (#[trigger] self.symbols.calls@[k]).code
                == c0.symbols.calls@[k].code && local_names(self.symbols.calls@[k]) == local_names(
                c0.symbols.calls@[k],
            ) && self.symbols.calls@[k].constant_arr == c0.symbols.calls@[k].constant_arr
        &&& prefix_of(
            c0.symbols.calls@.last().constant_arr@,
            self.symbols.calls@.last().constant_arr@,
        )
        &&& c0.at_top() ==> local_names(self.symbols.calls@[0]) == local_names(c0.symbols.calls@[0])
        &&& vm.functions@.len() >= vm0.functions@.len()
        &&& forall|i: int| 0 <= i < vm0.functions@.len() ==> #[trigger] vm.functions@[i] == vm0.functions@[i]
        &&& vm.vars@.len() >= vm0.vars@.len()
        &&& forall|i: int| 0 <= i < vm0.vars@.len() ==> #[trigger] vm.vars@[i] == vm0.vars@[i]
        &&& vm.calls == vm0.calls
        &&& vm.stack == vm0.stack
        &&& vm.output == vm0.output
        &&& self.compile_flag == c0.compile_flag
        &&& self.errors@.len() >= c0.errors@.len()
    }

    /// A step of code generation that keeps what `cg_post` says and
    /// succeeds exactly when it records no error; on success it gives the
    /// function of the innermost function compiler.
    pub open spec fn cg_ok(self, vm: VM, c0: Compiler, vm0: VM, r: Option<usize>) -> bool {
        &&& self.cg_post(vm, c0, vm0)
        &&& (r is Some <==> self.errors@.len() == c0.errors@.len())
        &&& r is Some ==> r == self.symbols.calls@.last().closure
    }

    /// The compiler equals `c0` but for its innermost function compiler,
    /// which is `fc`.
    pub open spec fn top_is(self, c0: Compiler, fc: FunCompiler) -> bool {
        &&& self.symbols.mods == c0.symbols.mods
        &&& self.symbols.curr_mod == c0.symbols.curr_mod
        &&& self.symbols.calls@ == c0.symbols.calls@.drop_last().push(fc)
        &&& calls_keep(c0.symbols.calls@, self.symbols.calls@)
        &&& self.compile_flag == c0.compile_flag
        &&& self.error_count == c0.error_count
        &&& self.in_panic_mode == c0.in_panic_mode
        &&& self.in_panic_lock_mode == c0.in_panic_lock_mode
        &&& self.errors == c0.errors
    }

    /// Takes the innermost function compiler off the stack.
    fn take_last(&mut self) -> (fc: FunCompiler)
        requires
            old(self).symbols.calls@.len() > 0,
        ensures
            fc == old(self).symbols.calls@.last(),
            final(self).symbols.calls@ == old(self).symbols.calls@.drop_last(),
            final(self).symbols.mods == old(self).symbols.mods,
            final(self).symbols.curr_mod == old(self).symbols.curr_mod,
            final(self).compile_flag == old(self).compile_flag,
            final(self).error_count == old(self).error_count,
            final(self).in_panic_mode == old(self).in_panic_mode,
            final(self).in_panic_lock_mode == old(self).in_panic_lock_mode,
            final(self).errors == old(self).errors,
    {
        match self.symbols.calls.pop() {
            Some(fc) => fc,
            None => FunCompiler::new_main(),
        }
    }

    /// Puts a function compiler on top of the stack.
    fn put_last(&mut self, fc: FunCompiler)
        ensures
            final(self).symbols.calls@ == old(self).symbols.calls@.push(fc),
            final(self).symbols.mods == old(self).symbols.mods,
            final(self).symbols.curr_mod == old(self).symbols.curr_mod,
            final(self).compile_flag == old(self).compile_flag,
            final(self).error_count == old(self).error_count,
            final(self).in_panic_mode == old(self).in_panic_mode,
            final(self).in_panic_lock_mode == old(self).in_panic_lock_mode,
            final(self).errors == old(self).errors,
    {
        self.symbols.calls.push(fc);
    }

    /// Appends an instruction without operands to the innermost function.
    fn emit(&mut self, op: OpCode, vm: &VM)
        requires
            old(self).wf(vm),
            old(self).symbols.calls@.len() > 0,
        ensures
            final(self).cg_post(*vm, *old(self), *vm),
            final(self).top_is(
                *old(self),
                FunCompiler {
                    code: final(self).symbols.calls@.last().code,
                    ..old(self).symbols.calls@.last()
                },
            ),
            final(self).symbols.calls@.last().code@ == old(self).symbols.calls@.last().code@.push(
                op.spec_to_byte(),
            ),
    {
        let mut fc = self.take_last();
        fc.emit_op(op);
        proof {
            lemma_calls_drop(old(self).symbols.calls@, vm.functions@.len(), vm.functions@.len());
            lemma_calls_push(self.symbols.calls@, fc, vm.functions@.len());
            lemma_keep_top(old(self).symbols.calls@, fc);
        }
        self.put_last(fc);
    }

    /// Appends an instruction with an operand byte to the innermost function.
    fn emit_byte(&mut self, op: OpCode, b: u8, vm: &VM)
        requires
            old(self).wf(vm),
            old(self).symbols.calls@.len() > 0,
        ensures
            final(self).cg_post(*vm, *old(self), *vm),
            final(self).top_is(
                *old(self),
                FunCompiler {
                    code: final(self).symbols.calls@.last().code,
                    ..old(self).symbols.calls@.last()
                },
            ),
            final(self).symbols.calls@.last().code@ == old(self).symbols.calls@.last().code@.push(
                op.spec_to_byte(),
            ).push(b),
    {
        let mut fc = self.take_last();
        fc.emit_byte_op(op, b);
        proof {
            lemma_calls_drop(old(self).symbols.calls@, vm.functions@.len(), vm.functions@.len());
            lemma_calls_push(self.symbols.calls@, fc, vm.functions@.len());
            lemma_keep_top(old(self).symbols.calls@, fc);
        }
        self.put_last(fc);
    }

    /// Appends an instruction with an operand word to the innermost function.
    fn emit_word(&mut self, op: OpCode, w: usize, vm: &VM)
        requires
            old(self).wf(vm),
            old(self).symbols.calls@.len() > 0,
        ensures
            final(self).cg_post(*vm, *old(self), *vm),
            final(self).top_is(
                *old(self),
                FunCompiler {
                    code: final(self).symbols.calls@.last().code,
                    ..old(self).symbols.calls@.last()
                },
            ),
            final(self).symbols.calls@.last().code@ == old(self).symbols.calls@.last().code@.push(
                op.spec_to_byte(),
            ).push(word_high(w)).push(word_low(w)),
    {
        let mut fc = self.take_last();
        fc.emit_word_op(op, w);
        proof {
            lemma_calls_drop(old(self).symbols.calls@, vm.functions@.len(), vm.functions@.len());
            lemma_calls_push(self.symbols.calls@, fc, vm.functions@.len());
            lemma_keep_top(old(self).symbols.calls@, fc);
        }
        self.put_last(fc);
    }

    /// The index of a constant of the innermost function (see
    /// `FunCompiler::get_constant`).
    fn constant(&mut self, val: &Value, vm: &VM) -> (r: usize)
        requires
            old(self).wf(vm),
            old(self).symbols.calls@.len() > 0,
        ensures
            final(self).cg_post(*vm, *old(self), *vm),
            final(self).top_is(
                *old(self),
                FunCompiler {
                    constant_arr: final(self).symbols.calls@.last().constant_arr,
                    ..old(self).symbols.calls@.last()
                },
            ),
            r < final(self).symbols.calls@.last().constant_arr@.len(),
            final(self).symbols.calls@.last().constant_arr@[r as int]@ == val@,
            final(self).symbols.calls@.last().constant_arr@.len() <= old(
                self,
            ).symbols.calls@.last().constant_arr@.len() + 1,
    {
        let mut fc = self.take_last();
        let r = fc.get_constant(val);
        proof {
            lemma_calls_drop(old(self).symbols.calls@, vm.functions@.len(), vm.functions@.len());
            lemma_calls_push(self.symbols.calls@, fc, vm.functions@.len());
            lemma_keep_top(old(self).symbols.calls@, fc);
        }
        self.put_last(fc);
        r
    }

    /// Loads a constant: `LoadValue` with its index, or an error when the
    /// index does not fit in an operand word.
    fn emit_constant(&mut self, val: &Value, vm: &VM) -> (r: Option<usize>)
        requires
            old(self).wf(vm),
            old(self).symbols.calls@.len() > 0,
        ensures
            final(self).cg_post(*vm, *old(self), *vm),
            r is Some <==> final(self).errors@.len() == old(self).errors@.len(),
            r is Some ==> r == final(self).symbols.calls@.last().closure,
            r is Some ==> exists|k: usize|
                k < 65536 && k < final(self).symbols.calls@.last().constant_arr@.len()
                    && final(self).symbols.calls@.last().code@ == #[trigger] load_constant_code(
                    old(self).symbols.calls@.last().code@,
                    k,
                ) && final(self).symbols.calls@.last().constant_arr@[k as int]@ == val@,
            final(self).symbols.mods == old(self).symbols.mods,
            final(self).symbols.calls@.last().constant_arr@.len() <= old(
                self,
            ).symbols.calls@.last().constant_arr@.len() + 1,
            old(self).symbols.calls@.last().constant_arr@.len() < 65536 ==> r is Some,
            r is None ==> final(self).errors@.last()@ == "error: "@ + "too many constants in function"@,
    {
        let k = self.constant(val, vm);
        if k > 0xffff {
            self.error("too many constants in function");
            return None;
        }
        self.emit_word(OpCode::LoadValue, k, vm);
        assert(self.symbols.calls@.last().constant_arr@[k as int]@ == val@);
        assert(self.symbols.calls@.last().code@ == load_constant_code(
            old(self).symbols.calls@.last().code@,
            k,
        ));
        self.current_closure()
    }

    /// The function of the innermost function compiler.
    fn current_closure(&self) -> (r: Option<usize>)
        requires
            self.symbols.calls@.len() > 0,
        ensures
            r == self.symbols.calls@.last().closure,
    {
        self.symbols.calls[self.symbols.calls.len() - 1].closure
    }

    /// The instructions for a literal value: `Load0` to `Load10` for the
    /// integers 0 to 10, `LoadTrue`, `LoadFalse` and `LoadNil`, and
    /// `LoadValue` of a constant for other integers, floats and strings; a
    /// closure is no valid constant.
    pub fn code_gen_value(&mut self, val: &Value, vm: &VM) -> (r: Option<usize>)
        requires
            old(self).wf(vm),
            old(self).symbols.calls@.len() > 0,
        ensures
            final(self).cg_ok(*vm, *old(self), *vm, r),
            ({
                let c0 = old(self).symbols.calls@.last().code@;
                let c1 = final(self).symbols.calls@.last().code@;
                match *val {
                    Value::Int(i) => if 0 <= i <= 10 {
                        r is Some && c1 == c0.push((OpCode::Load0.spec_to_byte() + i) as u8)
                    } else {
                        r is Some ==> exists|k: usize|
                            k < 65536 && k < final(self).symbols.calls@.last().constant_arr@.len()
                                && c1 == #[trigger] load_constant_code(c0, k)
                                && final(self).symbols.calls@.last().constant_arr@[k as int]@ == val@
                    },
                    Value::Bool(b) => r is Some && c1 == c0.push(
                        if b {
                            OpCode::LoadTrue.spec_to_byte()
                        } else {
                            OpCode::LoadFalse.spec_to_byte()
                        },
                    ),
                    Value::Nil => r is Some && c1 == c0.push(OpCode::LoadNil.spec_to_byte()),
                    Value::Closure(_) => r is None && final(self).errors@.last()@
                        == "error: "@ + "value is not a valid constant"@,
                    _ => r is Some ==> exists|k: usize|
                        k < 65536 && k < final(self).symbols.calls@.last().constant_arr@.len()
                            && c1 == #[trigger] load_constant_code(c0, k)
                            && final(self).symbols.calls@.last().constant_arr@[k as int]@ == val@,
                }
            }),
            final(self).symbols.mods == old(self).symbols.mods,
            final(self).symbols.calls@.last().constant_arr@.len() <= old(
                self,
            ).symbols.calls@.last().constant_arr@.len() + 1,
            !(*val is Closure) && old(self).symbols.calls@.last().constant_arr@.len() < 65536 ==> r is Some,
            r is None && !(*val is Closure) ==> final(self).errors@.last()@ == "error: "@
                + "too many constants in function"@,
    {
        match val {
            Value::Int(i) => {
                if *i >= 0 && *i <= 10 {
                    let op = OpCode::from(u8::from(OpCode::Load0) + (*i as u8));
                    proof {
                        lemma_opcode_decode_encode((9 + *i) as u8);
                    }
                    self.emit(op, vm);
                    self.current_closure()
                } else {
                    self.emit_constant(val, vm)
                }
            },
            Value::Bool(b) => {
                if *b {
                    self.emit(OpCode::LoadTrue, vm);
                } else {
                    self.emit(OpCode::LoadFalse, vm);
                }
                self.current_closure()
            },
            Value::Nil => {
                self.emit(OpCode::LoadNil, vm);
                self.current_closure()
            },
            Value::Closure(_) => {
                self.error("value is not a valid constant");
                None
            },
            _ => self.emit_constant(val, vm),
        }
    }
}


/// Two stacks of function compilers that differ at most in the locals'
/// flags and in the upvalues.
pub open spec fn calls_frame(a: Seq<FunCompiler>, b: Seq<FunCompiler>) -> bool {
    &&& a.len() == b.len()
    &&& forall|k: int|
        0 <= k < a.len() ==> {
            &&& (#[trigger] b[k]).closure == a[k].closure
            &&& b[k].scope == a[k].scope
            &&& b[k].code == a[k].code
            &&& b[k].constant_arr == a[k].constant_arr
            &&& b[k].locals@.len() == a[k].locals@.len()
            &&& local_names(b[k]) == local_names(a[k])
        }
}

/// The message of a failed resolution of `name`.
pub open spec fn var_error_text(e: VarErrorType, name: Seq<char>, ename: Seq<char>) -> Seq<char> {
    match e {
        VarErrorType::SelfInit => "self-initialization of local variable '"@ + ename,
        VarErrorType::TooMany => "too many upvalues"@,
        _ => "variable "@ + name + " is undefined"@,
    }
}

/// The message of a failed resolution of `name`.
fn var_error_message(e: &VarError, name: &String) -> (r: String)
    ensures
        r@ == var_error_text(e.error_type, name@, e.name@),
{
    match e.error_type {
        VarErrorType::SelfInit => concat2("self-initialization of local variable '", e.name.as_str()),
        VarErrorType::TooMany => owned("too many upvalues"),
        _ => concat3("variable ", name.as_str(), " is undefined"),
    }
}

/// Upvalue `u` of the function compiler at `level` leads to the local
/// named `name` of the nearest enclosing function that has one (as the
/// stack `before` shows the locals): it is that local, now marked as
/// captured, or it is an upvalue of the function just outside, which
/// leads there in the same way.
pub open spec fn upvalue_chain(
    before: Seq<FunCompiler>,
    after: Seq<FunCompiler>,
    level: int,
    name: Seq<char>,
    u: int,
) -> bool
    decreases level,
{
    let outer = level - 1;
    let up = after[level].upvalues@[u];
    &&& 1 <= level < after.len()
    &&& 0 <= u < after[level].upvalues@.len()
    &&& match last_local(before[outer].locals@, name, before[outer].locals@.len() as int) {
        Some(i) => up == (Upvalue { local: true, index: i as usize }) && after[outer].locals@[i].upvalue,
        None => !up.local && upvalue_chain(before, after, outer, name, up.index as int),
    }
}

/// No function compiler below `level` has a local named `name`.
pub open spec fn no_outer_local(calls: Seq<FunCompiler>, level: int, name: Seq<char>) -> bool {
    forall|k: int|
        0 <= k < level ==> last_local(
            (#[trigger] calls[k]).locals@,
            name,
            calls[k].locals@.len() as int,
        ) is None
}

/// An upvalue chain reads only the compilers up to its level.
proof fn lemma_chain_frame(
    before: Seq<FunCompiler>,
    a: Seq<FunCompiler>,
    b: Seq<FunCompiler>,
    level: int,
    name: Seq<char>,
    u: int,
)
    requires
        upvalue_chain(before, a, level, name, u),
        level < b.len(),
        forall|k: int| 0 <= k <= level ==> #[trigger] b[k] == a[k],
    ensures
        upvalue_chain(before, b, level, name, u),
    decreases level,
{
    assert(b[level] == a[level]);
    assert(b[level - 1] == a[level - 1]);
    let outer = level - 1;
    if last_local(before[outer].locals@, name, before[outer].locals@.len() as int) is None {
        lemma_chain_frame(before, a, b, outer, name, a[level].upvalues@[u].index as int);
    }
}

impl Compiler {
    /// A resolved variable names a slot of the current tables.
    pub open spec fn var_ok(self, v: VarInfo) -> bool {
        match v.scope_type {
            ScopeType::Module => v.index < self.symbols.mods@[self.symbols.curr_mod as int].mod_vars@.len(),
            ScopeType::Local => v.index < self.symbols.calls@.last().locals@.len(),
            ScopeType::Upvalue => v.index < self.symbols.calls@.last().upvalues@.len(),
            _ => false,
        }
    }

    /// The variable `actual` of the function compiler at `level`, found
    /// among the locals of an enclosing function: recorded as an upvalue of
    /// each function in between.
    #[verifier::rlimit(30)]
    fn resolve_upvalue(&mut self, level: usize, actual: &String, arity: Option<usize>, vm: &VM) -> (r:
        Result<VarInfo, VarError>)
        requires
            old(self).wf(vm),
            1 <= level < old(self).symbols.calls@.len(),
        ensures
            final(self).wf(vm),
            final(self).symbols.mods == old(self).symbols.mods,
            final(self).symbols.curr_mod == old(self).symbols.curr_mod,
            calls_frame(old(self).symbols.calls@, final(self).symbols.calls@),
            final(self).compile_flag == old(self).compile_flag,
            final(self).error_count == old(self).error_count,
            final(self).in_panic_mode == old(self).in_panic_mode,
            final(self).in_panic_lock_mode == old(self).in_panic_lock_mode,
            final(self).errors == old(self).errors,
            r matches Ok(v) ==> v.scope_type == ScopeType::Upvalue && upvalue_chain(
                old(self).symbols.calls@,
                final(self).symbols.calls@,
                level as int,
                actual@,
                v.index as int,
            ),
            r matches Err(e) ==> e.error_type == VarErrorType::Undefined || e.error_type
                == VarErrorType::SelfInit || e.error_type == VarErrorType::TooMany,
            r matches Err(e) && e.error_type == VarErrorType::Undefined <==> no_outer_local(
                old(self).symbols.calls@,
                level as int,
                actual@,
            ),
        decreases level,
    {
        let outer = level - 1;
        let found = self.symbols.calls[outer].resolve_local_internal(actual, arity, true);
        let ghost c0 = self.symbols.calls@;
        proof {
            lemma_last_local_some(c0[outer as int].locals@, actual@, c0[outer as int].locals@.len() as int);
        }
        match found {
            Ok(v) => {
                assert(c0[outer as int].locals@.len() == c0[outer as int].locals.len());
                let mut fo = self.symbols.calls.remove(outer);
                fo.capture_local(v.index);
                self.symbols.calls.insert(outer, fo);
                assert(self.symbols.calls@ =~= c0.update(outer as int, self.symbols.calls@[outer as int]));
                let ghost c1 = self.symbols.calls@;
                let mut fl = self.symbols.calls.remove(level);
                let r = fl.add_upvalue(actual, arity, v.index, true);
                self.symbols.calls.insert(level, fl);
                assert(self.symbols.calls@ =~= c1.update(level as int, self.symbols.calls@[level as int]));
                proof {
                    assert forall|k: int| 0 <= k < self.symbols.calls@.len() implies {
                        &&& (#[trigger] self.symbols.calls@[k]).closure is Some
                        &&& self.symbols.calls@[k].closure->0 < vm.functions@.len()
                        &&& self.symbols.calls@[k].scope <= MAX_NESTING
                    } by {
                        assert(c0[k] == old(self).symbols.calls@[k]);
                    }
                    assert forall|k: int| 0 <= k < c0.len() implies {
                        &&& (#[trigger] self.symbols.calls@[k]).closure == c0[k].closure
                        &&& self.symbols.calls@[k].scope == c0[k].scope
                        &&& self.symbols.calls@[k].code == c0[k].code
                        &&& self.symbols.calls@[k].constant_arr == c0[k].constant_arr
                        &&& self.symbols.calls@[k].locals@.len() == c0[k].locals@.len()
                        &&& local_names(self.symbols.calls@[k]) == local_names(c0[k])
                    } by {
                        if k != level && k != outer {
                            assert(self.symbols.calls@[k] == c0[k]);
                        }
                        if k == outer {
                            assert(local_names(self.symbols.calls@[k]) =~= local_names(c0[k]));
                        }
                    }
                }
                proof {
                    if r is Ok {
                        assert(self.symbols.calls@[outer as int] == c1[outer as int]);
                    }
                }
                match r {
                    Ok(u) => Ok(u),
                    Err(e) => Err(e),
                }
            },
            Err(e) => {
                if e.error_type == VarErrorType::SelfInit {
                    return Err(e);
                }
                if outer == 0 {
                    return Err(VarError::new(actual.clone(), VarErrorType::Undefined));
                }
                let inner = self.resolve_upvalue(outer, actual, arity, vm);
                match inner {
                    Ok(v) => {
                        let ghost c1 = self.symbols.calls@;
                        let mut fl = self.symbols.calls.remove(level);
                        let r = fl.add_upvalue(actual, arity, v.index, false);
                        self.symbols.calls.insert(level, fl);
                        assert(self.symbols.calls@ =~= c1.update(level as int, self.symbols.calls@[level as int]));
                        proof {
                            assert forall|k: int| 0 <= k < self.symbols.calls@.len() implies {
                                &&& (#[trigger] self.symbols.calls@[k]).closure is Some
                                &&& self.symbols.calls@[k].closure->0 < vm.functions@.len()
                                &&& self.symbols.calls@[k].scope <= MAX_NESTING
                            } by {
                                assert(c1[k] == self.symbols.calls@[k] || k == level);
                                assert(c0[k] == old(self).symbols.calls@[k]);
                            }
                            assert forall|k: int| 0 <= k < c0.len() implies {
                                &&& (#[trigger] self.symbols.calls@[k]).closure == c0[k].closure
                                &&& self.symbols.calls@[k].scope == c0[k].scope
                                &&& self.symbols.calls@[k].code == c0[k].code
                                &&& self.symbols.calls@[k].constant_arr == c0[k].constant_arr
                                &&& self.symbols.calls@[k].locals@.len() == c0[k].locals@.len()
                                &&& local_names(self.symbols.calls@[k]) == local_names(c0[k])
                            } by {
                                assert(c1[k].closure == c0[k].closure);
                                if k != level {
                                    assert(self.symbols.calls@[k] == c1[k]);
                                }
                            }
                            if r is Ok {
                                assert forall|k: int| 0 <= k <= outer implies #[trigger] self.symbols.calls@[k]
                                    == c1[k] by {}
                                lemma_chain_frame(c0, c1, self.symbols.calls@, outer as int, actual@, v.index as int);
                            }
                        }
                        r
                    },
                    Err(e) => Err(e),
                }
            },
        }
    }
}


/// The instructions that push a variable: `LoadVar` with the index of a
/// module variable, `LoadLocal0` to `LoadLocal8` or `LoadLocal` with the
/// slot of a local, `LoadUpvalue` with the index of an upvalue.
pub open spec fn load_code(scope: ScopeType, index: usize) -> Seq<u8> {
    match scope {
        ScopeType::Module => seq![OpCode::LoadVar.spec_to_byte(), word_high(index), word_low(index)],
        ScopeType::Local => if index < 9 {
            seq![(OpCode::LoadLocal0.spec_to_byte() + index) as u8]
        } else {
            seq![OpCode::LoadLocal.spec_to_byte(), index as u8]
        },
        ScopeType::Upvalue => seq![OpCode::LoadUpvalue.spec_to_byte(), index as u8],
        ScopeType::Class => Seq::empty(),
    }
}

/// The instructions that store the value on top of the stack into a
/// variable, keeping it there.
pub open spec fn store_code(scope: ScopeType, index: usize) -> Seq<u8> {
    match scope {
        ScopeType::Module => seq![OpCode::StoreVar.spec_to_byte(), word_high(index), word_low(index)],
        ScopeType::Local => if index < 9 {
            seq![(OpCode::StoreLocal0.spec_to_byte() + index) as u8]
        } else {
            seq![OpCode::StoreLocal.spec_to_byte(), index as u8]
        },
        ScopeType::Upvalue => seq![OpCode::StoreUpvalue.spec_to_byte(), index as u8],
        ScopeType::Class => Seq::empty(),
    }
}

impl Compiler {
    /// The top-level code is being compiled: the main function compiler is
    /// the only one and is at depth zero.
    pub open spec fn at_top(self) -> bool {
        self.symbols.calls@.len() == 1 && self.symbols.calls@[0].scope == 0
    }

    /// The number of variables of the current module.
    pub open spec fn mod_var_count(self) -> nat {
        self.symbols.mods@[self.symbols.curr_mod as int].mod_vars@.len()
    }

    /// The module variable named `name` of the current module.
    pub open spec fn mod_var(self, name: Seq<char>) -> Option<int> {
        self.symbols.mods@[self.symbols.curr_mod as int].find_var(name)
    }

    /// Resolves `name` (with `(#arity)` after it when an arity is given):
    /// a local of the innermost function, else a local of an enclosing
    /// function (recorded as an upvalue), else a variable of the current
    /// module.
    pub fn resolve_var(&mut self, name: &String, arity: Option<usize>, print_err: bool, vm: &VM) -> (r:
        Result<VarInfo, VarError>)
        requires
            old(self).wf(vm),
            old(self).symbols.calls@.len() > 0,
        ensures
            final(self).wf(vm),
            final(self).symbols.mods == old(self).symbols.mods,
            final(self).symbols.curr_mod == old(self).symbols.curr_mod,
            calls_frame(old(self).symbols.calls@, final(self).symbols.calls@),
            calls_keep(old(self).symbols.calls@, final(self).symbols.calls@),
            final(self).compile_flag == old(self).compile_flag,
            final(self).error_count == old(self).error_count,
            final(self).in_panic_mode == old(self).in_panic_mode,
            final(self).in_panic_lock_mode == old(self).in_panic_lock_mode,
            final(self).errors == old(self).errors,
            r matches Ok(v) ==> final(self).var_ok(v),
            r matches Err(e) ==> e.error_type == VarErrorType::Undefined || e.error_type
                == VarErrorType::SelfInit || e.error_type == VarErrorType::TooMany,
            ({
                let locals = old(self).symbols.calls@.last().locals@;
                let actual = local_name(name@, arity);
                match last_local(locals, actual, locals.len() as int) {
                    Some(i) => if print_err && !locals[i].defined {
                        r matches Err(e) && e.error_type == VarErrorType::SelfInit
                    } else {
                        r matches Ok(v) && v.scope_type == ScopeType::Local && v.index == i
                    },
                    None => if no_outer_local(
                        old(self).symbols.calls@,
                        old(self).symbols.calls@.len() - 1,
                        actual,
                    ) {
                        match old(self).mod_var(actual) {
                            Some(j) => r matches Ok(v) && v.scope_type == ScopeType::Module
                                && v.index == j,
                            None => r matches Err(e) && e.error_type == VarErrorType::Undefined,
                        }
                    } else {
                        ||| r matches Ok(v) && v.scope_type == ScopeType::Upvalue && upvalue_chain(
                            old(self).symbols.calls@,
                            final(self).symbols.calls@,
                            old(self).symbols.calls@.len() - 1,
                            actual,
                            v.index as int,
                        )
                        ||| r matches Err(e) && (e.error_type == VarErrorType::SelfInit
                            || e.error_type == VarErrorType::TooMany)
                    },
                }
            }),
    {
        let actual = FunCompiler::local_name(name, arity);
        let top = self.symbols.calls.len() - 1;
        proof {
            lemma_keep_refl(self.symbols.calls@);
        }
        let local = self.symbols.calls[top].resolve_local_internal(&actual, arity, print_err);
        assert(self.symbols.calls@[top as int] == self.symbols.calls@.last());
        let n_locals = self.symbols.calls[top].locals.len();
        proof {
            let locals = self.symbols.calls@[top as int].locals@;
            lemma_last_local_some(locals, actual@, locals.len() as int);
        }
        match local {
            Ok(v) => {
                return Ok(v);
            },
            Err(e) => {
                if e.error_type == VarErrorType::SelfInit {
                    return Err(e);
                }
            },
        }
        if top >= 1 {
            let up = self.resolve_upvalue(top, &actual, arity, vm);
            match up {
                Ok(v) => {
                    return Ok(v);
                },
                Err(e) => {
                    if e.error_type != VarErrorType::Undefined {
                        return Err(e);
                    }
                },
            }
        }
        let cm = self.symbols.curr_mod;
        match self.symbols.mods[cm].lookup(&actual) {
            Some(j) => Ok(VarInfo::new(actual, arity, VarType::Var, ScopeType::Module, 0, j, 0)),
            None => Err(VarError::new(actual, VarErrorType::Undefined)),
        }
    }

    /// Appends the instructions that push the variable `v`.
    fn emit_var_load(&mut self, v: &VarInfo, vm: &VM)
        requires
            old(self).wf(vm),
            old(self).symbols.calls@.len() > 0,
        ensures
            final(self).top_is(
                *old(self),
                FunCompiler {
                    code: final(self).symbols.calls@.last().code,
                    ..old(self).symbols.calls@.last()
                },
            ),
            final(self).wf(vm),
            final(self).symbols.calls@.last().code@ == old(self).symbols.calls@.last().code@ + load_code(
                v.scope_type,
                v.index,
            ),
    {
        let ghost c0 = self.symbols.calls@.last().code@;
        match v.scope_type {
            ScopeType::Module => {
                self.emit_word(OpCode::LoadVar, v.index, vm);
            },
            ScopeType::Local => {
                if v.index < 9 {
                    let op = OpCode::from(u8::from(OpCode::LoadLocal0) + (v.index as u8));
                    proof {
                        lemma_opcode_decode_encode((27 + v.index) as u8);
                    }
                    self.emit(op, vm);
                } else {
                    self.emit_byte(OpCode::LoadLocal, v.index as u8, vm);
                }
            },
            ScopeType::Upvalue => {
                self.emit_byte(OpCode::LoadUpvalue, v.index as u8, vm);
            },
            ScopeType::Class => {
                assert(self.symbols.calls@ =~= old(self).symbols.calls@.drop_last().push(
                    old(self).symbols.calls@.last(),
                ));
            },
        }
        assert(self.symbols.calls@.last().code@ =~= c0 + load_code(v.scope_type, v.index));
    }
}


impl Compiler {
    /// Appends the instructions that store the top of the stack into the
    /// variable `v`.
    fn emit_var_store(&mut self, v: &VarInfo, vm: &VM)
        requires
            old(self).wf(vm),
            old(self).symbols.calls@.len() > 0,
        ensures
            final(self).top_is(
                *old(self),
                FunCompiler {
                    code: final(self).symbols.calls@.last().code,
                    ..old(self).symbols.calls@.last()
                },
            ),
            final(self).wf(vm),
            final(self).symbols.calls@.last().code@ == old(self).symbols.calls@.last().code@ + store_code(
                v.scope_type,
                v.index,
            ),
    {
        let ghost c0 = self.symbols.calls@.last().code@;
        match v.scope_type {
            ScopeType::Module => {
                self.emit_word(OpCode::StoreVar, v.index, vm);
            },
            ScopeType::Local => {
                if v.index < 9 {
                    let op = OpCode::from(u8::from(OpCode::StoreLocal0) + (v.index as u8));
                    proof {
                        lemma_opcode_decode_encode((37 + v.index) as u8);
                    }
                    self.emit(op, vm);
                } else {
                    self.emit_byte(OpCode::StoreLocal, v.index as u8, vm);
                }
            },
            ScopeType::Upvalue => {
                self.emit_byte(OpCode::StoreUpvalue, v.index as u8, vm);
            },
            ScopeType::Class => {
                assert(self.symbols.calls@ =~= old(self).symbols.calls@.drop_last().push(
                    old(self).symbols.calls@.last(),
                ));
            },
        }
        assert(self.symbols.calls@.last().code@ =~= c0 + store_code(v.scope_type, v.index));
    }

    /// The instructions that push the variable `name`: refused with a
    /// message when it cannot be resolved (see `resolve_var`).
    pub fn code_gen_var(&mut self, name: &String, arity: Option<usize>, vm: &VM) -> (r: Option<usize>)
        requires
            old(self).wf(vm),
            old(self).symbols.calls@.len() > 0,
        ensures
            final(self).cg_ok(*vm, *old(self), *vm, r),
            r is Some ==> exists|v: VarInfo|
                #[trigger] final(self).var_ok(v) && final(self).symbols.calls@.last().code@ == old(
                    self,
                ).symbols.calls@.last().code@ + load_code(v.scope_type, v.index),
            r is None ==> final(self).errors@ == old(self).errors@.push(final(self).errors@.last()),
            final(self).symbols.mods == old(self).symbols.mods,
            final(self).symbols.calls@.last().constant_arr == old(self).symbols.calls@.last().constant_arr,
            ({
                let locals = old(self).symbols.calls@.last().locals@;
                let actual = local_name(name@, arity);
                last_local(locals, actual, locals.len() as int) is None && no_outer_local(
                    old(self).symbols.calls@,
                    old(self).symbols.calls@.len() - 1,
                    actual,
                ) ==> match old(self).mod_var(actual) {
                    Some(j) => r is Some && final(self).symbols.calls@.last().code@ == old(
                        self,
                    ).symbols.calls@.last().code@ + load_code(ScopeType::Module, j as usize),
                    None => r is None && final(self).errors@.last()@ == "error: "@ + "variable "@
                        + name@ + " is undefined"@,
                }
            }),
    {
        let res = self.resolve_var(name, arity, true, vm);
        match res {
            Ok(v) => {
                self.emit_var_load(&v, vm);
                assert(self.var_ok(v));
                self.current_closure()
            },
            Err(e) => {
                let msg = var_error_message(&e, name);
                self.error(msg.as_str());
                None
            },
        }
    }
}


/// The instructions that define a variable from the value on top of the
/// stack: `DefVar` for a module variable; a local is its stack slot and
/// needs none.
pub open spec fn define_code(scope: ScopeType, index: usize) -> Seq<u8> {
    match scope {
        ScopeType::Module => seq![OpCode::DefVar.spec_to_byte(), word_high(index), word_low(index)],
        _ => Seq::empty(),
    }
}

/// The message of a refused declaration of `actual`.
pub open spec fn decl_error_text(e: VarErrorType, top: bool, actual: Seq<char>) -> Seq<char> {
    if e == VarErrorType::TooMany {
        if top {
            "too many variables"@
        } else {
            "too many locals in function"@
        }
    } else if top {
        "variable '"@ + actual + "' already exists"@
    } else {
        "local variable '"@ + actual + "' already exists"@
    }
}

fn decl_error_message(e: &VarError, top: bool) -> (r: String)
    ensures
        r@ == decl_error_text(e.error_type, top, e.name@),
{
    if e.error_type == VarErrorType::TooMany {
        if top {
            owned("too many variables")
        } else {
            owned("too many locals in function")
        }
    } else if top {
        concat3("variable '", e.name.as_str(), "' already exists")
    } else {
        concat3("local variable '", e.name.as_str(), "' already exists")
    }
}

impl Compiler {
    /// Declares `name` (with `(#arity)` after it when an arity is given):
    /// a variable of the current module at the top level, else a local of
    /// the innermost function in its current scope.
    #[verifier::rlimit(30)]
    pub fn add_var(&mut self, name: &String, arity: Option<usize>, vm: &mut VM) -> (r: Result<
        VarInfo,
        VarError,
    >)
        requires
            old(self).wf(old(vm)),
            old(self).symbols.calls@.len() > 0,
        ensures
            final(self).wf(final(vm)),
            final(vm).functions == old(vm).functions,
            final(vm).calls == old(vm).calls,
            final(vm).stack == old(vm).stack,
            final(vm).output == old(vm).output,
            final(vm).vars@.len() >= old(vm).vars@.len(),
            forall|i: int| 0 <= i < old(vm).vars@.len() ==> final(vm).vars@[i] == old(vm).vars@[i],
            final(self).symbols.curr_mod == old(self).symbols.curr_mod,
            final(self).symbols.mods@.len() == old(self).symbols.mods@.len(),
            final(self).symbols.mods@[final(self).symbols.curr_mod as int].mod_vars@.len() >= old(self).symbols.mods@[old(self).symbols.curr_mod as int].mod_vars@.len(),
            forall|j: int|
                0 <= j < old(self).symbols.mods@[old(self).symbols.curr_mod as int].mod_vars@.len()
                    ==> #[trigger] final(self).symbols.mods@[final(self).symbols.curr_mod as int].mod_vars@[j]
                    == old(self).symbols.mods@[old(self).symbols.curr_mod as int].mod_vars@[j],
            final(self).symbols.calls@.len() == old(self).symbols.calls@.len(),
            final(self).symbols.calls@.drop_last() == old(self).symbols.calls@.drop_last(),
            final(self).symbols.calls@.last().closure == old(self).symbols.calls@.last().closure,
            final(self).symbols.calls@.last().code == old(self).symbols.calls@.last().code,
            final(self).symbols.calls@.last().scope == old(self).symbols.calls@.last().scope,
            final(self).symbols.calls@.last().locals@.len() >= old(self).symbols.calls@.last().locals@.len(),
            old(self).at_top() ==> final(self).symbols.calls@.last().locals == old(
                self,
            ).symbols.calls@.last().locals,
            final(self).symbols.calls@.last().constant_arr == old(
                self,
            ).symbols.calls@.last().constant_arr,
            calls_keep(old(self).symbols.calls@, final(self).symbols.calls@),
            final(self).compile_flag == old(self).compile_flag,
            final(self).errors == old(self).errors,
            r matches Ok(v) ==> final(self).var_ok(v) && (v.scope_type == ScopeType::Module
                || v.scope_type == ScopeType::Local),
            r matches Err(e) ==> e.error_type == VarErrorType::AlreadyExists || e.error_type
                == VarErrorType::TooMany,
            old(self).at_top() ==> {
                let actual = local_name(name@, arity);
                match old(self).mod_var(actual) {
                    Some(j) => r matches Err(e) && e.error_type == VarErrorType::AlreadyExists,
                    None => if old(self).mod_var_count() >= MAX_VARIABLES {
                        r matches Err(e) && e.error_type == VarErrorType::TooMany
                    } else {
                        r matches Ok(v) && v.scope_type == ScopeType::Module && v.index == old(
                            self,
                        ).symbols.mods@[old(self).symbols.curr_mod as int].mod_vars@.len()
                            && final(self).mod_var(actual) == Some(v.index as int)
                            && final(self).mod_var_count() == old(self).mod_var_count() + 1
                            && forall|n: Seq<char>|
                            n != actual ==> #[trigger] final(self).mod_var(n) == old(self).mod_var(n)
                    },
                }
            },
            old(self).at_top() && r is Err ==> final(self).symbols.mods@ == old(self).symbols.mods@,
            !old(self).at_top() ==> {
                let fc = old(self).symbols.calls@.last();
                let actual = local_name(name@, arity);
                if clash_in_scope(fc.locals@, fc.scope, actual) {
                    r matches Err(e) && e.error_type == VarErrorType::AlreadyExists
                } else if fc.locals@.len() >= MAX_LOCALS {
                    r matches Err(e) && e.error_type == VarErrorType::TooMany
                } else {
                    r matches Ok(v) && final(self).symbols.calls@.last().locals@ == fc.locals@.push(
                        Local::new_spec(v.name, fc.scope, false),
                    ) && v.name@ == actual && v.scope_type == ScopeType::Local && v.index
                        == fc.locals@.len()
                }
            },
    {
        if self.symbols.calls.len() == 1 && self.symbols.calls[0].scope == 0 {
            let actual = FunCompiler::local_name(name, arity);
            let ghost c0 = *self;
            let res = self.declare_curr_mod_var(&actual, vm);
            assert(self.symbols.calls@ =~= c0.symbols.calls@.drop_last().push(c0.symbols.calls@.last()));
            proof {
                lemma_keep_refl(self.symbols.calls@);
            }
            match res {
                Ok(e) => {
                    proof {
                        let m1 = c0.symbols.mods@[c0.symbols.curr_mod as int];
                        let m2 = self.symbols.mods@[self.symbols.curr_mod as int];
                        let k = m2.mod_vars@.len() - 1;
                        assert forall|n: Seq<char>| n != actual@ implies #[trigger] self.mod_var(n)
                            == c0.mod_var(n) by {
                            lemma_find_var_push(m1, m2, n);
                        }
                        assert(m2.mod_vars@[k].name@ == actual@);
                        assert(m2.wf());
                        assert(m2.find_var(actual@) == Some(k)) by {
                            let c = choose|j: int| 0 <= j < m2.mod_vars@.len() && (#[trigger] m2.mod_vars@[j]).name@ == actual@;
                            if c != k {
                                assert(m2.mod_vars@[c].name@ != m2.mod_vars@[k].name@);
                            }
                        }
                    }
                    Ok(VarInfo::new(actual, arity, VarType::Var, ScopeType::Module, 0, e.var_index, 0))
                },
                Err(e) => {
                    assert(self.symbols.mods@ =~= c0.symbols.mods@);
                    Err(e)
                },
            }
        } else {
            let mut fc = self.take_last();
            let res = fc.declare_local(name, arity);
            proof {
                lemma_calls_drop(old(self).symbols.calls@, vm.functions@.len(), vm.functions@.len());
                lemma_calls_push(self.symbols.calls@, fc, vm.functions@.len());
                lemma_keep_top(old(self).symbols.calls@, fc);
            }
            self.put_last(fc);
            assert(self.symbols.calls@.drop_last() =~= old(self).symbols.calls@.drop_last());
            res
        }
    }

    /// Defines the variable `v` from the value on top of the stack (see
    /// `define_code`); a local is marked initialized.
    pub fn define_var(&mut self, v: &VarInfo, vm: &VM)
        requires
            old(self).wf(vm),
            old(self).symbols.calls@.len() > 0,
            old(self).var_ok(*v),
        ensures
            final(self).wf(vm),
            final(self).symbols.mods == old(self).symbols.mods,
            final(self).symbols.curr_mod == old(self).symbols.curr_mod,
            final(self).symbols.calls@.len() == old(self).symbols.calls@.len(),
            final(self).symbols.calls@.drop_last() == old(self).symbols.calls@.drop_last(),
            final(self).symbols.calls@.last().closure == old(self).symbols.calls@.last().closure,
            final(self).symbols.calls@.last().scope == old(self).symbols.calls@.last().scope,
            final(self).symbols.calls@.last().locals@.len() == old(self).symbols.calls@.last().locals@.len(),
            local_names(final(self).symbols.calls@.last()) == local_names(
                old(self).symbols.calls@.last(),
            ),
            final(self).symbols.calls@.last().constant_arr == old(
                self,
            ).symbols.calls@.last().constant_arr,
            calls_keep(old(self).symbols.calls@, final(self).symbols.calls@),
            final(self).symbols.calls@.last().code@ == old(self).symbols.calls@.last().code@
                + define_code(v.scope_type, v.index),
            final(self).compile_flag == old(self).compile_flag,
            final(self).errors == old(self).errors,
    {
        let ghost c0 = self.symbols.calls@.last().code@;
        match v.scope_type {
            ScopeType::Module => {
                self.emit_word(OpCode::DefVar, v.index, vm);
                assert(self.symbols.calls@.drop_last() =~= old(self).symbols.calls@.drop_last());
            },
            ScopeType::Local => {
                let mut fc = self.take_last();
                let ghost before = fc;
                fc.define_local(v.index);
                assert(local_names(fc) =~= local_names(before));
                proof {
                    lemma_calls_drop(old(self).symbols.calls@, vm.functions@.len(), vm.functions@.len());
                    lemma_calls_push(self.symbols.calls@, fc, vm.functions@.len());
                    lemma_keep_top(old(self).symbols.calls@, fc);
                }
                self.put_last(fc);
                assert(self.symbols.calls@.drop_last() =~= old(self).symbols.calls@.drop_last());
            },
            _ => {
                proof {
                    lemma_keep_refl(self.symbols.calls@);
                }
            },
        }
        assert(self.symbols.calls@.last().code@ =~= c0 + define_code(v.scope_type, v.index));
    }
}


/// The arithmetic operator of a binary operator, compound assignments
/// included.
pub open spec fn math_of(op: BinaryOp) -> Option<MathOp> {
    match op {
        BinaryOp::Add | BinaryOp::AddAssign => Some(MathOp::Add),
        BinaryOp::Subtract | BinaryOp::SubtractAssign => Some(MathOp::Subtract),
        BinaryOp::Multiply | BinaryOp::MultiplyAssign => Some(MathOp::Multiply),
        BinaryOp::Divide | BinaryOp::DivideAssign => Some(MathOp::Divide),
        BinaryOp::Modulo | BinaryOp::ModuloAssign => Some(MathOp::Modulo),
        BinaryOp::Power | BinaryOp::PowerAssign => Some(MathOp::Power),
        _ => None,
    }
}

/// A binary operator compiles to the arithmetic operator written the same
/// way: `a op b` to `op` itself, and a compound assignment `x op= e` to
/// `op`, the operator its text starts with.
pub proof fn lemma_math_of_spells(op: BinaryOp)
    ensures
        math_of(op) matches Some(m) ==> if is_assign(op) {
            binop_text(op) == math_text(m).push('=')
        } else {
            binop_text(op) == math_text(m)
        },
        math_of(op) matches Some(m) ==> m != MathOp::Invalid,
{
}

/// The arithmetic operator of a binary operator (see `math_of`).
pub fn math_op_of(op: BinaryOp) -> (r: Option<MathOp>)
    ensures
        r == math_of(op),
{
    match op {
        BinaryOp::Add | BinaryOp::AddAssign => Some(MathOp::Add),
        BinaryOp::Subtract | BinaryOp::SubtractAssign => Some(MathOp::Subtract),
        BinaryOp::Multiply | BinaryOp::MultiplyAssign => Some(MathOp::Multiply),
        BinaryOp::Divide | BinaryOp::DivideAssign => Some(MathOp::Divide),
        BinaryOp::Modulo | BinaryOp::ModuloAssign => Some(MathOp::Modulo),
        BinaryOp::Power | BinaryOp::PowerAssign => Some(MathOp::Power),
        _ => None,
    }
}

/// The code that compiling a node appended to `c0`, giving `c1`: literals
/// exactly; a variable its load; an expression statement its expression
/// and `Pop`; `return` its value (or nil) and `Return`; negation its
/// operand and `Neg`; arithmetic the left operand, the right one and
/// `MathOp`; an assignment (a compound one after loading the variable) the
/// right side, the operation and the store into the variable; a `let` its
/// value and the definition of the variable; a call its callee, its
/// arguments and `Call`; a block its statements; a nested function the load
/// of its closure (a named one then defined as a variable), and nothing for
/// the other kinds of function. Forms the compiler refuses have no code.
pub open spec fn node_code_ok(ast: Ast, c0: Seq<u8>, c1: Seq<u8>) -> bool
    decreases ast, 2nat,
{
    match ast {
        Ast::TrueStmt => c1 == c0.push(OpCode::LoadTrue.spec_to_byte()),
        Ast::FalseStmt => c1 == c0.push(OpCode::LoadFalse.spec_to_byte()),
        Ast::Value { val } => match val {
            Value::Int(i) if 0 <= i <= 10 => c1 == c0.push((OpCode::Load0.spec_to_byte() + i) as u8),
            Value::Bool(b) => c1 == c0.push(
                if b {
                    OpCode::LoadTrue.spec_to_byte()
                } else {
                    OpCode::LoadFalse.spec_to_byte()
                },
            ),
            Value::Nil => c1 == c0.push(OpCode::LoadNil.spec_to_byte()),
            _ => exists|k: usize|
                k < 65536 && c1 == c0.push(OpCode::LoadValue.spec_to_byte()).push(word_high(k)).push(
                    word_low(k),
                ),
        },
        Ast::Variable { .. } => exists|scope: ScopeType, index: usize|
            c1 == c0 + load_code(scope, index),
        Ast::ExprStmt { expr } => exists|ce: Seq<u8>|
            node_code_ok(*expr, c0, ce) && c1 == #[trigger] ce.push(OpCode::Pop.spec_to_byte()),
        Ast::ReturnStmt { expr } => match expr {
            Some(e) => exists|ce: Seq<u8>|
                node_code_ok(*e, c0, ce) && c1 == #[trigger] ce.push(OpCode::Return.spec_to_byte()),
            None => c1 == c0.push(OpCode::LoadNil.spec_to_byte()).push(OpCode::Return.spec_to_byte()),
        },
        Ast::Unary(op, operand) => match operand {
            Some(e) => op == UnaryOp::Negate && exists|ce: Seq<u8>|
                node_code_ok(*e, c0, ce) && c1 == #[trigger] ce.push(OpCode::Neg.spec_to_byte()),
            None => false,
        },
        Ast::Call(callee, args) => match callee {
            Some(f) => exists|cs: Seq<Seq<u8>>|
                list_code_ok(args@, cs) && (if *f is Variable {
                    exists|scope: ScopeType, index: usize| cs[0] == c0 + load_code(scope, index)
                } else {
                    node_code_ok(*f, c0, cs[0])
                }) && c1 == #[trigger] cs.last().push(OpCode::Call.spec_to_byte()).push(
                    args@.len() as u8,
                ),
            None => false,
        },
        Ast::Block { listing } => exists|cs: Seq<Seq<u8>>|
            list_code_ok(listing@, cs) && cs[0] == c0 && c1 == #[trigger] cs.last(),
        Ast::Program { listing } => exists|cs: Seq<Seq<u8>>|
            list_code_ok(listing@, cs) && cs[0] == c0 && c1 == #[trigger] cs.last(),
        Ast::Binary(op, left, right) => match (left, right) {
            (Some(l), Some(r)) => if op == BinaryOp::Assign {
                *l is Variable && exists|scope: ScopeType, index: usize, cr: Seq<u8>|
                    node_code_ok(*r, c0, cr) && c1 == #[trigger] (cr + store_code(scope, index))
            } else {
                match math_of(op) {
                    Some(m) => if is_assign(op) {
                        *l is Variable && exists|scope: ScopeType, index: usize, cr: Seq<u8>|
                            node_code_ok(*r, c0 + load_code(scope, index), cr) && c1
                                == #[trigger] (cr.push(OpCode::MathOp.spec_to_byte()).push(
                                m.spec_to_byte(),
                            ) + store_code(scope, index))
                    } else {
                        exists|cl: Seq<u8>, cr: Seq<u8>|
                            #![trigger extends(cl, cr), cr.push(OpCode::MathOp.spec_to_byte()).push(m.spec_to_byte())]
                            node_code_ok(*l, c0, cl) && node_code_ok(*r, cl, cr) && extends(cl, cr)
                                && c1 == cr.push(OpCode::MathOp.spec_to_byte()).push(
                                m.spec_to_byte(),
                            )
                    },
                    None => false,
                }
            },
            _ => false,
        },
        Ast::LetDecl { expr, .. } => exists|ce: Seq<u8>, scope: ScopeType, index: usize|
            node_code_ok(*expr, c0, ce) && c1 == #[trigger] (ce + define_code(scope, index)),
        Ast::FunDecl { fun_ty, .. } => if fun_ty != FunctionType::NamedClosure && fun_ty
            != FunctionType::AnonClosure {
            c1 == c0
        } else {
            exists|k: usize|
                k < 65536 && (c1 == #[trigger] load_constant_code(c0, k) || (fun_ty
                    == FunctionType::NamedClosure && exists|scope: ScopeType, index: usize|
                    c1 == #[trigger] (load_constant_code(c0, k) + define_code(scope, index))))
        },
    }
}

/// An operand that top-level code compiles without fail, where `known`
/// tells which names are variables of the module: a literal other than a
/// closure, or a variable with a name and no arity that the module known.
pub open spec fn plain_ok(e: Ast, known: spec_fn(Seq<char>) -> bool) -> bool {
    match e {
        Ast::Value { val } => !(val is Closure),
        Ast::Variable { name, arity } => arity is None && name@.len() > 0 && known(name@),
        _ => false,
    }
}

/// An expression that top-level code compiles without fail: a plain
/// operand (see `plain_ok`), the assignment of a literal to a variable of
/// the module, or an arithmetic operator on two plain operands.
pub open spec fn expr_ok(e: Ast, known: spec_fn(Seq<char>) -> bool) -> bool {
    match e {
        Ast::Binary(op, Some(l), Some(r)) => if op == BinaryOp::Assign {
            *l is Variable && plain_ok(*l, known) && *r is Value && plain_ok(*r, known)
        } else {
            !is_assign(op) && math_of(op) is Some && plain_ok(*l, known) && plain_ok(*r, known)
        },
        _ => plain_ok(e, known),
    }
}

/// A node of top-level code that compiles without fail when the module
/// known the variables `known`, `count` of them: an expression statement of
/// such an expression (see `expr_ok`), or the expression itself, or a
/// `let` of a literal other than a closure whose name the module does not
/// have yet, while it known room for one more variable.
pub open spec fn node_ok(ast: Ast, known: spec_fn(Seq<char>) -> bool, count: nat) -> bool {
    match ast {
        Ast::ExprStmt { expr } => expr_ok(*expr, known),
        Ast::LetDecl { name, expr } => *expr is Value && plain_ok(*expr, known) && !known(name@) && count
            < MAX_VARIABLES,
        _ => expr_ok(ast, known),
    }
}

/// The literals of a node: at most this many constants compiling it adds.
pub open spec fn lits(ast: Ast) -> nat
    decreases ast,
{
    match ast {
        Ast::Value { .. } => 1,
        Ast::Binary(_, Some(l), Some(r)) => lits(*l) + lits(*r),
        Ast::ExprStmt { expr } => lits(*expr),
        Ast::LetDecl { expr, .. } => lits(*expr),
        _ => 0,
    }
}

/// The variables of the current module of `comp`, by name.
pub open spec fn has_var(comp: Compiler) -> spec_fn(Seq<char>) -> bool {
    |n: Seq<char>| comp.mod_var(n) is Some
}

/// Compiling a node that `node_ok` admits in top-level code succeeded:
/// it added at most `lits` constants; a `let` added its variable to the
/// module and left the others where they were; any other node left the
/// modules as they were.
pub open spec fn compiled_ok(ast: Ast, before: Compiler, after: Compiler, r: Option<usize>) -> bool {
    &&& r is Some
    &&& after.symbols.calls@.last().constant_arr@.len() <= before.symbols.calls@.last().constant_arr@.len()
        + lits(ast)
    &&& after.symbols.curr_mod == before.symbols.curr_mod
    &&& ast is LetDecl ==> after.mod_var_count() == before.mod_var_count() + 1 && after.mod_var(
        ast->LetDecl_name@,
    ) is Some && forall|n: Seq<char>|
        n != ast->LetDecl_name@ ==> #[trigger] after.mod_var(n) == before.mod_var(n)
    &&& !(ast is LetDecl) ==> after.symbols.mods@ == before.symbols.mods@
}

/// The names that the `let` statements among the first `i` of `l`
/// declare.
pub open spec fn let_names(l: Seq<Box<Ast>>, i: int) -> Set<Seq<char>>
    decreases i,
{
    if i <= 0 {
        Set::empty()
    } else if *l[i - 1] is LetDecl {
        let_names(l, i - 1).insert(l[i - 1]->LetDecl_name@)
    } else {
        let_names(l, i - 1)
    }
}

/// How many of the first `i` statements of `l` are `let` statements.
pub open spec fn let_count(l: Seq<Box<Ast>>, i: int) -> nat
    decreases i,
{
    if i <= 0 {
        0
    } else if *l[i - 1] is LetDecl {
        let_count(l, i - 1) + 1
    } else {
        let_count(l, i - 1)
    }
}

/// The literals of the first `i` statements of `l` (see `lits`).
pub open spec fn lits_upto(l: Seq<Box<Ast>>, i: int) -> nat
    decreases i,
{
    if i <= 0 {
        0
    } else {
        lits_upto(l, i - 1) + lits(*l[i - 1])
    }
}

/// Statement `i` of top-level code `l` compiles without fail (see
/// `node_ok`) where the module has the variables `known` and those the
/// `let` statements before it declared.
pub open spec fn stmt_fits(l: Seq<Box<Ast>>, i: int, known: spec_fn(Seq<char>) -> bool, count: nat) -> bool {
    node_ok(
        *l[i],
        |n: Seq<char>| known(n) || let_names(l, i).contains(n),
        count + let_count(l, i),
    )
}

/// Top-level code `l` compiles without fail from a module that has the
/// variables `known`, `count` of them: every statement does (see
/// `stmt_fits`) and all its literals fit in the constants.
pub open spec fn prog_ok(l: Seq<Box<Ast>>, known: spec_fn(Seq<char>) -> bool, count: nat) -> bool {
    &&& forall|i: int| 0 <= i < l.len() ==> #[trigger] stmt_fits(l, i, known, count)
    &&& lits_upto(l, l.len() as int) <= 65536
}

/// Before statement `i` of top-level code that `prog_ok` admits, with the
/// module holding what the `let`s before it declared, the statement
/// compiles without fail (see `node_ok`), and so does its expression
/// where it is an expression statement.
proof fn lemma_stmt_fits_here(l: Seq<Box<Ast>>, i: int, c0: Compiler, c: Compiler)
    requires
        0 <= i < l.len(),
        prog_ok(l, has_var(c0), c0.mod_var_count()),
        c.mod_var_count() == c0.mod_var_count() + let_count(l, i),
        c.symbols.calls@.last().constant_arr@.len() <= lits_upto(l, i),
        forall|nm: Seq<char>|
            #[trigger] c.mod_var(nm) is Some <==> (c0.mod_var(nm) is Some || let_names(l, i).contains(nm)),
    ensures
        node_ok(*l[i], has_var(c), c.mod_var_count()),
        c.symbols.calls@.last().constant_arr@.len() + lits(*l[i]) <= 65536,
        *l[i] is ExprStmt ==> node_ok(*l[i]->ExprStmt_expr, has_var(c), c.mod_var_count()) && lits(
            *l[i]->ExprStmt_expr,
        ) == lits(*l[i]) && !(*l[i]->ExprStmt_expr is LetDecl),
{
    assert(stmt_fits(l, i, has_var(c0), c0.mod_var_count()));
    let known = |n: Seq<char>| has_var(c0)(n) || let_names(l, i).contains(n);
    assert(has_var(c) =~= known);
    lemma_lits_grow(l, i + 1, l.len() as int);
}

/// The literals of more statements are at least as many.
proof fn lemma_lits_grow(l: Seq<Box<Ast>>, i: int, j: int)
    requires
        i <= j,
    ensures
        lits_upto(l, i) <= lits_upto(l, j),
    decreases j - i,
{
    if i < j {
        lemma_lits_grow(l, i, j - 1);
    }
}

/// After statement `i` of top-level code that `prog_ok` admits compiled
/// as `compiled_ok` says, the module holds what the `let`s up to it
/// declared and the constants what their literals may add.
proof fn lemma_stmt_fits_after(l: Seq<Box<Ast>>, i: int, c0: Compiler, before: Compiler, after: Compiler)
    requires
        0 <= i < l.len(),
        before.mod_var_count() == c0.mod_var_count() + let_count(l, i),
        before.symbols.calls@.last().constant_arr@.len() <= lits_upto(l, i),
        forall|nm: Seq<char>|
            #[trigger] before.mod_var(nm) is Some <==> (c0.mod_var(nm) is Some || let_names(l, i).contains(
                nm,
            )),
        *l[i] is ExprStmt ==> !(*l[i]->ExprStmt_expr is LetDecl),
        compiled_ok(*l[i], before, after, Some(0)) || (*l[i] is ExprStmt && compiled_ok(
            *l[i]->ExprStmt_expr,
            before,
            after,
            Some(0),
        ) && lits(*l[i]->ExprStmt_expr) == lits(*l[i])),
    ensures
        after.mod_var_count() == c0.mod_var_count() + let_count(l, i + 1),
        after.symbols.calls@.last().constant_arr@.len() <= lits_upto(l, i + 1),
        forall|nm: Seq<char>|
            #[trigger] after.mod_var(nm) is Some <==> (c0.mod_var(nm) is Some || let_names(l, i + 1).contains(
                nm,
            )),
{
    if *l[i] is LetDecl {
        let name = l[i]->LetDecl_name@;
        assert(compiled_ok(*l[i], before, after, Some(0)));
        assert forall|nm: Seq<char>|
            #[trigger] after.mod_var(nm) is Some <==> (c0.mod_var(nm) is Some || let_names(l, i + 1).contains(
                nm,
            )) by {
            if nm != name {
                assert(after.mod_var(nm) == before.mod_var(nm));
            }
        }
    } else {
        assert(after.mod_var_count() == before.mod_var_count());
        assert forall|nm: Seq<char>|
            #[trigger] after.mod_var(nm) is Some <==> (c0.mod_var(nm) is Some || let_names(l, i + 1).contains(
                nm,
            )) by {
            assert(after.mod_var(nm) == before.mod_var(nm));
        }
    }
}

/// The top-level code is being compiled and it has one local, unnamed.
pub open spec fn plain_top(comp: Compiler) -> bool {
    &&& comp.at_top()
    &&& local_names(comp.symbols.calls@.last()) == seq![Seq::<char>::empty()]
}

/// A literal that compiling loaded from the constants `consts` (see
/// `node_code_ok`) is the constant there.
pub open spec fn value_loaded(ast: Ast, c0: Seq<u8>, c1: Seq<u8>, consts: Seq<Value>) -> bool {
    match ast {
        Ast::Value { val } => match val {
            Value::Int(i) if 0 <= i <= 10 => true,
            Value::Bool(_) | Value::Nil => true,
            _ => exists|k: usize|
                k < 65536 && k < consts.len() && c1 == #[trigger] load_constant_code(c0, k)
                    && consts[k as int]@ == val@,
        },
        _ => true,
    }
}

/// A variable that no local of the top-level code (whose names are
/// `locals`) has is loaded, from `c0` to `c1`, from the module variable of
/// its name, as the compiler `comp` has it.
pub open spec fn module_read(ast: Ast, c0: Seq<u8>, c1: Seq<u8>, locals: Seq<Seq<char>>, comp: Compiler) -> bool {
    match ast {
        Ast::Variable { name, arity } => !locals.contains(local_name(name@, arity)) ==> match comp.mod_var(
            local_name(name@, arity),
        ) {
            Some(j) => c1 == c0 + load_code(ScopeType::Module, j as usize),
            None => false,
        },
        _ => true,
    }
}

/// The operands `l` and `r` of an arithmetic node were compiled one after
/// the other from `c0`, then the operator `m`, to `c1`; a literal operand
/// was loaded from the constants `consts` as `value_loaded` says, and a
/// variable operand as `module_read` says.
pub open spec fn math_loaded(
    l: Ast,
    r: Ast,
    m: MathOp,
    c0: Seq<u8>,
    c1: Seq<u8>,
    locals: Seq<Seq<char>>,
    comp: Compiler,
    consts: Seq<Value>,
) -> bool {
    exists|cl: Seq<u8>, cr: Seq<u8>|
        #![trigger value_loaded(l, c0, cl, consts), value_loaded(r, cl, cr, consts)]
        node_code_ok(l, c0, cl) && value_loaded(l, c0, cl, consts) && module_read(l, c0, cl, locals, comp)
            && node_code_ok(r, cl, cr) && value_loaded(r, cl, cr, consts) && module_read(
            r,
            cl,
            cr,
            locals,
            comp,
        ) && c1 == cr.push(OpCode::MathOp.spec_to_byte()).push(m.spec_to_byte())
}

/// What `value_loaded` says of a node stays true when constants are added
/// after those it was said of.
proof fn lemma_value_loaded_kept(ast: Ast, c0: Seq<u8>, c1: Seq<u8>, ca: Seq<Value>, cb: Seq<Value>)
    requires
        value_loaded(ast, c0, c1, ca),
        prefix_of(ca, cb),
    ensures
        value_loaded(ast, c0, c1, cb),
{
    if let Ast::Value { val } = ast {
        if exists|k: usize|
            k < 65536 && k < ca.len() && c1 == #[trigger] load_constant_code(c0, k)
                && ca[k as int]@ == val@ {
            let k = choose|k: usize|
                k < 65536 && k < ca.len() && c1 == #[trigger] load_constant_code(c0, k)
                    && ca[k as int]@ == val@;
            assert(cb[k as int] == ca[k as int]);
        }
    }
}

/// Where the top-level code keeps its variables: a `let` defines the
/// module variable of its name (as the compiler `comp` has it) after its
/// value (a literal one loaded from the constants `consts` as
/// `value_loaded` says), and a variable that no local of the top-level code
/// (whose names are `locals`) has is loaded from, or assigned (after the
/// value) to, the module variable of its name; an arithmetic node loads
/// its literal operands from the constants (see `math_loaded`).
pub open spec fn top_code_ok(
    ast: Ast,
    c0: Seq<u8>,
    c1: Seq<u8>,
    locals: Seq<Seq<char>>,
    comp: Compiler,
    consts: Seq<Value>,
) -> bool {
    match ast {
        Ast::LetDecl { name, expr } => match comp.mod_var(local_name(name@, let_arity(*expr))) {
            Some(j) => exists|ce: Seq<u8>|
                node_code_ok(*expr, c0, ce) && value_loaded(*expr, c0, ce, consts) && c1
                    == #[trigger] (ce + define_code(ScopeType::Module, j as usize)),
            None => false,
        },
        Ast::Variable { .. } => module_read(ast, c0, c1, locals, comp),
        Ast::Value { .. } => value_loaded(ast, c0, c1, consts),
        Ast::Binary(op, Some(l), Some(r)) => if op == BinaryOp::Assign {
            *l is Variable && !locals.contains(local_name(l->Variable_name@, l->Variable_arity))
                ==> match comp.mod_var(local_name(l->Variable_name@, l->Variable_arity)) {
                Some(j) => exists|cr: Seq<u8>|
                    node_code_ok(*r, c0, cr) && value_loaded(*r, c0, cr, consts) && c1 == #[trigger] (cr
                        + store_code(ScopeType::Module, j as usize)),
                None => false,
            }
        } else {
            !is_assign(op) && math_of(op) is Some ==> math_loaded(
                *l,
                *r,
                math_of(op)->0,
                c0,
                c1,
                locals,
                comp,
                consts,
            )
        },
        _ => true,
    }
}

/// What `module_read` says stays true of a compiler that kept the
/// module's variables.
proof fn lemma_module_read_kept(
    ast: Ast,
    c0: Seq<u8>,
    c1: Seq<u8>,
    locals: Seq<Seq<char>>,
    a: Compiler,
    vma: VM,
    b: Compiler,
    vmb: VM,
)
    requires
        module_read(ast, c0, c1, locals, a),
        a.wf(&vma),
        b.wf(&vmb),
        keeps_mod_vars(a, b),
    ensures
        module_read(ast, c0, c1, locals, b),
{
    if let Ast::Variable { name, arity } = ast {
        if !locals.contains(local_name(name@, arity)) {
            lemma_kept_module_var(a, vma, b, vmb, local_name(name@, arity));
        }
    }
}

/// A variable's place, as `top_code_ok` says, stays true of a compiler
/// that kept the module's variables.
proof fn lemma_top_code_kept(
    ast: Ast,
    c0: Seq<u8>,
    c1: Seq<u8>,
    locals: Seq<Seq<char>>,
    a: Compiler,
    vma: VM,
    ca: Seq<Value>,
    b: Compiler,
    vmb: VM,
    cb: Seq<Value>,
)
    requires
        top_code_ok(ast, c0, c1, locals, a, ca),
        a.wf(&vma),
        b.wf(&vmb),
        keeps_mod_vars(a, b),
        prefix_of(ca, cb),
    ensures
        top_code_ok(ast, c0, c1, locals, b, cb),
{
    match ast {
        Ast::LetDecl { name, expr } => {
            lemma_kept_module_var(a, vma, b, vmb, local_name(name@, let_arity(*expr)));
            let j = a.mod_var(local_name(name@, let_arity(*expr)))->0;
            let ce = choose|ce: Seq<u8>|
                node_code_ok(*expr, c0, ce) && value_loaded(*expr, c0, ce, ca) && c1
                    == #[trigger] (ce + define_code(ScopeType::Module, j as usize));
            if let Ast::Value { val } = *expr {
                if exists|k: usize|
                    k < 65536 && k < ca.len() && ce == #[trigger] load_constant_code(c0, k)
                        && ca[k as int]@ == val@ {
                    let k = choose|k: usize|
                        k < 65536 && k < ca.len() && ce == #[trigger] load_constant_code(c0, k)
                            && ca[k as int]@ == val@;
                    assert(cb[k as int] == ca[k as int]);
                }
            }
            assert(value_loaded(*expr, c0, ce, cb));
        },
        Ast::Variable { .. } => {
            lemma_module_read_kept(ast, c0, c1, locals, a, vma, b, vmb);
        },
        Ast::Value { .. } => {
            lemma_value_loaded_kept(ast, c0, c1, ca, cb);
        },
        Ast::Binary(op, Some(l), Some(r)) => {
            if op != BinaryOp::Assign && !is_assign(op) && math_of(op) is Some {
                let m = math_of(op)->0;
                let (cl, cr) = choose|cl: Seq<u8>, cr: Seq<u8>|
                    #![trigger value_loaded(*l, c0, cl, ca), value_loaded(*r, cl, cr, ca)]
                    node_code_ok(*l, c0, cl) && value_loaded(*l, c0, cl, ca) && module_read(
                        *l,
                        c0,
                        cl,
                        locals,
                        a,
                    ) && node_code_ok(*r, cl, cr) && value_loaded(*r, cl, cr, ca) && module_read(
                        *r,
                        cl,
                        cr,
                        locals,
                        a,
                    ) && c1 == cr.push(OpCode::MathOp.spec_to_byte()).push(m.spec_to_byte());
                lemma_value_loaded_kept(*l, c0, cl, ca, cb);
                lemma_value_loaded_kept(*r, cl, cr, ca, cb);
                lemma_module_read_kept(*l, c0, cl, locals, a, vma, b, vmb);
                lemma_module_read_kept(*r, cl, cr, locals, a, vma, b, vmb);
            }
            if op == BinaryOp::Assign && *l is Variable {
                let actual = local_name(l->Variable_name@, l->Variable_arity);
                if !locals.contains(actual) {
                    lemma_kept_module_var(a, vma, b, vmb, actual);
                    let j = a.mod_var(actual)->0;
                    let cr = choose|cr: Seq<u8>|
                        node_code_ok(*r, c0, cr) && value_loaded(*r, c0, cr, ca) && c1
                            == #[trigger] (cr + store_code(ScopeType::Module, j as usize));
                    if let Ast::Value { val } = *r {
                        if exists|k: usize|
                            k < 65536 && k < ca.len() && cr == #[trigger] load_constant_code(c0, k)
                                && ca[k as int]@ == val@ {
                            let k = choose|k: usize|
                                k < 65536 && k < ca.len() && cr == #[trigger] load_constant_code(
                                    c0,
                                    k,
                                ) && ca[k as int]@ == val@;
                            assert(cb[k as int] == ca[k as int]);
                        }
                    }
                    assert(value_loaded(*r, c0, cr, cb));
                }
            }
        },
        _ => {},
    }
}

/// `top_stmt_at` stays true of a compiler that kept the module's
/// variables.
proof fn lemma_top_stmt_kept(
    listing: Seq<Box<Ast>>,
    cs: Seq<Seq<u8>>,
    i: int,
    locals: Seq<Seq<char>>,
    a: Compiler,
    vma: VM,
    ca: Seq<Value>,
    b: Compiler,
    vmb: VM,
    cb: Seq<Value>,
)
    requires
        top_stmt_at(listing, cs, i, locals, a, ca),
        a.wf(&vma),
        b.wf(&vmb),
        keeps_mod_vars(a, b),
        prefix_of(ca, cb),
    ensures
        top_stmt_at(listing, cs, i, locals, b, cb),
{
    let s = *listing[i];
    if i == listing.len() - 1 && s is ExprStmt {
        lemma_top_code_kept(*s->ExprStmt_expr, cs[i], cs[i + 1], locals, a, vma, ca, b, vmb, cb);
    } else {
        lemma_top_code_kept(s, cs[i], cs[i + 1], locals, a, vma, ca, b, vmb, cb);
    }
}

/// Statement `i` of the top-level code, compiled from `cs[i]` to
/// `cs[i + 1]`, keeps its variables where `top_code_ok` says (of a final
/// expression statement, its expression).
pub open spec fn top_stmt_at(
    listing: Seq<Box<Ast>>,
    cs: Seq<Seq<u8>>,
    i: int,
    locals: Seq<Seq<char>>,
    comp: Compiler,
    consts: Seq<Value>,
) -> bool {
    let s = *listing[i];
    if i == listing.len() - 1 && s is ExprStmt {
        top_code_ok(*s->ExprStmt_expr, cs[i], cs[i + 1], locals, comp, consts)
    } else {
        top_code_ok(s, cs[i], cs[i + 1], locals, comp, consts)
    }
}

/// Every statement of the top-level code keeps its variables where
/// `top_code_ok` says; the top-level code has one local, unnamed.
pub open spec fn top_body(
    listing: Seq<Box<Ast>>,
    cs: Seq<Seq<u8>>,
    comp: Compiler,
    consts: Seq<Value>,
) -> bool {
    forall|i: int|
        0 <= i < listing.len() ==> #[trigger] top_stmt_at(
            listing,
            cs,
            i,
            seq![Seq::empty()],
            comp,
            consts,
        )
}

/// No local named `name` is found where none has that name.
proof fn lemma_no_local_named(locals: Seq<Local>, name: Seq<char>)
    requires
        !locals.map_values(|l: Local| l.name@).contains(name),
    ensures
        last_local(locals, name, locals.len() as int) is None,
{
    lemma_last_local_some(locals, name, locals.len() as int);
    if let Some(i) = last_local(locals, name, locals.len() as int) {
        assert(locals.map_values(|l: Local| l.name@)[i] == name);
    }
}

/// `c0` followed by the load of constant `k`.
pub open spec fn load_constant_code(c0: Seq<u8>, k: usize) -> Seq<u8> {
    c0.push(OpCode::LoadValue.spec_to_byte()).push(word_high(k)).push(word_low(k))
}

/// The nodes of `l` were compiled one after the other, node `i` from
/// `cs[i]` to `cs[i + 1]`.
pub open spec fn list_code_ok(l: Seq<Box<Ast>>, cs: Seq<Seq<u8>>) -> bool
    decreases l, 1nat,
{
    if l.len() == 0 {
        cs.len() == 1
    } else {
        &&& cs.len() == l.len() + 1
        &&& list_code_ok(l.subrange(0, l.len() - 1), cs.subrange(0, cs.len() - 1))
        &&& node_code_ok(*l[l.len() - 1], cs[l.len() - 1], cs[l.len() as int])
    }
}

/// The operator is an assignment, plain or compound.
pub open spec fn is_assign(op: BinaryOp) -> bool {
    match op {
        BinaryOp::Assign | BinaryOp::AddAssign | BinaryOp::SubtractAssign
        | BinaryOp::MultiplyAssign | BinaryOp::DivideAssign | BinaryOp::ModuloAssign
        | BinaryOp::PowerAssign | BinaryOp::AndAssign | BinaryOp::OrAssign | BinaryOp::XOrAssign
        | BinaryOp::LShiftAssign | BinaryOp::RShiftAssign => true,
        _ => false,
    }
}

/// What a function's code ends with after its statements: nothing after a
/// final `return` statement, `Return` after a final expression statement
/// (whose value is then on the stack), else `LoadNil` and `Return`.
pub open spec fn epilogue(listing: Seq<Box<Ast>>) -> Seq<u8> {
    if listing.len() > 0 && *listing.last() is ReturnStmt {
        Seq::empty()
    } else if listing.len() > 0 && *listing.last() is ExprStmt {
        seq![OpCode::Return.spec_to_byte()]
    } else {
        seq![OpCode::LoadNil.spec_to_byte(), OpCode::Return.spec_to_byte()]
    }
}

/// Statement `i` of a function's statements was compiled from `cs[i]` to
/// `cs[i + 1]` (see `node_code_ok`); of a final expression statement only
/// the expression, whose value the function returns.
pub open spec fn stmt_at(listing: Seq<Box<Ast>>, cs: Seq<Seq<u8>>, i: int) -> bool {
    let s = *listing[i];
    if i == listing.len() - 1 && s is ExprStmt {
        node_code_ok(*s->ExprStmt_expr, cs[i], cs[i + 1])
    } else {
        node_code_ok(s, cs[i], cs[i + 1])
    }
}

/// The code points `cs` before each of the statements and after the last:
/// each statement was compiled from one to the next.
pub open spec fn body_code(listing: Seq<Box<Ast>>, cs: Seq<Seq<u8>>) -> bool {
    &&& cs.len() == listing.len() + 1
    &&& forall|i: int| 0 <= i < listing.len() ==> #[trigger] stmt_at(listing, cs, i)
}

impl Compiler {
    /// Appends the arithmetic instruction for `op`.
    fn emit_math(&mut self, op: MathOp, vm: &VM)
        requires
            old(self).wf(vm),
            old(self).symbols.calls@.len() > 0,
        ensures
            final(self).top_is(
                *old(self),
                FunCompiler {
                    code: final(self).symbols.calls@.last().code,
                    ..old(self).symbols.calls@.last()
                },
            ),
            final(self).wf(vm),
            final(self).symbols.calls@.last().code@ == old(self).symbols.calls@.last().code@.push(
                OpCode::MathOp.spec_to_byte(),
            ).push(op.spec_to_byte()),
    {
        self.emit_byte(OpCode::MathOp, u8::from(op), vm);
    }

    /// Ends the code of a function after its statements (see `epilogue`).
    pub fn code_gen_return(&mut self, listing: &Vec<Box<Ast>>, vm: &VM)
        requires
            old(self).wf(vm),
            old(self).symbols.calls@.len() > 0,
        ensures
            final(self).top_is(
                *old(self),
                FunCompiler {
                    code: final(self).symbols.calls@.last().code,
                    ..old(self).symbols.calls@.last()
                },
            ),
            final(self).wf(vm),
            final(self).symbols.calls@.last().code@ == old(self).symbols.calls@.last().code@ + epilogue(
                listing@,
            ),
    {
        let ghost c0 = self.symbols.calls@.last().code@;
        let n = listing.len();
        if n > 0 && matches!(*listing[n - 1], Ast::ReturnStmt { .. }) {
            assert(self.symbols.calls@ =~= old(self).symbols.calls@.drop_last().push(
                old(self).symbols.calls@.last(),
            ));
        } else if n > 0 && matches!(*listing[n - 1], Ast::ExprStmt { .. }) {
            self.emit(OpCode::Return, vm);
        } else {
            self.emit(OpCode::LoadNil, vm);
            assert(self.symbols.calls@.drop_last() =~= old(self).symbols.calls@.drop_last());
            self.emit(OpCode::Return, vm);
            assert(self.symbols.calls@ =~= old(self).symbols.calls@.drop_last().push(
                self.symbols.calls@.last(),
            ));
        }
        assert(self.symbols.calls@.last().code@ =~= c0 + epilogue(listing@));
    }
}


impl Compiler {
    /// Compiles a node into the innermost function: declarations, `return`,
    /// calls, blocks, expression statements (their value popped), literals,
    /// variables, arithmetic, assignments and negation. Other operators are
    /// refused with a message. Succeeds exactly when no error is recorded.
    #[verifier::rlimit(30)]
    pub fn code_gen(&mut self, ast: &Ast, vm: &mut VM) -> (r: Option<usize>)
        requires
            old(self).wf(old(vm)),
            old(self).symbols.calls@.len() > 0,
        ensures
            final(self).cg_ok(*final(vm), *old(self), *old(vm), r),
            r is Some ==> node_code_ok(
                *ast,
                old(self).symbols.calls@.last().code@,
                final(self).symbols.calls@.last().code@,
            ),
            r is Some ==> value_loaded(
                *ast,
                old(self).symbols.calls@.last().code@,
                final(self).symbols.calls@.last().code@,
                final(self).symbols.calls@.last().constant_arr@,
            ),
            r is Some && old(self).at_top() ==> top_code_ok(
                *ast,
                old(self).symbols.calls@.last().code@,
                final(self).symbols.calls@.last().code@,
                local_names(old(self).symbols.calls@.last()),
                *final(self),
                final(self).symbols.calls@.last().constant_arr@,
            ),
            plain_top(*old(self)) && node_ok(*ast, has_var(*old(self)), old(self).mod_var_count())
                && old(self).symbols.calls@.last().constant_arr@.len() + lits(*ast) <= 65536
                ==> compiled_ok(*ast, *old(self), *final(self), r),
        decreases ast, 1nat,
    {
        match ast {
            Ast::FunDecl { .. } => {
                let f = self.code_gen_fun_decl(ast, vm);
                if f.is_none() {
                    return None;
                }
                assert(self.symbols.calls@[self.symbols.calls@.len() - 1].closure is Some);
                self.current_closure()
            },
            Ast::LetDecl { .. } => self.code_gen_let_decl(ast, vm),
            Ast::ReturnStmt { expr } => {
                match expr {
                    Some(e) => {
                        let g = self.code_gen(e, vm);
                        if g.is_none() {
                            return None;
                        }
                        let ghost ce = self.symbols.calls@.last().code@;
                        assert(node_code_ok(**e, old(self).symbols.calls@.last().code@, ce));
                        self.emit(OpCode::Return, vm);
                        return self.current_closure();
                    },
                    None => {
                        self.emit(OpCode::LoadNil, vm);
                    },
                }
                self.emit(OpCode::Return, vm);
                self.current_closure()
            },
            Ast::Call(..) => self.code_gen_call(ast, vm),
            Ast::Block { .. } | Ast::Program { .. } => self.code_gen_block(ast, vm),
            Ast::ExprStmt { expr } => {
                let g = self.code_gen(expr, vm);
                if g.is_none() {
                    return None;
                }
                let ghost ce = self.symbols.calls@.last().code@;
                assert(node_code_ok(**expr, old(self).symbols.calls@.last().code@, ce));
                self.emit(OpCode::Pop, vm);
                self.current_closure()
            },
            Ast::Value { val } => self.code_gen_value(val, vm),
            Ast::Variable { name, arity } => {
                let ghost actual = local_name(name@, *arity);
                proof {
                    let fc = self.symbols.calls@.last();
                    if !local_names(fc).contains(actual) {
                        lemma_no_local_named(fc.locals@, actual);
                    }
                }
                let r = self.code_gen_var(name, *arity, vm);
                proof {
                    if r is Some && old(self).mod_var(actual) is Some {
                        lemma_module_var_stays(*old(self), *old(vm), *self, *vm, actual);
                    }
                }
                r
            },
            Ast::Binary(op, _, _) => {
                if is_assign_op(*op) {
                    self.code_gen_assign(ast, vm)
                } else {
                    self.emit_math_op(ast, vm)
                }
            },
            Ast::Unary(op, operand) => {
                match operand {
                    Some(e) => {
                        if *op == UnaryOp::Negate {
                            let g = self.code_gen(e, vm);
                            if g.is_none() {
                                return None;
                            }
                            let ghost ce = self.symbols.calls@.last().code@;
                            assert(node_code_ok(**e, old(self).symbols.calls@.last().code@, ce));
                            self.emit(OpCode::Neg, vm);
                            self.current_closure()
                        } else {
                            self.error("operator is not supported");
                            None
                        }
                    },
                    None => {
                        self.error("operand expected");
                        None
                    },
                }
            },
            Ast::TrueStmt => {
                self.emit(OpCode::LoadTrue, vm);
                self.current_closure()
            },
            Ast::FalseStmt => {
                self.emit(OpCode::LoadFalse, vm);
                self.current_closure()
            },
        }
    }

    /// Compiles the statements of a block one after the other; an error in
    /// one does not stop the others.
    fn code_gen_block(&mut self, ast: &Ast, vm: &mut VM) -> (r: Option<usize>)
        requires
            old(self).wf(old(vm)),
            old(self).symbols.calls@.len() > 0,
            ast is Block || ast is Program,
        ensures
            final(self).cg_ok(*final(vm), *old(self), *old(vm), r),
            r is Some ==> node_code_ok(
                *ast,
                old(self).symbols.calls@.last().code@,
                final(self).symbols.calls@.last().code@,
            ),
        decreases ast, 0nat,
    {
        let listing = match ast {
            Ast::Block { listing } => listing,
            Ast::Program { listing } => listing,
            _ => {
                return None;
            },
        };
        let mut ok = true;
        let mut i: usize = 0;
        let ghost mut cs: Seq<Seq<u8>> = seq![self.symbols.calls@.last().code@];
        while i < listing.len()
            invariant
                self.wf(vm),
                self.cg_post(*vm, *old(self), *old(vm)),
                ok <==> self.errors@.len() == old(self).errors@.len(),
                self.symbols.calls@.len() > 0,
                i <= listing@.len(),
                ast is Block || ast is Program,
                ast is Block ==> listing == ast->Block_listing,
                ast is Program ==> listing == ast->Program_listing,
                cs.len() == i + 1,
                cs[0] == old(self).symbols.calls@.last().code@,
                ok ==> cs.last() == self.symbols.calls@.last().code@,
                ok ==> list_code_ok(listing@.subrange(0, i as int), cs),
            decreases listing@.len() - i,
        {
            proof {
                lemma_smaller(*ast, *listing, i as int);
            }
            let g = self.code_gen(&listing[i], vm);
            if g.is_none() {
                ok = false;
            }
            proof {
                let prev = cs;
                cs = cs.push(self.symbols.calls@.last().code@);
                if ok {
                    let l2 = listing@.subrange(0, i + 1);
                    assert(l2.subrange(0, l2.len() - 1) =~= listing@.subrange(0, i as int));
                    assert(cs.subrange(0, cs.len() - 1) =~= prev);
                    assert(l2[l2.len() - 1] == listing@[i as int]);
                    assert(list_code_ok(l2, cs));
                }
            }
            i = i + 1;
        }
        if ok {
            assert(listing@.subrange(0, i as int) =~= listing@);
            self.current_closure()
        } else {
            None
        }
    }
}

/// The operator is an assignment, plain or compound.
fn is_assign_op(op: BinaryOp) -> (r: bool)
    ensures
        r == is_assign(op),
{
    match op {
        BinaryOp::Assign | BinaryOp::AddAssign | BinaryOp::SubtractAssign
        | BinaryOp::MultiplyAssign | BinaryOp::DivideAssign | BinaryOp::ModuloAssign
        | BinaryOp::PowerAssign | BinaryOp::AndAssign | BinaryOp::OrAssign | BinaryOp::XOrAssign
        | BinaryOp::LShiftAssign | BinaryOp::RShiftAssign => true,
        _ => false,
    }
}


impl Compiler {
    /// The instructions for an arithmetic operation: the left operand, the
    /// right operand, then `MathOp` with the operator. Bitwise and logical
    /// operators are refused with a message.
    fn emit_math_op(&mut self, ast: &Ast, vm: &mut VM) -> (r: Option<usize>)
        requires
            old(self).wf(old(vm)),
            old(self).symbols.calls@.len() > 0,
            ast is Binary,
            !is_assign(ast->Binary_0),
        ensures
            final(self).cg_ok(*final(vm), *old(self), *old(vm), r),
            r is Some ==> node_code_ok(
                *ast,
                old(self).symbols.calls@.last().code@,
                final(self).symbols.calls@.last().code@,
            ),
            r is Some ==> ast->Binary_1 is Some && ast->Binary_2 is Some && math_of(ast->Binary_0) is Some
                && (old(self).at_top() ==> math_loaded(
                *ast->Binary_1->0,
                *ast->Binary_2->0,
                math_of(ast->Binary_0)->0,
                old(self).symbols.calls@.last().code@,
                final(self).symbols.calls@.last().code@,
                local_names(old(self).symbols.calls@.last()),
                *final(self),
                final(self).symbols.calls@.last().constant_arr@,
            )),
            plain_top(*old(self)) && node_ok(*ast, has_var(*old(self)), old(self).mod_var_count())
                && old(self).symbols.calls@.last().constant_arr@.len() + lits(*ast) <= 65536
                ==> compiled_ok(*ast, *old(self), *final(self), r),
        decreases ast, 0nat,
    {
        match ast {
            Ast::Binary(op, left, right) => {
                let m = math_op_of(*op);
                match (m, left, right) {
                    (Some(mop), Some(l), Some(rt)) => {
                        let g = self.code_gen(l, vm);
                        if g.is_none() {
                            return None;
                        }
                        let ghost cl = self.symbols.calls@.last().code@;
                        let ghost kl = self.symbols.calls@.last().constant_arr@;
                        let ghost comp_l = *self;
                        let ghost vm_l = *vm;
                        let g2 = self.code_gen(rt, vm);
                        if g2.is_none() {
                            return None;
                        }
                        let ghost cr = self.symbols.calls@.last().code@;
                        let ghost kr = self.symbols.calls@.last().constant_arr@;
                        let ghost comp_r = *self;
                        let ghost vm_r = *vm;
                        assert(node_code_ok(**l, old(self).symbols.calls@.last().code@, cl));
                        assert(node_code_ok(**rt, cl, cr));
                        assert(extends(cl, cr));
                        self.emit_math(mop, vm);
                        proof {
                            lemma_value_loaded_kept(**l, old(self).symbols.calls@.last().code@, cl, kl, kr);
                            assert(self.symbols.calls@.last().constant_arr@ == kr);
                            assert(value_loaded(**l, old(self).symbols.calls@.last().code@, cl, kr));
                            assert(value_loaded(**rt, cl, cr, kr));
                            if old(self).at_top() {
                                let locals = local_names(old(self).symbols.calls@.last());
                                let c0 = old(self).symbols.calls@.last().code@;
                                assert(comp_l.at_top());
                                assert(local_names(comp_l.symbols.calls@.last()) == locals);
                                if **l is Variable {
                                    assert(module_read(**l, c0, cl, locals, comp_l));
                                }
                                if **rt is Variable {
                                    assert(module_read(**rt, cl, cr, locals, comp_r));
                                }
                                assert(keeps_mod_vars(comp_l, *self));
                                assert(keeps_mod_vars(comp_r, *self));
                                lemma_module_read_kept(**l, c0, cl, locals, comp_l, vm_l, *self, *vm);
                                lemma_module_read_kept(**rt, cl, cr, locals, comp_r, vm_r, *self, *vm);
                            }
                        }
                        self.current_closure()
                    },
                    (None, _, _) => {
                        self.error("operator is not supported");
                        None
                    },
                    _ => {
                        self.error("operand expected");
                        None
                    },
                }
            },
            _ => {
                self.error("operand expected");
                None
            },
        }
    }

    /// An assignment to a variable: for a compound one the variable is
    /// loaded first and the operator applied after the right side; the
    /// result is stored into the variable and stays on the stack.
    #[verifier::rlimit(30)]
    fn code_gen_assign(&mut self, ast: &Ast, vm: &mut VM) -> (r: Option<usize>)
        requires
            old(self).wf(old(vm)),
            old(self).symbols.calls@.len() > 0,
            ast is Binary,
            is_assign(ast->Binary_0),
        ensures
            final(self).cg_ok(*final(vm), *old(self), *old(vm), r),
            r is Some ==> node_code_ok(
                *ast,
                old(self).symbols.calls@.last().code@,
                final(self).symbols.calls@.last().code@,
            ),
            r is Some && old(self).at_top() ==> top_code_ok(
                *ast,
                old(self).symbols.calls@.last().code@,
                final(self).symbols.calls@.last().code@,
                local_names(old(self).symbols.calls@.last()),
                *final(self),
                final(self).symbols.calls@.last().constant_arr@,
            ),
            plain_top(*old(self)) && node_ok(*ast, has_var(*old(self)), old(self).mod_var_count())
                && old(self).symbols.calls@.last().constant_arr@.len() + lits(*ast) <= 65536
                ==> compiled_ok(*ast, *old(self), *final(self), r),
            ast->Binary_0 != BinaryOp::Assign && math_of(ast->Binary_0) is None ==> r is None
                && final(self).errors@.last()@ == "error: "@ + "operator is not supported"@,
            (ast->Binary_0 == BinaryOp::Assign || math_of(ast->Binary_0) is Some) && (
            ast->Binary_1 is None || (*ast->Binary_1->0 is Variable && ast->Binary_2 is None)) ==> r is None
                && final(self).errors@.last()@ == "error: "@ + "operand expected"@,
            (ast->Binary_0 == BinaryOp::Assign || math_of(ast->Binary_0) is Some) && ast->Binary_1
                is Some && !(*ast->Binary_1->0 is Variable) ==> r is None
                && final(self).errors@.last()@ == "error: "@
                + "only variables and fields can be on left side of assignment"@,
        decreases ast, 0nat,
    {
        match ast {
            Ast::Binary(op, left, right) => {
                let compound = *op != BinaryOp::Assign;
                let m = math_op_of(*op);
                if compound && m.is_none() {
                    self.error("operator is not supported");
                    return None;
                }
                let (name, arity) = match left {
                    Some(l) => match &**l {
                        Ast::Variable { name, arity } => (name, *arity),
                        _ => {
                            self.error("only variables and fields can be on left side of assignment");
                            return None;
                        },
                    },
                    None => {
                        self.error("operand expected");
                        return None;
                    },
                };
                let rt = match right {
                    Some(rt) => rt,
                    None => {
                        self.error("operand expected");
                        return None;
                    },
                };
                let ghost actual = local_name(name@, arity);
                proof {
                    let fc = self.symbols.calls@.last();
                    if !local_names(fc).contains(actual) {
                        lemma_no_local_named(fc.locals@, actual);
                    }
                }
                let res = self.resolve_var(name, arity, true, vm);
                let ghost after_resolve = *self;
                let ghost vm_r = *vm;
                let v = match res {
                    Ok(v) => v,
                    Err(e) => {
                        let msg = var_error_message(&e, name);
                        self.error(msg.as_str());
                        return None;
                    },
                };
                let ghost c0 = self.symbols.calls@.last().code@;
                assert(c0 == old(self).symbols.calls@.last().code@);
                if compound {
                    self.emit_var_load(&v, vm);
                }
                let ghost cs = self.symbols.calls@.last().code@;
                let g = self.code_gen(rt, vm);
                if g.is_none() {
                    return None;
                }
                let ghost cr = self.symbols.calls@.last().code@;
                assert(node_code_ok(**rt, cs, cr));
                match m {
                    Some(mop) => {
                        if compound {
                            self.emit_math(mop, vm);
                        }
                    },
                    None => {},
                }
                self.emit_var_store(&v, vm);
                proof {
                    let c1 = self.symbols.calls@.last().code@;
                    if !compound && old(self).at_top() && !local_names(
                        old(self).symbols.calls@.last(),
                    ).contains(actual) {
                        lemma_module_var_stays(after_resolve, vm_r, *self, *vm, actual);
                        let j = self.mod_var(actual)->0;
                        assert(v.scope_type == ScopeType::Module && v.index as int == j);
                        assert(c1 == cr + store_code(ScopeType::Module, j as usize));
                        assert(cs == c0);
                        assert(top_code_ok(
                            *ast,
                            old(self).symbols.calls@.last().code@,
                            c1,
                            local_names(old(self).symbols.calls@.last()),
                            *self,
                            self.symbols.calls@.last().constant_arr@,
                        ));
                    }
                    if compound {
                        let mm = m->0;
                        assert(c1 == cr.push(OpCode::MathOp.spec_to_byte()).push(mm.spec_to_byte())
                            + store_code(v.scope_type, v.index));
                        assert(cs == c0 + load_code(v.scope_type, v.index));

                    } else {
                        assert(c1 == cr + store_code(v.scope_type, v.index));
                        assert(cs == c0);
                    }
                }
                self.current_closure()
            },
            _ => {
                self.error("operand expected");
                None
            },
        }
    }

    /// A call: the callee (a variable, resolved with the number of
    /// arguments as its arity, or any other expression), the arguments,
    /// then `Call` with their number.
    #[verifier::rlimit(30)]
    fn code_gen_call(&mut self, ast: &Ast, vm: &mut VM) -> (r: Option<usize>)
        requires
            old(self).wf(old(vm)),
            old(self).symbols.calls@.len() > 0,
            ast is Call,
        ensures
            final(self).cg_ok(*final(vm), *old(self), *old(vm), r),
            r is Some ==> node_code_ok(
                *ast,
                old(self).symbols.calls@.last().code@,
                final(self).symbols.calls@.last().code@,
            ),
        decreases ast, 0nat,
    {
        match ast {
            Ast::Call(recv, args) => {
                if args.len() > 255 {
                    self.error("too many arguments");
                    return None;
                }
                let ghost c0 = self.symbols.calls@.last().code@;
                match recv {
                    Some(rv) => {
                        match &**rv {
                            Ast::Variable { name, .. } => {
                                let res = self.resolve_var(name, Some(args.len()), false, vm);
                                match res {
                                    Ok(v) => {
                                        self.emit_var_load(&v, vm);
                                        assert(self.symbols.calls@.last().code@ == c0 + load_code(
                                            v.scope_type,
                                            v.index,
                                        ));
                                    },
                                    Err(e) => {
                                        let msg = var_error_message(&e, name);
                                        self.error(msg.as_str());
                                        return None;
                                    },
                                }
                            },
                            _ => {
                                let g = self.code_gen(rv, vm);
                                if g.is_none() {
                                    return None;
                                }
                            },
                        }
                    },
                    None => {
                        self.error("function expected before '('");
                        return None;
                    },
                }
                let ghost callee_code = self.symbols.calls@.last().code@;
                let ghost mut cs: Seq<Seq<u8>> = seq![callee_code];
                let mut i: usize = 0;
                while i < args.len()
                    invariant
                        self.wf(vm),
                        self.symbols.calls@.len() > 0,
                        self.cg_post(*vm, *old(self), *old(vm)),
                        self.errors@.len() == old(self).errors@.len(),
                        i <= args@.len(),
                        ast is Call,
                        args == ast->Call_1,
                        cs.len() == i + 1,
                        cs[0] == callee_code,
                        cs.last() == self.symbols.calls@.last().code@,
                        list_code_ok(args@.subrange(0, i as int), cs),
                    decreases args@.len() - i,
                {
                    proof {
                        lemma_smaller(*ast, *args, i as int);
                    }
                    let g = self.code_gen(&args[i], vm);
                    if g.is_none() {
                        return None;
                    }
                    proof {
                        let prev = cs;
                        cs = cs.push(self.symbols.calls@.last().code@);
                        let l2 = args@.subrange(0, i + 1);
                        assert(l2.subrange(0, l2.len() - 1) =~= args@.subrange(0, i as int));
                        assert(cs.subrange(0, cs.len() - 1) =~= prev);
                        assert(l2[l2.len() - 1] == args@[i as int]);
                        assert(list_code_ok(l2, cs));
                    }
                    i = i + 1;
                }
                assert(args@.subrange(0, i as int) =~= args@);
                self.emit_byte(OpCode::Call, args.len() as u8, vm);
                self.current_closure()
            },
            _ => {
                self.error("function expected before '('");
                None
            },
        }
    }

    /// A `let` declaration: the variable is declared (with the arity of a
    /// function it is given), its value compiled, then defined.
    #[verifier::rlimit(30)]
    fn code_gen_let_decl(&mut self, ast: &Ast, vm: &mut VM) -> (r: Option<usize>)
        requires
            old(self).wf(old(vm)),
            old(self).symbols.calls@.len() > 0,
            ast is LetDecl,
        ensures
            final(self).cg_ok(*final(vm), *old(self), *old(vm), r),
            r is Some ==> node_code_ok(
                *ast,
                old(self).symbols.calls@.last().code@,
                final(self).symbols.calls@.last().code@,
            ),
            r is Some ==> value_loaded(
                *ast,
                old(self).symbols.calls@.last().code@,
                final(self).symbols.calls@.last().code@,
                final(self).symbols.calls@.last().constant_arr@,
            ),
            r is Some && old(self).at_top() ==> top_code_ok(
                *ast,
                old(self).symbols.calls@.last().code@,
                final(self).symbols.calls@.last().code@,
                local_names(old(self).symbols.calls@.last()),
                *final(self),
                final(self).symbols.calls@.last().constant_arr@,
            ),
            plain_top(*old(self)) && node_ok(*ast, has_var(*old(self)), old(self).mod_var_count())
                && old(self).symbols.calls@.last().constant_arr@.len() + lits(*ast) <= 65536
                ==> compiled_ok(*ast, *old(self), *final(self), r),
        decreases ast, 0nat,
    {
        match ast {
            Ast::LetDecl { name, expr } => {
                let arity = match &**expr {
                    Ast::FunDecl { params, .. } => Some(params.len()),
                    _ => None,
                };
                let top = self.symbols.calls.len() == 1 && self.symbols.calls[0].scope == 0;
                let res = self.add_var(name, arity, vm);
                proof {
                    lemma_lower_code(old(self).symbols.calls@, self.symbols.calls@);
                }
                let v = match res {
                    Ok(v) => v,
                    Err(e) => {
                        let msg = decl_error_message(&e, top);
                        self.error(msg.as_str());
                        return None;
                    },
                };
                let ghost c1 = *self;
                let ghost vm1 = *vm;
                let ghost fine = plain_top(*old(self)) && node_ok(
                    *ast,
                    has_var(*old(self)),
                    old(self).mod_var_count(),
                ) && old(self).symbols.calls@.last().constant_arr@.len() + lits(*ast) <= 65536;
                proof {
                    if fine {
                        assert(arity is None);
                        assert(local_name(name@, arity) == name@);
                        assert(plain_top(c1));
                        assert(lits(*ast) == lits(**expr));
                        assert(node_ok(**expr, has_var(c1), c1.mod_var_count()));
                    }
                }
                let g = self.code_gen(expr, vm);
                if g.is_none() {
                    return None;
                }
                let ghost c3 = *self;
                proof {
                    if top {
                        lemma_module_var_stays(c1, vm1, *self, *vm, local_name(name@, arity));
                    }
                }
                let ghost body = self.symbols.calls@.last().code@;
                let ghost c2 = self.symbols.calls@;
                assert(node_code_ok(**expr, old(self).symbols.calls@.last().code@, body));
                self.define_var(&v, vm);
                proof {
                    lemma_lower_code(c2, self.symbols.calls@);
                    if top {
                        assert(let_arity(**expr) == arity);
                        let j = self.mod_var(local_name(name@, arity))->0;
                        assert(j == v.index as int);
                        assert(self.symbols.calls@.last().code@ == body + define_code(
                            ScopeType::Module,
                            j as usize,
                        ));
                        assert(top_code_ok(
                            *ast,
                            old(self).symbols.calls@.last().code@,
                            self.symbols.calls@.last().code@,
                            local_names(old(self).symbols.calls@.last()),
                            *self,
                            self.symbols.calls@.last().constant_arr@,
                        ));
                    }
                }
                proof {
                    if fine {
                        assert(self.symbols.mods@ == c1.symbols.mods@);
                        assert forall|n: Seq<char>| n != name@ implies #[trigger] self.mod_var(n)
                            == old(self).mod_var(n) by {
                            assert(self.mod_var(n) == c1.mod_var(n));
                        }
                        assert(self.mod_var_count() == c1.mod_var_count());
                    }
                }
                assert(define_code(v.scope_type, v.index) == define_code(v.scope_type, v.index));
                assert(self.symbols.calls@.last().code@.subrange(
                    body.len() as int,
                    self.symbols.calls@.last().code@.len() as int,
                ) =~= define_code(v.scope_type, v.index));
                self.current_closure()
            },
            _ => {
                self.error("declaration expected");
                None
            },
        }
    }
}


impl Compiler {
    /// A parameter: declared as a local of the function and marked
    /// initialized; anything but a variable is refused.
    fn code_gen_param(&mut self, param: &Ast, vm: &mut VM) -> (r: bool)
        requires
            old(self).wf(old(vm)),
            old(self).symbols.calls@.len() > 0,
        ensures
            final(self).cg_post(*final(vm), *old(self), *old(vm)),
            r <==> final(self).errors@.len() == old(self).errors@.len(),
            !(param is Variable) ==> !r,
            param is Variable && !old(self).at_top() ==> {
                let fc = old(self).symbols.calls@.last();
                let name = param->Variable_name@;
                &&& r <==> (!clash_in_scope(fc.locals@, fc.scope, name) && fc.locals@.len() < MAX_LOCALS)
                &&& r ==> local_names(final(self).symbols.calls@.last()) == local_names(fc).push(name)
                    && final(self).symbols.calls@.last().code@ == fc.code@
            },
            param is Variable && old(self).at_top() ==> (old(self).mod_var(param->Variable_name@) is Some
                ==> !r) && (r ==> final(self).mod_var(param->Variable_name@) is Some),
    {
        match param {
            Ast::Variable { name, .. } => {
                let top = self.symbols.calls.len() == 1 && self.symbols.calls[0].scope == 0;
                let res = self.add_var(name, None, vm);
                let ghost c1 = self.symbols.calls@;
                proof {
                    lemma_lower_code(old(self).symbols.calls@, c1);
                }
                match res {
                    Ok(v) => {
                        let ghost c2 = *self;
                        self.define_var(&v, vm);
                        proof {
                            lemma_lower_code(c1, self.symbols.calls@);
                            if !old(self).at_top() {
                                assert(define_code(v.scope_type, v.index) =~= Seq::<u8>::empty());
                                assert(self.symbols.calls@.last().code@ =~= c2.symbols.calls@.last().code@);
                                assert(local_names(c2.symbols.calls@.last()) =~= local_names(
                                    old(self).symbols.calls@.last(),
                                ).push(name@));
                            }
                        }
                        true
                    },
                    Err(e) => {
                        let msg = decl_error_message(&e, top);
                        self.error(msg.as_str());
                        false
                    },
                }
            },
            _ => {
                self.error("function parameter should be a variable");
                false
            },
        }
    }

    /// A function declaration: a new entry of the function table and a new
    /// function compiler for its parameters and statements; a final
    /// expression statement leaves its value as the result. When all went
    /// well the entry gets the code and constants, and a closure (not the
    /// top-level code) is loaded in the enclosing function, a named one
    /// also declared there under its name and arity.
    #[verifier::rlimit(30)]
    pub fn code_gen_fun_decl(&mut self, ast: &Ast, vm: &mut VM) -> (r: Option<usize>)
        requires
            old(self).wf(old(vm)),
            ast is FunDecl,
        ensures
            final(self).cg_post(*final(vm), *old(self), *old(vm)),
            r is Some <==> final(self).errors@.len() == old(self).errors@.len(),
            r matches Some(f) ==> old(vm).functions@.len() <= f < final(vm).functions@.len(),
            r is Some && old(self).symbols.calls@.len() > 0 ==> node_code_ok(
                *ast,
                old(self).symbols.calls@.last().code@,
                final(self).symbols.calls@.last().code@,
            ),
            r matches Some(f) ==> ({
                let core = final(vm).functions@[f as int];
                &&& core.name@ == ast->FunDecl_name@
                &&& core.arity == ast->FunDecl_params@.len()
                &&& core.ty == ast->FunDecl_fun_ty
                &&& exists|cs: Seq<Seq<u8>>|
                    #[trigger] body_code(ast->FunDecl_listing@, cs) && core.code@ == cs.last()
                        + epilogue(ast->FunDecl_listing@) && (ast->FunDecl_params@.len() == 0
                        ==> cs[0].len() == 0) && (old(self).symbols.calls@.len() == 0
                        && ast->FunDecl_fun_ty == FunctionType::TopLevel ==> top_body(
                        ast->FunDecl_listing@,
                        cs,
                        *final(self),
                        core.constants@,
                    ))
            }),
            old(self).symbols.calls@.len() == 0 && ast->FunDecl_fun_ty == FunctionType::TopLevel
                && ast->FunDecl_params@.len() == 0 && prog_ok(
                ast->FunDecl_listing@,
                has_var(*old(self)),
                old(self).mod_var_count(),
            ) ==> r is Some,
        decreases ast, 0nat,
    {
        match ast {
            Ast::FunDecl { name, fun_ty, params, listing, .. } => {
                let ty = *fun_ty;
                let depth = self.symbols.calls.len();
                if ty != FunctionType::TopLevel && depth == 0 {
                    self.error("function compiler stack is empty");
                    return None;
                }
                if depth >= MAX_NESTING {
                    self.error("functions are nested too deeply");
                    return None;
                }
                let arity = params.len();
                let f = vm.functions.len();
                vm.functions.push(FunctionCore::new(name.clone(), arity, ty));
                let mut fc = if ty == FunctionType::TopLevel {
                    FunCompiler::new_main()
                } else if ty == FunctionType::AnonClosure {
                    FunCompiler::new_anon_closure(arity, depth)
                } else {
                    FunCompiler::new_named_closure(name.as_str(), arity, depth)
                };
                fc.closure = Some(f);
                if ty != FunctionType::TopLevel {
                    fc.begin_scope();
                }
                proof {
                    lemma_calls_grow(self.symbols.calls@, old(vm).functions@.len(), vm.functions@.len());
                    lemma_calls_push(self.symbols.calls@, fc, vm.functions@.len());
                }
                self.put_last(fc);
                let ghost c1 = *self;
                let ghost vm1 = *vm;
                assert(c1.symbols.calls@.last().closure == Some(f));
                let ghost top_level = depth == 0 && ty == FunctionType::TopLevel;
                proof {
                    if top_level {
                        assert(local_names(fc) =~= seq![Seq::<char>::empty()]);
                        assert(c1.symbols.calls@ =~= seq![fc]);
                        assert(c1.at_top());
                    }
                }
                let mut ok = true;
                let mut i: usize = 0;
                while i < params.len()
                    invariant
                        self.wf(vm),
                        self.cg_post(*vm, c1, vm1),
                        c1.symbols.calls@ == old(self).symbols.calls@.push(fc),
                        c1.symbols.calls@.len() == depth + 1,
                        c1.symbols.calls@.last().closure == Some(f),
                        c1.errors == old(self).errors,
                        f < vm1.functions@.len(),
                        vm1.functions@.len() == old(vm).functions@.len() + 1,
                        vm1.calls == old(vm).calls,
                        vm1.stack == old(vm).stack,
                        ok <==> self.errors@.len() == c1.errors@.len(),
                        i <= params@.len(),
                        params == ast->FunDecl_params,
                        params@.len() == 0 ==> self.symbols.calls@.last().code@.len() == 0,
                        i == 0 ==> *self == c1,
                    decreases params@.len() - i,
                {
                    let g = self.code_gen_param(&params[i], vm);
                    if !g {
                        ok = false;
                    }
                    i = i + 1;
                }
                let n = listing.len();
                let mut i: usize = 0;
                let ghost fine = top_level && params@.len() == 0 && prog_ok(
                    listing@,
                    has_var(*old(self)),
                    old(self).mod_var_count(),
                );
                proof {
                    if fine {
                        assert(c1.symbols.mods@ == old(self).symbols.mods@);
                        assert(*self == c1);
                        assert(self.symbols.calls@.last().constant_arr@.len() == 0);
                    }
                }
                let ghost start = self.symbols.calls@.last().code@;
                let ghost mut cs: Seq<Seq<u8>> = seq![start];
                assert(params@.len() == 0 ==> start.len() == 0);
                while i < n
                    invariant
                        self.wf(vm),
                        self.cg_post(*vm, c1, vm1),
                        cs.len() == i + 1,
                        cs[0] == start,
                        params@.len() == 0 ==> start.len() == 0,
                        ok ==> cs.last() == self.symbols.calls@.last().code@,
                        ok ==> forall|k: int| 0 <= k < i ==> #[trigger] stmt_at(listing@, cs, k),
                        top_level ==> c1.at_top() && local_names(c1.symbols.calls@.last()) == seq![
                            Seq::<char>::empty(),
                        ],
                        top_level && ok ==> forall|k: int|
                            0 <= k < i ==> #[trigger] top_stmt_at(
                                listing@,
                                cs,
                                k,
                                seq![Seq::<char>::empty()],
                                *self,
                                self.symbols.calls@.last().constant_arr@,
                            ),
                        top_level == (depth == 0 && ty == FunctionType::TopLevel),
                        fine == (top_level && params@.len() == 0 && prog_ok(
                            listing@,
                            has_var(*old(self)),
                            old(self).mod_var_count(),
                        )),
                        fine ==> ok && plain_top(*self) && self.symbols.curr_mod == old(
                            self,
                        ).symbols.curr_mod && self.mod_var_count() == old(self).mod_var_count()
                            + let_count(listing@, i as int)
                            && self.symbols.calls@.last().constant_arr@.len() <= lits_upto(
                            listing@,
                            i as int,
                        ) && forall|nm: Seq<char>|
                            #[trigger] self.mod_var(nm) is Some <==> (old(self).mod_var(nm) is Some
                                || let_names(listing@, i as int).contains(nm)),
                        c1.symbols.calls@ == old(self).symbols.calls@.push(fc),
                        c1.symbols.calls@.len() == depth + 1,
                        c1.symbols.calls@.last().closure == Some(f),
                        c1.errors == old(self).errors,
                        f < vm1.functions@.len(),
                        vm1.functions@.len() == old(vm).functions@.len() + 1,
                        vm1.calls == old(vm).calls,
                        vm1.stack == old(vm).stack,
                        ok <==> self.errors@.len() == c1.errors@.len(),
                        i <= n,
                        n == listing@.len(),
                        ast is FunDecl,
                        listing == ast->FunDecl_listing,
                    decreases n - i,
                {
                    proof {
                        lemma_smaller(*ast, *listing, i as int);
                    }
                    let ghost before = *self;
                    let ghost vmb = *vm;
                    proof {
                        if fine {
                            lemma_stmt_fits_here(listing@, i as int, *old(self), *self);
                        }
                    }
                    proof {
                        if top_level {
                            assert(before.symbols.calls@.len() == 1);
                            assert(before.symbols.calls@[0] == before.symbols.calls@.last());
                            assert(c1.symbols.calls@[0] == c1.symbols.calls@.last());
                            assert(before.at_top());
                            assert(local_names(before.symbols.calls@.last()) == seq![Seq::<char>::empty()]);
                        }
                    }
                    let g = if i + 1 == n {
                        match &*listing[i] {
                            Ast::ExprStmt { expr } => {
                                assert(decreases_to!(listing@[i as int] => *expr));
                                self.code_gen(expr, vm)
                            },
                            _ => self.code_gen(&listing[i], vm),
                        }
                    } else {
                        self.code_gen(&listing[i], vm)
                    };
                    if g.is_none() {
                        ok = false;
                    }
                    proof {
                        if fine {
                            lemma_stmt_fits_after(listing@, i as int, *old(self), before, *self);
                        }
                    }
                    proof {
                        let prev = cs;
                        cs = cs.push(self.symbols.calls@.last().code@);
                        if ok {
                            assert(stmt_at(listing@, cs, i as int));
                            assert forall|k: int| 0 <= k < i + 1 implies #[trigger] stmt_at(
                                listing@,
                                cs,
                                k,
                            ) by {
                                if k < i {
                                    assert(stmt_at(listing@, prev, k));
                                    assert(cs[k] == prev[k] && cs[k + 1] == prev[k + 1]);
                                }
                            }
                            if top_level {
                                assert(keeps_mod_vars(before, *self));
                                let cb = before.symbols.calls@.last().constant_arr@;
                                let ca = self.symbols.calls@.last().constant_arr@;
                                assert(top_stmt_at(listing@, cs, i as int, seq![Seq::<char>::empty()], *self, ca));
                                assert forall|k: int| 0 <= k < i + 1 implies #[trigger] top_stmt_at(
                                    listing@,
                                    cs,
                                    k,
                                    seq![Seq::<char>::empty()],
                                    *self,
                                    ca,
                                ) by {
                                    if k < i {
                                        assert(top_stmt_at(listing@, prev, k, seq![Seq::<char>::empty()], before, cb));
                                        assert(cs[k] == prev[k] && cs[k + 1] == prev[k + 1]);
                                        assert(top_stmt_at(listing@, cs, k, seq![Seq::<char>::empty()], before, cb));
                                        lemma_top_stmt_kept(listing@, cs, k, seq![Seq::<char>::empty()], before, vmb, cb, *self, *vm, ca);
                                    }
                                }
                            }
                        }
                    }
                    i = i + 1;
                }
                let ghost body = self.symbols.calls@.last().code@;
                let ghost c_end = *self;
                let ghost vm_end = *vm;
                if ok {
                    self.code_gen_return(listing, vm);
                }
                let ghost c2 = *self;
                let done = self.take_last();
                proof {
                    assert forall|k: int| 0 <= k < depth implies (#[trigger] self.symbols.calls@[k])
                        == c2.symbols.calls@[k] by {}
                    assert forall|k: int| 0 <= k < depth implies (#[trigger] c1.symbols.calls@[k])
                        == old(self).symbols.calls@[k] by {}
                    if depth == 0 {
                        assert(self.symbols.calls@ =~= old(self).symbols.calls@);
                    } else {
                        assert(self.symbols.calls@.last() == self.symbols.calls@[depth - 1]);
                        assert(old(self).symbols.calls@.last() == old(self).symbols.calls@[depth - 1]);
                    }
                    assert forall|k: int| 0 <= k < depth implies (#[trigger] self.symbols.calls@[k]).code
                        == old(self).symbols.calls@[k].code by {
                        assert(c2.symbols.calls@[k].code == c1.symbols.calls@[k].code);
                    }
                    if depth > 0 {
                        assert(self.symbols.calls@[depth - 1].code == old(self).symbols.calls@[depth
                            - 1].code);
                        assert(self.symbols.calls@.last().code@ == old(self).symbols.calls@.last().code@);
                    }
                }
                if !ok {
                    return None;
                }
                let core = FunctionCore {
                    name: name.clone(),
                    arity,
                    ty,
                    code: done.code,
                    constants: done.constant_arr,
                };
                assert(core.code@ == body + epilogue(listing@));
                assert(body_code(listing@, cs));
                vm.functions.set(f, core);
                if ty == FunctionType::NamedClosure || ty == FunctionType::AnonClosure {
                    let ghost outer = self.symbols.calls@.last().code@;
                    let loaded = self.emit_constant(&Value::Closure(f), vm);
                    if loaded.is_none() {
                        return None;
                    }
                    let ghost k = choose|k: usize|
                        k < 65536 && k < self.symbols.calls@.last().constant_arr@.len()
                            && self.symbols.calls@.last().code@ == #[trigger] load_constant_code(
                            outer,
                            k,
                        ) && self.symbols.calls@.last().constant_arr@[k as int]@ == (Value::Closure(
                            f,
                        ))@;
                    assert(self.symbols.calls@.last().code@ == load_constant_code(outer, k));
                    if ty == FunctionType::NamedClosure {
                        let ghost b = self.symbols.calls@;
                        let res = self.add_var(name, Some(arity), vm);
                        let ghost c = self.symbols.calls@;
                        proof {
                            lemma_lower_code(b, c);
                        }
                        match res {
                            Ok(v) => {
                                self.define_var(&v, vm);
                                proof {
                                    lemma_lower_code(c, self.symbols.calls@);
                                }
                                assert(self.symbols.calls@.last().code@ == load_constant_code(outer, k)
                                    + define_code(v.scope_type, v.index));
                            },
                            Err(_) => {},
                        }
                    }
                    proof {
                        if depth > 0 {
                            assert(outer == old(self).symbols.calls@.last().code@);
                        }
                    }
                }
                proof {
                    if top_level {
                        assert(keeps_mod_vars(c_end, *self));
                        let ce = c_end.symbols.calls@.last().constant_arr@;
                        let cf = vm.functions@[f as int].constants@;
                        assert(prefix_of(ce, cf));
                        assert forall|k: int| 0 <= k < listing@.len() implies #[trigger] top_stmt_at(
                            listing@,
                            cs,
                            k,
                            seq![Seq::<char>::empty()],
                            *self,
                            cf,
                        ) by {
                            lemma_top_stmt_kept(listing@, cs, k, seq![Seq::<char>::empty()], c_end, vm_end, ce, *self, *vm, cf);
                        }
                        assert(top_body(listing@, cs, *self, cf));
                    }
                }
                Some(f)
            },
            _ => {
                self.error("function declaration expected");
                None
            },
        }
    }
}

proof fn lemma_calls_grow(calls: Seq<FunCompiler>, n: nat, n2: nat)
    requires
        calls_ok(calls, n),
        n <= n2,
    ensures
        calls_ok(calls, n2),
{
}


/// An element of a list of nodes under `ast` is smaller than `ast`.
proof fn lemma_smaller(ast: Ast, l: Vec<Box<Ast>>, i: int)
    requires
        0 <= i < l@.len(),
        (ast is Block && l == ast->Block_listing) || (ast is Program && l == ast->Program_listing)
            || (ast is FunDecl && l == ast->FunDecl_listing) || (ast is Call && l == ast->Call_1),
    ensures
        decreases_to!(ast => l@[i]),
{
    assert(decreases_to!(ast => l));
    assert(decreases_to!(l => l@));
    assert(decreases_to!(l@ => l@[i]));
}


impl Compiler {
    /// Compiles a program, the top-level function declaration, into a new
    /// entry of the function table, after forgetting the errors of earlier
    /// runs. Nothing is compiled when native code is asked for, which is
    /// not supported.
    pub fn compile(&mut self, ast: &Ast, vm: &mut VM) -> (r: Option<usize>)
        requires
            old(self).wf(old(vm)),
            old(self).symbols.calls@.len() == 0,
        ensures
            final(self).wf(final(vm)),
            final(self).symbols.calls@.len() == 0,
            final(self).symbols.curr_mod == old(self).symbols.curr_mod,
            keeps_mod_vars(*old(self), *final(self)),
            final(vm).calls == old(vm).calls,
            final(vm).stack == old(vm).stack,
            final(vm).output == old(vm).output,
            final(vm).functions@.len() >= old(vm).functions@.len(),
            final(vm).vars@.len() >= old(vm).vars@.len(),
            forall|i: int| 0 <= i < old(vm).vars@.len() ==> #[trigger] final(vm).vars@[i] == old(vm).vars@[i],
            final(self).compile_flag == old(self).compile_flag,
            old(self).compile_flag ==> r is None && final(self).errors@.len() == 0,
            !old(self).compile_flag && ast is FunDecl ==> (r is Some <==> final(self).errors@.len()
                == 0),
            !(ast is FunDecl) ==> r is None,
            !old(self).compile_flag && ast is FunDecl && ast->FunDecl_fun_ty == FunctionType::TopLevel
                && ast->FunDecl_params@.len() == 0 && prog_ok(
                ast->FunDecl_listing@,
                has_var(*old(self)),
                old(self).mod_var_count(),
            ) ==> r is Some,
            r matches Some(f) ==> old(vm).functions@.len() <= f < final(vm).functions@.len(),
            r matches Some(f) ==> ({
                let core = final(vm).functions@[f as int];
                &&& core.name@ == ast->FunDecl_name@
                &&& core.arity == ast->FunDecl_params@.len()
                &&& core.ty == ast->FunDecl_fun_ty
                &&& exists|cs: Seq<Seq<u8>>|
                    #[trigger] body_code(ast->FunDecl_listing@, cs) && core.code@ == cs.last()
                        + epilogue(ast->FunDecl_listing@) && (ast->FunDecl_params@.len() == 0
                        ==> cs[0].len() == 0) && (ast->FunDecl_fun_ty == FunctionType::TopLevel
                        ==> top_body(ast->FunDecl_listing@, cs, *final(self), core.constants@))
            }),
    {
        self.errors = Vec::new();
        self.error_count = 0;
        self.in_panic_mode = false;
        self.in_panic_lock_mode = false;
        if self.compile_flag {
            return None;
        }
        assert(has_var(*self) =~= has_var(*old(self)));
        match ast {
            Ast::FunDecl { .. } => self.code_gen_fun_decl(ast, vm),
            _ => {
                self.error("program expected");
                None
            },
        }
    }
}


/// Module variables keep their positions: a name found at a position in a
/// module is found there still once more variables were added after it.
pub proof fn lemma_find_var_stable(m1: Module, m2: Module, name: Seq<char>)
    requires
        m1.wf(),
        m2.wf(),
        m1.mod_vars@.len() <= m2.mod_vars@.len(),
        forall|j: int| 0 <= j < m1.mod_vars@.len() ==> #[trigger] m2.mod_vars@[j] == m1.mod_vars@[j],
        m1.find_var(name) is Some,
    ensures
        m2.find_var(name) == m1.find_var(name),
{
    let j = m1.find_var(name)->0;
    assert(m1.mod_vars@[j].name@ == name);
    assert(m2.mod_vars@[j] == m1.mod_vars@[j]);
    let c = choose|k: int| 0 <= k < m2.mod_vars@.len() && (#[trigger] m2.mod_vars@[k]).name@ == name;
    if c < j {
        assert(m2.mod_vars@[c].name@ != m2.mod_vars@[j].name@);
    } else if c > j {
        assert(m2.mod_vars@[j].name@ != m2.mod_vars@[c].name@);
    }
}

/// Adding a variable at the end of a module leaves where every other name
/// is found.
proof fn lemma_find_var_push(m1: Module, m2: Module, name: Seq<char>)
    requires
        m1.wf(),
        m2.wf(),
        m2.mod_vars@.len() == m1.mod_vars@.len() + 1,
        forall|j: int| 0 <= j < m1.mod_vars@.len() ==> #[trigger] m2.mod_vars@[j] == m1.mod_vars@[j],
        m2.mod_vars@.last().name@ != name,
    ensures
        m2.find_var(name) == m1.find_var(name),
{
    if m1.find_var(name) is Some {
        lemma_find_var_stable(m1, m2, name);
    } else {
        if exists|j: int| 0 <= j < m2.mod_vars@.len() && (#[trigger] m2.mod_vars@[j]).name@ == name {
            let j = choose|j: int| 0 <= j < m2.mod_vars@.len() && (#[trigger] m2.mod_vars@[j]).name@ == name;
            if j < m1.mod_vars@.len() {
                assert(m1.mod_vars@[j].name@ == name);
            }
        }
    }
}

/// What the top level declares stays declared: compiling more code keeps
/// every variable of the current module at its position.
pub proof fn lemma_module_var_stays(c1: Compiler, vm1: VM, c2: Compiler, vm2: VM, name: Seq<char>)
    requires
        c1.wf(&vm1),
        c2.cg_post(vm2, c1, vm1),
        c1.mod_var(name) is Some,
    ensures
        c2.mod_var(name) == c1.mod_var(name),
{
    lemma_find_var_stable(
        c1.symbols.mods@[c1.symbols.curr_mod as int],
        c2.symbols.mods@[c2.symbols.curr_mod as int],
        name,
    );
}

/// The arity under which `let` declares a variable: that of a function it
/// is given, none otherwise.
pub open spec fn let_arity(e: Ast) -> Option<usize> {
    match e {
        Ast::FunDecl { params, .. } => Some(params@.len() as usize),
        _ => None,
    }
}


/// The compiler `c2` has the current module of `c1` with all its variables
/// at their positions, and perhaps more after them.
pub open spec fn keeps_mod_vars(c1: Compiler, c2: Compiler) -> bool {
    &&& c2.symbols.curr_mod == c1.symbols.curr_mod
    &&& c2.symbols.mods@.len() == c1.symbols.mods@.len()
    &&& c2.symbols.mods@[c2.symbols.curr_mod as int].mod_vars@.len()
        >= c1.symbols.mods@[c1.symbols.curr_mod as int].mod_vars@.len()
    &&& forall|j: int|
        0 <= j < c1.symbols.mods@[c1.symbols.curr_mod as int].mod_vars@.len()
            ==> #[trigger] c2.symbols.mods@[c2.symbols.curr_mod as int].mod_vars@[j]
            == c1.symbols.mods@[c1.symbols.curr_mod as int].mod_vars@[j]
}

/// A variable declared in the current module stays declared at its
/// position in a compiler that kept the module's variables.
pub proof fn lemma_kept_module_var(c1: Compiler, vm1: VM, c2: Compiler, vm2: VM, name: Seq<char>)
    requires
        c1.wf(&vm1),
        c2.wf(&vm2),
        keeps_mod_vars(c1, c2),
        c1.mod_var(name) is Some,
    ensures
        c2.mod_var(name) == c1.mod_var(name),
{
    lemma_find_var_stable(
        c1.symbols.mods@[c1.symbols.curr_mod as int],
        c2.symbols.mods@[c2.symbols.curr_mod as int],
        name,
    );
}

} // verus!
