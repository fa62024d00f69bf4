//! The stack-based virtual machine: call frames, the call stack, the value
//! stack, global variables and the instruction loop.

use vstd::prelude::*;

use crate::arith::{apply_math, outcome_holds, spec_math, Outcome};
use crate::machine::{
    frames_at_pc, frames_ok, has_byte_operand, has_word_operand, is_no_op, is_short_load,
    is_short_store, is_small_load, local_slot, pop_n, run_holds, short_local_index, small_int,
    spec_call, spec_plain, spec_return, spec_step, spec_value_text, spec_with_byte, spec_with_word,
    step_holds, step_matches, Machine, StepRes,
};
use crate::opcode::{MathOp, OpCode};
use crate::text::{concat2, i64_text, owned, spec_decimal, spec_int_text, usize_text};
use crate::value::{is_false, values_view, FloatOps, FunctionCore, FunctionType, Value, ValueV};

verus! {

/// The highest program counter a frame may reach.
pub const MAX_PC: usize = 200_000;

/// The deepest the call stack may grow.
pub const MAX_CALL_DEPTH: usize = 4096;

/// How many instructions one run may execute.
pub const MAX_STEPS: usize = 100_000_000;

/// One activation of a function: the called value, its closure and compiled
/// function (indices into the function table), the program counter and the
/// frame pointer (the stack slot that holds the called value).
#[derive(Debug, Clone, PartialEq)]
pub struct CallFrame {
    pub fun: Value,
    pub closure: Option<usize>,
    pub core: Option<usize>,
    pub pc: usize,
    pub fp: usize,
}

impl CallFrame {
    /// A frame for calling a closure, at the start of its code.
    pub fn new(fun: Value) -> (r: CallFrame)
        requires
            fun is Closure,
        ensures
            r.fun == fun,
            r.closure == Some(fun->Closure_0),
            r.core == Some(fun->Closure_0),
            r.pc == 0,
            r.fp == 0,
    {
        match fun {
            Value::Closure(c) => CallFrame { fun, closure: Some(c), core: Some(c), pc: 0, fp: 0 },
            _ => CallFrame { fun, closure: None, core: None, pc: 0, fp: 0 },
        }
    }

    /// A copy of the frame.
    pub fn duplicate(&self) -> (r: CallFrame)
        ensures
            r == *self,
    {
        CallFrame {
            fun: self.fun.copy(),
            closure: self.closure,
            core: self.core,
            pc: self.pc,
            fp: self.fp,
        }
    }

    /// The called value.
    pub fn get_fun(&self) -> (r: &Value)
        ensures
            *r == self.fun,
    {
        &self.fun
    }

    /// The closure that the frame runs.
    pub fn get_closure(&self) -> (r: Option<usize>)
        ensures
            r == self.closure,
    {
        self.closure
    }

    /// The compiled function that the frame runs.
    pub fn get_core(&self) -> (r: Option<usize>)
        ensures
            r == self.core,
    {
        self.core
    }

    pub fn get_pc(&self) -> (r: usize)
        ensures
            r == self.pc,
    {
        self.pc
    }

    /// Moves the program counter forward, unless it would pass `MAX_PC`.
    pub fn inc_pc(&mut self, amount: usize) -> (r: Option<usize>)
        ensures
            old(self).pc + amount > MAX_PC ==> r is None && *final(self) == *old(self),
            old(self).pc + amount <= MAX_PC ==> r == Some((old(self).pc + amount) as usize)
                && *final(self) == (CallFrame { pc: (old(self).pc + amount) as usize, ..*old(self) }),
    {
        if amount > MAX_PC || self.pc > MAX_PC - amount {
            None
        } else {
            self.pc = self.pc + amount;
            Some(self.pc)
        }
    }

    /// Moves the program counter back, unless it would go below zero.
    pub fn dec_pc(&mut self, amount: usize) -> (r: Option<usize>)
        ensures
            old(self).pc < amount ==> r is None && *final(self) == *old(self),
            old(self).pc >= amount ==> r == Some((old(self).pc - amount) as usize)
                && *final(self) == (CallFrame { pc: (old(self).pc - amount) as usize, ..*old(self) }),
    {
        if self.pc < amount {
            None
        } else {
            self.pc = self.pc - amount;
            Some(self.pc)
        }
    }

    pub fn get_fp(&self) -> (r: usize)
        ensures
            r == self.fp,
    {
        self.fp
    }

    /// Sets the frame pointer and returns it.
    pub fn set_fp(&mut self, index: usize) -> (r: usize)
        ensures
            r == index,
            *final(self) == (CallFrame { fp: index, ..*old(self) }),
    {
        self.fp = index;
        self.fp
    }
}

/// The frames of the calls in progress, the innermost last.
#[derive(Debug, Clone, PartialEq)]
pub struct CallStack {
    pub stack: Vec<CallFrame>,
}

impl CallStack {
    pub open spec fn frames(&self) -> Seq<CallFrame> {
        self.stack@
    }

    pub fn new() -> (r: CallStack)
        ensures
            r.frames() == Seq::<CallFrame>::empty(),
    {
        CallStack { stack: Vec::new() }
    }

    pub fn len(&self) -> (r: usize)
        ensures
            r == self.frames().len(),
    {
        self.stack.len()
    }

    /// The frame pointer of the innermost call.
    pub fn get_fp(&self) -> (r: usize)
        requires
            self.frames().len() > 0,
        ensures
            r == self.frames().last().fp,
    {
        self.stack[self.stack.len() - 1].fp
    }

    /// Sets the frame pointer of the innermost call.
    pub fn set_fp(&mut self, index: usize)
        requires
            old(self).frames().len() > 0,
        ensures
            final(self).frames() == old(self).frames().update(
                old(self).frames().len() - 1,
                CallFrame { fp: index, ..old(self).frames().last() },
            ),
    {
        let last = self.stack.len() - 1;
        let mut f = self.stack[last].duplicate();
        f.fp = index;
        self.stack.set(last, f);
    }

    /// The program counter of the innermost call.
    pub fn get_pc(&self) -> (r: usize)
        requires
            self.frames().len() > 0,
        ensures
            r == self.frames().last().pc,
    {
        self.stack[self.stack.len() - 1].pc
    }

    /// Sets the program counter of the innermost call.
    pub fn set_pc(&mut self, pc: usize)
        requires
            old(self).frames().len() > 0,
        ensures
            final(self).frames() == old(self).frames().update(
                old(self).frames().len() - 1,
                CallFrame { pc, ..old(self).frames().last() },
            ),
    {
        let last = self.stack.len() - 1;
        let mut f = self.stack[last].duplicate();
        f.pc = pc;
        self.stack.set(last, f);
    }

    /// Moves the program counter of the innermost call back to the start.
    pub fn clear_pc(&mut self)
        requires
            old(self).frames().len() > 0,
        ensures
            final(self).frames() == old(self).frames().update(
                old(self).frames().len() - 1,
                CallFrame { pc: 0, ..old(self).frames().last() },
            ),
    {
        self.set_pc(0);
    }

    /// Moves the program counter of the innermost call forward (see
    /// `CallFrame::inc_pc`); `None` when there is no call.
    pub fn inc_pc(&mut self, amount: usize) -> (r: Option<usize>)
        ensures
            old(self).frames().len() == 0 ==> r is None && *final(self) == *old(self),
            old(self).frames().len() > 0 ==> {
                let f = old(self).frames().last();
                &&& f.pc + amount > MAX_PC ==> r is None && *final(self) == *old(self)
                &&& f.pc + amount <= MAX_PC ==> r == Some((f.pc + amount) as usize)
                    && final(self).frames() == old(self).frames().update(
                    old(self).frames().len() - 1,
                    CallFrame { pc: (f.pc + amount) as usize, ..f },
                )
            },
    {
        let n = self.stack.len();
        if n == 0 {
            return None;
        }
        let mut f = self.stack[n - 1].duplicate();
        let r = f.inc_pc(amount);
        if r.is_some() {
            self.stack.set(n - 1, f);
        }
        r
    }

    /// Moves the program counter of the innermost call back (see
    /// `CallFrame::dec_pc`); `None` when there is no call.
    pub fn dec_pc(&mut self, amount: usize) -> (r: Option<usize>)
        ensures
            old(self).frames().len() == 0 ==> r is None && *final(self) == *old(self),
            old(self).frames().len() > 0 ==> {
                let f = old(self).frames().last();
                &&& f.pc < amount ==> r is None && *final(self) == *old(self)
                &&& f.pc >= amount ==> r == Some((f.pc - amount) as usize)
                    && final(self).frames() == old(self).frames().update(
                    old(self).frames().len() - 1,
                    CallFrame { pc: (f.pc - amount) as usize, ..f },
                )
            },
    {
        let n = self.stack.len();
        if n == 0 {
            return None;
        }
        let mut f = self.stack[n - 1].duplicate();
        let r = f.dec_pc(amount);
        if r.is_some() {
            self.stack.set(n - 1, f);
        }
        r
    }

    /// A copy of the innermost frame.
    pub fn top(&self) -> (r: Option<CallFrame>)
        ensures
            self.frames().len() == 0 ==> r is None,
            self.frames().len() > 0 ==> r == Some(self.frames().last()),
    {
        if self.stack.len() > 0 {
            Some(self.stack[self.stack.len() - 1].duplicate())
        } else {
            None
        }
    }

    /// A copy of the frame below the innermost one.
    pub fn next_from_top(&self) -> (r: Option<CallFrame>)
        ensures
            self.frames().len() <= 1 ==> r is None,
            self.frames().len() > 1 ==> r == Some(self.frames()[self.frames().len() - 2]),
    {
        if self.stack.len() > 1 {
            Some(self.stack[self.stack.len() - 2].duplicate())
        } else {
            None
        }
    }

    /// The frame of a new call of a closure.
    pub open spec fn new_frame(fun: Value) -> CallFrame {
        CallFrame {
            fun,
            closure: Some(fun->Closure_0),
            core: Some(fun->Closure_0),
            pc: 0,
            fp: 0,
        }
    }

    /// Starts a call of a closure.
    pub fn push(&mut self, fun: Value)
        requires
            fun is Closure,
        ensures
            final(self).frames() == old(self).frames().push(Self::new_frame(fun)),
    {
        self.stack.push(CallFrame::new(fun));
    }

    /// Ends the innermost call and returns its frame.
    pub fn pop(&mut self) -> (r: Option<CallFrame>)
        ensures
            old(self).frames().len() == 0 ==> r is None && final(self).frames() == old(self).frames(),
            old(self).frames().len() > 0 ==> r == Some(old(self).frames().last())
                && final(self).frames() == old(self).frames().drop_last(),
    {
        self.stack.pop()
    }

    /// Ends every call.
    pub fn clear(&mut self)
        ensures
            final(self).frames() == Seq::<CallFrame>::empty(),
    {
        self.stack.clear();
    }

    /// The kind of a function as a backtrace names it.
    pub open spec fn spec_kind_name(ty: FunctionType) -> Seq<char> {
        match ty {
            FunctionType::TopLevel => "top-level"@,
            FunctionType::NamedClosure => "named closure"@,
            FunctionType::AnonClosure => "anonymous closure"@,
            _ => "function"@,
        }
    }

    /// The line of the backtrace for one frame.
    pub open spec fn spec_frame_line(f: CallFrame, functions: Seq<FunctionCore>) -> Seq<char> {
        match f.core {
            Some(c) if c < functions.len() => "[ "@ + Self::spec_kind_name(functions[c as int].ty)
                + " "@ + functions[c as int].name@ + "(#"@ + spec_decimal(
                functions[c as int].arity as nat,
            ) + ") at  line 0 ]\n\n"@,
            _ => "[ (#0) at  line 0 ]\n\n"@,
        }
    }

    /// The lines of the backtrace for the first `n` frames.
    pub open spec fn spec_backtrace_lines(
        frames: Seq<CallFrame>,
        functions: Seq<FunctionCore>,
        n: nat,
    ) -> Seq<char>
        decreases n,
    {
        if n == 0 || n > frames.len() {
            Seq::empty()
        } else {
            Self::spec_backtrace_lines(frames, functions, (n - 1) as nat) + Self::spec_frame_line(
                frames[n - 1],
                functions,
            )
        }
    }

    fn kind_name(ty: FunctionType) -> (r: &'static str)
        ensures
            r@ == Self::spec_kind_name(ty),
    {
        match ty {
            FunctionType::TopLevel => "top-level",
            FunctionType::NamedClosure => "named closure",
            FunctionType::AnonClosure => "anonymous closure",
            _ => "function",
        }
    }

    /// The text of a backtrace: one line for each call in progress, the
    /// outermost first, naming the kind, name and arity of its function.
    pub fn get_backtrace(&self, functions: &Vec<FunctionCore>) -> (r: String)
        ensures
            r@ == "\nBacktrace:\n"@ + Self::spec_backtrace_lines(
                self.frames(),
                functions@,
                self.frames().len(),
            ),
    {
        let mut s = owned("\nBacktrace:\n");
        let mut i: usize = 0;
        while i < self.stack.len()
            invariant
                i <= self.stack.len(),
                s@ == "\nBacktrace:\n"@ + Self::spec_backtrace_lines(self.frames(), functions@, i as nat),
            decreases self.stack.len() - i,
        {
            let f = &self.stack[i];
            let ghost before = s@;
            match f.core {
                Some(c) if c < functions.len() => {
                    let fc = &functions[c];
                    s.append("[ ");
                    s.append(Self::kind_name(fc.ty));
                    s.append(" ");
                    s.append(fc.name.as_str());
                    s.append("(#");
                    let a = usize_text(fc.arity);
                    s.append(a.as_str());
                    s.append(") at  line 0 ]\n\n");
                },
                _ => {
                    s.append("[ (#0) at  line 0 ]\n\n");
                },
            }
            assert(s@ == before + Self::spec_frame_line(self.frames()[i as int], functions@));
            i = i + 1;
        }
        s
    }
}


/// The outcome of one instruction in the executable machine.
pub enum StepOut {
    Continue,
    Finished(Value),
}

pub open spec fn step_res(r: Result<StepOut, String>) -> StepRes {
    match r {
        Ok(StepOut::Continue) => StepRes::Continue,
        Ok(StepOut::Finished(v)) => StepRes::Finished(v@),
        Err(e) => StepRes::Failed(e@),
    }
}

pub open spec fn run_res(r: Result<Value, String>) -> StepRes {
    match r {
        Ok(v) => StepRes::Finished(v@),
        Err(e) => StepRes::Failed(e@),
    }
}

/// The virtual machine: global variables, the table of compiled functions,
/// the call stack, the value stack and the text that `print` wrote.
pub struct VM {
    pub vars: Vec<Value>,
    pub functions: Vec<FunctionCore>,
    pub main_fun: Option<usize>,
    pub calls: CallStack,
    pub stack: Vec<Value>,
    pub sp: usize,
    pub output: String,
}

impl VM {
    /// Every frame runs a function of the table.
    pub open spec fn wf(&self) -> bool {
        frames_ok(self.calls.stack@, self.functions.len() as nat)
    }

    /// The state that running instructions changes.
    pub open spec fn machine(&self) -> Machine {
        Machine {
            stack: values_view(self.stack@),
            vars: values_view(self.vars@),
            frames: self.calls.stack@,
            output: self.output@,
        }
    }

    /// A machine with no variables, functions, calls or values.
    pub fn new() -> (r: VM)
        ensures
            r.vars@ == Seq::<Value>::empty(),
            r.functions@ == Seq::<FunctionCore>::empty(),
            r.main_fun is None,
            r.calls.stack@ == Seq::<CallFrame>::empty(),
            r.stack@ == Seq::<Value>::empty(),
            r.sp == 0,
            r.output@ == Seq::<char>::empty(),
            r.wf(),
    {
        VM {
            vars: Vec::new(),
            functions: Vec::new(),
            main_fun: None,
            calls: CallStack::new(),
            stack: Vec::new(),
            sp: 0,
            output: String::new(),
        }
    }

    pub fn get_sp(&self) -> (r: usize)
        ensures
            r == self.sp,
    {
        self.sp
    }

    pub fn set_sp(&mut self, index: usize)
        ensures
            *final(self) == (VM { sp: index, ..*old(self) }),
    {
        self.sp = index;
    }

    /// The frame pointer of the innermost call.
    pub fn get_fp(&self) -> (r: usize)
        requires
            self.calls.stack@.len() > 0,
        ensures
            r == self.calls.stack@.last().fp,
    {
        self.calls.get_fp()
    }

    /// Sets the frame pointer of the innermost call.
    pub fn set_fp(&mut self, index: usize)
        requires
            old(self).calls.stack@.len() > 0,
        ensures
            final(self).calls.stack@ == old(self).calls.stack@.update(
                old(self).calls.stack@.len() - 1,
                CallFrame { fp: index, ..old(self).calls.stack@.last() },
            ),
            final(self).stack == old(self).stack,
            final(self).vars == old(self).vars,
            final(self).functions == old(self).functions,
            final(self).output == old(self).output,
    {
        self.calls.set_fp(index);
    }

    /// The program counter of the innermost call, if there is one.
    pub fn get_pc(&self) -> (r: Option<usize>)
        ensures
            self.calls.stack@.len() == 0 ==> r is None,
            self.calls.stack@.len() > 0 ==> r == Some(self.calls.stack@.last().pc),
    {
        match self.calls.top() {
            Some(frame) => Some(frame.get_pc()),
            None => None,
        }
    }

    /// The program counter that moving the innermost call's counter forward
    /// would give; the machine itself is left as it is.
    pub fn inc_pc(&self, amount: usize) -> (r: Option<usize>)
        ensures
            self.calls.stack@.len() == 0 ==> r is None,
            self.calls.stack@.len() > 0 ==> {
                let pc = self.calls.stack@.last().pc;
                &&& pc + amount > MAX_PC ==> r is None
                &&& pc + amount <= MAX_PC ==> r == Some((pc + amount) as usize)
            },
    {
        match self.calls.top() {
            Some(frame) => {
                let mut frame = frame;
                frame.inc_pc(amount)
            },
            None => None,
        }
    }

    /// The program counter that moving the innermost call's counter back
    /// would give; the machine itself is left as it is.
    pub fn dec_pc(&self, amount: usize) -> (r: Option<usize>)
        ensures
            self.calls.stack@.len() == 0 ==> r is None,
            self.calls.stack@.len() > 0 ==> {
                let pc = self.calls.stack@.last().pc;
                &&& pc < amount ==> r is None
                &&& pc >= amount ==> r == Some((pc - amount) as usize)
            },
    {
        match self.calls.top() {
            Some(frame) => {
                let mut frame = frame;
                frame.dec_pc(amount)
            },
            None => None,
        }
    }

    /// A copy of the value at a slot of the stack.
    pub fn get_stack_at_index(&self, index: usize) -> (r: Option<Value>)
        ensures
            index < self.stack@.len() ==> r == Some(self.stack@[index as int]),
            index >= self.stack@.len() ==> r is None,
    {
        if index < self.stack.len() {
            Some(self.stack[index].copy())
        } else {
            None
        }
    }

    /// A copy of the value on top of the stack.
    pub fn get_stack_top(&self) -> (r: Option<Value>)
        ensures
            self.stack@.len() > 0 ==> r == Some(self.stack@.last()),
            self.stack@.len() == 0 ==> r is None,
    {
        if self.stack.len() > 0 {
            Some(self.stack[self.stack.len() - 1].copy())
        } else {
            None
        }
    }

    pub fn stack_push(&mut self, value: Value)
        ensures
            *final(self) == (VM { stack: final(self).stack, ..*old(self) }),
            final(self).stack@ == old(self).stack@.push(value),
    {
        self.stack.push(value);
    }

    /// Removes the value on top of the stack, if there is one.
    pub fn stack_pop(&mut self)
        ensures
            *final(self) == (VM { stack: final(self).stack, ..*old(self) }),
            old(self).stack@.len() > 0 ==> final(self).stack@ == old(self).stack@.drop_last(),
            old(self).stack@.len() == 0 ==> final(self).stack@ == old(self).stack@,
    {
        self.stack.pop();
    }

    /// A copy of a global variable.
    pub fn get_var(&self, index: usize) -> (r: Option<Value>)
        ensures
            index < self.vars@.len() ==> r == Some(self.vars@[index as int]),
            index >= self.vars@.len() ==> r is None,
    {
        if index < self.vars.len() {
            Some(self.vars[index].copy())
        } else {
            None
        }
    }

    /// Sets a global variable that exists; does nothing for one that does
    /// not.
    pub fn set_var(&mut self, index: usize, value: Value)
        ensures
            *final(self) == (VM { vars: final(self).vars, ..*old(self) }),
            index < old(self).vars@.len() ==> final(self).vars@ == old(self).vars@.update(
                index as int,
                value,
            ),
            index >= old(self).vars@.len() ==> final(self).vars@ == old(self).vars@,
    {
        if index < self.vars.len() {
            self.vars.set(index, value);
        }
    }

    /// Adds a global variable, set to `nil`.
    pub fn add_var(&mut self)
        ensures
            *final(self) == (VM { vars: final(self).vars, ..*old(self) }),
            final(self).vars@ == old(self).vars@.push(Value::Nil),
    {
        self.vars.push(Value::Nil);
    }

    /// Starts a call of the closure `num_args` slots below the top of the
    /// stack: its slot becomes the frame pointer.
    pub fn push_call_frame(&mut self, num_args: usize)
        requires
            old(self).stack@.len() > num_args,
            old(self).stack@[old(self).stack@.len() - num_args - 1] is Closure,
        ensures
            ({
                let slot = old(self).stack@.len() - num_args - 1;
                let fun = old(self).stack@[slot];
                final(self).calls.stack@ == old(self).calls.stack@.push(
                    CallFrame {
                        fun,
                        closure: Some(fun->Closure_0),
                        core: Some(fun->Closure_0),
                        pc: 0,
                        fp: slot as usize,
                    },
                )
            }),
            final(self).stack == old(self).stack,
            final(self).vars == old(self).vars,
            final(self).functions == old(self).functions,
            final(self).output == old(self).output,
    {
        let top = self.stack.len();
        let call = self.stack[top - num_args - 1].copy();
        self.calls.push(call);
        self.calls.set_fp(top - num_args - 1);
        self.calls.clear_pc();
    }

    /// Ends the innermost call: the stack is cut to `fp + 1` values (filled
    /// with `nil` when shorter), and the frame pointer of the call below it
    /// is returned (that of the ended call when it was the only one, `fp`
    /// when there was none).
    pub fn pop_call_frame(&mut self, fp: usize) -> (r: usize)
        requires
            fp < usize::MAX,
        ensures
            final(self).stack@.len() == fp + 1,
            fp + 1 <= old(self).stack@.len() ==> final(self).stack@ == old(self).stack@.subrange(
                0,
                fp + 1,
            ),
            fp + 1 > old(self).stack@.len() ==> final(self).stack@ == old(self).stack@ + Seq::new(
                (fp + 1 - old(self).stack@.len()) as nat,
                |i: int| Value::Nil,
            ),
            old(self).calls.stack@.len() == 0 ==> r == fp && final(self).calls.stack@ == old(self).calls.stack@,
            old(self).calls.stack@.len() == 1 ==> r == old(self).calls.stack@[0].fp
                && final(self).calls.stack@ == Seq::<CallFrame>::empty(),
            old(self).calls.stack@.len() > 1 ==> r == old(self).calls.stack@[old(self).calls.stack@.len() - 2].fp && final(self).calls.stack@ == old(self).calls.stack@.drop_last(),
            final(self).vars == old(self).vars,
            final(self).functions == old(self).functions,
            final(self).output == old(self).output,
    {
        let ghost old_stack = self.stack@;
        if self.stack.len() > fp + 1 {
            self.stack.truncate(fp + 1);
        } else {
            while self.stack.len() < fp + 1
                invariant
                    fp < usize::MAX,
                    self.calls == old(self).calls,
                    self.vars == old(self).vars,
                    self.functions == old(self).functions,
                    self.output == old(self).output,
                    old_stack.len() <= self.stack@.len() <= fp + 1,
                    self.stack@ == old_stack + Seq::new(
                        (self.stack@.len() - old_stack.len()) as nat,
                        |i: int| Value::Nil,
                    ),
                decreases fp + 1 - self.stack@.len(),
            {
                self.stack.push(Value::Nil);
                assert(self.stack@ =~= old_stack + Seq::new(
                    (self.stack@.len() - old_stack.len()) as nat,
                    |i: int| Value::Nil,
                ));
            }
        }
        let mut r = fp;
        if let Some(new_top) = self.calls.next_from_top() {
            r = new_top.fp;
        } else if let Some(new_top) = self.calls.top() {
            r = new_top.fp;
        }
        self.calls.pop();
        r
    }

    /// Whether `fun` can be called with `num_args` arguments: the number of
    /// arguments when it is a closure of that arity, else the error.
    pub fn check_arity(&self, fun: &Value, num_args: usize) -> (r: Result<usize, String>)
        ensures
            match fun@ {
                ValueV::Closure(i) => if i >= self.functions@.len() {
                    r is Err && r->Err_0@ == "not a function type, but closure"@
                } else if self.functions@[i as int].arity != num_args {
                    r is Err && r->Err_0@ == spec_decimal(
                        self.functions@[i as int].arity as nat,
                    ) + " args expected, found "@ + spec_decimal(num_args as nat)
                } else {
                    r == Ok::<usize, String>(num_args)
                },
                other => r is Err && r->Err_0@ == "not a function type, but "@ + other.kind_name(),
            },
    {
        match fun {
            Value::Closure(i) => {
                if *i >= self.functions.len() {
                    Err(owned("not a function type, but closure"))
                } else {
                    let arity = self.functions[*i].arity;
                    if num_args != arity {
                        let mut s = usize_text(arity);
                        s.append(" args expected, found ");
                        let n = usize_text(num_args);
                        s.append(n.as_str());
                        Err(s)
                    } else {
                        Ok(num_args)
                    }
                }
            },
            _ => Err(concat2("not a function type, but ", fun.value_type())),
        }
    }

    /// Calls the value `num_args` slots below the top of the stack with the
    /// values above it as arguments: checks that it is a closure of that
    /// arity and that the call stack has room, then starts its frame.
    pub fn call_value(&mut self, num_args: usize) -> (r: Result<(), String>)
        requires
            old(self).wf(),
        ensures
            final(self).wf(),
            final(self).stack == old(self).stack,
            final(self).vars == old(self).vars,
            final(self).functions == old(self).functions,
            final(self).output == old(self).output,
            ({
                let fns = old(self).functions@;
                let m = old(self).machine();
                let st = m.stack;
                if st.len() <= num_args {
                    r is Err && r->Err_0@ == "stack underflow"@
                } else {
                    let slot = st.len() - num_args - 1;
                    match st[slot] {
                        ValueV::Closure(i) => if i >= fns.len() {
                            r is Err && r->Err_0@ == "not a function type, but closure"@
                        } else if fns[i as int].arity != num_args {
                            r is Err && r->Err_0@ == spec_decimal(fns[i as int].arity as nat)
                                + " args expected, found "@ + spec_decimal(num_args as nat)
                        } else if m.frames.len() >= MAX_CALL_DEPTH {
                            r is Err && r->Err_0@ == "call stack overflow"@
                        } else {
                            r is Ok && final(self).calls.stack@ == m.frames.push(
                                CallFrame {
                                    fun: Value::Closure(i),
                                    closure: Some(i),
                                    core: Some(i),
                                    pc: 0,
                                    fp: slot as usize,
                                },
                            )
                        },
                        other => r is Err && r->Err_0@ == "not a function type, but "@
                            + other.kind_name(),
                    }
                }
            }),
            r is Err ==> final(self).calls == old(self).calls,
    {
        let n = self.stack.len();
        if n <= num_args {
            return Err(owned("stack underflow"));
        }
        let slot = n - num_args - 1;
        let checked = self.check_arity(&self.stack[slot], num_args);
        match checked {
            Err(e) => Err(e),
            Ok(_) => {
                if self.calls.len() >= MAX_CALL_DEPTH {
                    return Err(owned("call stack overflow"));
                }
                let ghost before = self.calls.stack@;
                self.push_call_frame(num_args);
                proof {
                    assert(self.stack@[slot as int]@ == values_view(self.stack@)[slot as int]);
                    assert forall|k: int| 0 <= k < self.calls.stack@.len() implies {
                        &&& (#[trigger] self.calls.stack@[k]).core is Some
                        &&& self.calls.stack@[k].core->0 < self.functions.len()
                        &&& self.calls.stack@[k].closure == self.calls.stack@[k].core
                    } by {
                        if k < before.len() {
                            assert(self.calls.stack@[k] == before[k]);
                        }
                    }
                }
                Ok(())
            },
        }
    }
}


impl VM {
    /// Pops the two operands of a binary operator (the right one on top),
    /// applies `op` (the compound form when `assign`) and pushes the result.
    pub fn execute_binary<F: FloatOps>(&mut self, op: MathOp, assign: bool, fl: &F) -> (r: Result<
        Value,
        String,
    >)
        ensures
            final(self).vars == old(self).vars,
            final(self).functions == old(self).functions,
            final(self).calls == old(self).calls,
            final(self).output == old(self).output,
            old(self).stack@.len() < 2 ==> r is Err && r->Err_0@ == "stack underflow"@ && final(self).stack == old(self).stack,
            old(self).stack@.len() >= 2 ==> {
                let st = values_view(old(self).stack@);
                &&& outcome_holds(spec_math(op, assign, st[st.len() - 2], st.last()), r)
                &&& r is Ok ==> values_view(final(self).stack@) == st.drop_last().drop_last().push(
                    r->Ok_0@,
                )
                &&& r is Err ==> final(self).stack@ == old(self).stack@.drop_last().drop_last()
            },
    {
        if self.stack.len() < 2 {
            return Err(owned("stack underflow"));
        }
        let ghost s0 = self.stack@;
        let ghost st = values_view(self.stack@);
        let b = match self.stack.pop() {
            Some(v) => v,
            None => Value::Nil,
        };
        let a = match self.stack.pop() {
            Some(v) => v,
            None => Value::Nil,
        };
        let r = apply_math(op, assign, &a, &b, fl);
        match r {
            Ok(v) => {
                let ghost before = self.stack@;
                self.stack.push(v.copy());
                assert(values_view(self.stack@) =~= st.drop_last().drop_last().push(v@));
                Ok(v)
            },
            Err(e) => {
                assert(self.stack@ =~= s0.drop_last().drop_last());
                Err(e)
            },
        }
    }

    /// Runs the arithmetic instruction for `op` on the two values on top of
    /// the stack.
    pub fn execute_math_op<F: FloatOps>(&mut self, op: MathOp, fl: &F) -> (r: Result<Value, String>)
        ensures
            final(self).vars == old(self).vars,
            final(self).functions == old(self).functions,
            final(self).calls == old(self).calls,
            final(self).output == old(self).output,
            old(self).stack@.len() < 2 ==> r is Err && r->Err_0@ == "stack underflow"@ && final(self).stack
                == old(self).stack,
            old(self).stack@.len() >= 2 ==> {
                let st = values_view(old(self).stack@);
                &&& outcome_holds(spec_math(op, false, st[st.len() - 2], st.last()), r)
                &&& r is Ok ==> values_view(final(self).stack@) == st.drop_last().drop_last().push(
                    r->Ok_0@,
                )
                &&& r is Err ==> final(self).stack@ == old(self).stack@.drop_last().drop_last()
            },
    {
        match op {
            MathOp::Add => self.execute_add(fl),
            MathOp::Subtract => self.execute_subtract(fl),
            MathOp::Multiply => self.execute_multiply(fl),
            MathOp::Divide => self.execute_divide(fl),
            MathOp::Modulo => self.execute_modulo(fl),
            MathOp::Power => self.execute_power(fl),
            MathOp::Invalid => self.execute_binary(op, false, fl),
        }
    }

    /// Runs the compound assignment for `op` on the two values on top of
    /// the stack.
    pub fn execute_math_assign_op<F: FloatOps>(&mut self, op: MathOp, fl: &F) -> (r: Result<
        Value,
        String,
    >)
        ensures
            final(self).vars == old(self).vars,
            final(self).functions == old(self).functions,
            final(self).calls == old(self).calls,
            final(self).output == old(self).output,
            old(self).stack@.len() < 2 ==> r is Err && r->Err_0@ == "stack underflow"@ && final(self).stack
                == old(self).stack,
            old(self).stack@.len() >= 2 ==> {
                let st = values_view(old(self).stack@);
                &&& outcome_holds(spec_math(op, true, st[st.len() - 2], st.last()), r)
                &&& r is Ok ==> values_view(final(self).stack@) == st.drop_last().drop_last().push(
                    r->Ok_0@,
                )
                &&& r is Err ==> final(self).stack@ == old(self).stack@.drop_last().drop_last()
            },
    {
        match op {
            MathOp::Add => self.execute_add_assign(fl),
            MathOp::Subtract => self.execute_subtract_assign(fl),
            MathOp::Multiply => self.execute_multiply_assign(fl),
            MathOp::Divide => self.execute_divide_assign(fl),
            MathOp::Modulo => self.execute_modulo_assign(fl),
            MathOp::Power => self.execute_power_assign(fl),
            MathOp::Invalid => self.execute_binary(op, true, fl),
        }
    }

    /// `+`: sum of integers or floats, concatenation of strings.
    pub fn execute_add<F: FloatOps>(&mut self, fl: &F) -> (r: Result<Value, String>)
        ensures
            final(self).vars == old(self).vars,
            final(self).functions == old(self).functions,
            final(self).calls == old(self).calls,
            final(self).output == old(self).output,
            old(self).stack@.len() < 2 ==> r is Err && r->Err_0@ == "stack underflow"@ && final(self).stack
                == old(self).stack,
            old(self).stack@.len() >= 2 ==> {
                let st = values_view(old(self).stack@);
                &&& outcome_holds(spec_math(MathOp::Add, false, st[st.len() - 2], st.last()), r)
                &&& r is Ok ==> values_view(final(self).stack@) == st.drop_last().drop_last().push(
                    r->Ok_0@,
                )
                &&& r is Err ==> final(self).stack@ == old(self).stack@.drop_last().drop_last()
            },
    {
        self.execute_binary(MathOp::Add, false, fl)
    }

    /// `+`: sum of integers or floats, concatenation of strings (compound assignment).
    pub fn execute_add_assign<F: FloatOps>(&mut self, fl: &F) -> (r: Result<Value, String>)
        ensures
            final(self).vars == old(self).vars,
            final(self).functions == old(self).functions,
            final(self).calls == old(self).calls,
            final(self).output == old(self).output,
            old(self).stack@.len() < 2 ==> r is Err && r->Err_0@ == "stack underflow"@ && final(self).stack
                == old(self).stack,
            old(self).stack@.len() >= 2 ==> {
                let st = values_view(old(self).stack@);
                &&& outcome_holds(spec_math(MathOp::Add, true, st[st.len() - 2], st.last()), r)
                &&& r is Ok ==> values_view(final(self).stack@) == st.drop_last().drop_last().push(
                    r->Ok_0@,
                )
                &&& r is Err ==> final(self).stack@ == old(self).stack@.drop_last().drop_last()
            },
    {
        self.execute_binary(MathOp::Add, true, fl)
    }

    /// `-`: difference of integers or floats.
    pub fn execute_subtract<F: FloatOps>(&mut self, fl: &F) -> (r: Result<Value, String>)
        ensures
            final(self).vars == old(self).vars,
            final(self).functions == old(self).functions,
            final(self).calls == old(self).calls,
            final(self).output == old(self).output,
            old(self).stack@.len() < 2 ==> r is Err && r->Err_0@ == "stack underflow"@ && final(self).stack
                == old(self).stack,
            old(self).stack@.len() >= 2 ==> {
                let st = values_view(old(self).stack@);
                &&& outcome_holds(spec_math(MathOp::Subtract, false, st[st.len() - 2], st.last()), r)
                &&& r is Ok ==> values_view(final(self).stack@) == st.drop_last().drop_last().push(
                    r->Ok_0@,
                )
                &&& r is Err ==> final(self).stack@ == old(self).stack@.drop_last().drop_last()
            },
    {
        self.execute_binary(MathOp::Subtract, false, fl)
    }

    /// `-`: difference of integers or floats (compound assignment).
    pub fn execute_subtract_assign<F: FloatOps>(&mut self, fl: &F) -> (r: Result<Value, String>)
        ensures
            final(self).vars == old(self).vars,
            final(self).functions == old(self).functions,
            final(self).calls == old(self).calls,
            final(self).output == old(self).output,
            old(self).stack@.len() < 2 ==> r is Err && r->Err_0@ == "stack underflow"@ && final(self).stack
                == old(self).stack,
            old(self).stack@.len() >= 2 ==> {
                let st = values_view(old(self).stack@);
                &&& outcome_holds(spec_math(MathOp::Subtract, true, st[st.len() - 2], st.last()), r)
                &&& r is Ok ==> values_view(final(self).stack@) == st.drop_last().drop_last().push(
                    r->Ok_0@,
                )
                &&& r is Err ==> final(self).stack@ == old(self).stack@.drop_last().drop_last()
            },
    {
        self.execute_binary(MathOp::Subtract, true, fl)
    }

    /// `*`: product of integers or floats, a string repeated.
    pub fn execute_multiply<F: FloatOps>(&mut self, fl: &F) -> (r: Result<Value, String>)
        ensures
            final(self).vars == old(self).vars,
            final(self).functions == old(self).functions,
            final(self).calls == old(self).calls,
            final(self).output == old(self).output,
            old(self).stack@.len() < 2 ==> r is Err && r->Err_0@ == "stack underflow"@ && final(self).stack
                == old(self).stack,
            old(self).stack@.len() >= 2 ==> {
                let st = values_view(old(self).stack@);
                &&& outcome_holds(spec_math(MathOp::Multiply, false, st[st.len() - 2], st.last()), r)
                &&& r is Ok ==> values_view(final(self).stack@) == st.drop_last().drop_last().push(
                    r->Ok_0@,
                )
                &&& r is Err ==> final(self).stack@ == old(self).stack@.drop_last().drop_last()
            },
    {
        self.execute_binary(MathOp::Multiply, false, fl)
    }

    /// `*`: product of integers or floats, a string repeated (compound assignment).
    pub fn execute_multiply_assign<F: FloatOps>(&mut self, fl: &F) -> (r: Result<Value, String>)
        ensures
            final(self).vars == old(self).vars,
            final(self).functions == old(self).functions,
            final(self).calls == old(self).calls,
            final(self).output == old(self).output,
            old(self).stack@.len() < 2 ==> r is Err && r->Err_0@ == "stack underflow"@ && final(self).stack
                == old(self).stack,
            old(self).stack@.len() >= 2 ==> {
                let st = values_view(old(self).stack@);
                &&& outcome_holds(spec_math(MathOp::Multiply, true, st[st.len() - 2], st.last()), r)
                &&& r is Ok ==> values_view(final(self).stack@) == st.drop_last().drop_last().push(
                    r->Ok_0@,
                )
                &&& r is Err ==> final(self).stack@ == old(self).stack@.drop_last().drop_last()
            },
    {
        self.execute_binary(MathOp::Multiply, true, fl)
    }

    /// `/`: quotient of integers (rounded toward zero) or floats, refused for a divisor at most zero.
    pub fn execute_divide<F: FloatOps>(&mut self, fl: &F) -> (r: Result<Value, String>)
        ensures
            final(self).vars == old(self).vars,
            final(self).functions == old(self).functions,
            final(self).calls == old(self).calls,
            final(self).output == old(self).output,
            old(self).stack@.len() < 2 ==> r is Err && r->Err_0@ == "stack underflow"@ && final(self).stack
                == old(self).stack,
            old(self).stack@.len() >= 2 ==> {
                let st = values_view(old(self).stack@);
                &&& outcome_holds(spec_math(MathOp::Divide, false, st[st.len() - 2], st.last()), r)
                &&& r is Ok ==> values_view(final(self).stack@) == st.drop_last().drop_last().push(
                    r->Ok_0@,
                )
                &&& r is Err ==> final(self).stack@ == old(self).stack@.drop_last().drop_last()
            },
    {
        self.execute_binary(MathOp::Divide, false, fl)
    }

    /// `/`: quotient of integers (rounded toward zero) or floats, refused for a divisor at most zero (compound assignment).
    pub fn execute_divide_assign<F: FloatOps>(&mut self, fl: &F) -> (r: Result<Value, String>)
        ensures
            final(self).vars == old(self).vars,
            final(self).functions == old(self).functions,
            final(self).calls == old(self).calls,
            final(self).output == old(self).output,
            old(self).stack@.len() < 2 ==> r is Err && r->Err_0@ == "stack underflow"@ && final(self).stack
                == old(self).stack,
            old(self).stack@.len() >= 2 ==> {
                let st = values_view(old(self).stack@);
                &&& outcome_holds(spec_math(MathOp::Divide, true, st[st.len() - 2], st.last()), r)
                &&& r is Ok ==> values_view(final(self).stack@) == st.drop_last().drop_last().push(
                    r->Ok_0@,
                )
                &&& r is Err ==> final(self).stack@ == old(self).stack@.drop_last().drop_last()
            },
    {
        self.execute_binary(MathOp::Divide, true, fl)
    }

    /// `%`: refused for a divisor at most zero; the plain operator gives the quotient, the compound one the remainder.
    pub fn execute_modulo<F: FloatOps>(&mut self, fl: &F) -> (r: Result<Value, String>)
        ensures
            final(self).vars == old(self).vars,
            final(self).functions == old(self).functions,
            final(self).calls == old(self).calls,
            final(self).output == old(self).output,
            old(self).stack@.len() < 2 ==> r is Err && r->Err_0@ == "stack underflow"@ && final(self).stack
                == old(self).stack,
            old(self).stack@.len() >= 2 ==> {
                let st = values_view(old(self).stack@);
                &&& outcome_holds(spec_math(MathOp::Modulo, false, st[st.len() - 2], st.last()), r)
                &&& r is Ok ==> values_view(final(self).stack@) == st.drop_last().drop_last().push(
                    r->Ok_0@,
                )
                &&& r is Err ==> final(self).stack@ == old(self).stack@.drop_last().drop_last()
            },
    {
        self.execute_binary(MathOp::Modulo, false, fl)
    }

    /// `%`: refused for a divisor at most zero; the plain operator gives the quotient, the compound one the remainder (compound assignment).
    pub fn execute_modulo_assign<F: FloatOps>(&mut self, fl: &F) -> (r: Result<Value, String>)
        ensures
            final(self).vars == old(self).vars,
            final(self).functions == old(self).functions,
            final(self).calls == old(self).calls,
            final(self).output == old(self).output,
            old(self).stack@.len() < 2 ==> r is Err && r->Err_0@ == "stack underflow"@ && final(self).stack
                == old(self).stack,
            old(self).stack@.len() >= 2 ==> {
                let st = values_view(old(self).stack@);
                &&& outcome_holds(spec_math(MathOp::Modulo, true, st[st.len() - 2], st.last()), r)
                &&& r is Ok ==> values_view(final(self).stack@) == st.drop_last().drop_last().push(
                    r->Ok_0@,
                )
                &&& r is Err ==> final(self).stack@ == old(self).stack@.drop_last().drop_last()
            },
    {
        self.execute_binary(MathOp::Modulo, true, fl)
    }

    /// `**`: an integer or float raised to a power.
    pub fn execute_power<F: FloatOps>(&mut self, fl: &F) -> (r: Result<Value, String>)
        ensures
            final(self).vars == old(self).vars,
            final(self).functions == old(self).functions,
            final(self).calls == old(self).calls,
            final(self).output == old(self).output,
            old(self).stack@.len() < 2 ==> r is Err && r->Err_0@ == "stack underflow"@ && final(self).stack
                == old(self).stack,
            old(self).stack@.len() >= 2 ==> {
                let st = values_view(old(self).stack@);
                &&& outcome_holds(spec_math(MathOp::Power, false, st[st.len() - 2], st.last()), r)
                &&& r is Ok ==> values_view(final(self).stack@) == st.drop_last().drop_last().push(
                    r->Ok_0@,
                )
                &&& r is Err ==> final(self).stack@ == old(self).stack@.drop_last().drop_last()
            },
    {
        self.execute_binary(MathOp::Power, false, fl)
    }

    /// `**`: an integer or float raised to a power (compound assignment).
    pub fn execute_power_assign<F: FloatOps>(&mut self, fl: &F) -> (r: Result<Value, String>)
        ensures
            final(self).vars == old(self).vars,
            final(self).functions == old(self).functions,
            final(self).calls == old(self).calls,
            final(self).output == old(self).output,
            old(self).stack@.len() < 2 ==> r is Err && r->Err_0@ == "stack underflow"@ && final(self).stack
                == old(self).stack,
            old(self).stack@.len() >= 2 ==> {
                let st = values_view(old(self).stack@);
                &&& outcome_holds(spec_math(MathOp::Power, true, st[st.len() - 2], st.last()), r)
                &&& r is Ok ==> values_view(final(self).stack@) == st.drop_last().drop_last().push(
                    r->Ok_0@,
                )
                &&& r is Err ==> final(self).stack@ == old(self).stack@.drop_last().drop_last()
            },
    {
        self.execute_binary(MathOp::Power, true, fl)
    }
}


/// Whether an instruction does nothing but move on.
fn no_op(op: OpCode) -> (r: bool)
    ensures
        r == is_no_op(op),
{
    match op {
        OpCode::AddMod | OpCode::SwitchMod | OpCode::Array | OpCode::Dict | OpCode::LoadUpvalue
        | OpCode::StoreUpvalue | OpCode::LoadField | OpCode::StoreField | OpCode::LoadStatic
        | OpCode::StoreStatic | OpCode::LoadMethod | OpCode::LoadStaticMethod
        | OpCode::LoadSuperMethod | OpCode::DefStatic | OpCode::Method | OpCode::StaticMethod
        | OpCode::Instance | OpCode::Closure | OpCode::CloseUpvalue | OpCode::Ternary
        | OpCode::Input | OpCode::MathAssignOp | OpCode::BitwiseOp | OpCode::BitwiseAssignOp => true,
        _ => false,
    }
}

/// Whether an instruction is one of `Load0` to `Load10`.
fn small_load(op: OpCode) -> (r: bool)
    ensures
        r == is_small_load(op),
{
    match op {
        OpCode::Load0 | OpCode::Load1 | OpCode::Load2 | OpCode::Load3 | OpCode::Load4
        | OpCode::Load5 | OpCode::Load6 | OpCode::Load7 | OpCode::Load8 | OpCode::Load9
        | OpCode::Load10 => true,
        _ => false,
    }
}

fn short_load(op: OpCode) -> (r: bool)
    ensures
        r == is_short_load(op),
{
    match op {
        OpCode::LoadLocal0 | OpCode::LoadLocal1 | OpCode::LoadLocal2 | OpCode::LoadLocal3
        | OpCode::LoadLocal4 | OpCode::LoadLocal5 | OpCode::LoadLocal6 | OpCode::LoadLocal7
        | OpCode::LoadLocal8 => true,
        _ => false,
    }
}

fn short_store(op: OpCode) -> (r: bool)
    ensures
        r == is_short_store(op),
{
    match op {
        OpCode::StoreLocal0 | OpCode::StoreLocal1 | OpCode::StoreLocal2 | OpCode::StoreLocal3
        | OpCode::StoreLocal4 | OpCode::StoreLocal5 | OpCode::StoreLocal6 | OpCode::StoreLocal7
        | OpCode::StoreLocal8 => true,
        _ => false,
    }
}

fn short_index(op: OpCode) -> (r: usize)
    ensures
        r == short_local_index(op),
{
    match op {
        OpCode::LoadLocal0 | OpCode::StoreLocal0 => 0,
        OpCode::LoadLocal1 | OpCode::StoreLocal1 => 1,
        OpCode::LoadLocal2 | OpCode::StoreLocal2 => 2,
        OpCode::LoadLocal3 | OpCode::StoreLocal3 => 3,
        OpCode::LoadLocal4 | OpCode::StoreLocal4 => 4,
        OpCode::LoadLocal5 | OpCode::StoreLocal5 => 5,
        OpCode::LoadLocal6 | OpCode::StoreLocal6 => 6,
        OpCode::LoadLocal7 | OpCode::StoreLocal7 => 7,
        _ => 8,
    }
}

fn byte_operand(op: OpCode) -> (r: bool)
    ensures
        r == has_byte_operand(op),
{
    match op {
        OpCode::PushN | OpCode::PopN | OpCode::LoadLocal | OpCode::StoreLocal | OpCode::Call
        | OpCode::MathOp => true,
        _ => false,
    }
}

fn word_operand(op: OpCode) -> (r: bool)
    ensures
        r == has_word_operand(op),
{
    match op {
        OpCode::LoadValue | OpCode::DefVar | OpCode::LoadVar | OpCode::StoreVar | OpCode::JumpFwd
        | OpCode::JumpBack | OpCode::JumpTrue | OpCode::JumpFalse => true,
        _ => false,
    }
}

/// The text under which `print` writes a value.
pub fn value_text<F: FloatOps>(v: &Value, fl: &F) -> (r: String)
    ensures
        r@ == spec_value_text(v@, r@),
{
    match v {
        Value::Nil => owned("nil"),
        Value::Bool(b) => if *b {
            owned("true")
        } else {
            owned("false")
        },
        Value::Int(i) => i64_text(*i),
        Value::Float(f) => fl.to_text(*f),
        Value::String(s) => s.clone(),
        Value::Closure(_) => owned("<closure>"),
    }
}

impl VM {
    /// The innermost call is at `pc` of its function's code.
    pub open spec fn at_pc(&self, pc: usize) -> bool {
        &&& self.wf()
        &&& self.calls.stack@.len() > 0
        &&& self.calls.stack@.last().pc == pc
    }

    /// The code of the function that the innermost call runs.
    pub open spec fn cur_code(&self) -> Seq<u8> {
        self.functions@[self.calls.stack@.last().core->0 as int].code@
    }

    proof fn lemma_frames_update(&self, pc: usize)
        requires
            self.wf(),
            self.calls.stack@.len() > 0,
        ensures
            frames_ok(frames_at_pc(self.calls.stack@, pc as int), self.functions.len() as nat),
    {
        let fr = frames_at_pc(self.calls.stack@, pc as int);
        assert forall|k: int| 0 <= k < fr.len() implies {
            &&& (#[trigger] fr[k]).core is Some
            &&& fr[k].core->0 < self.functions.len()
            &&& fr[k].closure == fr[k].core
        } by {
            assert(self.calls.stack@[k].core is Some);
        }
    }

    /// Moves the innermost call to `pc`.
    fn go_to(&mut self, pc: usize)
        requires
            old(self).wf(),
            old(self).calls.stack@.len() > 0,
        ensures
            final(self).wf(),
            final(self).calls.stack@ == frames_at_pc(old(self).calls.stack@, pc as int),
            final(self).stack == old(self).stack,
            final(self).vars == old(self).vars,
            final(self).functions == old(self).functions,
            final(self).output == old(self).output,
    {
        proof {
            self.lemma_frames_update(pc);
        }
        self.calls.set_pc(pc);
    }

    /// The innermost call returns `v` (see `spec_return`).
    fn do_return(&mut self, v: Value) -> (r: Result<StepOut, String>)
        requires
            old(self).wf(),
            old(self).calls.stack@.len() > 0,
        ensures
            final(self).wf(),
            final(self).functions == old(self).functions,
            final(self).vars == old(self).vars,
            step_matches(spec_return(old(self).machine(), v@), final(self).machine(), step_res(r)),
            step_res(r) is Continue ==> final(self).calls.stack@.len() > 0,
    {
        let fp = self.calls.get_fp();
        if fp >= self.stack.len() {
            return Err(owned("frame pointer out of range"));
        }
        let ghost st = values_view(self.stack@);
        self.stack.truncate(fp);
        self.stack.push(v.copy());
        assert(values_view(self.stack@) =~= st.subrange(0, fp as int).push(v@));
        let ghost fr = self.calls.stack@;
        self.calls.pop();
        proof {
            assert forall|k: int| 0 <= k < self.calls.stack@.len() implies {
                &&& (#[trigger] self.calls.stack@[k]).core is Some
                &&& self.calls.stack@[k].core->0 < self.functions.len()
                &&& self.calls.stack@[k].closure == self.calls.stack@[k].core
            } by {
                assert(self.calls.stack@[k] == fr[k]);
            }
        }
        if self.calls.len() == 0 {
            Ok(StepOut::Finished(v))
        } else {
            Ok(StepOut::Continue)
        }
    }

    /// Runs an instruction without operands.
    fn exec_plain<F: FloatOps>(&mut self, op: OpCode, pc: usize, fl: &F) -> (r: Result<
        StepOut,
        String,
    >)
        requires
            old(self).at_pc(pc),
            pc < old(self).cur_code().len() <= usize::MAX,
            op == OpCode::spec_from_byte(old(self).cur_code()[pc as int]),
            !has_byte_operand(op),
            !has_word_operand(op),
        ensures
            final(self).wf(),
            final(self).functions == old(self).functions,
            step_holds(old(self).functions@, old(self).machine(), final(self).machine(), step_res(r)),
            step_res(r) is Continue ==> final(self).calls.stack@.len() > 0,
            r is Err ==> final(self).vars == old(self).vars,
    {
        let ghost m = self.machine();
        let ghost fns = self.functions@;
        let next = pc + 1;
        if no_op(op) {
            self.go_to(next);
            assert(step_matches(spec_step(fns, m, 0, Seq::empty()), self.machine(), step_res(Ok(StepOut::Continue))));
            return Ok(StepOut::Continue);
        }
        if small_load(op) {
            let k = (u8::from(op) - u8::from(OpCode::Load0)) as i64;
            self.stack.push(Value::Int(k));
            self.go_to(next);
            assert(self.machine().stack =~= m.stack.push(ValueV::Int(small_int(op) as i64)));
            assert(step_matches(spec_step(fns, m, 0, Seq::empty()), self.machine(), step_res(Ok(StepOut::Continue))));
            return Ok(StepOut::Continue);
        }
        let fp = self.calls.get_fp();
        if short_load(op) || short_store(op) {
            let idx = short_index(op);
            let n = self.stack.len();
            if idx >= n || fp >= n - idx {
                let r = Err(owned("local slot out of range"));
                assert(step_matches(spec_step(fns, m, 0, Seq::empty()), self.machine(), step_res(r)));
                return r;
            }
            let slot = fp + idx;
            if short_load(op) {
                let v = self.stack[slot].copy();
                self.stack.push(v);
                self.go_to(next);
                assert(self.machine().stack =~= m.stack.push(m.stack[slot as int]));
            } else {
                let v = self.stack[n - 1].copy();
                self.stack.set(slot, v);
                self.go_to(next);
                assert(self.machine().stack =~= m.stack.update(slot as int, m.stack.last()));
            }
            assert(step_matches(spec_step(fns, m, 0, Seq::empty()), self.machine(), step_res(Ok(StepOut::Continue))));
            return Ok(StepOut::Continue);
        }
        match op {
            OpCode::Pop => {
                self.stack.pop();
                self.go_to(next);
                assert(self.machine().stack =~= (if m.stack.len() > 0 { m.stack.drop_last() } else { m.stack }));
                assert(step_matches(spec_step(fns, m, 0, Seq::empty()), self.machine(), step_res(Ok(StepOut::Continue))));
                Ok(StepOut::Continue)
            },
            OpCode::Dup | OpCode::Return | OpCode::Neg | OpCode::Print | OpCode::Println => {
                let n = self.stack.len();
                if n == 0 {
                    let r = Err(owned("stack is empty"));
                    assert(step_matches(spec_step(fns, m, 0, Seq::empty()), self.machine(), step_res(r)));
                    return r;
                }
                let top = self.stack[n - 1].copy();
                assert(top@ == m.stack.last());
                match op {
                    OpCode::Dup => {
                        self.stack.push(top);
                        self.go_to(next);
                        assert(self.machine().stack =~= m.stack.push(m.stack.last()));
                        assert(step_matches(spec_step(fns, m, 0, Seq::empty()), self.machine(), step_res(Ok(StepOut::Continue))));
                        Ok(StepOut::Continue)
                    },
                    OpCode::Return => {
                        let r = self.do_return(top);
                        assert(step_matches(spec_step(fns, m, 0, Seq::empty()), self.machine(), step_res(r)));
                        r
                    },
                    OpCode::Neg => {
                        match top {
                            Value::Int(i) => {
                                if i == i64::MIN {
                                    let r = Err(owned("integer overflow"));
                                    assert(step_matches(spec_step(fns, m, 0, Seq::empty()), self.machine(), step_res(r)));
                                    return r;
                                }
                                self.stack.set(n - 1, Value::Int(-i));
                                self.go_to(next);
                                assert(self.machine().stack =~= m.stack.update(m.stack.len() - 1, ValueV::Int((-i) as i64)));
                                assert(step_matches(spec_step(fns, m, 0, Seq::empty()), self.machine(), step_res(Ok(StepOut::Continue))));
                                Ok(StepOut::Continue)
                            },
                            Value::Float(b) => {
                                self.stack.set(n - 1, Value::Float(b ^ 0x8000_0000_0000_0000u64));
                                self.go_to(next);
                                assert(self.machine().stack =~= m.stack.update(
                                    m.stack.len() - 1,
                                    ValueV::Float(b ^ 0x8000_0000_0000_0000u64),
                                ));
                                assert(step_matches(spec_step(fns, m, 0, Seq::empty()), self.machine(), step_res(Ok(StepOut::Continue))));
                                Ok(StepOut::Continue)
                            },
                            _ => {
                                let r = Err(owned("cannot negate value"));
                                assert(step_matches(spec_step(fns, m, 0, Seq::empty()), self.machine(), step_res(r)));
                                r
                            },
                        }
                    },
                    _ => {
                        let text = value_text(&top, fl);
                        self.output.append(text.as_str());
                        if op == OpCode::Println {
                            self.output.append("\n");
                        }
                        self.go_to(next);
                        assert(step_matches(spec_step(fns, m, 0, text@), self.machine(), step_res(Ok(StepOut::Continue))));
                        Ok(StepOut::Continue)
                    },
                }
            },
            OpCode::LoadTrue | OpCode::LoadFalse | OpCode::LoadNil => {
                let v = match op {
                    OpCode::LoadTrue => Value::Bool(true),
                    OpCode::LoadFalse => Value::Bool(false),
                    _ => Value::Nil,
                };
                self.stack.push(v);
                self.go_to(next);
                assert(self.machine().stack =~= m.stack.push(v@));
                assert(step_matches(spec_step(fns, m, 0, Seq::empty()), self.machine(), step_res(Ok(StepOut::Continue))));
                Ok(StepOut::Continue)
            },
            _ => {
                let r = Err(owned("invalid instruction"));
                assert(step_matches(spec_step(fns, m, 0, Seq::empty()), self.machine(), step_res(r)));
                r
            },
        }
    }
}


impl VM {
    /// Runs an instruction with the operand byte `b`.
    fn exec_with_byte<F: FloatOps>(&mut self, op: OpCode, pc: usize, b: u8, fl: &F) -> (r: Result<
        StepOut,
        String,
    >)
        requires
            old(self).at_pc(pc),
            pc + 1 < old(self).cur_code().len() <= usize::MAX,
            op == OpCode::spec_from_byte(old(self).cur_code()[pc as int]),
            b == old(self).cur_code()[pc + 1],
            has_byte_operand(op),
        ensures
            final(self).wf(),
            final(self).functions == old(self).functions,
            step_holds(old(self).functions@, old(self).machine(), final(self).machine(), step_res(r)),
            step_res(r) is Continue ==> final(self).calls.stack@.len() > 0,
            r is Err ==> final(self).vars == old(self).vars,
    {
        let ghost m = self.machine();
        let ghost fns = self.functions@;
        let next = pc + 2;
        match op {
            OpCode::PushN => {
                let mut i: u8 = 0;
                while i < b
                    invariant
                        i <= b,
                        self.wf(),
                        self.calls == old(self).calls,
                        self.vars == old(self).vars,
                        self.functions == old(self).functions,
                        self.output == old(self).output,
                        values_view(self.stack@) == m.stack + Seq::new(i as nat, |k: int| ValueV::Nil),
                    decreases b - i,
                {
                    let ghost prev = self.stack@;
                    self.stack.push(Value::Nil);
                    assert(values_view(self.stack@) =~= values_view(prev).push(ValueV::Nil));
                    assert(values_view(self.stack@) =~= m.stack + Seq::new((i + 1) as nat, |k: int| ValueV::Nil));
                    i = i + 1;
                }
                self.go_to(next);
                assert(step_matches(spec_step(fns, m, 0, Seq::empty()), self.machine(), step_res(Ok(StepOut::Continue))));
                Ok(StepOut::Continue)
            },
            OpCode::PopN => {
                let mut i: u8 = 0;
                while i < b && self.stack.len() > 0
                    invariant
                        i <= b,
                        self.wf(),
                        self.calls == old(self).calls,
                        self.vars == old(self).vars,
                        self.functions == old(self).functions,
                        self.output == old(self).output,
                        i <= m.stack.len(),
                        self.stack@.len() == m.stack.len() - i,
                        values_view(self.stack@) == m.stack.subrange(0, m.stack.len() - i),
                    decreases b - i,
                {
                    let ghost prev = self.stack@;
                    self.stack.pop();
                    assert(values_view(self.stack@) =~= values_view(prev).drop_last());
                    assert(values_view(self.stack@) =~= m.stack.subrange(0, m.stack.len() - (i + 1)));
                    i = i + 1;
                }
                self.go_to(next);
                assert(self.machine().stack =~= pop_n(m.stack, b as int));
                assert(step_matches(spec_step(fns, m, 0, Seq::empty()), self.machine(), step_res(Ok(StepOut::Continue))));
                Ok(StepOut::Continue)
            },
            OpCode::LoadLocal | OpCode::StoreLocal => {
                let fp = self.calls.get_fp();
                let idx = b as usize;
                let n = self.stack.len();
                if idx >= n || fp >= n - idx {
                    let r = Err(owned("local slot out of range"));
                    assert(step_matches(spec_step(fns, m, 0, Seq::empty()), self.machine(), step_res(r)));
                    return r;
                }
                let slot = fp + idx;
                if op == OpCode::LoadLocal {
                    let v = self.stack[slot].copy();
                    self.stack.push(v);
                    self.go_to(next);
                    assert(self.machine().stack =~= m.stack.push(m.stack[slot as int]));
                } else {
                    let v = self.stack[n - 1].copy();
                    self.stack.set(slot, v);
                    self.go_to(next);
                    assert(self.machine().stack =~= m.stack.update(slot as int, m.stack.last()));
                }
                assert(step_matches(spec_step(fns, m, 0, Seq::empty()), self.machine(), step_res(Ok(StepOut::Continue))));
                Ok(StepOut::Continue)
            },
            OpCode::Call => {
                self.go_to(next);
                let called = self.call_value(b as usize);
                let r = match called {
                    Ok(()) => Ok(StepOut::Continue),
                    Err(e) => Err(e),
                };
                assert(step_matches(spec_step(fns, m, 0, Seq::empty()), self.machine(), step_res(r)));
                r
            },
            _ => {
                let mop = MathOp::from(b);
                let res = self.execute_math_op(mop, fl);
                match res {
                    Ok(v) => {
                        self.go_to(next);
                        let fx: u64 = match v {
                            Value::Float(x) => x,
                            _ => 0,
                        };
                        assert(step_matches(spec_step(fns, m, fx, Seq::empty()), self.machine(), step_res(Ok(StepOut::Continue))));
                        Ok(StepOut::Continue)
                    },
                    Err(e) => {
                        let r = Err(e);
                        assert(step_matches(spec_step(fns, m, 0, Seq::empty()), self.machine(), step_res(r)));
                        r
                    },
                }
            },
        }
    }

    /// Jumps to `to` when it lies within `0..=MAX_PC`.
    fn jump_to(&mut self, to: u64) -> (r: Result<StepOut, String>)
        requires
            old(self).wf(),
            old(self).calls.stack@.len() > 0,
        ensures
            final(self).wf(),
            final(self).functions == old(self).functions,
            final(self).vars == old(self).vars,
            to <= MAX_PC ==> r is Ok && step_res(r) is Continue && final(self).machine() == (Machine {
                frames: frames_at_pc(old(self).calls.stack@, to as int),
                ..old(self).machine()
            }),
            to > MAX_PC ==> r is Err && r->Err_0@ == "program counter out of range"@,
    {
        if to > MAX_PC as u64 {
            return Err(owned("program counter out of range"));
        }
        self.go_to(to as usize);
        Ok(StepOut::Continue)
    }

    /// Runs an instruction with the operand word `w`.
    fn exec_with_word(&mut self, op: OpCode, pc: usize, w: usize) -> (r: Result<StepOut, String>)
        requires
            old(self).at_pc(pc),
            pc + 2 < old(self).cur_code().len() <= usize::MAX,
            op == OpCode::spec_from_byte(old(self).cur_code()[pc as int]),
            w == old(self).cur_code()[pc + 1] as int * 256 + old(self).cur_code()[pc + 2] as int,
            has_word_operand(op),
        ensures
            final(self).wf(),
            final(self).functions == old(self).functions,
            step_holds(old(self).functions@, old(self).machine(), final(self).machine(), step_res(r)),
            step_res(r) is Continue ==> final(self).calls.stack@.len() > 0,
            r is Err ==> final(self).vars == old(self).vars,
    {
        let ghost m = self.machine();
        let ghost fns = self.functions@;
        let next = pc + 3;
        match op {
            OpCode::LoadValue => {
                let c = match self.calls.stack[self.calls.stack.len() - 1].core {
                    Some(c) => c,
                    None => 0,
                };
                if w < self.functions[c].constants.len() {
                    let v = self.functions[c].constants[w].copy();
                    self.stack.push(v);
                    self.go_to(next);
                    assert(self.machine().stack =~= m.stack.push(v@));
                    assert(step_matches(spec_step(fns, m, 0, Seq::empty()), self.machine(), step_res(Ok(StepOut::Continue))));
                    Ok(StepOut::Continue)
                } else {
                    let r = Err(owned("constant index out of range"));
                    assert(step_matches(spec_step(fns, m, 0, Seq::empty()), self.machine(), step_res(r)));
                    r
                }
            },
            OpCode::DefVar | OpCode::StoreVar => {
                let n = self.stack.len();
                if n == 0 {
                    if op == OpCode::DefVar {
                        let r = Err(owned("stack is empty"));
                        assert(step_matches(spec_step(fns, m, 0, Seq::empty()), self.machine(), step_res(r)));
                        return r;
                    }
                } else {
                    let v = self.stack[n - 1].copy();
                    self.set_var(w, v);
                    assert(values_view(self.vars@) =~= (if w < m.vars.len() { m.vars.update(w as int, m.stack.last()) } else { m.vars }));
                }
                self.go_to(next);
                assert(step_matches(spec_step(fns, m, 0, Seq::empty()), self.machine(), step_res(Ok(StepOut::Continue))));
                Ok(StepOut::Continue)
            },
            OpCode::LoadVar => {
                match self.get_var(w) {
                    Some(v) => {
                        self.stack.push(v);
                        self.go_to(next);
                        assert(self.machine().stack =~= m.stack.push(m.vars[w as int]));
                        assert(step_matches(spec_step(fns, m, 0, Seq::empty()), self.machine(), step_res(Ok(StepOut::Continue))));
                        Ok(StepOut::Continue)
                    },
                    None => {
                        let mut s = owned("var index out of range: ");
                        let a = usize_text(w);
                        s.append(a.as_str());
                        s.append("; limit: ");
                        let l = usize_text(self.vars.len());
                        s.append(l.as_str());
                        let r = Err(s);
                        assert(step_matches(spec_step(fns, m, 0, Seq::empty()), self.machine(), step_res(r)));
                        r
                    },
                }
            },
            _ => {
                let taken = match op {
                    OpCode::JumpFwd | OpCode::JumpBack => true,
                    OpCode::JumpTrue => self.stack.len() > 0 && !is_false(
                        self.stack[self.stack.len() - 1].copy(),
                    ),
                    _ => self.stack.len() > 0 && is_false(self.stack[self.stack.len() - 1].copy()),
                };
                if !taken {
                    self.go_to(next);
                    assert(step_matches(spec_step(fns, m, 0, Seq::empty()), self.machine(), step_res(Ok(StepOut::Continue))));
                    return Ok(StepOut::Continue);
                }
                let r = if op == OpCode::JumpBack {
                    if w > next {
                        Err(owned("program counter out of range"))
                    } else {
                        self.jump_to((next - w) as u64)
                    }
                } else {
                    let to: u64 = if next > MAX_PC {
                        MAX_PC as u64 + 1
                    } else {
                        next as u64 + w as u64
                    };
                    self.jump_to(to)
                };
                assert(step_matches(spec_step(fns, m, 0, Seq::empty()), self.machine(), step_res(r)));
                r
            },
        }
    }

    /// Runs the next instruction of the innermost call (see `spec_step`);
    /// past the end of its code the call returns `nil`.
    pub fn step<F: FloatOps>(&mut self, fl: &F) -> (r: Result<StepOut, String>)
        requires
            old(self).wf(),
            old(self).calls.stack@.len() > 0,
        ensures
            final(self).wf(),
            final(self).functions == old(self).functions,
            step_holds(old(self).functions@, old(self).machine(), final(self).machine(), step_res(r)),
            step_res(r) is Continue ==> final(self).calls.stack@.len() > 0,
            r is Err ==> final(self).vars == old(self).vars,
    {
        let ghost m = self.machine();
        let ghost fns = self.functions@;
        let top = self.calls.stack.len() - 1;
        assert(self.calls.stack@[top as int].core is Some);
        let c = match self.calls.stack[top].core {
            Some(c) => c,
            None => 0,
        };
        let pc = self.calls.stack[top].pc;
        let len = self.functions[c].code.len();
        if pc >= len {
            let r = self.do_return(Value::Nil);
            assert(step_matches(spec_step(fns, m, 0, Seq::empty()), self.machine(), step_res(r)));
            return r;
        }
        let op = OpCode::from(self.functions[c].code[pc]);
        if byte_operand(op) {
            if pc + 1 >= len {
                let r = Err(owned("truncated instruction"));
                assert(step_matches(spec_step(fns, m, 0, Seq::empty()), self.machine(), step_res(r)));
                return r;
            }
            let b = self.functions[c].code[pc + 1];
            self.exec_with_byte(op, pc, b, fl)
        } else if word_operand(op) {
            if len - pc <= 2 {
                let r = Err(owned("truncated instruction"));
                assert(step_matches(spec_step(fns, m, 0, Seq::empty()), self.machine(), step_res(r)));
                return r;
            }
            let w = (self.functions[c].code[pc + 1] as usize) * 256 + (self.functions[c].code[pc
                + 2] as usize);
            self.exec_with_word(op, pc, w)
        } else {
            self.exec_plain(op, pc, fl)
        }
    }

    /// Runs the calls on the call stack until the outermost one returns, an
    /// instruction fails, or `MAX_STEPS` instructions have run (see
    /// `run_holds`).
    #[verifier::rlimit(30)]
    pub fn call_closure<F: FloatOps>(&mut self, fl: &F) -> (r: Result<Value, String>)
        requires
            old(self).wf(),
            old(self).calls.stack@.len() > 0,
        ensures
            final(self).wf(),
            final(self).functions == old(self).functions,
            final(self).vars@.len() == old(self).vars@.len(),
            run_holds(
                old(self).functions@,
                old(self).machine(),
                MAX_STEPS as nat,
                run_res(r),
                final(self).machine(),
            ),
    {
        let ghost m0 = self.machine();
        let ghost fns = self.functions@;
        let mut fuel: usize = MAX_STEPS;
        let ghost nvars = self.vars@.len();
        loop
            invariant
                self.wf(),
                self.functions == old(self).functions,
                self.functions@ == fns,
                fns == old(self).functions@,
                m0 == old(self).machine(),
                self.calls.stack@.len() > 0,
                fuel <= MAX_STEPS,
                forall|res: StepRes, mf: Machine| #[trigger]
                    run_holds(fns, self.machine(), fuel as nat, res, mf) ==> run_holds(
                        fns,
                        m0,
                        MAX_STEPS as nat,
                        res,
                        mf,
                    ),
                self.vars@.len() == nvars,
                nvars == old(self).vars@.len(),
            decreases fuel,
        {
            if fuel == 0 {
                let r = Err(owned("instruction limit reached"));
                assert(run_holds(fns, self.machine(), 0, run_res(r), self.machine()));
                assert(run_holds(fns, m0, MAX_STEPS as nat, run_res(r), self.machine()));
                return r;
            }
            let ghost before = self.machine();
            let s = self.step(fl);
            let ghost after = self.machine();
            match s {
                Ok(StepOut::Continue) => {
                    proof {
                        assert forall|res: StepRes, mf: Machine| #[trigger]
                            run_holds(fns, after, (fuel - 1) as nat, res, mf) implies run_holds(
                            fns,
                            before,
                            fuel as nat,
                            res,
                            mf,
                        ) by {
                            assert(step_holds(fns, before, after, StepRes::Continue));
                        }
                    }
                    proof {
                        crate::machine::lemma_step_holds_vars_len(fns, before, after, StepRes::Continue);
                    }
                    let ghost f0 = fuel;
                    fuel = fuel - 1;
                    assert forall|res: StepRes, mf: Machine| #[trigger]
                        run_holds(fns, self.machine(), fuel as nat, res, mf) implies run_holds(
                        fns,
                        m0,
                        MAX_STEPS as nat,
                        res,
                        mf,
                    ) by {
                        assert(self.machine() == after);
                        assert(run_holds(fns, before, f0 as nat, res, mf));
                    }
                },
                Ok(StepOut::Finished(v)) => {
                    let r = Ok(v);
                    proof {
                        assert(step_holds(fns, before, after, step_res(Ok(StepOut::Finished(v)))));
                        assert(run_holds(fns, before, fuel as nat, run_res(r), after));
                        assert(run_holds(fns, m0, MAX_STEPS as nat, run_res(r), after));
                        crate::machine::lemma_step_holds_vars_len(
                            fns,
                            before,
                            after,
                            StepRes::Finished(v@),
                        );
                    }
                    return r;
                },
                Err(e) => {
                    let r = Err(e);
                    proof {
                        assert(step_holds(fns, before, after, step_res(Err(e))));
                        assert(run_holds(fns, before, fuel as nat, run_res(r), after));
                        assert(run_holds(fns, m0, MAX_STEPS as nat, run_res(r), after));
                    }
                    return r;
                },
            }
        }
    }
}

/// Ending a call just started gives back its frame and leaves the calls
/// as they were (see `CallStack::push` and `CallStack::pop`).
pub proof fn lemma_pop_undoes_push(frames: Seq<CallFrame>, fun: Value)
    requires
        fun is Closure,
    ensures
        frames.push(CallStack::new_frame(fun)).len() > 0,
        frames.push(CallStack::new_frame(fun)).last() == CallStack::new_frame(fun),
        frames.push(CallStack::new_frame(fun)).drop_last() == frames,
{
    assert(frames.push(CallStack::new_frame(fun)).drop_last() =~= frames);
}

/// A global variable that exists reads back what was last written to it,
/// and writing it leaves the others as they were (see `VM::set_var` and
/// `VM::get_var`).
pub proof fn lemma_var_read_after_write(vars: Seq<Value>, index: int, value: Value)
    requires
        0 <= index < vars.len(),
    ensures
        vars.update(index, value).len() == vars.len(),
        vars.update(index, value)[index] == value,
        forall|j: int| 0 <= j < vars.len() && j != index ==> #[trigger] vars.update(index, value)[j]
            == vars[j],
{
}

} // verus!
