//! The meaning of the byte code: what one instruction does to the value
//! stack, the global variables, the call frames and the printed text, and
//! what a run of instructions ends with.

use vstd::prelude::*;

use crate::arith::{spec_math, Outcome};
use crate::compiler::{lemma_word_roundtrip, word_high, word_low};
use crate::opcode::{lemma_math_op_encode_decode, lemma_opcode_decode_encode, lemma_opcode_encode_decode};
use crate::opcode::{MathOp, OpCode};
use crate::text::{spec_decimal, spec_int_text};
use crate::value::{FunctionCore, Value, ValueV};
use crate::vm::{CallFrame, MAX_CALL_DEPTH, MAX_PC};

verus! {

/// Every frame runs a function of the table: its closure and its compiled
/// function are the same entry, and that entry exists.
pub open spec fn frames_ok(frames: Seq<CallFrame>, n_functions: nat) -> bool {
    forall|i: int|
        0 <= i < frames.len() ==> {
            &&& (#[trigger] frames[i]).core is Some
            &&& frames[i].core->0 < n_functions
            &&& frames[i].closure == frames[i].core
        }
}

/// The part of the machine that running instructions changes: the value
/// stack, the global variables, the call frames and the printed text.
pub struct Machine {
    pub stack: Seq<ValueV>,
    pub vars: Seq<ValueV>,
    pub frames: Seq<CallFrame>,
    pub output: Seq<char>,
}

/// What one instruction leads to: the next instruction, the end of the run
/// with a value (the outermost call returned), or a run-time error.
pub enum StepRes {
    Continue,
    Finished(ValueV),
    Failed(Seq<char>),
}

/// The text under which `print` writes a value; `ft` is the text the
/// embedding program gives a float.
pub open spec fn spec_value_text(v: ValueV, ft: Seq<char>) -> Seq<char> {
    match v {
        ValueV::Nil => "nil"@,
        ValueV::Bool(b) => if b {
            "true"@
        } else {
            "false"@
        },
        ValueV::Int(i) => spec_int_text(i as int),
        ValueV::Float(_) => ft,
        ValueV::Str(s) => s,
        ValueV::Closure(_) => "<closure>"@,
    }
}

/// The frames with the program counter of the innermost one set to `pc`.
pub open spec fn frames_at_pc(frames: Seq<CallFrame>, pc: int) -> Seq<CallFrame> {
    frames.update(frames.len() - 1, CallFrame { pc: pc as usize, ..frames.last() })
}

/// Go on at `pc` with the given stack.
pub open spec fn go_on(m: Machine, pc: int, stack: Seq<ValueV>) -> (Machine, StepRes) {
    (Machine { stack, frames: frames_at_pc(m.frames, pc), ..m }, StepRes::Continue)
}

pub open spec fn fail(m: Machine, msg: Seq<char>) -> (Machine, StepRes) {
    (m, StepRes::Failed(msg))
}

/// The innermost call returns `v`: the stack is cut back to the slot of the
/// called value, which `v` replaces, and the frame ends.
pub open spec fn spec_return(m: Machine, v: ValueV) -> (Machine, StepRes) {
    let fp = m.frames.last().fp;
    if fp >= m.stack.len() {
        fail(m, "frame pointer out of range"@)
    } else {
        let m2 = Machine {
            stack: m.stack.subrange(0, fp as int).push(v),
            frames: m.frames.drop_last(),
            ..m
        };
        if m2.frames.len() == 0 {
            (m2, StepRes::Finished(v))
        } else {
            (m2, StepRes::Continue)
        }
    }
}

/// The slot of local `idx` of the innermost call.
pub open spec fn local_slot(m: Machine, idx: int) -> int {
    m.frames.last().fp + idx
}

/// The index of the local that `LoadLocal0` and the other short loads and
/// stores name.
pub open spec fn short_local_index(op: OpCode) -> int {
    match op {
        OpCode::LoadLocal0 | OpCode::StoreLocal0 => 0,
        OpCode::LoadLocal1 | OpCode::StoreLocal1 => 1,
        OpCode::LoadLocal2 | OpCode::StoreLocal2 => 2,
        OpCode::LoadLocal3 | OpCode::StoreLocal3 => 3,
        OpCode::LoadLocal4 | OpCode::StoreLocal4 => 4,
        OpCode::LoadLocal5 | OpCode::StoreLocal5 => 5,
        OpCode::LoadLocal6 | OpCode::StoreLocal6 => 6,
        OpCode::LoadLocal7 | OpCode::StoreLocal7 => 7,
        _ => 8,
    }
}

pub open spec fn is_short_load(op: OpCode) -> bool {
    match op {
        OpCode::LoadLocal0 | OpCode::LoadLocal1 | OpCode::LoadLocal2 | OpCode::LoadLocal3
        | OpCode::LoadLocal4 | OpCode::LoadLocal5 | OpCode::LoadLocal6 | OpCode::LoadLocal7
        | OpCode::LoadLocal8 => true,
        _ => false,
    }
}

pub open spec fn is_short_store(op: OpCode) -> bool {
    match op {
        OpCode::StoreLocal0 | OpCode::StoreLocal1 | OpCode::StoreLocal2 | OpCode::StoreLocal3
        | OpCode::StoreLocal4 | OpCode::StoreLocal5 | OpCode::StoreLocal6 | OpCode::StoreLocal7
        | OpCode::StoreLocal8 => true,
        _ => false,
    }
}

/// The small integer that `Load0` to `Load10` push.
pub open spec fn small_int(op: OpCode) -> int {
    op.spec_to_byte() - OpCode::Load0.spec_to_byte()
}

pub open spec fn is_small_load(op: OpCode) -> bool {
    match op {
        OpCode::Load0 | OpCode::Load1 | OpCode::Load2 | OpCode::Load3 | OpCode::Load4
        | OpCode::Load5 | OpCode::Load6 | OpCode::Load7 | OpCode::Load8 | OpCode::Load9
        | OpCode::Load10 => true,
        _ => false,
    }
}

/// Instructions that do nothing but move on.
pub open spec fn is_no_op(op: OpCode) -> bool {
    match op {
        OpCode::AddMod | OpCode::SwitchMod | OpCode::Array | OpCode::Dict | OpCode::LoadUpvalue
        | OpCode::StoreUpvalue | OpCode::LoadField | OpCode::StoreField | OpCode::LoadStatic
        | OpCode::StoreStatic | OpCode::LoadMethod | OpCode::LoadStaticMethod
        | OpCode::LoadSuperMethod | OpCode::DefStatic | OpCode::Method | OpCode::StaticMethod
        | OpCode::Instance | OpCode::Closure | OpCode::CloseUpvalue | OpCode::Ternary
        | OpCode::Input | OpCode::MathAssignOp | OpCode::BitwiseOp | OpCode::BitwiseAssignOp => true,
        _ => false,
    }
}

/// Instructions followed by one operand byte.
pub open spec fn has_byte_operand(op: OpCode) -> bool {
    match op {
        OpCode::PushN | OpCode::PopN | OpCode::LoadLocal | OpCode::StoreLocal | OpCode::Call
        | OpCode::MathOp => true,
        _ => false,
    }
}

/// Instructions followed by a two-byte operand, high byte first.
pub open spec fn has_word_operand(op: OpCode) -> bool {
    match op {
        OpCode::LoadValue | OpCode::DefVar | OpCode::LoadVar | OpCode::StoreVar | OpCode::JumpFwd
        | OpCode::JumpBack | OpCode::JumpTrue | OpCode::JumpFalse => true,
        _ => false,
    }
}

/// A value is false in a condition when it is `nil` or `false`.
pub open spec fn spec_is_false_v(v: ValueV) -> bool {
    v is Nil || v == ValueV::Bool(false)
}

/// An instruction without operands at `pc`.
pub open spec fn spec_plain(m: Machine, op: OpCode, pc: int, ft: Seq<char>) -> (Machine, StepRes) {
    let next = pc + 1;
    let st = m.stack;
    if is_no_op(op) {
        go_on(m, next, st)
    } else if is_small_load(op) {
        go_on(m, next, st.push(ValueV::Int(small_int(op) as i64)))
    } else if is_short_load(op) {
        let slot = local_slot(m, short_local_index(op));
        if slot < st.len() {
            go_on(m, next, st.push(st[slot]))
        } else {
            fail(m, "local slot out of range"@)
        }
    } else if is_short_store(op) {
        let slot = local_slot(m, short_local_index(op));
        if slot < st.len() {
            go_on(m, next, st.update(slot, st.last()))
        } else {
            fail(m, "local slot out of range"@)
        }
    } else {
        match op {
            OpCode::Pop => go_on(
                m,
                next,
                if st.len() > 0 {
                    st.drop_last()
                } else {
                    st
                },
            ),
            OpCode::Dup => if st.len() > 0 {
                go_on(m, next, st.push(st.last()))
            } else {
                fail(m, "stack is empty"@)
            },
            OpCode::LoadTrue => go_on(m, next, st.push(ValueV::Bool(true))),
            OpCode::LoadFalse => go_on(m, next, st.push(ValueV::Bool(false))),
            OpCode::LoadNil => go_on(m, next, st.push(ValueV::Nil)),
            OpCode::Return => if st.len() > 0 {
                spec_return(m, st.last())
            } else {
                fail(m, "stack is empty"@)
            },
            OpCode::Neg => if st.len() > 0 {
                match st.last() {
                    ValueV::Int(i) => if i == i64::MIN {
                        fail(m, "integer overflow"@)
                    } else {
                        go_on(m, next, st.update(st.len() - 1, ValueV::Int((-i) as i64)))
                    },
                    ValueV::Float(b) => go_on(
                        m,
                        next,
                        st.update(st.len() - 1, ValueV::Float(b ^ 0x8000_0000_0000_0000u64)),
                    ),
                    _ => fail(m, "cannot negate value"@),
                }
            } else {
                fail(m, "stack is empty"@)
            },
            OpCode::Print | OpCode::Println => if st.len() > 0 {
                let text = spec_value_text(st.last(), ft);
                let out = if op == OpCode::Print {
                    m.output + text
                } else {
                    m.output + text + "\n"@
                };
                go_on(Machine { output: out, ..m }, next, st)
            } else {
                fail(m, "stack is empty"@)
            },
            _ => fail(m, "invalid instruction"@),
        }
    }
}

/// Pops `n` values, as many as there are.
pub open spec fn pop_n(st: Seq<ValueV>, n: int) -> Seq<ValueV> {
    if n >= st.len() {
        Seq::empty()
    } else {
        st.subrange(0, st.len() - n)
    }
}

/// A call of the value `n` slots below the top with the `n` values above it
/// as arguments; the caller goes on after the operand when the call returns.
pub open spec fn spec_call(fns: Seq<FunctionCore>, m: Machine, n: int, pc: int) -> (
    Machine,
    StepRes,
) {
    let st = m.stack;
    if st.len() <= n {
        fail(m, "stack underflow"@)
    } else {
        let slot = st.len() - n - 1;
        match st[slot] {
            ValueV::Closure(i) => if i >= fns.len() {
                fail(m, "not a function type, but closure"@)
            } else if fns[i as int].arity != n {
                fail(
                    m,
                    spec_decimal(fns[i as int].arity as nat) + " args expected, found "@
                        + spec_decimal(n as nat),
                )
            } else if m.frames.len() >= MAX_CALL_DEPTH {
                fail(m, "call stack overflow"@)
            } else {
                let frames = frames_at_pc(m.frames, pc + 2).push(
                    CallFrame {
                        fun: Value::Closure(i),
                        closure: Some(i),
                        core: Some(i),
                        pc: 0,
                        fp: slot as usize,
                    },
                );
                (Machine { frames, ..m }, StepRes::Continue)
            },
            other => fail(m, "not a function type, but "@ + other.kind_name()),
        }
    }
}

/// An instruction with the operand byte `b` at `pc`.
pub open spec fn spec_with_byte(
    fns: Seq<FunctionCore>,
    m: Machine,
    op: OpCode,
    pc: int,
    b: u8,
    fx: u64,
) -> (Machine, StepRes) {
    let next = pc + 2;
    let st = m.stack;
    match op {
        OpCode::PushN => go_on(m, next, st + Seq::new(b as nat, |i: int| ValueV::Nil)),
        OpCode::PopN => go_on(m, next, pop_n(st, b as int)),
        OpCode::LoadLocal => {
            let slot = local_slot(m, b as int);
            if slot < st.len() {
                go_on(m, next, st.push(st[slot]))
            } else {
                fail(m, "local slot out of range"@)
            }
        },
        OpCode::StoreLocal => {
            let slot = local_slot(m, b as int);
            if slot < st.len() {
                go_on(m, next, st.update(slot, st.last()))
            } else {
                fail(m, "local slot out of range"@)
            }
        },
        OpCode::Call => spec_call(fns, m, b as int, pc),
        _ => {
            if st.len() < 2 {
                fail(m, "stack underflow"@)
            } else {
                let rest = st.drop_last().drop_last();
                match spec_math(MathOp::spec_from_byte(b), false, st[st.len() - 2], st.last()) {
                    Outcome::Exact(v) => go_on(m, next, rest.push(v)),
                    Outcome::SomeFloat => go_on(m, next, rest.push(ValueV::Float(fx))),
                    Outcome::Fails(e) => fail(m, e),
                }
            }
        },
    }
}

/// A jump to `to`, which must lie within `0..=MAX_PC`.
pub open spec fn jump(m: Machine, to: int) -> (Machine, StepRes) {
    if 0 <= to <= MAX_PC {
        go_on(m, to, m.stack)
    } else {
        fail(m, "program counter out of range"@)
    }
}

/// An instruction with the operand word `w` at `pc`.
pub open spec fn spec_with_word(fns: Seq<FunctionCore>, m: Machine, op: OpCode, pc: int, w: int) -> (
    Machine,
    StepRes,
) {
    let next = pc + 3;
    let st = m.stack;
    match op {
        OpCode::LoadValue => {
            let consts = fns[m.frames.last().core->0 as int].constants@;
            if w < consts.len() {
                go_on(m, next, st.push(consts[w]@))
            } else {
                fail(m, "constant index out of range"@)
            }
        },
        OpCode::DefVar => if st.len() > 0 {
            let vars = if w < m.vars.len() {
                m.vars.update(w, st.last())
            } else {
                m.vars
            };
            go_on(Machine { vars, ..m }, next, st)
        } else {
            fail(m, "stack is empty"@)
        },
        OpCode::LoadVar => if w < m.vars.len() {
            go_on(m, next, st.push(m.vars[w]))
        } else {
            fail(
                m,
                "var index out of range: "@ + spec_decimal(w as nat) + "; limit: "@ + spec_decimal(
                    m.vars.len(),
                ),
            )
        },
        OpCode::StoreVar => {
            let vars = if st.len() > 0 && w < m.vars.len() {
                m.vars.update(w, st.last())
            } else {
                m.vars
            };
            go_on(Machine { vars, ..m }, next, st)
        },
        OpCode::JumpFwd => jump(m, next + w),
        OpCode::JumpBack => jump(m, next - w),
        OpCode::JumpTrue => if st.len() > 0 && !spec_is_false_v(st.last()) {
            jump(m, next + w)
        } else {
            go_on(m, next, st)
        },
        _ => if st.len() > 0 && spec_is_false_v(st.last()) {
            jump(m, next + w)
        } else {
            go_on(m, next, st)
        },
    }
}

/// One instruction of the innermost call. `fx` is the result the embedding
/// program gives a float operation and `ft` the text it gives a float.
pub open spec fn spec_step(fns: Seq<FunctionCore>, m: Machine, fx: u64, ft: Seq<char>) -> (
    Machine,
    StepRes,
) {
    let f = m.frames.last();
    let code = fns[f.core->0 as int].code@;
    let pc = f.pc as int;
    if pc >= code.len() {
        spec_return(m, ValueV::Nil)
    } else {
        let op = OpCode::spec_from_byte(code[pc]);
        if has_byte_operand(op) {
            if pc + 1 >= code.len() {
                fail(m, "truncated instruction"@)
            } else {
                spec_with_byte(fns, m, op, pc, code[pc + 1], fx)
            }
        } else if has_word_operand(op) {
            if pc + 2 >= code.len() {
                fail(m, "truncated instruction"@)
            } else {
                spec_with_word(fns, m, op, pc, code[pc + 1] as int * 256 + code[pc + 2] as int)
            }
        } else {
            spec_plain(m, op, pc, ft)
        }
    }
}

/// One instruction took `m` to `m2` with the outcome `r`, for some float
/// result and float text that the embedding program may have given; after
/// an error only the message is fixed.
pub open spec fn step_holds(fns: Seq<FunctionCore>, m: Machine, m2: Machine, r: StepRes) -> bool {
    exists|fx: u64, ft: Seq<char>| #[trigger] step_matches(spec_step(fns, m, fx, ft), m2, r)
}

pub open spec fn step_matches(s: (Machine, StepRes), m2: Machine, r: StepRes) -> bool {
    match s.1 {
        StepRes::Failed(e) => r == StepRes::Failed(e),
        _ => s.0 == m2 && s.1 == r,
    }
}

/// The outcome of a run of at most `fuel` instructions from `m`, and the
/// machine `mf` it ends in: the value that the outermost call returned, or
/// the first run-time error; running out of instructions is an error too.
pub open spec fn run_holds(fns: Seq<FunctionCore>, m: Machine, fuel: nat, r: StepRes, mf: Machine) -> bool
    decreases fuel,
{
    if fuel == 0 {
        r == StepRes::Failed("instruction limit reached"@) && mf == m
    } else {
        exists|m2: Machine, s: StepRes|
            #[trigger] step_holds(fns, m, m2, s) && match s {
                StepRes::Continue => m2.frames.len() > 0 && run_holds(
                    fns,
                    m2,
                    (fuel - 1) as nat,
                    r,
                    mf,
                ),
                _ => r == s && mf == m2,
            }
    }
}


/// The machine at the start of a run of the function `f`: its closure on
/// the stack and one frame for it.
pub open spec fn start_machine(f: usize, vars: Seq<ValueV>, output: Seq<char>) -> Machine {
    Machine {
        stack: seq![ValueV::Closure(f)],
        vars,
        frames: seq![
            CallFrame {
                fun: Value::Closure(f),
                closure: Some(f),
                core: Some(f),
                pc: 0,
                fp: 0,
            },
        ],
        output,
    }
}

/// The instruction that pushes the small integer `i`.
pub open spec fn small_load_code(i: int) -> Seq<u8> {
    seq![(OpCode::Load0.spec_to_byte() + i) as u8]
}

/// A run starts from the globals `before`: they are the first of `vars`,
/// any others were added after them.
pub open spec fn globals_kept(vars: Seq<ValueV>, before: Seq<ValueV>) -> bool {
    vars.len() >= before.len() && vars.subrange(0, before.len() as int) == before
}

/// The code `c` pushes the value `v` in function `f`: `nil`, `true`,
/// `false`, a small integer, or a constant of the function.
pub open spec fn pushes(fns: Seq<FunctionCore>, f: int, c: Seq<u8>, v: ValueV) -> bool {
    ||| (c == seq![OpCode::LoadNil.spec_to_byte()] && v == ValueV::Nil)
    ||| (c == seq![OpCode::LoadTrue.spec_to_byte()] && v == ValueV::Bool(true))
    ||| (c == seq![OpCode::LoadFalse.spec_to_byte()] && v == ValueV::Bool(false))
    ||| exists|i: int| 0 <= i <= 10 && c == #[trigger] small_load_code(i) && v == ValueV::Int(i as i64)
    ||| exists|k: usize|
        k < 65536 && k < fns[f].constants@.len() && c == seq![
            OpCode::LoadValue.spec_to_byte(),
            word_high(k),
            word_low(k),
        ] && v == #[trigger] fns[f].constants@[k as int]@
}

/// The code of a program that defines global `j` as `v`: it pushes `v`,
/// defines the global from it and returns nil.
pub open spec fn defines_global(fns: Seq<FunctionCore>, f: int, j: usize, v: ValueV) -> bool {
    exists|c: Seq<u8>|
        #[trigger] pushes(fns, f, c, v) && fns[f].code@ == c + seq![
            OpCode::DefVar.spec_to_byte(),
            word_high(j),
            word_low(j),
            OpCode::LoadNil.spec_to_byte(),
            OpCode::Return.spec_to_byte(),
        ]
}

/// The code of a program that returns global `j`.
pub open spec fn reads_global(fns: Seq<FunctionCore>, f: int, j: usize) -> bool {
    fns[f].code@ == seq![
        OpCode::LoadVar.spec_to_byte(),
        word_high(j),
        word_low(j),
        OpCode::Return.spec_to_byte(),
    ]
}

/// The code of a program that assigns `v` to global `j`: it pushes `v`,
/// stores it in the global and returns it.
pub open spec fn assigns_global(fns: Seq<FunctionCore>, f: int, j: usize, v: ValueV) -> bool {
    exists|c: Seq<u8>|
        #[trigger] pushes(fns, f, c, v) && fns[f].code@ == c + seq![
            OpCode::StoreVar.spec_to_byte(),
            word_high(j),
            word_low(j),
            OpCode::Return.spec_to_byte(),
        ]
}

/// The code `c` pushes the value `v` in function `f`, the globals being
/// `vars`: a literal (see `pushes`), or global `j`.
pub open spec fn loads(fns: Seq<FunctionCore>, f: int, c: Seq<u8>, vars: Seq<ValueV>, v: ValueV) -> bool {
    ||| pushes(fns, f, c, v)
    ||| exists|j: usize|
        j < 65536 && j < vars.len() && c == seq![
            OpCode::LoadVar.spec_to_byte(),
            word_high(j),
            word_low(j),
        ] && v == #[trigger] vars[j as int]
}

/// The code of a program that returns `a op b`, run from the globals
/// `vars`: it pushes `a`, pushes `b`, applies the operator `op` and returns
/// the result.
pub open spec fn computes(
    fns: Seq<FunctionCore>,
    f: int,
    op: MathOp,
    vars: Seq<ValueV>,
    a: ValueV,
    b: ValueV,
) -> bool {
    exists|ca: Seq<u8>, cb: Seq<u8>|
        #![trigger loads(fns, f, ca, vars, a), loads(fns, f, cb, vars, b)]
        loads(fns, f, ca, vars, a) && loads(fns, f, cb, vars, b) && fns[f].code@ == ca + cb + seq![
            OpCode::MathOp.spec_to_byte(),
            op.spec_to_byte(),
            OpCode::Return.spec_to_byte(),
        ]
}

/// The code of a program that returns `v`: it pushes `v` and returns it.
pub open spec fn returns_value(fns: Seq<FunctionCore>, f: int, v: ValueV) -> bool {
    exists|c: Seq<u8>| #[trigger] pushes(fns, f, c, v) && fns[f].code@ == c.push(OpCode::Return.spec_to_byte())
}

/// A step that cannot fail and does not depend on what the embedding
/// program gives floats took `m` where it says.
proof fn lemma_fixed_step(
    fns: Seq<FunctionCore>,
    m: Machine,
    fuel: nat,
    r: StepRes,
    mf: Machine,
    em: Machine,
    es: StepRes,
)
    requires
        fuel > 0,
        run_holds(fns, m, fuel, r, mf),
        !(es is Failed),
        forall|fx: u64, ft: Seq<char>| #[trigger] spec_step(fns, m, fx, ft) == (em, es),
    ensures
        es is Continue ==> em.frames.len() > 0 && run_holds(fns, em, (fuel - 1) as nat, r, mf),
        !(es is Continue) ==> r == es && mf == em,
{
    let (m2, s) = choose|m2: Machine, s: StepRes|
        #[trigger] step_holds(fns, m, m2, s) && match s {
            StepRes::Continue => m2.frames.len() > 0 && run_holds(fns, m2, (fuel - 1) as nat, r, mf),
            _ => r == s && mf == m2,
        };
    let (fx, ft) = choose|fx: u64, ft: Seq<char>| #[trigger] step_matches(spec_step(fns, m, fx, ft), m2, s);
    assert(spec_step(fns, m, fx, ft) == (em, es));
}

/// A run of a program that defines global `j` as `v` finishes with nil,
/// leaves `v` in global `j` and the other globals as they were.
pub proof fn lemma_run_defines_global(
    fns: Seq<FunctionCore>,
    f: usize,
    j: usize,
    v: ValueV,
    vars: Seq<ValueV>,
    output: Seq<char>,
    fuel: nat,
    r: StepRes,
    mf: Machine,
)
    requires
        f < fns.len(),
        j < 65536,
        j < vars.len(),
        fuel >= 4,
        defines_global(fns, f as int, j, v),
        run_holds(fns, start_machine(f, vars, output), fuel, r, mf),
    ensures
        r == StepRes::Finished(ValueV::Nil),
        mf.vars == vars.update(j as int, v),
        mf.output == output,
{
    let c = choose|c: Seq<u8>|
        #[trigger] pushes(fns, f as int, c, v) && fns[f as int].code@ == c + seq![
            OpCode::DefVar.spec_to_byte(),
            word_high(j),
            word_low(j),
            OpCode::LoadNil.spec_to_byte(),
            OpCode::Return.spec_to_byte(),
        ];
    let code = fns[f as int].code@;
    let m0 = start_machine(f, vars, output);
    let st1 = m0.stack.push(v);
    let m1 = Machine { stack: st1, frames: frames_at_pc(m0.frames, c.len() as int), ..m0 };
    assert(code.subrange(0, c.len() as int) =~= c);
    assert(m0.frames =~= frames_at_pc(m0.frames, 0));
    proof_push_step(fns, f, c, v, m0, 0);
    lemma_fixed_step(fns, m0, fuel, r, mf, m1, StepRes::Continue);
    // DefVar j
    let p1 = c.len() as int;
    lemma_word_roundtrip(j);
    lemma_opcode_encode_decode(OpCode::DefVar);
    assert(code[p1] == OpCode::DefVar.spec_to_byte());
    assert(code[p1 + 1] == word_high(j) && code[p1 + 2] == word_low(j));
    let m2 = Machine {
        vars: vars.update(j as int, v),
        frames: frames_at_pc(m1.frames, p1 + 3),
        ..m1
    };
    assert forall|fx: u64, ft: Seq<char>| #[trigger] spec_step(fns, m1, fx, ft) == (
        m2,
        StepRes::Continue,
    ) by {}
    lemma_fixed_step(fns, m1, (fuel - 1) as nat, r, mf, m2, StepRes::Continue);
    // LoadNil
    lemma_opcode_encode_decode(OpCode::LoadNil);
    assert(code[p1 + 3] == OpCode::LoadNil.spec_to_byte());
    let m3 = Machine {
        stack: st1.push(ValueV::Nil),
        frames: frames_at_pc(m2.frames, p1 + 4),
        ..m2
    };
    assert forall|fx: u64, ft: Seq<char>| #[trigger] spec_step(fns, m2, fx, ft) == (
        m3,
        StepRes::Continue,
    ) by {}
    lemma_fixed_step(fns, m2, (fuel - 2) as nat, r, mf, m3, StepRes::Continue);
    // Return
    lemma_opcode_encode_decode(OpCode::Return);
    assert(code[p1 + 4] == OpCode::Return.spec_to_byte());
    let m4 = Machine { stack: seq![ValueV::Nil], frames: m3.frames.drop_last(), ..m3 };
    assert(m3.stack.subrange(0, 0).push(ValueV::Nil) =~= seq![ValueV::Nil]);
    assert forall|fx: u64, ft: Seq<char>| #[trigger] spec_step(fns, m3, fx, ft) == (
        m4,
        StepRes::Finished(ValueV::Nil),
    ) by {}
    lemma_fixed_step(fns, m3, (fuel - 3) as nat, r, mf, m4, StepRes::Finished(ValueV::Nil));
}

/// A run of a program that assigns `v` to global `j` finishes with `v`,
/// leaves `v` in global `j` and the other globals as they were.
pub proof fn lemma_run_assigns_global(
    fns: Seq<FunctionCore>,
    f: usize,
    j: usize,
    v: ValueV,
    vars: Seq<ValueV>,
    output: Seq<char>,
    fuel: nat,
    r: StepRes,
    mf: Machine,
)
    requires
        f < fns.len(),
        j < 65536,
        j < vars.len(),
        fuel >= 3,
        assigns_global(fns, f as int, j, v),
        run_holds(fns, start_machine(f, vars, output), fuel, r, mf),
    ensures
        r == StepRes::Finished(v),
        mf.vars == vars.update(j as int, v),
        mf.output == output,
{
    let c = choose|c: Seq<u8>|
        #[trigger] pushes(fns, f as int, c, v) && fns[f as int].code@ == c + seq![
            OpCode::StoreVar.spec_to_byte(),
            word_high(j),
            word_low(j),
            OpCode::Return.spec_to_byte(),
        ];
    let code = fns[f as int].code@;
    let m0 = start_machine(f, vars, output);
    let st1 = m0.stack.push(v);
    let m1 = Machine { stack: st1, frames: frames_at_pc(m0.frames, c.len() as int), ..m0 };
    assert(code.subrange(0, c.len() as int) =~= c);
    assert(m0.frames =~= frames_at_pc(m0.frames, 0));
    proof_push_step(fns, f, c, v, m0, 0);
    lemma_fixed_step(fns, m0, fuel, r, mf, m1, StepRes::Continue);
    // StoreVar j
    let p1 = c.len() as int;
    lemma_word_roundtrip(j);
    lemma_opcode_encode_decode(OpCode::StoreVar);
    assert(code[p1] == OpCode::StoreVar.spec_to_byte());
    assert(code[p1 + 1] == word_high(j) && code[p1 + 2] == word_low(j));
    let m2 = Machine {
        vars: vars.update(j as int, v),
        frames: frames_at_pc(m1.frames, p1 + 3),
        ..m1
    };
    assert forall|fx: u64, ft: Seq<char>| #[trigger] spec_step(fns, m1, fx, ft) == (
        m2,
        StepRes::Continue,
    ) by {}
    lemma_fixed_step(fns, m1, (fuel - 1) as nat, r, mf, m2, StepRes::Continue);
    // Return
    lemma_opcode_encode_decode(OpCode::Return);
    assert(code[p1 + 3] == OpCode::Return.spec_to_byte());
    let m3 = Machine { stack: seq![v], frames: m2.frames.drop_last(), ..m2 };
    assert(m2.stack.subrange(0, 0).push(v) =~= seq![v]);
    assert forall|fx: u64, ft: Seq<char>| #[trigger] spec_step(fns, m2, fx, ft) == (
        m3,
        StepRes::Finished(v),
    ) by {}
    lemma_fixed_step(fns, m2, (fuel - 2) as nat, r, mf, m3, StepRes::Finished(v));
}

/// A run of a program that returns `v` finishes with `v`.
pub proof fn lemma_run_returns_value(
    fns: Seq<FunctionCore>,
    f: usize,
    v: ValueV,
    vars: Seq<ValueV>,
    output: Seq<char>,
    fuel: nat,
    r: StepRes,
    mf: Machine,
)
    requires
        f < fns.len(),
        fuel >= 2,
        returns_value(fns, f as int, v),
        run_holds(fns, start_machine(f, vars, output), fuel, r, mf),
    ensures
        r == StepRes::Finished(v),
{
    let c = choose|c: Seq<u8>| #[trigger] pushes(fns, f as int, c, v) && fns[f as int].code@ == c.push(
        OpCode::Return.spec_to_byte(),
    );
    let code = fns[f as int].code@;
    let m0 = start_machine(f, vars, output);
    assert(m0.frames =~= frames_at_pc(m0.frames, 0));
    assert(code.subrange(0, c.len() as int) =~= c);
    proof_push_step(fns, f, c, v, m0, 0);
    let m1 = Machine { stack: m0.stack.push(v), frames: frames_at_pc(m0.frames, c.len() as int), ..m0 };
    lemma_fixed_step(fns, m0, fuel, r, mf, m1, StepRes::Continue);
    assert(m1.stack =~= seq![ValueV::Closure(f), v]);
    assert(m1.frames =~= frames_at_pc(start_machine(f, m1.vars, m1.output).frames, c.len() as int));
    lemma_return_step(fns, f, m1, v, c.len() as int, (fuel - 1) as nat, r, mf);
}

/// A step that fails with `e` whatever the embedding program gives floats
/// ends the run with that error.
proof fn lemma_failing_step(fns: Seq<FunctionCore>, m: Machine, fuel: nat, r: StepRes, mf: Machine, e: Seq<char>)
    requires
        fuel > 0,
        run_holds(fns, m, fuel, r, mf),
        forall|fx: u64, ft: Seq<char>| (#[trigger] spec_step(fns, m, fx, ft)).1 == StepRes::Failed(e),
    ensures
        r == StepRes::Failed(e),
{
    let (m2, s) = choose|m2: Machine, s: StepRes|
        #[trigger] step_holds(fns, m, m2, s) && match s {
            StepRes::Continue => m2.frames.len() > 0 && run_holds(fns, m2, (fuel - 1) as nat, r, mf),
            _ => r == s && mf == m2,
        };
    let (fx, ft) = choose|fx: u64, ft: Seq<char>| #[trigger] step_matches(spec_step(fns, m, fx, ft), m2, s);
    assert(spec_step(fns, m, fx, ft).1 == StepRes::Failed(e));
}

/// A run of a program that returns `a op b` gives what the operator gives
/// the two values: its exact value, a float (which the embedding program
/// computes), or its error.
#[verifier::rlimit(40)]
pub proof fn lemma_run_computes(
    fns: Seq<FunctionCore>,
    f: usize,
    op: MathOp,
    a: ValueV,
    b: ValueV,
    vars: Seq<ValueV>,
    output: Seq<char>,
    fuel: nat,
    r: StepRes,
    mf: Machine,
)
    requires
        f < fns.len(),
        fuel >= 4,
        computes(fns, f as int, op, vars, a, b),
        run_holds(fns, start_machine(f, vars, output), fuel, r, mf),
    ensures
        spec_math(op, false, a, b) matches Outcome::Exact(v) ==> r == StepRes::Finished(v),
        spec_math(op, false, a, b) is SomeFloat ==> r matches StepRes::Finished(ValueV::Float(_)),
        spec_math(op, false, a, b) matches Outcome::Fails(e) ==> r == StepRes::Failed(e),
{
    let (ca, cb) = choose|ca: Seq<u8>, cb: Seq<u8>|
        #![trigger loads(fns, f as int, ca, vars, a), loads(fns, f as int, cb, vars, b)]
        loads(fns, f as int, ca, vars, a) && loads(fns, f as int, cb, vars, b) && fns[f as int].code@
            == ca + cb + seq![
            OpCode::MathOp.spec_to_byte(),
            op.spec_to_byte(),
            OpCode::Return.spec_to_byte(),
        ];
    let code = fns[f as int].code@;
    let m0 = start_machine(f, vars, output);
    // push a
    assert(m0.frames =~= frames_at_pc(m0.frames, 0));
    assert(code.subrange(0, ca.len() as int) =~= ca);
    proof_load_step(fns, f, ca, vars, a, m0, 0);
    let m1 = Machine { stack: m0.stack.push(a), frames: frames_at_pc(m0.frames, ca.len() as int), ..m0 };
    lemma_fixed_step(fns, m0, fuel, r, mf, m1, StepRes::Continue);
    // push b
    let p1 = ca.len() as int;
    assert(code.subrange(p1, p1 + cb.len()) =~= cb);
    assert(m1.frames =~= frames_at_pc(start_machine(f, m1.vars, m1.output).frames, p1));
    proof_load_step(fns, f, cb, vars, b, m1, p1);
    let m2 = Machine { stack: m1.stack.push(b), frames: frames_at_pc(m1.frames, p1 + cb.len()), ..m1 };
    lemma_fixed_step(fns, m1, (fuel - 1) as nat, r, mf, m2, StepRes::Continue);
    // the operator, then the return
    let p2 = p1 + cb.len();
    assert(code[p2] == OpCode::MathOp.spec_to_byte());
    assert(code[p2 + 1] == op.spec_to_byte());
    assert(code[p2 + 2] == OpCode::Return.spec_to_byte());
    assert(m2.stack =~= seq![ValueV::Closure(f), a, b]);
    assert(m2.frames =~= frames_at_pc(start_machine(f, vars, output).frames, p2));
    lemma_math_then_return(fns, f, op, a, b, m2, p2, (fuel - 2) as nat, r, mf);
}

/// The last two instructions of a program that returns `a op b`, with `a`
/// and `b` on the stack: the operator, then the return of its result.
#[verifier::rlimit(20)]
proof fn lemma_math_then_return(
    fns: Seq<FunctionCore>,
    f: usize,
    op: MathOp,
    a: ValueV,
    b: ValueV,
    m2: Machine,
    p2: int,
    fuel: nat,
    r: StepRes,
    mf: Machine,
)
    requires
        f < fns.len(),
        fuel >= 2,
        0 <= p2 < 65530,
        fns[f as int].code@.len() == p2 + 3,
        fns[f as int].code@[p2] == OpCode::MathOp.spec_to_byte(),
        fns[f as int].code@[p2 + 1] == op.spec_to_byte(),
        fns[f as int].code@[p2 + 2] == OpCode::Return.spec_to_byte(),
        m2.stack == seq![ValueV::Closure(f), a, b],
        m2.frames == frames_at_pc(start_machine(f, m2.vars, m2.output).frames, p2),
        run_holds(fns, m2, fuel, r, mf),
    ensures
        spec_math(op, false, a, b) matches Outcome::Exact(v) ==> r == StepRes::Finished(v),
        spec_math(op, false, a, b) is SomeFloat ==> r matches StepRes::Finished(ValueV::Float(_)),
        spec_math(op, false, a, b) matches Outcome::Fails(e) ==> r == StepRes::Failed(e),
{
    lemma_opcode_encode_decode(OpCode::MathOp);
    lemma_math_op_encode_decode(op);
    lemma_opcode_encode_decode(OpCode::Return);
    assert(m2.stack.drop_last().drop_last() =~= seq![ValueV::Closure(f)]);
    match spec_math(op, false, a, b) {
        Outcome::Exact(v) => {
            let m3 = Machine {
                stack: seq![ValueV::Closure(f)].push(v),
                frames: frames_at_pc(m2.frames, p2 + 2),
                ..m2
            };
            assert forall|fx: u64, ft: Seq<char>| #[trigger] spec_step(fns, m2, fx, ft) == (
                m3,
                StepRes::Continue,
            ) by {}
            lemma_fixed_step(fns, m2, fuel, r, mf, m3, StepRes::Continue);
            assert(m3.stack =~= seq![ValueV::Closure(f), v]);
            assert(m3.frames =~= frames_at_pc(start_machine(f, m3.vars, m3.output).frames, p2 + 2));
            lemma_return_step(fns, f, m3, v, p2 + 2, (fuel - 1) as nat, r, mf);
        },
        Outcome::Fails(e) => {
            assert forall|fx: u64, ft: Seq<char>| (#[trigger] spec_step(fns, m2, fx, ft)).1
                == StepRes::Failed(e) by {}
            lemma_failing_step(fns, m2, fuel, r, mf, e);
        },
        Outcome::SomeFloat => {
            let (m3, s) = choose|m3: Machine, s: StepRes|
                #[trigger] step_holds(fns, m2, m3, s) && match s {
                    StepRes::Continue => m3.frames.len() > 0 && run_holds(fns, m3, (fuel - 1) as nat, r, mf),
                    _ => r == s && mf == m3,
                };
            let (fx, ft) = choose|fx: u64, ft: Seq<char>| #[trigger] step_matches(spec_step(fns, m2, fx, ft), m3, s);
            let v = ValueV::Float(fx);
            assert(m3 == Machine {
                stack: seq![ValueV::Closure(f)].push(v),
                frames: frames_at_pc(m2.frames, p2 + 2),
                ..m2
            });
            assert(m3.stack =~= seq![ValueV::Closure(f), v]);
            assert(m3.frames =~= frames_at_pc(start_machine(f, m3.vars, m3.output).frames, p2 + 2));
            lemma_return_step(fns, f, m3, v, p2 + 2, (fuel - 1) as nat, r, mf);
        },
    }
}

/// A `Return` at `pc` of the outermost call, with `v` above the closure,
/// finishes the run with `v`.
proof fn lemma_return_step(
    fns: Seq<FunctionCore>,
    f: usize,
    m3: Machine,
    v: ValueV,
    pc: int,
    fuel: nat,
    r: StepRes,
    mf: Machine,
)
    requires
        f < fns.len(),
        fuel >= 1,
        0 <= pc < 65536,
        fns[f as int].code@.len() > pc,
        fns[f as int].code@[pc] == OpCode::Return.spec_to_byte(),
        m3.stack == seq![ValueV::Closure(f), v],
        m3.frames == frames_at_pc(start_machine(f, m3.vars, m3.output).frames, pc),
        run_holds(fns, m3, fuel, r, mf),
    ensures
        r == StepRes::Finished(v),
{
    lemma_opcode_encode_decode(OpCode::Return);
    let m4 = Machine { stack: seq![v], frames: m3.frames.drop_last(), ..m3 };
    assert(m3.stack.subrange(0, 0).push(v) =~= seq![v]);
    assert forall|fx: u64, ft: Seq<char>| #[trigger] spec_step(fns, m3, fx, ft) == (
        m4,
        StepRes::Finished(v),
    ) by {}
    lemma_fixed_step(fns, m3, fuel, r, mf, m4, StepRes::Finished(v));
}

/// The step at `pc` of a program whose code holds `c` there, which loads
/// `v` from a literal or from the globals `vars`: `v` is pushed and the
/// program goes on after `c`.
proof fn proof_load_step(
    fns: Seq<FunctionCore>,
    f: usize,
    c: Seq<u8>,
    vars: Seq<ValueV>,
    v: ValueV,
    m0: Machine,
    pc: int,
)
    requires
        f < fns.len(),
        loads(fns, f as int, c, vars, v),
        m0.vars == vars,
        0 <= pc < 65536,
        fns[f as int].code@.len() > pc + c.len(),
        fns[f as int].code@.subrange(pc, pc + c.len()) == c,
        m0.frames == frames_at_pc(start_machine(f, m0.vars, m0.output).frames, pc),
    ensures
        forall|fx: u64, ft: Seq<char>| #[trigger] spec_step(fns, m0, fx, ft) == (
            Machine {
                stack: m0.stack.push(v),
                frames: frames_at_pc(m0.frames, pc + c.len()),
                ..m0
            },
            StepRes::Continue,
        ),
{
    if pushes(fns, f as int, c, v) {
        proof_push_step(fns, f, c, v, m0, pc);
    } else {
        let code = fns[f as int].code@;
        let j = choose|j: usize|
            j < 65536 && j < vars.len() && c == seq![
                OpCode::LoadVar.spec_to_byte(),
                word_high(j),
                word_low(j),
            ] && v == #[trigger] vars[j as int];
        lemma_opcode_encode_decode(OpCode::LoadVar);
        lemma_word_roundtrip(j);
        assert(code[pc] == c[0] && code[pc + 1] == c[1] && code[pc + 2] == c[2]);
    }
}

/// The step at `pc` of a program whose code holds `c` there, which pushes
/// `v`: `v` is pushed and the program goes on after `c`.
proof fn proof_push_step(fns: Seq<FunctionCore>, f: usize, c: Seq<u8>, v: ValueV, m0: Machine, pc: int)
    requires
        f < fns.len(),
        pushes(fns, f as int, c, v),
        0 <= pc < 65536,
        fns[f as int].code@.len() > pc + c.len(),
        fns[f as int].code@.subrange(pc, pc + c.len()) == c,
        m0.frames == frames_at_pc(start_machine(f, m0.vars, m0.output).frames, pc),
    ensures
        forall|fx: u64, ft: Seq<char>| #[trigger] spec_step(fns, m0, fx, ft) == (
            Machine {
                stack: m0.stack.push(v),
                frames: frames_at_pc(m0.frames, pc + c.len()),
                ..m0
            },
            StepRes::Continue,
        ),
{
    let code = fns[f as int].code@;
    assert(code[pc] == c[0]);
    if c == seq![OpCode::LoadNil.spec_to_byte()] && v == ValueV::Nil {
        lemma_opcode_encode_decode(OpCode::LoadNil);
    } else if c == seq![OpCode::LoadTrue.spec_to_byte()] && v == ValueV::Bool(true) {
        lemma_opcode_encode_decode(OpCode::LoadTrue);
    } else if c == seq![OpCode::LoadFalse.spec_to_byte()] && v == ValueV::Bool(false) {
        lemma_opcode_encode_decode(OpCode::LoadFalse);
    } else if exists|i: int|
        0 <= i <= 10 && c == #[trigger] small_load_code(i) && v == ValueV::Int(i as i64) {
        let i = choose|i: int|
            0 <= i <= 10 && c == #[trigger] small_load_code(i) && v == ValueV::Int(i as i64);
        let b = (OpCode::Load0.spec_to_byte() + i) as u8;
        lemma_opcode_decode_encode(b);
    } else {
        let k = choose|k: usize|
            k < 65536 && k < fns[f as int].constants@.len() && c == seq![
                OpCode::LoadValue.spec_to_byte(),
                word_high(k),
                word_low(k),
            ] && v == #[trigger] fns[f as int].constants@[k as int]@;
        lemma_opcode_encode_decode(OpCode::LoadValue);
        lemma_word_roundtrip(k);
        assert(code[pc + 1] == c[1] && code[pc + 2] == c[2]);
    }
}

/// A run of a program that returns global `j` finishes with its value and
/// leaves the globals as they were.
pub proof fn lemma_run_reads_global(
    fns: Seq<FunctionCore>,
    f: usize,
    j: usize,
    vars: Seq<ValueV>,
    output: Seq<char>,
    fuel: nat,
    r: StepRes,
    mf: Machine,
)
    requires
        f < fns.len(),
        j < 65536,
        j < vars.len(),
        fuel >= 2,
        reads_global(fns, f as int, j),
        run_holds(fns, start_machine(f, vars, output), fuel, r, mf),
    ensures
        r == StepRes::Finished(vars[j as int]),
        mf.vars == vars,
{
    let m0 = start_machine(f, vars, output);
    lemma_word_roundtrip(j);
    lemma_opcode_encode_decode(OpCode::LoadVar);
    lemma_opcode_encode_decode(OpCode::Return);
    let m1 = Machine {
        stack: m0.stack.push(vars[j as int]),
        frames: frames_at_pc(m0.frames, 3),
        ..m0
    };
    assert forall|fx: u64, ft: Seq<char>| #[trigger] spec_step(fns, m0, fx, ft) == (
        m1,
        StepRes::Continue,
    ) by {}
    lemma_fixed_step(fns, m0, fuel, r, mf, m1, StepRes::Continue);
    let m2 = Machine { stack: seq![vars[j as int]], frames: m1.frames.drop_last(), ..m1 };
    assert(m1.stack.subrange(0, 0).push(vars[j as int]) =~= seq![vars[j as int]]);
    assert forall|fx: u64, ft: Seq<char>| #[trigger] spec_step(fns, m1, fx, ft) == (
        m2,
        StepRes::Finished(vars[j as int]),
    ) by {}
    lemma_fixed_step(fns, m1, (fuel - 1) as nat, r, mf, m2, StepRes::Finished(vars[j as int]));
}

/// A global variable keeps from one program to the next what the first
/// defined in it: after a run of a program that defines global `j` as `v`
/// (which ends with nil), a run of a program that returns global `j`,
/// started from the globals the first left, returns `v`.
pub proof fn lemma_global_read_after_write(
    fns: Seq<FunctionCore>,
    f1: usize,
    f2: usize,
    j: usize,
    v: ValueV,
    vars: Seq<ValueV>,
    vars2: Seq<ValueV>,
    output: Seq<char>,
    output2: Seq<char>,
    fuel: nat,
    r1: StepRes,
    mf1: Machine,
    r2: StepRes,
    mf2: Machine,
)
    requires
        f1 < fns.len(),
        f2 < fns.len(),
        j < 65536,
        j < vars.len(),
        fuel >= 4,
        defines_global(fns, f1 as int, j, v),
        reads_global(fns, f2 as int, j),
        run_holds(fns, start_machine(f1, vars, output), fuel, r1, mf1),
        globals_kept(vars2, mf1.vars),
        run_holds(fns, start_machine(f2, vars2, output2), fuel, r2, mf2),
    ensures
        r1 == StepRes::Finished(ValueV::Nil),
        r2 == StepRes::Finished(v),
{
    lemma_run_defines_global(fns, f1, j, v, vars, output, fuel, r1, mf1);
    assert(vars2[j as int] == vars2.subrange(0, mf1.vars.len() as int)[j as int]);
    lemma_run_reads_global(fns, f2, j, vars2, output2, fuel, r2, mf2);
}

/// `Neg` negates the value on top of the stack and leaves the rest: an
/// integer becomes the one that added to it gives zero (the most negative
/// integer has none and is an error); a float keeps its magnitude (its
/// low 63 bits) and gets the other sign (its top bit), so negating twice
/// gives the float back.
pub proof fn lemma_neg_negates(m: Machine, pc: int, ft: Seq<char>)
    requires
        m.stack.len() > 0,
    ensures
        ({
            let (m2, r) = spec_plain(m, OpCode::Neg, pc, ft);
            let v = m.stack.last();
            &&& v is Int && v->Int_0 != i64::MIN ==> r is Continue && m2.stack.len() == m.stack.len()
                && m2.stack.drop_last() == m.stack.drop_last() && m2.stack.last() is Int
                && m2.stack.last()->Int_0 + v->Int_0 == 0
            &&& v is Int && v->Int_0 == i64::MIN ==> r is Failed
            &&& v is Float ==> r is Continue && m2.stack.len() == m.stack.len()
                && m2.stack.drop_last() == m.stack.drop_last() && m2.stack.last() is Float && (
            m2.stack.last()->Float_0 >> 63u64) != (v->Float_0 >> 63u64) && (m2.stack.last()->Float_0
                & 0x7fff_ffff_ffff_ffffu64) == (v->Float_0 & 0x7fff_ffff_ffff_ffffu64)
            &&& !(v is Int || v is Float) ==> r is Failed
        }),
{
    let v = m.stack.last();
    let (m2, r) = spec_plain(m, OpCode::Neg, pc, ft);
    if let ValueV::Float(b) = v {
        let c = b ^ 0x8000_0000_0000_0000u64;
        assert(m2.stack.last() == ValueV::Float(c));
        assert((c >> 63u64) != (b >> 63u64)) by (bit_vector)
            requires
                c == b ^ 0x8000_0000_0000_0000u64,
        ;
        assert((c & 0x7fff_ffff_ffff_ffffu64) == (b & 0x7fff_ffff_ffff_ffffu64)) by (bit_vector)
            requires
                c == b ^ 0x8000_0000_0000_0000u64,
        ;
        assert(m2.stack.drop_last() =~= m.stack.drop_last());
    }
    if let ValueV::Int(i) = v {
        if i != i64::MIN {
            assert(m2.stack.drop_last() =~= m.stack.drop_last());
        }
    }
}

/// No instruction adds or removes a global variable.
pub proof fn lemma_step_keeps_vars_len(fns: Seq<FunctionCore>, m: Machine, fx: u64, ft: Seq<char>)
    ensures
        spec_step(fns, m, fx, ft).0.vars.len() == m.vars.len(),
{
}

/// A step that did not fail keeps the number of global variables.
pub proof fn lemma_step_holds_vars_len(fns: Seq<FunctionCore>, m: Machine, m2: Machine, r: StepRes)
    requires
        step_holds(fns, m, m2, r),
        !(r is Failed),
    ensures
        m2.vars.len() == m.vars.len(),
{
    let (fx, ft) = choose|fx: u64, ft: Seq<char>| #[trigger] step_matches(spec_step(fns, m, fx, ft), m2, r);
    lemma_step_keeps_vars_len(fns, m, fx, ft);
}


/// A global variable reads back what `DefVar` wrote into it: defining it
/// from the top of the stack and then loading it pushes that value again.
pub proof fn lemma_def_then_load(fns: Seq<FunctionCore>, m: Machine, pc: int, pc2: int, w: int)
    requires
        0 <= w < m.vars.len(),
        m.stack.len() > 0,
        m.frames.len() > 0,
    ensures
        ({
            let (m1, r1) = spec_with_word(fns, m, OpCode::DefVar, pc, w);
            let (m2, r2) = spec_with_word(fns, m1, OpCode::LoadVar, pc2, w);
            &&& r1 is Continue
            &&& r2 is Continue
            &&& m1.vars[w] == m.stack.last()
            &&& m2.stack == m.stack.push(m.stack.last())
        }),
{
}

/// A global variable reads back what `StoreVar` wrote into it, and the
/// stored value stays on the stack.
pub proof fn lemma_store_then_load(fns: Seq<FunctionCore>, m: Machine, pc: int, pc2: int, w: int)
    requires
        0 <= w < m.vars.len(),
        m.stack.len() > 0,
        m.frames.len() > 0,
    ensures
        ({
            let (m1, r1) = spec_with_word(fns, m, OpCode::StoreVar, pc, w);
            let (m2, r2) = spec_with_word(fns, m1, OpCode::LoadVar, pc2, w);
            &&& r1 is Continue
            &&& r2 is Continue
            &&& m1.vars[w] == m.stack.last()
            &&& m2.stack == m.stack.push(m.stack.last())
        }),
{
}

} // verus!
