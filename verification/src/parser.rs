//! The Pratt parser that turns tokens into the syntax tree, and the
//! interpreter that compiles the tree and runs it on the virtual machine.

use vstd::prelude::*;

use crate::arith::{spec_math, Outcome};
use crate::ast::{binop_text, Ast, BinaryOp, UnaryOp};
use crate::codegen::{
    body_code, define_code, epilogue, has_var, is_assign, let_count, let_names, lits, lits_upto, node_ok, prog_ok, stmt_fits, math_loaded, math_of, module_read, keeps_mod_vars, lemma_kept_module_var, let_arity, load_constant_code,
    node_code_ok, stmt_at, store_code, top_body, top_stmt_at, value_loaded, Compiler,
};
use crate::compiler::{local_name, word_high, word_low, ScopeType, MAX_VARIABLES};
use crate::opcode::OpCode;
use crate::lexer::{op_text, tokenize, tokens_of, Token, TokenKind};
use crate::text::{concat2, owned, spec_decimal, usize_text};
use crate::value::{values_view, FloatOps, FunctionCore, FunctionType, Value, ValueV};
use crate::machine::{
    assigns_global, computes, defines_global, lemma_run_returns_value, loads, returns_value, globals_kept, lemma_run_assigns_global,
    lemma_run_computes, lemma_run_defines_global, lemma_run_reads_global, pushes, reads_global, run_holds, small_load_code, start_machine, Machine, StepRes,
};
use crate::printer::print_tree;
use crate::vm::{CallFrame, MAX_STEPS, VM};

verus! {

/// Why interpreting a text failed.
#[derive(Debug, Clone, Copy, PartialEq, Eq, Structural)]
pub enum InterpretErrorType {
    ParseError,
    CompileTimeError,
    RuntimeError,
    OtherError,
}

/// How tightly an operator binds, from loosest to tightest.
#[derive(Debug, Clone, Copy, PartialEq, Eq, Structural)]
pub enum BindingPower {
    NoBp,
    Assignment,
    Ternary,
    LOr,
    LAnd,
    Equality,
    Comparison,
    Bitwise,
    Shift,
    Term,
    Factor,
    Unary,
    Exponent,
    Call,
    Primary,
}

impl BindingPower {
    /// The level of a binding power: 0 for `NoBp` up to 14 for `Primary`.
    pub open spec fn spec_level(self) -> u8 {
        match self {
            BindingPower::NoBp => 0,
            BindingPower::Assignment => 1,
            BindingPower::Ternary => 2,
            BindingPower::LOr => 3,
            BindingPower::LAnd => 4,
            BindingPower::Equality => 5,
            BindingPower::Comparison => 6,
            BindingPower::Bitwise => 7,
            BindingPower::Shift => 8,
            BindingPower::Term => 9,
            BindingPower::Factor => 10,
            BindingPower::Unary => 11,
            BindingPower::Exponent => 12,
            BindingPower::Call => 13,
            BindingPower::Primary => 14,
        }
    }

    /// The binding power of a level from 0 to 14.
    pub open spec fn spec_from_level(v: u8) -> BindingPower {
        if v == 0 {
            BindingPower::NoBp
        } else if v == 1 {
            BindingPower::Assignment
        } else if v == 2 {
            BindingPower::Ternary
        } else if v == 3 {
            BindingPower::LOr
        } else if v == 4 {
            BindingPower::LAnd
        } else if v == 5 {
            BindingPower::Equality
        } else if v == 6 {
            BindingPower::Comparison
        } else if v == 7 {
            BindingPower::Bitwise
        } else if v == 8 {
            BindingPower::Shift
        } else if v == 9 {
            BindingPower::Term
        } else if v == 10 {
            BindingPower::Factor
        } else if v == 11 {
            BindingPower::Unary
        } else if v == 12 {
            BindingPower::Exponent
        } else if v == 13 {
            BindingPower::Call
        } else {
            BindingPower::Primary
        }
    }

    /// The level of a binding power (see `spec_level`).
    pub fn level(self) -> (r: u8)
        ensures
            r == self.spec_level(),
    {
        match self {
            BindingPower::NoBp => 0,
            BindingPower::Assignment => 1,
            BindingPower::Ternary => 2,
            BindingPower::LOr => 3,
            BindingPower::LAnd => 4,
            BindingPower::Equality => 5,
            BindingPower::Comparison => 6,
            BindingPower::Bitwise => 7,
            BindingPower::Shift => 8,
            BindingPower::Term => 9,
            BindingPower::Factor => 10,
            BindingPower::Unary => 11,
            BindingPower::Exponent => 12,
            BindingPower::Call => 13,
            BindingPower::Primary => 14,
        }
    }

    /// The binding power of a level; levels above 14 do not exist.
    pub fn from_level(v: u8) -> (r: BindingPower)
        requires
            v <= 14,
        ensures
            r == BindingPower::spec_from_level(v),
    {
        if v == 0 {
            BindingPower::NoBp
        } else if v == 1 {
            BindingPower::Assignment
        } else if v == 2 {
            BindingPower::Ternary
        } else if v == 3 {
            BindingPower::LOr
        } else if v == 4 {
            BindingPower::LAnd
        } else if v == 5 {
            BindingPower::Equality
        } else if v == 6 {
            BindingPower::Comparison
        } else if v == 7 {
            BindingPower::Bitwise
        } else if v == 8 {
            BindingPower::Shift
        } else if v == 9 {
            BindingPower::Term
        } else if v == 10 {
            BindingPower::Factor
        } else if v == 11 {
            BindingPower::Unary
        } else if v == 12 {
            BindingPower::Exponent
        } else if v == 13 {
            BindingPower::Call
        } else {
            BindingPower::Primary
        }
    }
}

/// Taking the level of a binding power and back gives it again.
pub proof fn lemma_binding_power_level_roundtrip(bp: BindingPower)
    ensures
        bp.spec_level() <= 14,
        BindingPower::spec_from_level(bp.spec_level()) == bp,
{
}

/// Every level from 0 to 14 is the level of the binding power it names.
pub proof fn lemma_binding_power_from_level_roundtrip(v: u8)
    requires
        v <= 14,
    ensures
        BindingPower::spec_from_level(v).spec_level() == v,
{
}

/// The binding power of a token that starts a statement.
pub open spec fn spec_stmt_bp(tk: TokenKind) -> Option<BindingPower> {
    match tk {
        TokenKind::LetKw | TokenKind::ReturnKw | TokenKind::LBrace => Some(BindingPower::NoBp),
        _ => None,
    }
}

/// The binding power of a token that starts an expression.
pub open spec fn spec_prefix_bp(tk: TokenKind) -> Option<BindingPower> {
    match tk {
        TokenKind::Int | TokenKind::Float | TokenKind::String | TokenKind::Ident
        | TokenKind::TrueKw | TokenKind::FalseKw | TokenKind::NilKw => Some(BindingPower::Primary),
        TokenKind::Add | TokenKind::Subtract | TokenKind::LNot | TokenKind::Not => Some(
            BindingPower::Unary,
        ),
        TokenKind::AnonClosure | TokenKind::FunKw => Some(BindingPower::Call),
        _ => None,
    }
}

/// The binding power of a token that continues an expression.
pub open spec fn spec_infix_bp(tk: TokenKind) -> Option<BindingPower> {
    match tk {
        TokenKind::Add | TokenKind::Subtract => Some(BindingPower::Term),
        TokenKind::Multiply | TokenKind::Divide | TokenKind::Modulo => Some(BindingPower::Factor),
        TokenKind::Power => Some(BindingPower::Exponent),
        TokenKind::LAnd => Some(BindingPower::LAnd),
        TokenKind::LOr => Some(BindingPower::LOr),
        TokenKind::Or | TokenKind::And | TokenKind::XOr => Some(BindingPower::Bitwise),
        TokenKind::LShift | TokenKind::RShift => Some(BindingPower::Shift),
        TokenKind::Assign | TokenKind::AddAssign | TokenKind::SubtractAssign
        | TokenKind::MultiplyAssign | TokenKind::DivideAssign | TokenKind::ModuloAssign
        | TokenKind::PowerAssign | TokenKind::OrAssign | TokenKind::AndAssign
        | TokenKind::XOrAssign | TokenKind::LShiftAssign | TokenKind::RShiftAssign => Some(
            BindingPower::Assignment,
        ),
        TokenKind::LParen | TokenKind::LBrace | TokenKind::LBracket => Some(BindingPower::Call),
        _ => None,
    }
}

/// The binding power of a token that starts a statement.
pub fn stmt_bp(tk: TokenKind) -> (r: Option<BindingPower>)
    ensures
        r == spec_stmt_bp(tk),
{
    match tk {
        TokenKind::LetKw | TokenKind::ReturnKw | TokenKind::LBrace => Some(BindingPower::NoBp),
        _ => None,
    }
}

/// The binding power of a token that starts an expression.
pub fn prefix_bp(tk: TokenKind) -> (r: Option<BindingPower>)
    ensures
        r == spec_prefix_bp(tk),
{
    match tk {
        TokenKind::Int | TokenKind::Float | TokenKind::String | TokenKind::Ident
        | TokenKind::TrueKw | TokenKind::FalseKw | TokenKind::NilKw => Some(BindingPower::Primary),
        TokenKind::Add | TokenKind::Subtract | TokenKind::LNot | TokenKind::Not => Some(
            BindingPower::Unary,
        ),
        TokenKind::AnonClosure | TokenKind::FunKw => Some(BindingPower::Call),
        _ => None,
    }
}

/// The binding power of a token that continues an expression.
pub fn infix_bp(tk: TokenKind) -> (r: Option<BindingPower>)
    ensures
        r == spec_infix_bp(tk),
{
    match tk {
        TokenKind::Add | TokenKind::Subtract => Some(BindingPower::Term),
        TokenKind::Multiply | TokenKind::Divide | TokenKind::Modulo => Some(BindingPower::Factor),
        TokenKind::Power => Some(BindingPower::Exponent),
        TokenKind::LAnd => Some(BindingPower::LAnd),
        TokenKind::LOr => Some(BindingPower::LOr),
        TokenKind::Or | TokenKind::And | TokenKind::XOr => Some(BindingPower::Bitwise),
        TokenKind::LShift | TokenKind::RShift => Some(BindingPower::Shift),
        TokenKind::Assign | TokenKind::AddAssign | TokenKind::SubtractAssign
        | TokenKind::MultiplyAssign | TokenKind::DivideAssign | TokenKind::ModuloAssign
        | TokenKind::PowerAssign | TokenKind::OrAssign | TokenKind::AndAssign
        | TokenKind::XOrAssign | TokenKind::LShiftAssign | TokenKind::RShiftAssign => Some(
            BindingPower::Assignment,
        ),
        TokenKind::LParen | TokenKind::LBrace | TokenKind::LBracket => Some(BindingPower::Call),
        _ => None,
    }
}

/// The binary operator that an infix token stands for.
pub open spec fn spec_binary_op(tk: TokenKind) -> Option<BinaryOp> {
    match tk {
        TokenKind::Add => Some(BinaryOp::Add),
        TokenKind::Subtract => Some(BinaryOp::Subtract),
        TokenKind::Multiply => Some(BinaryOp::Multiply),
        TokenKind::Divide => Some(BinaryOp::Divide),
        TokenKind::Modulo => Some(BinaryOp::Modulo),
        TokenKind::Power => Some(BinaryOp::Power),
        TokenKind::Or => Some(BinaryOp::Or),
        TokenKind::And => Some(BinaryOp::And),
        TokenKind::XOr => Some(BinaryOp::XOr),
        TokenKind::LShift => Some(BinaryOp::LShift),
        TokenKind::RShift => Some(BinaryOp::RShift),
        TokenKind::Assign => Some(BinaryOp::Assign),
        TokenKind::AddAssign => Some(BinaryOp::AddAssign),
        TokenKind::SubtractAssign => Some(BinaryOp::SubtractAssign),
        TokenKind::MultiplyAssign => Some(BinaryOp::MultiplyAssign),
        TokenKind::DivideAssign => Some(BinaryOp::DivideAssign),
        TokenKind::ModuloAssign => Some(BinaryOp::ModuloAssign),
        TokenKind::PowerAssign => Some(BinaryOp::PowerAssign),
        TokenKind::AndAssign => Some(BinaryOp::AndAssign),
        TokenKind::OrAssign => Some(BinaryOp::OrAssign),
        TokenKind::XOrAssign => Some(BinaryOp::XOrAssign),
        TokenKind::LShiftAssign => Some(BinaryOp::LShiftAssign),
        TokenKind::RShiftAssign => Some(BinaryOp::RShiftAssign),
        _ => None,
    }
}

/// The binary operator that an infix token stands for.
pub fn binary_op(tk: TokenKind) -> (r: Option<BinaryOp>)
    ensures
        r == spec_binary_op(tk),
{
    match tk {
        TokenKind::Add => Some(BinaryOp::Add),
        TokenKind::Subtract => Some(BinaryOp::Subtract),
        TokenKind::Multiply => Some(BinaryOp::Multiply),
        TokenKind::Divide => Some(BinaryOp::Divide),
        TokenKind::Modulo => Some(BinaryOp::Modulo),
        TokenKind::Power => Some(BinaryOp::Power),
        TokenKind::Or => Some(BinaryOp::Or),
        TokenKind::And => Some(BinaryOp::And),
        TokenKind::XOr => Some(BinaryOp::XOr),
        TokenKind::LShift => Some(BinaryOp::LShift),
        TokenKind::RShift => Some(BinaryOp::RShift),
        TokenKind::Assign => Some(BinaryOp::Assign),
        TokenKind::AddAssign => Some(BinaryOp::AddAssign),
        TokenKind::SubtractAssign => Some(BinaryOp::SubtractAssign),
        TokenKind::MultiplyAssign => Some(BinaryOp::MultiplyAssign),
        TokenKind::DivideAssign => Some(BinaryOp::DivideAssign),
        TokenKind::ModuloAssign => Some(BinaryOp::ModuloAssign),
        TokenKind::PowerAssign => Some(BinaryOp::PowerAssign),
        TokenKind::AndAssign => Some(BinaryOp::AndAssign),
        TokenKind::OrAssign => Some(BinaryOp::OrAssign),
        TokenKind::XOrAssign => Some(BinaryOp::XOrAssign),
        TokenKind::LShiftAssign => Some(BinaryOp::LShiftAssign),
        TokenKind::RShiftAssign => Some(BinaryOp::RShiftAssign),
        _ => None,
    }
}

/// An operator token stands for the binary operator written the same way:
/// the operator that a token gives is spelled as the token is.
pub proof fn lemma_binary_op_spells(k: TokenKind)
    ensures
        spec_binary_op(k) matches Some(op) ==> op_text(k).len() > 0 && binop_text(op) == op_text(k),
{
}

/// The binding power of the token `k` as an infix operator; -1 where it is
/// none.
pub open spec fn level_of_text(k: TokenKind) -> int {
    match spec_infix_bp(k) {
        Some(bp) => bp.spec_level() as int,
        None => -1,
    }
}

/// Operators bind as arithmetic does: `**` tighter than `*`, `/` and `%`,
/// which bind equally and tighter than `+` and `-`, which bind equally and
/// tighter than the shifts; an assignment (whose text ends with `=`) binds
/// looser than every other binary operator; every binary operator is an
/// infix one.
pub proof fn lemma_precedence(k1: TokenKind, k2: TokenKind)
    ensures
        spec_binary_op(k1) is Some ==> spec_infix_bp(k1) is Some,
        op_text(k1) == seq!['*', '*'] && (op_text(k2) == seq!['*'] || op_text(k2) == seq!['/']
            || op_text(k2) == seq!['%']) ==> level_of_text(k1) > level_of_text(k2),
        (op_text(k1) == seq!['*'] || op_text(k1) == seq!['/'] || op_text(k1) == seq!['%']) && (
        op_text(k2) == seq!['+'] || op_text(k2) == seq!['-']) ==> level_of_text(k1) > level_of_text(
            k2,
        ),
        (op_text(k1) == seq!['*'] || op_text(k1) == seq!['/'] || op_text(k1) == seq!['%']) && (
        op_text(k2) == seq!['*'] || op_text(k2) == seq!['/'] || op_text(k2) == seq!['%'])
            ==> level_of_text(k1) == level_of_text(k2),
        (op_text(k1) == seq!['+'] || op_text(k1) == seq!['-']) && (op_text(k2) == seq!['+']
            || op_text(k2) == seq!['-']) ==> level_of_text(k1) == level_of_text(k2),
        (op_text(k1) == seq!['+'] || op_text(k1) == seq!['-']) && (op_text(k2) == seq!['<', '<']
            || op_text(k2) == seq!['>', '>']) ==> level_of_text(k1) > level_of_text(k2),
        spec_binary_op(k1) is Some && spec_binary_op(k2) is Some && binop_text(spec_binary_op(k2)->0).last()
            == '=' && binop_text(spec_binary_op(k1)->0).last() != '=' ==> level_of_text(k1)
            > level_of_text(k2),
{
    lemma_text_kind(k1);
    lemma_text_kind(k2);
}

/// Which token has which operator text.
proof fn lemma_text_kind(k: TokenKind)
    ensures
        op_text(k) == seq!['*', '*'] ==> k == TokenKind::Power,
        op_text(k) == seq!['*'] ==> k == TokenKind::Multiply,
        op_text(k) == seq!['/'] ==> k == TokenKind::Divide,
        op_text(k) == seq!['%'] ==> k == TokenKind::Modulo,
        op_text(k) == seq!['+'] ==> k == TokenKind::Add,
        op_text(k) == seq!['-'] ==> k == TokenKind::Subtract,
        op_text(k) == seq!['<', '<'] ==> k == TokenKind::LShift,
        op_text(k) == seq!['>', '>'] ==> k == TokenKind::RShift,
{
    let t = op_text(k);
    if t == seq!['*'] {
        assert(t[0] == '*' && t.len() == 1);
    }
    if t == seq!['/'] {
        assert(t[0] == '/' && t.len() == 1);
    }
    if t == seq!['%'] {
        assert(t[0] == '%' && t.len() == 1);
    }
    if t == seq!['+'] {
        assert(t[0] == '+' && t.len() == 1);
    }
    if t == seq!['-'] {
        assert(t[0] == '-' && t.len() == 1);
    }
    if t == seq!['*', '*'] {
        assert(t[0] == '*' && t[1] == '*' && t.len() == 2);
    }
    if t == seq!['<', '<'] {
        assert(t[0] == '<' && t[1] == '<' && t.len() == 2);
    }
    if t == seq!['>', '>'] {
        assert(t[0] == '>' && t[1] == '>' && t.len() == 2);
    }
}

/// The parser and interpreter: the tokens being read (the current and the
/// previous one apart), its flags and error state, the compiler, the
/// virtual machine, and the diagnostics it wrote.
pub struct Parser {
    pub tokens: Vec<Token>,
    pub next: usize,
    pub curr: Token,
    pub prev: Token,
    pub file_name: String,
    pub error_count: usize,
    pub print_ast_flag: bool,
    pub compile_flag: bool,
    pub debug_flag: bool,
    pub in_panic_mode: bool,
    pub in_panic_lock_mode: bool,
    pub compiler: Compiler,
    pub vm: VM,
    pub messages: Vec<String>,
}

/// The parser moved on by `k` tokens without reporting anything; the
/// current token is the last of them.
pub open spec fn quiet_step(before: Parser, after: Parser, k: int) -> bool {
    &&& after.next == before.next + k
    &&& after.curr == before.tokens@[before.next + k - 1]
    &&& after.error_count == before.error_count
    &&& after.in_panic_mode == before.in_panic_mode
    &&& after.in_panic_lock_mode == before.in_panic_lock_mode
}

/// The tokens from `i` to `i + k - 1` are there and none is an error
/// token.
pub open spec fn readable(tokens: Seq<Token>, i: int, k: int) -> bool {
    &&& 0 <= i
    &&& i + k <= tokens.len()
    &&& forall|j: int| i <= j < i + k ==> (#[trigger] tokens[j]).kind != TokenKind::Error
}

/// The tree of a token that is a whole expression by itself: a literal or
/// a variable.
pub open spec fn operand(t: Token) -> Option<Ast> {
    match t.kind {
        TokenKind::Int | TokenKind::Float | TokenKind::String | TokenKind::NilKw => Some(
            Ast::Value { val: t.value },
        ),
        TokenKind::Ident => Some(Ast::Variable { name: t.lexeme, arity: None }),
        TokenKind::TrueKw => Some(Ast::Value { val: Value::Bool(true) }),
        TokenKind::FalseKw => Some(Ast::Value { val: Value::Bool(false) }),
        _ => None,
    }
}

/// The current token is a whole expression by itself: an operand that no
/// infix operator follows.
pub open spec fn simple_operand(p: Parser) -> bool {
    &&& operand(p.curr) is Some
    &&& readable(p.tokens@, p.next as int, 1)
    &&& spec_infix_bp(p.tokens@[p.next as int].kind) is None
}

/// The current token is a whole expression at binding power `bp`: an
/// operand that no infix operator follows, or one whose binding power is
/// below `bp`.
pub open spec fn operand_at(p: Parser, bp: BindingPower) -> bool {
    &&& operand(p.curr) is Some
    &&& readable(p.tokens@, p.next as int, 1)
    &&& (spec_infix_bp(p.tokens@[p.next as int].kind) is None || bp.spec_level() > spec_infix_bp(
        p.tokens@[p.next as int].kind,
    )->0.spec_level())
}

/// The current token starts `let NAME = OPERAND` followed by a token that
/// is neither `;` nor an infix operator.
pub open spec fn let_unfinished(p: Parser) -> bool {
    &&& p.curr.kind == TokenKind::LetKw
    &&& readable(p.tokens@, p.next as int, 4)
    &&& p.tokens@[p.next as int].kind == TokenKind::Ident
    &&& p.tokens@[p.next + 1].kind == TokenKind::Assign
    &&& operand(p.tokens@[p.next + 2]) is Some
    &&& spec_infix_bp(p.tokens@[p.next + 3].kind) is None
    &&& p.tokens@[p.next + 3].kind != TokenKind::Semicolon
}

/// The current token starts `OPERAND;`.
pub open spec fn simple_expr_stmt(p: Parser) -> bool {
    &&& operand(p.curr) is Some
    &&& readable(p.tokens@, p.next as int, 2)
    &&& p.tokens@[p.next as int].kind == TokenKind::Semicolon
}

/// The current token starts `let NAME = OPERAND;`.
pub open spec fn simple_let(p: Parser) -> bool {
    &&& p.curr.kind == TokenKind::LetKw
    &&& readable(p.tokens@, p.next as int, 5)
    &&& p.tokens@[p.next as int].kind == TokenKind::Ident
    &&& p.tokens@[p.next + 1].kind == TokenKind::Assign
    &&& operand(p.tokens@[p.next + 2]) is Some
    &&& p.tokens@[p.next + 3].kind == TokenKind::Semicolon
}

/// The simple statement that starts at token `i`, and where the next one
/// starts: `let NAME = OPERAND;`, `OPERAND OP OPERAND;` with a binary
/// operator `OP`, or `OPERAND;`.
pub open spec fn simple_stmt(t: Seq<Token>, i: int) -> Option<(Ast, int)> {
    if 0 <= i && i + 4 < t.len() && t[i].kind == TokenKind::LetKw && t[i + 1].kind
        == TokenKind::Ident && t[i + 2].kind == TokenKind::Assign && operand(t[i + 3]) is Some
        && t[i + 4].kind == TokenKind::Semicolon {
        Some((Ast::LetDecl { name: t[i + 1].lexeme, expr: Box::new(operand(t[i + 3])->0) }, i + 5))
    } else if 0 <= i && i + 3 < t.len() && operand(t[i]) is Some && spec_binary_op(t[i + 1].kind)
        is Some && operand(t[i + 2]) is Some && t[i + 3].kind == TokenKind::Semicolon {
        Some(
            (
                Ast::ExprStmt {
                    expr: Box::new(
                        Ast::Binary(
                            spec_binary_op(t[i + 1].kind)->0,
                            Some(Box::new(operand(t[i])->0)),
                            Some(Box::new(operand(t[i + 2])->0)),
                        ),
                    ),
                },
                i + 4,
            ),
        )
    } else if 0 <= i && i + 1 < t.len() && operand(t[i]) is Some && t[i + 1].kind
        == TokenKind::Semicolon {
        Some((Ast::ExprStmt { expr: Box::new(operand(t[i])->0) }, i + 2))
    } else {
        None
    }
}

/// The tokens from `i` on are simple statements up to the end of the
/// text: their trees.
pub open spec fn simple_stmts(t: Seq<Token>, i: int) -> Option<Seq<Ast>>
    decreases t.len() - i,
{
    if 0 <= i < t.len() && t[i].kind == TokenKind::Done {
        Some(Seq::empty())
    } else {
        match simple_stmt(t, i) {
            Some((st, j)) => if i < j <= t.len() {
                match simple_stmts(t, j) {
                    Some(rest) => Some(seq![st] + rest),
                    None => None,
                }
            } else {
                None
            },
            None => None,
        }
    }
}

/// The parser has reported nothing, and its current token is the last one
/// it read.
pub open spec fn clean(p: Parser) -> bool {
    &&& p.next >= 1
    &&& p.curr == p.tokens@[p.next - 1]
    &&& !p.in_panic_mode
    &&& !p.in_panic_lock_mode
    &&& p.error_count == 0
}

/// The trees in a list of boxes.
pub open spec fn unboxed(l: Seq<Box<Ast>>) -> Seq<Ast> {
    l.map_values(|b: Box<Ast>| *b)
}

/// The program `root` is the top-level code with the statements `stmts`.
pub open spec fn main_of(root: Ast, stmts: Seq<Ast>) -> bool {
    &&& root is FunDecl
    &&& root->FunDecl_fun_ty == FunctionType::TopLevel
    &&& root->FunDecl_params@.len() == 0
    &&& unboxed(root->FunDecl_listing@) == stmts
}

/// Where simple statements follow, the token there is no error token.
proof fn lemma_simple_start(t: Seq<Token>, i: int)
    requires
        simple_stmts(t, i) is Some,
    ensures
        0 <= i < t.len(),
        t[i].kind != TokenKind::Error,
{
}

/// The current token is an infix operator whose right operand is a whole
/// expression by itself.
pub open spec fn simple_right(p: Parser) -> bool {
    &&& readable(p.tokens@, p.next as int, 2)
    &&& operand(p.tokens@[p.next as int]) is Some
    &&& spec_infix_bp(p.tokens@[p.next + 1].kind) is None
}

/// The current token starts `OPERAND OP OPERAND` with a binary operator
/// `OP`, that no infix operator follows.
pub open spec fn simple_binary_expr(p: Parser) -> bool {
    &&& operand(p.curr) is Some
    &&& readable(p.tokens@, p.next as int, 3)
    &&& spec_binary_op(p.tokens@[p.next as int].kind) is Some
    &&& operand(p.tokens@[p.next + 1]) is Some
    &&& spec_infix_bp(p.tokens@[p.next + 2].kind) is None
}

/// The tree of `OPERAND OP OPERAND` for the current token, the first
/// operand.
pub open spec fn binary_tree(p: Parser) -> Ast {
    Ast::Binary(
        spec_binary_op(p.tokens@[p.next as int].kind)->0,
        Some(Box::new(operand(p.curr)->0)),
        Some(Box::new(operand(p.tokens@[p.next + 1])->0)),
    )
}

/// The current token starts `OPERAND OP OPERAND;`.
pub open spec fn simple_binary_stmt(p: Parser) -> bool {
    &&& simple_binary_expr(p)
    &&& p.tokens@[p.next + 2].kind == TokenKind::Semicolon
    &&& readable(p.tokens@, p.next as int, 4)
}

/// After the current token `||`: an operand that no infix operator
/// follows, the token after it, and another such operand.
pub open spec fn lor_right(p: Parser) -> bool {
    &&& readable(p.tokens@, p.next as int, 4)
    &&& operand(p.tokens@[p.next as int]) is Some
    &&& spec_infix_bp(p.tokens@[p.next + 1].kind) is None
    &&& operand(p.tokens@[p.next + 2]) is Some
    &&& spec_infix_bp(p.tokens@[p.next + 3].kind) is None
}

/// A statement starts at a token of this kind.
pub open spec fn starts_stmt(k: TokenKind) -> bool {
    match k {
        TokenKind::LetKw | TokenKind::FunKw | TokenKind::AnonClosure | TokenKind::IfKw
        | TokenKind::WhileKw | TokenKind::ForKw | TokenKind::ReturnKw => true,
        _ => false,
    }
}

/// Recovery after an error stops at `p`: at the end of the text, after
/// `;`, or at a token that starts a statement.
pub open spec fn sync_stop(p: Parser) -> bool {
    p.curr.kind == TokenKind::Done || p.prev.kind == TokenKind::Semicolon || starts_stmt(p.curr.kind)
}

/// Recovery that started at `p0` would stop at token `i`, read after the
/// token before it (the current token of `p0` for the first one read).
pub open spec fn skipped_stop(p0: Parser, i: int) -> bool {
    let t = p0.tokens@;
    let before = if i == p0.next { p0.curr } else { t[i - 1] };
    t[i].kind == TokenKind::Done || before.kind == TokenKind::Semicolon || starts_stmt(t[i].kind)
}

/// The arguments of a call from token `i` up to `)` and the token after
/// it: operands, each a whole expression by itself, separated by commas (a
/// comma may come last); their trees, and the position after `)`.
pub open spec fn simple_args(t: Seq<Token>, i: int) -> Option<(Seq<Ast>, int)>
    decreases t.len() - i,
{
    if !(0 <= i < t.len()) || t[i].kind == TokenKind::Error {
        None
    } else if t[i].kind == TokenKind::RParen {
        if readable(t, i + 1, 1) {
            Some((Seq::empty(), i + 1))
        } else {
            None
        }
    } else if i + 1 < t.len() && operand(t[i]) is Some && t[i + 1].kind == TokenKind::RParen {
        match simple_args(t, i + 1) {
            Some((rest, j)) => Some((seq![operand(t[i])->0] + rest, j)),
            None => None,
        }
    } else if i + 1 < t.len() && operand(t[i]) is Some && t[i + 1].kind == TokenKind::Comma {
        match simple_args(t, i + 2) {
            Some((rest, j)) => Some((seq![operand(t[i])->0] + rest, j)),
            None => None,
        }
    } else {
        None
    }
}

/// The trees of the arguments from token `i` (see `simple_args`).
pub open spec fn args_trees(t: Seq<Token>, i: int) -> Seq<Ast> {
    match simple_args(t, i) {
        Some((a, _)) => a,
        None => Seq::empty(),
    }
}

/// The position after the `)` of the arguments from token `i` (see
/// `simple_args`).
pub open spec fn args_end(t: Seq<Token>, i: int) -> int {
    match simple_args(t, i) {
        Some((_, j)) => j,
        None => i,
    }
}

/// The statements of a function body from token `i` up to `}`: simple
/// statements (see `simple_stmt`); their trees.
pub open spec fn simple_block(t: Seq<Token>, i: int) -> Option<Seq<Ast>>
    decreases t.len() - i,
{
    if 0 <= i < t.len() && t[i].kind == TokenKind::RBrace {
        Some(Seq::empty())
    } else {
        match simple_stmt(t, i) {
            Some((st, j)) => if i < j <= t.len() {
                match simple_block(t, j) {
                    Some(rest) => Some(seq![st] + rest),
                    None => None,
                }
            } else {
                None
            },
            None => None,
        }
    }
}

/// Where the `}` after the simple statements of a body from token `i`
/// stands (see `simple_block`).
pub open spec fn block_end(t: Seq<Token>, i: int) -> int
    decreases t.len() - i,
{
    if 0 <= i < t.len() && t[i].kind == TokenKind::RBrace {
        i
    } else {
        match simple_stmt(t, i) {
            Some((st, j)) => if i < j <= t.len() {
                block_end(t, j)
            } else {
                i
            },
            None => i,
        }
    }
}

/// The tree of a parameter named by token `t`.
pub open spec fn param_var(t: Token) -> Ast {
    Ast::Variable { name: t.lexeme, arity: None }
}

/// The parameters of a function from token `i` up to `)`: names
/// separated by commas (a comma may come last); their trees and where the
/// `)` stands.
pub open spec fn simple_params(t: Seq<Token>, i: int) -> Option<(Seq<Ast>, int)>
    decreases t.len() - i,
{
    if !(0 <= i < t.len()) {
        None
    } else if t[i].kind == TokenKind::RParen {
        Some((Seq::empty(), i))
    } else if t[i].kind == TokenKind::Ident && i + 1 < t.len() && t[i + 1].kind == TokenKind::RParen {
        Some((seq![param_var(t[i])], i + 1))
    } else if t[i].kind == TokenKind::Ident && i + 1 < t.len() && t[i + 1].kind == TokenKind::Comma {
        match simple_params(t, i + 2) {
            Some((rest, j)) => Some((seq![param_var(t[i])] + rest, j)),
            None => None,
        }
    } else {
        None
    }
}

/// The trees of the parameters from token `i` (see `simple_params`).
pub open spec fn params_trees(t: Seq<Token>, i: int) -> Seq<Ast> {
    match simple_params(t, i) {
        Some((a, _)) => a,
        None => Seq::empty(),
    }
}

/// Where the `)` after the parameters from token `i` stands (see
/// `simple_params`).
pub open spec fn params_end(t: Seq<Token>, i: int) -> int {
    match simple_params(t, i) {
        Some((_, j)) => j,
        None => i,
    }
}

/// From token `i`: `PARAMS ) { STATEMENTS }` with parameters as
/// `simple_params` and statements as `simple_block` say, followed by a
/// token that is no error token.
pub open spec fn simple_fun_rest(t: Seq<Token>, i: int) -> bool {
    &&& simple_params(t, i) is Some
    &&& params_end(t, i) + 1 < t.len()
    &&& t[params_end(t, i) + 1].kind == TokenKind::LBrace
    &&& simple_block(t, params_end(t, i) + 2) is Some
    &&& readable(t, block_end(t, params_end(t, i) + 2) + 1, 1)
}

/// From token `n`: `NAME ( PARAMS ) { STATEMENTS }` (see
/// `simple_fun_rest`).
pub open spec fn simple_named_fun(t: Seq<Token>, n: int) -> bool {
    &&& 0 <= n && n + 1 < t.len()
    &&& t[n].kind == TokenKind::Ident
    &&& t[n + 1].kind == TokenKind::LParen
    &&& simple_fun_rest(t, n + 2)
}

/// Where the simple statements of a body follow, the token there is no
/// error token.
proof fn lemma_block_start(t: Seq<Token>, i: int)
    requires
        simple_block(t, i) is Some,
    ensures
        0 <= i < t.len(),
        t[i].kind != TokenKind::Error,
{
}

/// Two quiet steps make one.
proof fn lemma_quiet_steps(a: Parser, b: Parser, c: Parser, k: int, m: int)
    requires
        quiet_step(a, b, k),
        quiet_step(b, c, m),
        b.tokens == a.tokens,
    ensures
        quiet_step(a, c, k + m),
{
}

/// The text of an error at a token.
pub open spec fn error_text(file: Seq<char>, t: Token, msg: Seq<char>) -> Seq<char> {
    file + ":"@ + spec_decimal(t.line as nat) + ":"@ + spec_decimal(t.col as nat) + ": error"@ + (
    if t.kind == TokenKind::Done {
        " at end of file"@
    } else if t.kind == TokenKind::Error {
        Seq::empty()
    } else {
        " at '"@ + t.lexeme@ + "'"@
    }) + ": "@ + msg
}

impl Parser {
    /// The token stream ends with `Done` and holds it nowhere else, and
    /// the current token is `Done` only once the stream is read; the
    /// compiler is idle and consistent with the machine.
    pub open spec fn wf(&self) -> bool {
        &&& self.tokens@.len() > 0
        &&& self.next <= self.tokens@.len()
        &&& self.tokens@.last().kind == TokenKind::Done
        &&& forall|i: int| 0 <= i < self.tokens@.len() - 1 ==> (#[trigger] self.tokens@[i]).kind != TokenKind::Done
        &&& (self.curr.kind != TokenKind::Done ==> self.next < self.tokens@.len())
        &&& self.compiler.wf(&self.vm)
        &&& self.compiler.symbols.calls@.len() == 0
        &&& self.compiler.compile_flag == self.compile_flag
    }

    /// How many tokens are left to read.
    pub open spec fn rem(&self) -> nat {
        (self.tokens@.len() - self.next) as nat
    }

    /// What parsing keeps: the tokens, the flags, the file name, the
    /// compiler and the machine; the count of errors only grows.
    pub open spec fn keeps(&self, old: Parser) -> bool {
        &&& self.wf()
        &&& self.tokens == old.tokens
        &&& self.file_name == old.file_name
        &&& self.print_ast_flag == old.print_ast_flag
        &&& self.compile_flag == old.compile_flag
        &&& self.debug_flag == old.debug_flag
        &&& self.compiler == old.compiler
        &&& self.vm == old.vm
        &&& self.rem() <= old.rem()
        &&& self.error_count >= old.error_count
    }

    /// A parser with no text yet, its flags set, the compiler at its
    /// global module and an empty machine.
    pub fn new(print_ast: bool, compile: bool, debug: bool) -> (r: Parser)
        ensures
            r.wf(),
            r.print_ast_flag == print_ast,
            r.compile_flag == compile,
            r.debug_flag == debug,
            r.compiler.compile_flag == compile,
            r.error_count == 0,
            !r.in_panic_mode,
            !r.in_panic_lock_mode,
            r.messages@.len() == 0,
            r.vm.vars@.len() == 0,
            r.vm.functions@.len() == 0,
            r.vm.output@.len() == 0,
            r.next == 0,
            r.tokens@.len() == 1 && r.tokens@[0].kind == TokenKind::Done,
            r.curr.kind == TokenKind::NoToken && r.curr.line == 1 && r.curr.col == 1,
            r.prev.kind == TokenKind::NoToken && r.prev.line == 1 && r.prev.col == 1,
            r.compiler.mod_var_count() == 0,
            forall|n: Seq<char>| #[trigger] r.compiler.mod_var(n) is None,
    {
        let mut tokens: Vec<Token> = Vec::new();
        tokens.push(Token { kind: TokenKind::Done, lexeme: String::new(), line: 1, col: 1, value: Value::Nil });
        let vm = VM::new();
        let compiler = Compiler::new(compile);
        Parser {
            tokens,
            next: 0,
            curr: Token::none(),
            prev: Token::none(),
            file_name: String::new(),
            error_count: 0,
            print_ast_flag: print_ast,
            compile_flag: compile,
            debug_flag: debug,
            in_panic_mode: false,
            in_panic_lock_mode: false,
            compiler,
            vm,
            messages: Vec::new(),
        }
    }

    /// Registers a native function; nothing is stored yet.
    pub fn store_fun(&mut self, name: &str, arity: usize) -> (r: Result<(), String>)
        ensures
            r is Ok,
            *final(self) == *old(self),
    {
        Ok(())
    }

    /// Reports an error at a token, unless one is being recovered from:
    /// the message gets the file, line and column; the count goes up, and
    /// at 20 errors the parser stops reporting.
    fn error_at(&mut self, token: &Token, err_message: &str)
        requires
            old(self).wf(),
        ensures
            final(self).keeps(*old(self)),
            final(self).next == old(self).next,
            final(self).curr == old(self).curr,
            final(self).prev == old(self).prev,
            old(self).in_panic_mode || old(self).in_panic_lock_mode ==> *final(self) == *old(self),
            !(old(self).in_panic_mode || old(self).in_panic_lock_mode) ==> {
                &&& final(self).in_panic_mode
                &&& final(self).error_count == if old(self).error_count < usize::MAX {
                    old(self).error_count + 1
                } else {
                    old(self).error_count as int
                }
                &&& final(self).messages@.len() > old(self).messages@.len()
                &&& final(self).messages@[old(self).messages@.len() as int]@ == error_text(
                    old(self).file_name@,
                    *token,
                    err_message@,
                )
                &&& final(self).in_panic_lock_mode == (final(self).error_count >= 20)
                &&& final(self).in_panic_lock_mode ==> final(self).messages@.last()@
                    == "error: bailing out; too many errors"@
            },
    {
        if self.in_panic_mode || self.in_panic_lock_mode {
            return;
        }
        let mut s = self.file_name.clone();
        s.append(":");
        let l = usize_text(token.line);
        s.append(l.as_str());
        s.append(":");
        let c = usize_text(token.col);
        s.append(c.as_str());
        s.append(": error");
        if token.kind == TokenKind::Done {
            s.append(" at end of file");
        } else if token.kind == TokenKind::Error {
        } else {
            s.append(" at '");
            s.append(token.lexeme.as_str());
            s.append("'");
        }
        s.append(": ");
        s.append(err_message);
        self.messages.push(s);
        if self.error_count < usize::MAX {
            self.error_count = self.error_count + 1;
        }
        if self.error_count >= 20 {
            self.messages.push(owned("error: bailing out; too many errors"));
            self.in_panic_lock_mode = true;
        }
        self.in_panic_mode = true;
    }

    /// Reports an error at the previous token (see `error_at`).
    fn error_at_prev(&mut self, err_message: &str)
        requires
            old(self).wf(),
        ensures
            final(self).keeps(*old(self)),
            final(self).next == old(self).next,
            final(self).curr == old(self).curr,
            final(self).prev == old(self).prev,
            old(self).in_panic_mode || old(self).in_panic_lock_mode ==> *final(self) == *old(self),
            !(old(self).in_panic_mode || old(self).in_panic_lock_mode) ==> {
                &&& final(self).in_panic_mode
                &&& final(self).error_count == if old(self).error_count < usize::MAX {
                    old(self).error_count + 1
                } else {
                    old(self).error_count as int
                }
                &&& final(self).messages@.len() > old(self).messages@.len()
                &&& final(self).messages@[old(self).messages@.len() as int]@ == error_text(
                    old(self).file_name@,
                    old(self).prev,
                    err_message@,
                )
                &&& final(self).in_panic_lock_mode == (final(self).error_count >= 20)
            },
    {
        let prev = self.prev.duplicate();
        self.error_at(&prev, err_message);
    }

    /// Reports an error at the current token.
    fn error_at_curr(&mut self, err_message: &str)
        requires
            old(self).wf(),
        ensures
            final(self).keeps(*old(self)),
            final(self).next == old(self).next,
            final(self).curr == old(self).curr,
            final(self).prev == old(self).prev,
            !(old(self).in_panic_mode || old(self).in_panic_lock_mode) ==> final(self).in_panic_mode,
            old(self).in_panic_mode || old(self).in_panic_lock_mode ==> *final(self) == *old(self),
            !(old(self).in_panic_mode || old(self).in_panic_lock_mode) ==> {
                &&& final(self).error_count == if old(self).error_count < usize::MAX {
                    old(self).error_count + 1
                } else {
                    old(self).error_count as int
                }
                &&& final(self).messages@.len() > old(self).messages@.len()
                &&& final(self).messages@[old(self).messages@.len() as int]@ == error_text(
                    old(self).file_name@,
                    old(self).curr,
                    err_message@,
                )
                &&& final(self).in_panic_lock_mode == (final(self).error_count >= 20)
            },
    {
        let curr = self.curr.duplicate();
        self.error_at(&curr, err_message);
    }

    /// The kind of the current token.
    fn current_kind(&self) -> (r: TokenKind)
        ensures
            r == self.curr.kind,
    {
        self.curr.kind
    }

    /// The current token.
    fn current(&self) -> (r: Token)
        ensures
            r == self.curr,
    {
        self.curr.duplicate()
    }

    /// The previous token.
    fn previous(&self) -> (r: Token)
        ensures
            r == self.prev,
    {
        self.prev.duplicate()
    }

    /// Moves to the next token; error tokens are reported and skipped. At
    /// the end of the stream the current token stays `Done`.
    fn advance(&mut self)
        requires
            old(self).wf(),
        ensures
            final(self).keeps(*old(self)),
            final(self).prev == old(self).curr,
            final(self).curr.kind != TokenKind::Error,
            old(self).curr.kind != TokenKind::Done ==> final(self).rem() < old(self).rem(),
            readable(old(self).tokens@, old(self).next as int, 1) ==> quiet_step(
                *old(self),
                *final(self),
                1,
            ),
    {
        self.prev = self.curr.duplicate();
        let ghost mut first = true;
        loop
            invariant
                self.keeps(*old(self)),
                self.prev == old(self).curr,
                old(self).curr.kind != TokenKind::Done ==> self.rem() < old(self).rem() || (self.next
                    == old(self).next && self.next < self.tokens@.len()),
                first ==> self.next == old(self).next && self.error_count == old(self).error_count
                    && self.in_panic_mode == old(self).in_panic_mode && self.in_panic_lock_mode
                    == old(self).in_panic_lock_mode,
                !first ==> !readable(old(self).tokens@, old(self).next as int, 1),
            decreases self.tokens@.len() - self.next,
        {
            let n = self.tokens.len();
            if self.next < n {
                let t = self.tokens[self.next].duplicate();
                self.next = self.next + 1;
                self.curr = t;
            } else {
                let t = self.tokens[n - 1].duplicate();
                self.curr = t;
            }
            if self.curr.kind != TokenKind::Error {
                return;
            }
            proof {
                if first {
                    assert(!readable(old(self).tokens@, old(self).next as int, 1)) by {
                        if old(self).next < self.tokens@.len() {
                            assert(self.tokens@[old(self).next as int].kind == TokenKind::Error);
                        }
                    }
                }
                first = false;
            }
            let msg = self.curr.lexeme.clone();
            self.error_at_curr(msg.as_str());
        }
    }

    /// Whether the current token has a kind.
    fn check(&self, tk: TokenKind) -> (r: bool)
        ensures
            r == (self.curr.kind == tk),
    {
        self.curr.kind == tk
    }

    /// Moves past the current token when it has a kind.
    fn match_token(&mut self, tk: TokenKind) -> (r: bool)
        requires
            old(self).wf(),
        ensures
            final(self).keeps(*old(self)),
            r == (old(self).curr.kind == tk),
            !r ==> *final(self) == *old(self),
            r && tk != TokenKind::Done ==> final(self).rem() < old(self).rem(),
            r && readable(old(self).tokens@, old(self).next as int, 1) ==> quiet_step(
                *old(self),
                *final(self),
                1,
            ),
    {
        if self.curr.kind != tk {
            return false;
        }
        self.advance();
        true
    }

    /// Moves past the current token when it has a kind, else reports the
    /// error.
    fn consume(&mut self, tk: TokenKind, err_message: &str) -> (r: bool)
        requires
            old(self).wf(),
        ensures
            final(self).keeps(*old(self)),
            r == (old(self).curr.kind == tk),
            r && tk != TokenKind::Done ==> final(self).rem() < old(self).rem(),
            !r ==> final(self).next == old(self).next && final(self).curr == old(self).curr,
            !r && !(old(self).in_panic_mode || old(self).in_panic_lock_mode) ==> final(self).in_panic_mode
                && final(self).error_count == if old(self).error_count < usize::MAX {
                old(self).error_count + 1
            } else {
                old(self).error_count as int
            },
            r && readable(old(self).tokens@, old(self).next as int, 1) ==> quiet_step(
                *old(self),
                *final(self),
                1,
            ) && final(self).prev == old(self).curr,
    {
        if self.curr.kind == tk {
            self.advance();
            return true;
        }
        self.error_at_curr(err_message);
        false
    }

    /// Leaves panic mode and skips tokens up to the end of a statement or
    /// the start of the next one: it stops at the end of the text, after
    /// `;`, or at a token that starts a statement (see `sync_stop`).
    fn synchronize_error(&mut self)
        requires
            old(self).wf(),
        ensures
            final(self).keeps(*old(self)),
            sync_stop(*final(self)),
            sync_stop(*old(self)) ==> *final(self) == (Parser { in_panic_mode: false, ..*old(self) }),
            !sync_stop(*old(self)) ==> final(self).rem() < old(self).rem(),
            readable(old(self).tokens@, old(self).next as int, final(self).next - old(self).next) ==> {
                &&& !final(self).in_panic_mode
                &&& final(self).error_count == old(self).error_count
                &&& final(self).in_panic_lock_mode == old(self).in_panic_lock_mode
                &&& forall|i: int|
                    old(self).next <= i < final(self).next - 1 ==> !#[trigger] skipped_stop(*old(self), i)
                &&& final(self).next > old(self).next ==> final(self).curr
                    == old(self).tokens@[final(self).next - 1]
            },
    {
        self.in_panic_mode = false;
        while self.curr.kind != TokenKind::Done
            invariant
                self.keeps(*old(self)),
                self.next >= old(self).next,
                self.next == old(self).next ==> *self == (Parser { in_panic_mode: false, ..*old(self) }),
                self.next > old(self).next ==> !sync_stop(*old(self)),
                readable(old(self).tokens@, old(self).next as int, self.next - old(self).next) ==> {
                    &&& !self.in_panic_mode
                    &&& self.error_count == old(self).error_count
                    &&& self.in_panic_lock_mode == old(self).in_panic_lock_mode
                    &&& forall|i: int|
                        old(self).next <= i < self.next - 1 ==> !#[trigger] skipped_stop(*old(self), i)
                    &&& self.next > old(self).next ==> self.curr == old(self).tokens@[self.next - 1]
                        && self.prev == if self.next - 1 == old(self).next {
                        old(self).curr
                    } else {
                        old(self).tokens@[self.next - 2]
                    }
                },
            decreases self.rem(),
        {
            if self.prev.kind == TokenKind::Semicolon {
                return;
            }
            match self.curr.kind {
                TokenKind::LetKw | TokenKind::FunKw | TokenKind::AnonClosure | TokenKind::IfKw
                | TokenKind::WhileKw | TokenKind::ForKw | TokenKind::ReturnKw => {
                    return;
                },
                _ => {},
            }
            let ghost s0 = *self;
            self.advance();
            proof {
                let t = old(self).tokens@;
                let n0 = old(self).next as int;
                if readable(t, n0, self.next - n0) {
                    assert(readable(t, n0, s0.next - n0));
                    assert(readable(t, s0.next as int, 1));
                    assert forall|i: int| n0 <= i < self.next - 1 implies !#[trigger] skipped_stop(
                        *old(self),
                        i,
                    ) by {
                        if i == s0.next - 1 {
                            assert(t[i] == s0.curr);
                        }
                    }
                }
            }
        }
    }
}


impl Parser {
    /// A statement: `let`, `return` or a block, else an expression
    /// statement; after an error the parser skips to the next statement.
    fn parse_stmt(&mut self) -> (r: Option<Box<Ast>>)
        requires
            old(self).wf(),
        ensures
            final(self).keeps(*old(self)),
            r is Some ==> final(self).rem() < old(self).rem(),
            !old(self).in_panic_mode && simple_let(*old(self)) ==> r == Some(
                Box::new(
                    Ast::LetDecl {
                        name: old(self).tokens@[old(self).next as int].lexeme,
                        expr: Box::new(operand(old(self).tokens@[old(self).next + 2])->0),
                    },
                ),
            ) && quiet_step(*old(self), *final(self), 5),
            !old(self).in_panic_mode && simple_expr_stmt(*old(self)) ==> r == Some(
                Box::new(Ast::ExprStmt { expr: Box::new(operand(old(self).curr)->0) }),
            ) && quiet_step(*old(self), *final(self), 2),
            !old(self).in_panic_mode && simple_binary_stmt(*old(self)) ==> r == Some(
                Box::new(Ast::ExprStmt { expr: Box::new(binary_tree(*old(self))) }),
            ) && quiet_step(*old(self), *final(self), 4),
        decreases old(self).rem(), 9nat,
    {
        let tk = self.current_kind();
        let node = if stmt_bp(tk).is_some() {
            self.call_stmt_fn(tk)
        } else {
            self.parse_expr_stmt()
        };
        if self.in_panic_mode {
            self.advance();
            self.synchronize_error();
        }
        node
    }

    /// The statement that a token starts.
    fn call_stmt_fn(&mut self, tk: TokenKind) -> (r: Option<Box<Ast>>)
        requires
            old(self).wf(),
            tk == old(self).curr.kind,
            spec_stmt_bp(tk) is Some || tk == TokenKind::IfKw,
        ensures
            final(self).keeps(*old(self)),
            final(self).rem() < old(self).rem(),
            simple_let(*old(self)) ==> r == Some(
                Box::new(
                    Ast::LetDecl {
                        name: old(self).tokens@[old(self).next as int].lexeme,
                        expr: Box::new(operand(old(self).tokens@[old(self).next + 2])->0),
                    },
                ),
            ) && quiet_step(*old(self), *final(self), 5),
        decreases old(self).rem(), 8nat,
    {
        match tk {
            TokenKind::LetKw => self.parse_let_stmt(),
            TokenKind::ReturnKw => self.parse_return_stmt(),
            TokenKind::LBrace => self.parse_block(),
            _ => self.parse_if_stmt(),
        }
    }

    /// An expression followed by `;`.
    fn parse_expr_stmt(&mut self) -> (r: Option<Box<Ast>>)
        requires
            old(self).wf(),
        ensures
            final(self).keeps(*old(self)),
            r is Some ==> final(self).rem() < old(self).rem(),
            r matches Some(n) ==> *n is ExprStmt,
            simple_expr_stmt(*old(self)) ==> r == Some(
                Box::new(Ast::ExprStmt { expr: Box::new(operand(old(self).curr)->0) }),
            ) && quiet_step(*old(self), *final(self), 2),
            simple_binary_stmt(*old(self)) ==> r == Some(
                Box::new(Ast::ExprStmt { expr: Box::new(binary_tree(*old(self))) }),
            ) && quiet_step(*old(self), *final(self), 4),
        decreases old(self).rem(), 8nat,
    {
        let node = self.parse_expr(BindingPower::Assignment);
        let ghost s1 = *self;
        let e = match node {
            Some(e) => e,
            None => {
                return None;
            },
        };
        if !self.consume(TokenKind::Semicolon, "';' expected after expression") {
            return None;
        }
        proof {
            if simple_expr_stmt(*old(self)) {
                lemma_quiet_steps(*old(self), s1, *self, 1, 1);
            }
            if simple_binary_stmt(*old(self)) {
                assert(readable(old(self).tokens@, old(self).next + 3, 1)) by {
                    assert(old(self).tokens@[old(self).next + 3].kind != TokenKind::Error);
                }
                lemma_quiet_steps(*old(self), s1, *self, 3, 1);
            }
        }
        Some(Box::new(Ast::ExprStmt { expr: e }))
    }

    /// `let name = expression;`
    fn parse_let_stmt(&mut self) -> (r: Option<Box<Ast>>)
        requires
            old(self).wf(),
            old(self).curr.kind != TokenKind::Done,
        ensures
            final(self).keeps(*old(self)),
            final(self).rem() < old(self).rem(),
            r matches Some(n) ==> *n is LetDecl,
            simple_let(*old(self)) ==> r == Some(
                Box::new(
                    Ast::LetDecl {
                        name: old(self).tokens@[old(self).next as int].lexeme,
                        expr: Box::new(operand(old(self).tokens@[old(self).next + 2])->0),
                    },
                ),
            ) && quiet_step(*old(self), *final(self), 5),
            let_unfinished(*old(self)) && !old(self).in_panic_mode && !old(self).in_panic_lock_mode
                && old(self).error_count < usize::MAX ==> r is None && final(self).error_count
                == old(self).error_count + 1,
        decreases old(self).rem(), 7nat,
    {
        self.advance();
        let ghost s1 = *self;
        self.consume(TokenKind::Ident, "identifier expected after 'let'");
        let ghost s2 = *self;
        let ident = self.previous().lexeme;
        self.consume(TokenKind::Assign, "assignment expected after identifier");
        let ghost s3 = *self;
        let e = match self.parse_expr(BindingPower::Assignment) {
            Some(e) => e,
            None => {
                return None;
            },
        };
        let ghost s4 = *self;
        proof {
            if let_unfinished(*old(self)) {
                let t = old(self).tokens@;
                let n = old(self).next as int;
                assert(readable(t, n + 1, 1));
                assert(readable(t, n + 2, 1));
                assert(readable(t, n + 3, 1));
                assert(simple_operand(s3));
                lemma_quiet_steps(*old(self), s1, s2, 1, 1);
                lemma_quiet_steps(*old(self), s2, s3, 2, 1);
                lemma_quiet_steps(*old(self), s3, s4, 3, 1);
            }
        }
        if !self.consume(TokenKind::Semicolon, "';' expected after let statement") {
            return None;
        }
        proof {
            if simple_let(*old(self)) {
                let t = old(self).tokens@;
                let n = old(self).next as int;
                assert(t[n].kind != TokenKind::Error && t[n + 1].kind != TokenKind::Error
                    && t[n + 2].kind != TokenKind::Error && t[n + 3].kind != TokenKind::Error
                    && t[n + 4].kind != TokenKind::Error);
                assert(readable(t, n + 1, 1));
                assert(readable(t, n + 2, 1));
                assert(readable(t, n + 3, 1));
                assert(readable(t, n + 4, 1));
                lemma_quiet_steps(*old(self), s1, s2, 1, 1);
                lemma_quiet_steps(*old(self), s2, s3, 2, 1);
                lemma_quiet_steps(*old(self), s3, s4, 3, 1);
                lemma_quiet_steps(*old(self), s4, *self, 4, 1);
                assert(ident == t[n].lexeme);
            }
        }
        Some(Box::new(Ast::LetDecl { name: ident, expr: e }))
    }

    /// `if`: an expression, a token skipped, and the expression after it,
    /// which is what the statement gives.
    fn parse_if_stmt(&mut self) -> (r: Option<Box<Ast>>)
        requires
            old(self).wf(),
            old(self).curr.kind != TokenKind::Done,
        ensures
            final(self).keeps(*old(self)),
            final(self).rem() < old(self).rem(),
        decreases old(self).rem(), 7nat,
    {
        self.advance();
        let if_expr = self.parse_expr(BindingPower::Assignment);
        if if_expr.is_some() {
            self.advance();
            return self.parse_expr(BindingPower::Assignment);
        }
        None
    }

    /// `return;` or `return expression;`
    fn parse_return_stmt(&mut self) -> (r: Option<Box<Ast>>)
        requires
            old(self).wf(),
            old(self).curr.kind != TokenKind::Done,
        ensures
            final(self).keeps(*old(self)),
            final(self).rem() < old(self).rem(),
            r matches Some(n) ==> *n is ReturnStmt,
        decreases old(self).rem(), 7nat,
    {
        self.advance();
        let mut ret_expr: Option<Box<Ast>> = None;
        if !self.match_token(TokenKind::Semicolon) {
            match self.parse_expr(BindingPower::Assignment) {
                Some(e) => {
                    ret_expr = Some(e);
                },
                None => {
                    return None;
                },
            }
            self.advance();
        }
        Some(Box::new(Ast::ReturnStmt { expr: ret_expr }))
    }

    /// `{ statements }`; refused once any error was reported.
    fn parse_block(&mut self) -> (r: Option<Box<Ast>>)
        requires
            old(self).wf(),
            old(self).curr.kind != TokenKind::Done,
        ensures
            final(self).keeps(*old(self)),
            final(self).rem() < old(self).rem(),
            r matches Some(n) ==> *n is Block,
        decreases old(self).rem(), 7nat,
    {
        self.advance();
        let mut list: Vec<Box<Ast>> = Vec::new();
        while !self.check(TokenKind::RBrace) && !self.check(TokenKind::Done)
            invariant
                self.keeps(*old(self)),
                self.rem() < old(self).rem(),
            decreases self.rem(),
        {
            match self.parse_stmt() {
                Some(i) => {
                    list.push(i);
                },
                None => {
                    return None;
                },
            }
        }
        if !self.consume(TokenKind::RBrace, "'}' expected at end of block") {
            self.advance();
        }
        if self.error_count > 0 {
            return None;
        }
        Some(Box::new(Ast::Block { listing: list }))
    }

    /// An expression whose operators bind at least as tightly as `bp`: a
    /// prefix form, then infix operators while they bind tightly enough.
    #[verifier::rlimit(30)]
    fn parse_expr(&mut self, bp: BindingPower) -> (r: Option<Box<Ast>>)
        requires
            old(self).wf(),
        ensures
            final(self).keeps(*old(self)),
            r is Some ==> final(self).rem() < old(self).rem(),
            spec_prefix_bp(old(self).curr.kind) is None ==> r is None,
            simple_operand(*old(self)) ==> r == Some(Box::new(operand(old(self).curr)->0))
                && quiet_step(*old(self), *final(self), 1),
            operand_at(*old(self), bp) ==> r == Some(Box::new(operand(old(self).curr)->0))
                && quiet_step(*old(self), *final(self), 1),
            simple_binary_expr(*old(self)) && bp.spec_level() <= spec_infix_bp(
                old(self).tokens@[old(self).next as int].kind,
            )->0.spec_level() ==> r == Some(
                Box::new(binary_tree(*old(self))),
            ) && quiet_step(*old(self), *final(self), 3),
        decreases old(self).rem(), 6nat,
    {
        let tk = self.current_kind();
        if prefix_bp(tk).is_none() {
            self.error_at_curr("expression expected");
            return None;
        }
        let mut l = match self.call_prefix_fn() {
            Some(l) => l,
            None => {
                return None;
            },
        };
        let ghost binary = simple_binary_expr(*old(self)) && bp.spec_level() <= spec_infix_bp(
            old(self).tokens@[old(self).next as int].kind,
        )->0.spec_level();
        let ghost mut stage: int = 0;
        proof {
            if binary {
                let t = old(self).tokens@;
                let n = old(self).next as int;
                assert(t[n].kind != TokenKind::Error);
                assert(readable(t, n, 1));
            }
        }
        loop
            invariant
                self.keeps(*old(self)),
                self.rem() < old(self).rem(),
                spec_prefix_bp(old(self).curr.kind) is Some,
                simple_operand(*old(self)) ==> quiet_step(*old(self), *self, 1) && l == Box::new(
                    operand(old(self).curr)->0,
                ),
                operand_at(*old(self), bp) ==> quiet_step(*old(self), *self, 1) && l == Box::new(
                    operand(old(self).curr)->0,
                ),
                binary == (simple_binary_expr(*old(self)) && bp.spec_level() <= spec_infix_bp(
                    old(self).tokens@[old(self).next as int].kind,
                )->0.spec_level()),
                binary ==> (stage == 0 && quiet_step(*old(self), *self, 1) && l == Box::new(
                    operand(old(self).curr)->0,
                )) || (stage == 1 && quiet_step(*old(self), *self, 3) && l == Box::new(
                    binary_tree(*old(self)),
                )),
            decreases self.rem(),
        {
            let tk = self.current_kind();
            match infix_bp(tk) {
                None => {
                    return Some(l);
                },
                Some(infix) => {
                    if bp.level() > infix.level() {
                        return Some(l);
                    }
                },
            }
            let ghost s0 = *self;
            proof {
                if binary {
                    assert(stage == 0);
                    assert(simple_right(*self));
                }
            }
            match self.call_infix_fn(l) {
                Some(n) => {
                    l = n;
                },
                None => {
                    return None;
                },
            }
            proof {
                if binary {
                    lemma_quiet_steps(*old(self), s0, *self, 1, 2);
                    stage = 1;
                }
            }
        }
    }

    /// The prefix form that the current token starts.
    fn call_prefix_fn(&mut self) -> (r: Option<Box<Ast>>)
        requires
            old(self).wf(),
            spec_prefix_bp(old(self).curr.kind) is Some,
        ensures
            final(self).keeps(*old(self)),
            final(self).rem() < old(self).rem(),
            operand(old(self).curr) is Some && readable(old(self).tokens@, old(self).next as int, 1)
                ==> r == Some(Box::new(operand(old(self).curr)->0)) && quiet_step(
                *old(self),
                *final(self),
                1,
            ),
        decreases old(self).rem(), 5nat,
    {
        match self.current_kind() {
            TokenKind::Int | TokenKind::Float | TokenKind::String | TokenKind::NilKw => self.parse_literal(),
            TokenKind::Ident => self.parse_var(),
            TokenKind::TrueKw => self.parse_true(),
            TokenKind::FalseKw => self.parse_false(),
            TokenKind::Subtract => self.parse_negative(),
            TokenKind::Add => self.parse_positive(),
            TokenKind::AnonClosure => self.parse_anon_closure(),
            TokenKind::FunKw => self.parse_named_closure(),
            TokenKind::LNot => self.parse_lnot(),
            _ => self.parse_not(),
        }
    }

    /// The infix form that the current token continues `left` with;
    /// nothing for a token that has none.
    fn call_infix_fn(&mut self, left: Box<Ast>) -> (r: Option<Box<Ast>>)
        requires
            old(self).wf(),
        ensures
            final(self).keeps(*old(self)),
            r is Some ==> final(self).rem() < old(self).rem(),
            spec_binary_op(old(self).curr.kind) is Some && simple_right(*old(self)) ==> r == Some(
                Box::new(
                    Ast::Binary(
                        spec_binary_op(old(self).curr.kind)->0,
                        Some(left),
                        Some(Box::new(operand(old(self).tokens@[old(self).next as int])->0)),
                    ),
                ),
            ) && quiet_step(*old(self), *final(self), 2),
        decreases old(self).rem(), 5nat,
    {
        let tk = self.current_kind();
        match tk {
            TokenKind::LAnd => self.parse_land(left),
            TokenKind::LOr => self.parse_lor(left),
            TokenKind::LParen => self.parse_function_call(left),
            _ => match binary_op(tk) {
                Some(op) => self.parse_binary(left, op),
                None => None,
            },
        }
    }

    /// A literal: its value is that of the token.
    fn parse_literal(&mut self) -> (r: Option<Box<Ast>>)
        requires
            old(self).wf(),
            old(self).curr.kind != TokenKind::Done,
        ensures
            final(self).keeps(*old(self)),
            final(self).rem() < old(self).rem(),
            r == Some(Box::new(Ast::Value { val: old(self).curr.value })),
            readable(old(self).tokens@, old(self).next as int, 1) ==> quiet_step(
                *old(self),
                *final(self),
                1,
            ),
        decreases old(self).rem(), 4nat,
    {
        let v = self.curr.value.copy();
        self.advance();
        Some(Box::new(Ast::Value { val: v }))
    }

    /// A variable named by the token.
    fn parse_var(&mut self) -> (r: Option<Box<Ast>>)
        requires
            old(self).wf(),
            old(self).curr.kind != TokenKind::Done,
        ensures
            final(self).keeps(*old(self)),
            final(self).rem() < old(self).rem(),
            r == Some(Box::new(Ast::Variable { name: old(self).curr.lexeme, arity: None })),
            readable(old(self).tokens@, old(self).next as int, 1) ==> quiet_step(
                *old(self),
                *final(self),
                1,
            ),
        decreases old(self).rem(), 4nat,
    {
        let name = self.curr.lexeme.clone();
        self.advance();
        Some(Box::new(Ast::Variable { name, arity: None }))
    }

    fn parse_true(&mut self) -> (r: Option<Box<Ast>>)
        requires
            old(self).wf(),
            old(self).curr.kind != TokenKind::Done,
        ensures
            final(self).keeps(*old(self)),
            final(self).rem() < old(self).rem(),
            r == Some(Box::new(Ast::Value { val: Value::Bool(true) })),
            readable(old(self).tokens@, old(self).next as int, 1) ==> quiet_step(
                *old(self),
                *final(self),
                1,
            ),
        decreases old(self).rem(), 4nat,
    {
        self.advance();
        Some(Box::new(Ast::Value { val: Value::Bool(true) }))
    }

    fn parse_false(&mut self) -> (r: Option<Box<Ast>>)
        requires
            old(self).wf(),
            old(self).curr.kind != TokenKind::Done,
        ensures
            final(self).keeps(*old(self)),
            final(self).rem() < old(self).rem(),
            r == Some(Box::new(Ast::Value { val: Value::Bool(false) })),
            readable(old(self).tokens@, old(self).next as int, 1) ==> quiet_step(
                *old(self),
                *final(self),
                1,
            ),
        decreases old(self).rem(), 4nat,
    {
        self.advance();
        Some(Box::new(Ast::Value { val: Value::Bool(false) }))
    }

    /// `-expression`: the negation of the operand that follows, read at the
    /// binding power of a unary operator.
    fn parse_negative(&mut self) -> (r: Option<Box<Ast>>)
        requires
            old(self).wf(),
            old(self).curr.kind != TokenKind::Done,
        ensures
            final(self).keeps(*old(self)),
            final(self).rem() < old(self).rem(),
            r matches Some(n) && *n matches Ast::Unary(op, _) && op == UnaryOp::Negate,
            readable(old(self).tokens@, old(self).next as int, 1) && operand_at(
                Parser {
                    next: (old(self).next + 1) as usize,
                    curr: old(self).tokens@[old(self).next as int],
                    prev: old(self).curr,
                    ..*old(self)
                },
                BindingPower::Unary,
            ) ==> r == Some(
                Box::new(
                    Ast::Unary(
                        UnaryOp::Negate,
                        Some(Box::new(operand(old(self).tokens@[old(self).next as int])->0)),
                    ),
                ),
            ) && quiet_step(*old(self), *final(self), 2),
        decreases old(self).rem(), 4nat,
    {
        self.advance();
        let ghost s1 = *self;
        let right = self.parse_expr(BindingPower::Unary);
        proof {
            if readable(old(self).tokens@, old(self).next as int, 1) && operand_at(
                Parser {
                    next: (old(self).next + 1) as usize,
                    curr: old(self).tokens@[old(self).next as int],
                    prev: old(self).curr,
                    ..*old(self)
                },
                BindingPower::Unary,
            ) {
                assert(operand_at(s1, BindingPower::Unary));
                lemma_quiet_steps(*old(self), s1, *self, 1, 1);
            }
        }
        Some(Box::new(Ast::Unary(UnaryOp::Negate, right)))
    }

    /// `+expression`: the operand that follows, read at the binding power
    /// of a unary operator.
    fn parse_positive(&mut self) -> (r: Option<Box<Ast>>)
        requires
            old(self).wf(),
            old(self).curr.kind != TokenKind::Done,
        ensures
            final(self).keeps(*old(self)),
            final(self).rem() < old(self).rem(),
        decreases old(self).rem(), 4nat,
    {
        self.advance();
        self.parse_expr(BindingPower::Unary)
    }

    /// `!expression`
    fn parse_lnot(&mut self) -> (r: Option<Box<Ast>>)
        requires
            old(self).wf(),
            old(self).curr.kind != TokenKind::Done,
        ensures
            final(self).keeps(*old(self)),
            final(self).rem() < old(self).rem(),
            r matches Some(n) && *n matches Ast::Unary(op, _) && op == UnaryOp::LNot,
        decreases old(self).rem(), 4nat,
    {
        self.advance();
        let right = self.parse_expr(BindingPower::Unary);
        Some(Box::new(Ast::Unary(UnaryOp::LNot, right)))
    }

    /// `~expression`, binding as a unary operator.
    fn parse_not(&mut self) -> (r: Option<Box<Ast>>)
        requires
            old(self).wf(),
            old(self).curr.kind != TokenKind::Done,
        ensures
            final(self).keeps(*old(self)),
            final(self).rem() < old(self).rem(),
            r matches Some(n) && *n matches Ast::Unary(op, _) && op == UnaryOp::Not,
        decreases old(self).rem(), 4nat,
    {
        self.advance();
        let right = self.parse_expr(BindingPower::Unary);
        Some(Box::new(Ast::Unary(UnaryOp::Not, right)))
    }

    /// A binary operator: `left`, the operator, and a right operand that
    /// binds one level tighter than the operator.
    fn parse_binary(&mut self, left: Box<Ast>, op: BinaryOp) -> (r: Option<Box<Ast>>)
        requires
            old(self).wf(),
        ensures
            final(self).keeps(*old(self)),
            r is Some ==> final(self).rem() < old(self).rem(),
            r matches Some(n) ==> *n matches Ast::Binary(o, Some(l), Some(_)) && o == op && l == left,
            spec_infix_bp(old(self).curr.kind) is Some && simple_right(*old(self)) ==> r == Some(
                Box::new(
                    Ast::Binary(
                        op,
                        Some(left),
                        Some(Box::new(operand(old(self).tokens@[old(self).next as int])->0)),
                    ),
                ),
            ) && quiet_step(*old(self), *final(self), 2),
        decreases old(self).rem(), 4nat,
    {
        let bp = match infix_bp(self.current_kind()) {
            Some(bp) => bp,
            None => {
                return None;
            },
        };
        self.advance();
        let ghost s1 = *self;
        let next = BindingPower::from_level(bp.level() + 1);
        let right = match self.parse_expr(next) {
            Some(r) => r,
            None => {
                return None;
            },
        };
        proof {
            if simple_right(*old(self)) {
                assert(readable(old(self).tokens@, old(self).next as int, 1));
                assert(readable(old(self).tokens@, old(self).next + 1, 1));
                lemma_quiet_steps(*old(self), s1, *self, 1, 1);
            }
        }
        Some(Box::new(Ast::Binary(op, Some(left), Some(right))))
    }

    /// `left && right`: the right operand is read and the whole stands for
    /// `true`.
    fn parse_land(&mut self, left: Box<Ast>) -> (r: Option<Box<Ast>>)
        requires
            old(self).wf(),
        ensures
            final(self).keeps(*old(self)),
            r is Some ==> final(self).rem() < old(self).rem(),
            r is Some ==> r == Some(Box::new(Ast::TrueStmt)),
            spec_infix_bp(old(self).curr.kind) is None ==> r is None,
            spec_infix_bp(old(self).curr.kind) is Some && simple_right(*old(self)) ==> r == Some(
                Box::new(Ast::TrueStmt),
            ) && quiet_step(*old(self), *final(self), 2),
        decreases old(self).rem(), 4nat,
    {
        let bp = match infix_bp(self.current_kind()) {
            Some(bp) => bp,
            None => {
                return None;
            },
        };
        self.advance();
        let ghost s1 = *self;
        let next = BindingPower::from_level(bp.level() + 1);
        let right = self.parse_expr(next);
        if right.is_none() {
            return None;
        }
        proof {
            if simple_right(*old(self)) {
                assert(readable(old(self).tokens@, old(self).next as int, 1));
                assert(readable(old(self).tokens@, old(self).next + 1, 1));
                lemma_quiet_steps(*old(self), s1, *self, 1, 1);
            }
        }
        Some(Box::new(Ast::TrueStmt))
    }

    /// `left || right`: two operands are read after the operator, a token
    /// skipped between them, and the whole stands for `true`.
    fn parse_lor(&mut self, left: Box<Ast>) -> (r: Option<Box<Ast>>)
        requires
            old(self).wf(),
        ensures
            final(self).keeps(*old(self)),
            r is Some ==> final(self).rem() < old(self).rem(),
            r is Some ==> r == Some(Box::new(Ast::TrueStmt)),
            spec_infix_bp(old(self).curr.kind) is None ==> r is None,
            spec_infix_bp(old(self).curr.kind) is Some && lor_right(*old(self)) ==> r == Some(
                Box::new(Ast::TrueStmt),
            ) && quiet_step(*old(self), *final(self), 4),
        decreases old(self).rem(), 4nat,
    {
        let bp = match infix_bp(self.current_kind()) {
            Some(bp) => bp,
            None => {
                return None;
            },
        };
        proof {
            if lor_right(*old(self)) {
                let t = old(self).tokens@;
                let n = old(self).next as int;
                assert(readable(t, n, 1) && readable(t, n + 1, 1) && readable(t, n + 2, 1)
                    && readable(t, n + 3, 1));
            }
        }
        self.advance();
        let ghost s1 = *self;
        let next = BindingPower::from_level(bp.level() + 1);
        let right = self.parse_expr(next);
        if right.is_none() {
            return None;
        }
        let ghost s2 = *self;
        self.advance();
        let ghost s3 = *self;
        let right2 = self.parse_expr(next);
        if right2.is_none() {
            return None;
        }
        proof {
            if lor_right(*old(self)) {
                lemma_quiet_steps(*old(self), s1, s2, 1, 1);
                lemma_quiet_steps(*old(self), s2, s3, 2, 1);
                lemma_quiet_steps(*old(self), s3, *self, 3, 1);
            }
        }
        Some(Box::new(Ast::TrueStmt))
    }

    /// A call of `left`: `(` then the arguments.
    fn parse_function_call(&mut self, left: Box<Ast>) -> (r: Option<Box<Ast>>)
        requires
            old(self).wf(),
        ensures
            final(self).keeps(*old(self)),
            r is Some ==> final(self).rem() < old(self).rem(),
            r matches Some(n) ==> *n matches Ast::Call(Some(l), _) && l == left,
            old(self).curr.kind == TokenKind::Done ==> r is None,
            old(self).curr.kind != TokenKind::Done && simple_args(old(self).tokens@, old(self).next as int)
                is Some ==> r is Some && *r->0 is Call && unboxed(r->0->Call_1@) == args_trees(
                old(self).tokens@,
                old(self).next as int,
            ) && quiet_step(
                *old(self),
                *final(self),
                args_end(old(self).tokens@, old(self).next as int) + 1 - old(self).next,
            ),
        decreases old(self).rem(), 4nat,
    {
        if self.check(TokenKind::Done) {
            return None;
        }
        proof {
            if simple_args(old(self).tokens@, old(self).next as int) is Some {
                assert(readable(old(self).tokens@, old(self).next as int, 1));
            }
        }
        self.advance();
        let ghost s1 = *self;
        let args = match self.parse_argument_list() {
            Some(a) => a,
            None => {
                return None;
            },
        };
        proof {
            if simple_args(old(self).tokens@, old(self).next as int) is Some {
                lemma_quiet_steps(*old(self), s1, *self, 1, self.next - s1.next);
            }
        }
        Some(Box::new(Ast::Call(Some(left), args)))
    }

    /// The arguments of a call up to `)`, separated by commas.
    fn parse_argument_list(&mut self) -> (r: Option<Vec<Box<Ast>>>)
        requires
            old(self).wf(),
        ensures
            final(self).keeps(*old(self)),
            old(self).next >= 1 && old(self).curr == old(self).tokens@[old(self).next - 1] && simple_args(
                old(self).tokens@,
                old(self).next - 1,
            ) is Some ==> r is Some && unboxed(r->0@) == args_trees(
                old(self).tokens@,
                old(self).next - 1,
            ) && quiet_step(
                *old(self),
                *final(self),
                args_end(old(self).tokens@, old(self).next - 1) + 1 - old(self).next,
            ),
        decreases old(self).rem(), 10nat,
    {
        let ghost t = old(self).tokens@;
        let ghost simple = old(self).next >= 1 && old(self).curr == t[old(self).next - 1]
            && simple_args(t, old(self).next - 1) is Some;
        let ghost all = args_trees(t, old(self).next - 1);
        let ghost end = args_end(t, old(self).next - 1);
        let mut arg_list: Vec<Box<Ast>> = Vec::new();
        proof {
            if simple {
                assert(quiet_step(*old(self), *self, 0));
                assert(unboxed(arg_list@) + all =~= all);
            }
        }
        if !self.check(TokenKind::RParen) {
            while !self.check(TokenKind::RParen) && !self.check(TokenKind::Done)
                invariant
                    self.keeps(*old(self)),
                    t == old(self).tokens@,
                    simple == (old(self).next >= 1 && old(self).curr == t[old(self).next - 1]
                        && simple_args(t, old(self).next - 1) is Some),
                    all == args_trees(t, old(self).next - 1),
                    end == args_end(t, old(self).next - 1),
                    simple ==> self.next >= 1 && self.curr == t[self.next - 1] && quiet_step(
                        *old(self),
                        *self,
                        self.next - old(self).next,
                    ) && simple_args(t, self.next - 1) is Some && unboxed(arg_list@) + args_trees(
                        t,
                        self.next - 1,
                    ) == all && args_end(t, self.next - 1) == end,
                ensures
                    self.keeps(*old(self)),
                    simple ==> self.next >= 1 && self.curr == t[self.next - 1] && quiet_step(
                        *old(self),
                        *self,
                        self.next - old(self).next,
                    ) && simple_args(t, self.next - 1) is Some && unboxed(arg_list@) + args_trees(
                        t,
                        self.next - 1,
                    ) == all && args_end(t, self.next - 1) == end,
                    simple ==> self.curr.kind == TokenKind::RParen,
                decreases self.rem(),
            {
                let ghost s0 = *self;
                let ghost list0 = unboxed(arg_list@);
                proof {
                    if simple {
                        let i = self.next - 1;
                        assert(operand(t[i]) is Some);
                        assert(readable(t, i + 1, 1));
                        assert(t[i + 1].kind == TokenKind::RParen || t[i + 1].kind == TokenKind::Comma);
                        assert(simple_operand(*self));
                    }
                }
                let a = match self.parse_expr(BindingPower::Assignment) {
                    Some(a) => a,
                    None => {
                        return None;
                    },
                };
                let ghost s1 = *self;
                arg_list.push(a);
                proof {
                    if simple {
                        let i = s0.next - 1;
                        lemma_quiet_steps(*old(self), s0, s1, s0.next - old(self).next, 1);
                        assert(unboxed(arg_list@) =~= list0.push(operand(t[i])->0));
                        let k = if t[i + 1].kind == TokenKind::Comma {
                            i + 2
                        } else {
                            i + 1
                        };
                        let rest = args_trees(t, k);
                        assert(args_trees(t, i) == seq![operand(t[i])->0] + rest);
                        assert(list0.push(operand(t[i])->0) + rest =~= list0 + (seq![operand(t[i])->0]
                            + rest));
                    }
                }
                if !self.match_token(TokenKind::Comma) {
                    proof {
                        if simple {
                            assert(self.curr.kind == TokenKind::RParen);
                        }
                    }
                    break;
                }
                proof {
                    if simple {
                        let i = s0.next - 1;
                        assert(readable(t, i + 2, 1));
                        lemma_quiet_steps(*old(self), s1, *self, s1.next - old(self).next, 1);
                    }
                }
            }
        }
        let ghost s2 = *self;
        proof {
            if simple {
                let i = self.next - 1;
                assert(t[i].kind == TokenKind::RParen);
                assert(readable(t, i + 1, 1));
                assert(unboxed(arg_list@) + Seq::<Ast>::empty() =~= unboxed(arg_list@));
            }
        }
        if !self.consume(TokenKind::RParen, "')' expected after arguments") {
            self.advance();
            return None;
        }
        proof {
            if simple {
                lemma_quiet_steps(*old(self), s2, *self, s2.next - old(self).next, 1);
            }
        }
        Some(arg_list)
    }

    /// The statements of a function body up to `}`; a statement that could
    /// not be read is left out, and the parser moves on by at least one
    /// token. It stops at `}` or at the end of the text.
    fn parse_body(&mut self) -> (r: Vec<Box<Ast>>)
        requires
            old(self).wf(),
        ensures
            final(self).keeps(*old(self)),
            final(self).curr.kind == TokenKind::RBrace || final(self).curr.kind == TokenKind::Done,
            clean(*old(self)) && simple_block(old(self).tokens@, old(self).next - 1) is Some ==> clean(
                *final(self),
            ) && final(self).curr.kind == TokenKind::RBrace && unboxed(r@) == simple_block(
                old(self).tokens@,
                old(self).next - 1,
            )->0 && final(self).next - 1 == block_end(old(self).tokens@, old(self).next - 1),
        decreases old(self).rem(), 10nat,
    {
        let mut code: Vec<Box<Ast>> = Vec::new();
        let ghost simple = clean(*old(self)) && simple_block(old(self).tokens@, old(self).next - 1) is Some;
        let ghost all = simple_block(old(self).tokens@, old(self).next - 1)->0;
        proof {
            if simple {
                assert(unboxed(code@) + all =~= all);
            }
        }
        while !self.check(TokenKind::RBrace) && !self.check(TokenKind::Done)
            invariant
                self.keeps(*old(self)),
                simple == (clean(*old(self)) && simple_block(old(self).tokens@, old(self).next - 1) is Some),
                all == simple_block(old(self).tokens@, old(self).next - 1)->0,
                simple ==> clean(*self) && simple_block(self.tokens@, self.next - 1) is Some
                    && unboxed(code@) + simple_block(self.tokens@, self.next - 1)->0 == all
                    && block_end(self.tokens@, self.next - 1) == block_end(
                    old(self).tokens@,
                    old(self).next - 1,
                ),
            ensures
                self.keeps(*old(self)),
                self.curr.kind == TokenKind::RBrace || self.curr.kind == TokenKind::Done,
                simple ==> clean(*self) && simple_block(self.tokens@, self.next - 1) is Some
                    && unboxed(code@) + simple_block(self.tokens@, self.next - 1)->0 == all
                    && block_end(self.tokens@, self.next - 1) == block_end(
                    old(self).tokens@,
                    old(self).next - 1,
                ),
            decreases self.rem(),
        {
            let ghost s0 = *self;
            let ghost list0 = unboxed(code@);
            proof {
                if simple {
                    let t = self.tokens@;
                    let i = self.next - 1;
                    let (st, j) = simple_stmt(t, i)->0;
                    lemma_block_start(t, j);
                    assert(simple_let(*self) || simple_binary_stmt(*self) || simple_expr_stmt(*self)) by {
                        if t[i].kind == TokenKind::LetKw {
                            assert(forall|k: int| i + 1 <= k < i + 6 ==> #[trigger] t[k].kind != TokenKind::Error);
                        } else if j == i + 4 {
                            assert(forall|k: int| i + 1 <= k < i + 5 ==> #[trigger] t[k].kind != TokenKind::Error);
                            assert(readable(t, i + 1, 3));
                            assert(simple_binary_expr(*self));
                            assert(readable(t, i + 1, 4));
                            assert(simple_binary_stmt(*self));
                        } else {
                            assert(forall|k: int| i + 1 <= k < i + 3 ==> #[trigger] t[k].kind != TokenKind::Error);
                        }
                    }
                }
            }
            let before = self.next;
            match self.parse_stmt() {
                Some(v) => {
                    code.push(v);
                    proof {
                        if simple {
                            let t = self.tokens@;
                            let i = s0.next - 1;
                            let (st, j) = simple_stmt(t, i)->0;
                            assert(unboxed(code@) =~= list0.push(st));
                            assert(list0.push(st) + simple_block(t, j)->0 =~= list0 + (seq![st]
                                + simple_block(t, j)->0));
                        }
                    }
                },
                None => {
                    if self.next == before {
                        if self.check(TokenKind::Done) {
                            break;
                        }
                        self.advance();
                    }
                },
            }
        }
        proof {
            if simple {
                assert(unboxed(code@) + Seq::<Ast>::empty() =~= unboxed(code@));
            }
        }
        code
    }

    /// `fn(params) { body }`: an anonymous function.
    #[verifier::rlimit(60)]
    fn parse_anon_closure(&mut self) -> (r: Option<Box<Ast>>)
        requires
            old(self).wf(),
            old(self).curr.kind != TokenKind::Done,
        ensures
            final(self).keeps(*old(self)),
            final(self).rem() < old(self).rem(),
            r matches Some(n) ==> *n matches Ast::FunDecl { fun_ty, .. } && fun_ty
                == FunctionType::AnonClosure,
            clean(*old(self)) && simple_fun_rest(old(self).tokens@, old(self).next as int) ==> ({
                let t = old(self).tokens@;
                let n = old(self).next as int;
                let j = params_end(t, n);
                let e = block_end(t, j + 2);
                &&& r is Some && *r->0 is FunDecl && r->0->FunDecl_name@ == Seq::<char>::empty()
                    && r->0->FunDecl_fun_ty == FunctionType::AnonClosure && unboxed(
                    r->0->FunDecl_params@,
                ) == params_trees(t, n) && unboxed(r->0->FunDecl_listing@) == simple_block(
                    t,
                    j + 2,
                )->0 && r->0->FunDecl_closure is None
                &&& quiet_step(*old(self), *final(self), e + 2 - n)
            }),
        decreases old(self).rem(), 4nat,
    {
        let ghost t = old(self).tokens@;
        let ghost n = old(self).next as int;
        let ghost fine = clean(*old(self)) && simple_fun_rest(t, n);
        let ghost all = params_trees(t, n);
        let ghost jj = params_end(t, n);
        proof {
            if fine {
                assert(t[n].kind != TokenKind::Error);
                assert(readable(t, n, 1));
            }
        }
        self.advance();
        let mut params: Vec<Box<Ast>> = Vec::new();
        proof {
            if fine {
                assert(unboxed(params@) + all =~= all);
            }
        }
        while !self.check(TokenKind::RParen)
            invariant
                self.keeps(*old(self)),
                self.rem() < old(self).rem(),
                t == old(self).tokens@,
                fine == (clean(*old(self)) && simple_fun_rest(t, n)),
                n == old(self).next as int,
                all == params_trees(t, n),
                jj == params_end(t, n),
                fine ==> self.next >= 1 && self.curr == t[self.next - 1] && simple_params(
                    t,
                    self.next - 1,
                ) is Some && unboxed(params@) + params_trees(t, self.next - 1) == all && params_end(
                    t,
                    self.next - 1,
                ) == jj && self.error_count == 0 && !self.in_panic_mode && !self.in_panic_lock_mode,
            decreases self.rem(),
        {
            let ghost s0 = *self;
            let ghost list0 = unboxed(params@);
            proof {
                if fine {
                    let i = self.next - 1;
                    assert(t[i].kind == TokenKind::Ident);
                    assert(readable(t, i + 1, 1));
                }
            }
            if !self.consume(TokenKind::Ident, "parameter name expected") {
                return None;
            }
            let name = self.previous().lexeme;
            params.push(Box::new(Ast::Variable { name, arity: None }));
            proof {
                if fine {
                    let i = s0.next - 1;
                    assert(unboxed(params@) =~= list0.push(param_var(t[i])));
                    let k = if t[i + 1].kind == TokenKind::Comma {
                        i + 2
                    } else {
                        i + 1
                    };
                    assert(params_trees(t, i) == seq![param_var(t[i])] + params_trees(t, k));
                    assert(list0.push(param_var(t[i])) + params_trees(t, k) =~= list0 + (seq![
                        param_var(t[i]),
                    ] + params_trees(t, k)));
                    if t[i + 1].kind == TokenKind::RParen {
                        assert(params_trees(t, i + 1) =~= Seq::<Ast>::empty());
                    } else {
                        assert(readable(t, i + 2, 1));
                    }
                }
            }
            self.match_token(TokenKind::Comma);
        }
        proof {
            if fine {
                assert(self.next - 1 == jj);
                assert(params_trees(t, self.next - 1) =~= Seq::<Ast>::empty());
                assert(unboxed(params@) + Seq::<Ast>::empty() =~= unboxed(params@));
                assert(readable(t, jj + 1, 1));
                lemma_block_start(t, jj + 2);
                assert(readable(t, jj + 2, 1));
            }
        }
        if !self.consume(TokenKind::RParen, "`)` expected after parameters") {
            return None;
        }
        self.consume(TokenKind::LBrace, "`{` expected at start of lambda function body");
        proof {
            if fine {
                assert(clean(*self));
            }
        }
        let code = self.parse_body();
        let ghost ee = block_end(t, jj + 2);
        proof {
            if fine {
                assert(self.next - 1 == ee);
                assert(readable(t, ee + 1, 1));
            }
        }
        if !self.consume(TokenKind::RBrace, "`}` expected at end of lambda function body") {
            return None;
        }
        Some(
            Box::new(
                Ast::FunDecl {
                    name: String::new(),
                    fun_ty: FunctionType::AnonClosure,
                    params,
                    listing: code,
                    closure: None,
                },
            ),
        )
    }

    /// `fun name(params) { body }`: a named function of at most 16
    /// parameters; refused once any error was reported.
    #[verifier::rlimit(60)]
    fn parse_named_closure(&mut self) -> (r: Option<Box<Ast>>)
        requires
            old(self).wf(),
            old(self).curr.kind != TokenKind::Done,
        ensures
            final(self).keeps(*old(self)),
            final(self).rem() < old(self).rem(),
            r matches Some(n) ==> *n matches Ast::FunDecl { fun_ty, .. } && fun_ty
                == FunctionType::NamedClosure,
            r is Some ==> final(self).error_count == 0,
            clean(*old(self)) && simple_named_fun(old(self).tokens@, old(self).next as int) ==> ({
                let t = old(self).tokens@;
                let n = old(self).next as int;
                let ps = params_trees(t, n + 2);
                let j = params_end(t, n + 2);
                let e = block_end(t, j + 2);
                &&& ps.len() <= 16 ==> r is Some && *r->0 is FunDecl && r->0->FunDecl_name@
                    == t[n].lexeme@ && r->0->FunDecl_fun_ty == FunctionType::NamedClosure
                    && unboxed(r->0->FunDecl_params@) == ps && unboxed(r->0->FunDecl_listing@)
                    == simple_block(t, j + 2)->0 && r->0->FunDecl_closure is None && quiet_step(
                    *old(self),
                    *final(self),
                    e + 2 - n,
                )
                &&& ps.len() > 16 ==> r is None && final(self).error_count > 0
            }),
        decreases old(self).rem(), 4nat,
    {
        let ghost t = old(self).tokens@;
        let ghost n = old(self).next as int;
        let ghost fine = clean(*old(self)) && simple_named_fun(t, n);
        let ghost all = params_trees(t, n + 2);
        let ghost jj = params_end(t, n + 2);
        proof {
            if fine {
                assert(readable(t, n, 1));
                assert(readable(t, n + 1, 1));
                assert(t[n + 2].kind != TokenKind::Error);
                assert(readable(t, n + 2, 1));
            }
        }
        self.advance();
        let mut params: Vec<Box<Ast>> = Vec::new();
        if !self.consume(TokenKind::Ident, "function name expected after 'fun'") {
            self.advance();
        }
        let fun_name = self.previous().lexeme;
        if !self.consume(TokenKind::LParen, "'(' expected after function name") {
            self.advance();
        }
        proof {
            if fine {
                assert(fun_name@ == t[n].lexeme@);
                assert(unboxed(params@) + all =~= all);
            }
        }
        loop
            invariant
                self.keeps(*old(self)),
                self.rem() < old(self).rem(),
                t == old(self).tokens@,
                fine == (clean(*old(self)) && simple_named_fun(t, n)),
                n == old(self).next as int,
                all == params_trees(t, n + 2),
                jj == params_end(t, n + 2),
                fine ==> self.next >= 1 && self.curr == t[self.next - 1] && simple_params(
                    t,
                    self.next - 1,
                ) is Some && unboxed(params@) + params_trees(t, self.next - 1) == all && params_end(
                    t,
                    self.next - 1,
                ) == jj,
                fine && params@.len() <= 16 ==> self.error_count == 0 && !self.in_panic_mode
                    && !self.in_panic_lock_mode,
                fine && params@.len() > 16 ==> self.error_count > 0,
            ensures
                self.keeps(*old(self)),
                self.rem() < old(self).rem(),
                fine ==> self.next - 1 == jj && self.curr == t[jj] && unboxed(params@) == all,
                fine && params@.len() <= 16 ==> self.error_count == 0 && !self.in_panic_mode
                    && !self.in_panic_lock_mode,
                fine && params@.len() > 16 ==> self.error_count > 0,
            decreases self.rem(),
        {
            let ghost s0 = *self;
            let ghost list0 = unboxed(params@);
            if !self.check(TokenKind::RParen) {
                proof {
                    if fine {
                        let i = self.next - 1;
                        assert(t[i].kind == TokenKind::Ident);
                        assert(readable(t, i + 1, 1));
                        assert(params_trees(t, i).len() > 0);
                    }
                }
                if params.len() >= 16 {
                    self.error_at_prev("too many parameters");
                }
                if !self.consume(TokenKind::Ident, "parameter name expected") {
                    self.advance();
                }
                let name = self.previous().lexeme;
                params.push(Box::new(Ast::Variable { name, arity: None }));
                proof {
                    if fine {
                        let i = s0.next - 1;
                        assert(unboxed(params@) =~= list0.push(param_var(t[i])));
                        let k = if t[i + 1].kind == TokenKind::Comma {
                            i + 2
                        } else {
                            i + 1
                        };
                        assert(params_trees(t, i) == seq![param_var(t[i])] + params_trees(t, k));
                        assert(list0.push(param_var(t[i])) + params_trees(t, k) =~= list0 + (seq![
                            param_var(t[i]),
                        ] + params_trees(t, k)));
                        if t[i + 1].kind == TokenKind::RParen {
                            assert(params_trees(t, i + 1) =~= Seq::<Ast>::empty());
                        }
                        if s0.error_count == 0 && list0.len() < 16 {
                            assert(unboxed(params@).len() == list0.len() + 1);
                        }
                    }
                }
            }
            let ghost s1 = *self;
            proof {
                if fine {
                    let i = s1.next - 1;
                    if t[i].kind == TokenKind::Comma {
                        assert(readable(t, i + 1, 1));
                    }
                }
            }
            if !self.match_token(TokenKind::Comma) {
                proof {
                    if fine {
                        assert(self.curr.kind == TokenKind::RParen);
                        assert(params_trees(t, self.next - 1) =~= Seq::<Ast>::empty());
                        assert(unboxed(params@) + Seq::<Ast>::empty() =~= unboxed(params@));
                    }
                }
                break;
            }
        }
        proof {
            if fine {
                assert(readable(t, jj + 1, 1));
                lemma_block_start(t, jj + 2);
                assert(readable(t, jj + 2, 1));
            }
        }
        if !self.consume(TokenKind::RParen, "')' expected after parameters") {
            self.advance();
        }
        if !self.consume(TokenKind::LBrace, "'{' expected at start of function body") {
            self.advance();
        }
        proof {
            if fine && all.len() <= 16 {
                assert(clean(*self));
            }
        }
        let code = self.parse_body();
        let ghost ee = block_end(t, jj + 2);
        proof {
            if fine && all.len() <= 16 {
                assert(self.next - 1 == ee);
                assert(readable(t, ee + 1, 1));
            }
        }
        if !self.consume(TokenKind::RBrace, "'}' expected at end of function body") {
            self.advance();
        }
        if self.error_count > 0 {
            return None;
        }
        Some(
            Box::new(
                Ast::FunDecl {
                    name: fun_name,
                    fun_ty: FunctionType::NamedClosure,
                    params,
                    listing: code,
                    closure: None,
                },
            ),
        )
    }
}


/// The function `core` is the compilation of the program `root` by the
/// compiler that ends as `comp`: its statements' code one after the other
/// (see `body_code`), then its end (see `epilogue`); top-level code keeps its
/// variables where `top_body` says.
pub open spec fn compiled_program(core: FunctionCore, root: Ast, comp: Compiler) -> bool {
    &&& root is FunDecl
    &&& core.arity == root->FunDecl_params@.len()
    &&& exists|cs: Seq<Seq<u8>>|
        #[trigger] body_code(root->FunDecl_listing@, cs) && core.code@ == cs.last() + epilogue(
            root->FunDecl_listing@,
        ) && (root->FunDecl_params@.len() == 0 ==> cs[0].len() == 0) && (root->FunDecl_fun_ty
            == FunctionType::TopLevel ==> top_body(root->FunDecl_listing@, cs, comp, core.constants@))
}

/// Nothing ran between `before` and `after`: the output is as it was and
/// so are the globals, after which new ones may have been added.
pub open spec fn not_run(before: Parser, after: Parser) -> bool {
    &&& after.vm.output == before.vm.output
    &&& globals_kept(after.vm.machine().vars, before.vm.machine().vars)
}

/// Executing the program `root` took the parser from `before` to `after`
/// with the result `r`: the compiled program, the new function `f` (see
/// `compiled_program`), was run from the globals `vars`, those of `before`
/// and one for each module variable, and gave `r` (see `run_gave`).
pub open spec fn ran_program(
    before: Parser,
    root: Ast,
    after: Parser,
    f: usize,
    vars: Seq<ValueV>,
    r: Result<Value, InterpretErrorType>,
) -> bool {
    &&& before.vm.functions@.len() <= f < after.vm.functions@.len()
    &&& globals_kept(vars, before.vm.machine().vars)
    &&& run_gave(after, f, vars, before.vm.output@, r)
    &&& compiled_program(after.vm.functions@[f as int], root, after.compiler)
    &&& after.compiler.mod_var_count() <= vars.len()
}

/// What running the program `f` on the machine gave: its value, or a
/// run-time error, with the machine ending as the parser's machine is.
pub open spec fn run_gave(p: Parser, f: usize, vars: Seq<ValueV>, output: Seq<char>, r: Result<
    Value,
    InterpretErrorType,
>) -> bool {
    match r {
        Ok(v) => run_holds(
            p.vm.functions@,
            start_machine(f, vars, output),
            MAX_STEPS as nat,
            StepRes::Finished(v@),
            p.vm.machine(),
        ),
        Err(InterpretErrorType::RuntimeError) => exists|e: Seq<char>|
            run_holds(
                p.vm.functions@,
                start_machine(f, vars, output),
                MAX_STEPS as nat,
                StepRes::Failed(e),
                p.vm.machine(),
            ),
        _ => false,
    }
}

/// The message that counts the errors found.
pub open spec fn found_errors_text(n: nat) -> Seq<char> {
    if n == 1 {
        "Found 1 error."@
    } else {
        "Found "@ + spec_decimal(n) + " errors."@
    }
}

fn found_errors(n: usize) -> (r: String)
    ensures
        r@ == found_errors_text(n as nat),
{
    if n == 1 {
        owned("Found 1 error.")
    } else {
        let mut s = owned("Found ");
        let d = usize_text(n);
        s.append(d.as_str());
        s.append(" errors.");
        s
    }
}

impl Parser {
    /// The statements of the whole text; a statement that could not be read
    /// is left out and the parser moves on by at least one token. It
    /// succeeds when no error was reported.
    fn parse_program(&mut self) -> (r: (bool, Vec<Box<Ast>>))
        requires
            old(self).wf(),
        ensures
            final(self).keeps(*old(self)),
            final(self).curr.kind == TokenKind::Done,
            r.0 == (final(self).error_count == 0),
            clean(*old(self)) && simple_stmts(old(self).tokens@, old(self).next - 1) is Some ==> r.0
                && unboxed(r.1@) == simple_stmts(old(self).tokens@, old(self).next - 1)->0,
    {
        let mut listing: Vec<Box<Ast>> = Vec::new();
        let ghost simple = clean(*old(self)) && simple_stmts(old(self).tokens@, old(self).next - 1) is Some;
        while !self.check(TokenKind::Done)
            invariant
                self.keeps(*old(self)),
                simple == (clean(*old(self)) && simple_stmts(old(self).tokens@, old(self).next - 1) is Some),
                simple ==> clean(*self) && simple_stmts(self.tokens@, self.next - 1) is Some
                    && unboxed(listing@) + simple_stmts(self.tokens@, self.next - 1)->0
                    == simple_stmts(old(self).tokens@, old(self).next - 1)->0,
            ensures
                self.keeps(*old(self)),
                self.curr.kind == TokenKind::Done,
                simple ==> clean(*self) && unboxed(listing@) == simple_stmts(
                    old(self).tokens@,
                    old(self).next - 1,
                )->0,
            decreases self.rem(),
        {
            let ghost s0 = *self;
            proof {
                if simple {
                    let t = self.tokens@;
                    let i = self.next - 1;
                    let (st, j) = simple_stmt(t, i)->0;
                    lemma_simple_start(t, j);
                    assert(simple_let(*self) || simple_binary_stmt(*self) || simple_expr_stmt(*self)) by {
                        if t[i].kind == TokenKind::LetKw {
                            assert(forall|k: int| i + 1 <= k < i + 6 ==> #[trigger] t[k].kind != TokenKind::Error);
                        } else if j == i + 4 {
                            assert(forall|k: int| i + 1 <= k < i + 5 ==> #[trigger] t[k].kind != TokenKind::Error);
                            assert(readable(t, i + 1, 3));
                            assert(simple_binary_expr(*self));
                            assert(readable(t, i + 1, 4));
                            assert(simple_binary_stmt(*self));
                        } else {
                            assert(forall|k: int| i + 1 <= k < i + 3 ==> #[trigger] t[k].kind != TokenKind::Error);
                        }
                    }
                }
            }
            let before = self.next;
            match self.parse_stmt() {
                Some(l) => {
                    listing.push(l);
                },
                None => {
                    if self.next == before {
                        if self.check(TokenKind::Done) {
                            proof {
                                if simple {
                                    assert(unboxed(listing@) + Seq::<Ast>::empty() =~= unboxed(listing@));
                                }
                            }
                            break;
                        }
                        self.advance();
                    }
                },
            }
        }
        if self.error_count > 0 {
            self.messages.push(String::new());
            let m = found_errors(self.error_count);
            self.messages.push(m);
            (false, listing)
        } else {
            (true, listing)
        }
    }

    /// Compiles the program and runs it: the call stack and the value
    /// stack start empty, the program's closure is called with no
    /// arguments. A compile error, or native compilation (not supported),
    /// gives `CompileTimeError`; a run-time error is reported with a
    /// backtrace and gives `RuntimeError`.
    #[verifier::rlimit(30)]
    pub fn execute<F: FloatOps>(&mut self, root: &Ast, fl: &F) -> (r: Result<
        Value,
        InterpretErrorType,
    >)
        requires
            old(self).wf(),
        ensures
            final(self).wf(),
            final(self).tokens == old(self).tokens,
            final(self).compile_flag == old(self).compile_flag,
            final(self).error_count == old(self).error_count,
            keeps_mod_vars(old(self).compiler, final(self).compiler),
            final(self).vm.vars@.len() >= old(self).vm.vars@.len(),
            old(self).compile_flag ==> r == Err::<Value, InterpretErrorType>(
                InterpretErrorType::CompileTimeError,
            ),
            !(root is FunDecl) ==> r == Err::<Value, InterpretErrorType>(
                InterpretErrorType::CompileTimeError,
            ),
            r is Ok || r == Err::<Value, InterpretErrorType>(InterpretErrorType::RuntimeError) ==> exists|
                f: usize,
                vars: Seq<ValueV>,
            | #[trigger] ran_program(*old(self), *root, *final(self), f, vars, r),
            r is Err ==> r == Err::<Value, InterpretErrorType>(InterpretErrorType::RuntimeError) || r
                == Err::<Value, InterpretErrorType>(InterpretErrorType::CompileTimeError),
            r == Err::<Value, InterpretErrorType>(InterpretErrorType::CompileTimeError) ==> not_run(
                *old(self),
                *final(self),
            ),
            r == Err::<Value, InterpretErrorType>(InterpretErrorType::CompileTimeError) ==> old(
                self,
            ).compile_flag || !(root is FunDecl) || final(self).compiler.errors@.len() > 0,
            !old(self).compile_flag && root is FunDecl && root->FunDecl_fun_ty == FunctionType::TopLevel
                && root->FunDecl_params@.len() == 0 && prog_ok(
                root->FunDecl_listing@,
                has_var(old(self).compiler),
                old(self).compiler.mod_var_count(),
            ) ==> r is Ok || r == Err::<Value, InterpretErrorType>(InterpretErrorType::RuntimeError),
    {
        self.vm.calls.clear();
        self.vm.stack = Vec::new();
        let closure = self.compiler.compile(root, &mut self.vm);
        let ghost comp_c = self.compiler;
        let ghost fns_c = self.vm.functions;
        let mut k: usize = 0;
        while k < self.compiler.errors.len()
            invariant
                self.wf(),
                self.tokens == old(self).tokens,
                self.compile_flag == old(self).compile_flag,
                self.error_count == old(self).error_count,
                self.vm.calls.stack@.len() == 0,
                self.vm.stack@.len() == 0,
                self.vm.output == old(self).vm.output,
                self.vm.functions@.len() >= old(self).vm.functions@.len(),
                self.vm.vars@.len() >= old(self).vm.vars@.len(),
                forall|i: int|
                    0 <= i < old(self).vm.vars@.len() ==> #[trigger] self.vm.vars@[i] == old(
                        self,
                    ).vm.vars@[i],
                keeps_mod_vars(old(self).compiler, self.compiler),
                self.compiler == comp_c,
                self.vm.functions == fns_c,
                closure matches Some(f) ==> old(self).vm.functions@.len() <= f
                    < self.vm.functions@.len(),
            decreases self.compiler.errors@.len() - k,
        {
            let e = self.compiler.errors[k].clone();
            self.messages.push(e);
            k = k + 1;
        }
        let c = match closure {
            Some(c) => c,
            None => {
                if self.compiler.error_count > 0 {
                    let m = found_errors(self.compiler.error_count as usize);
                    self.messages.push(m);
                }
                assert(self.vm.machine().vars.subrange(0, old(self).vm.vars@.len() as int) =~= old(
                    self,
                ).vm.machine().vars);
                return Err(InterpretErrorType::CompileTimeError);
            },
        };
        if self.compile_flag {
            return Ok(Value::Nil);
        }
        self.vm.main_fun = Some(c);
        self.vm.stack.push(Value::Closure(c));
        self.vm.push_call_frame(0);
        let ghost m0 = self.vm.machine();
        assert(m0 == start_machine(c, m0.vars, old(self).vm.output@)) by {
            assert(m0.stack =~= seq![ValueV::Closure(c)]);
            assert(m0.frames =~= seq![
                CallFrame {
                    fun: Value::Closure(c),
                    closure: Some(c),
                    core: Some(c),
                    pc: 0,
                    fp: 0,
                },
            ]);
        }
        assert(m0.vars.len() == self.vm.vars@.len());
        assert(self.compiler == comp_c);
        assert(self.vm.functions == fns_c);
        assert(self.compiler.mod_var_count() <= m0.vars.len());
        assert(compiled_program(self.vm.functions@[c as int], *root, self.compiler));
        assert(globals_kept(m0.vars, old(self).vm.machine().vars)) by {
            assert(m0.vars.subrange(0, old(self).vm.vars@.len() as int) =~= old(
                self,
            ).vm.machine().vars);
        }
        let result = self.vm.call_closure(fl);
        match result {
            Ok(val) => {
                let r = Ok(val);
                assert(run_gave(*self, c, m0.vars, old(self).vm.output@, r));
                assert(ran_program(*old(self), *root, *self, c, m0.vars, r));
                r
            },
            Err(e) => {
                self.messages.push(owned("Runtime error."));
                let bt = self.vm.calls.get_backtrace(&self.vm.functions);
                self.messages.push(bt);
                self.messages.push(concat2("Error: ", e.as_str()));
                let r = Err(InterpretErrorType::RuntimeError);
                assert(run_gave(*self, c, m0.vars, old(self).vm.output@, r));
                assert(ran_program(*old(self), *root, *self, c, m0.vars, r));
                r
            },
        }
    }

    /// Reads the tokens of a source text and makes the first one current.
    fn start_text<F: FloatOps>(&mut self, text: &str, file_name: &str, fl: &F)
        requires
            old(self).wf(),
        ensures
            final(self).wf(),
            final(self).compiler == old(self).compiler,
            final(self).vm == old(self).vm,
            final(self).compile_flag == old(self).compile_flag,
            final(self).print_ast_flag == old(self).print_ast_flag,
            final(self).error_count == 0,
            final(self).file_name@ == file_name@,
            !final(self).in_panic_mode,
            !final(self).in_panic_lock_mode,
            exists|ends: Seq<int>| #[trigger] tokens_of(text@, final(self).tokens@, ends),
            readable(final(self).tokens@, 0, 1) ==> final(self).next == 1 && final(self).curr
                == final(self).tokens@[0],
    {
        self.error_count = 0;
        self.in_panic_mode = false;
        self.in_panic_lock_mode = false;
        self.file_name = owned(file_name);
        self.tokens = tokenize(text, file_name, fl);
        self.next = 0;
        self.curr = Token::none();
        self.prev = Token::none();
        self.advance();
        self.error_count = 0;
        self.in_panic_mode = false;
        self.in_panic_lock_mode = false;
    }

    /// Parses the text read by `start_text` into the top-level function and
    /// runs it (see `execute`); a text with errors gives `ParseError`. The
    /// tree is printed first when asked for.
    fn interpret<F: FloatOps>(&mut self, fl: &F) -> (r: Result<Value, InterpretErrorType>)
        requires
            old(self).wf(),
        ensures
            final(self).wf(),
            keeps_mod_vars(old(self).compiler, final(self).compiler),
            final(self).vm.vars@.len() >= old(self).vm.vars@.len(),
            final(self).compile_flag == old(self).compile_flag,
            r == Err::<Value, InterpretErrorType>(InterpretErrorType::ParseError) <==> final(self).error_count > 0,
            old(self).compile_flag && final(self).error_count == 0 ==> r == Err::<
                Value,
                InterpretErrorType,
            >(InterpretErrorType::CompileTimeError),
            r is Ok || r == Err::<Value, InterpretErrorType>(InterpretErrorType::RuntimeError) ==> exists|
                f: usize,
                vars: Seq<ValueV>,
            |
                #![trigger start_machine(f, vars, old(self).vm.output@)]
                old(self).vm.functions@.len() <= f < final(self).vm.functions@.len()
                    && globals_kept(vars, old(self).vm.machine().vars) && run_gave(
                    *final(self),
                    f,
                    vars,
                    old(self).vm.output@,
                    r,
                ),
            final(self).tokens == old(self).tokens,
            r == Err::<Value, InterpretErrorType>(InterpretErrorType::ParseError) ==> final(self).vm
                == old(self).vm && final(self).compiler == old(self).compiler,
            r == Err::<Value, InterpretErrorType>(InterpretErrorType::CompileTimeError) ==> not_run(
                *old(self),
                *final(self),
            ),
            clean(*old(self)) && simple_stmts(old(self).tokens@, old(self).next - 1) is Some ==> r
                != Err::<Value, InterpretErrorType>(InterpretErrorType::ParseError) && (r is Ok || r
                == Err::<Value, InterpretErrorType>(InterpretErrorType::RuntimeError) ==> exists|
                f: usize,
                vars: Seq<ValueV>,
                root: Ast,
            |
                #[trigger] ran_program(*old(self), root, *final(self), f, vars, r) && main_of(
                    root,
                    simple_stmts(old(self).tokens@, old(self).next - 1)->0,
                )),
            r == Err::<Value, InterpretErrorType>(InterpretErrorType::CompileTimeError) ==> old(
                self,
            ).compile_flag || final(self).compiler.errors@.len() > 0,
            clean(*old(self)) && simple_stmts(old(self).tokens@, old(self).next - 1) is Some
                && !old(self).compile_flag && stmts_ok(
                simple_stmts(old(self).tokens@, old(self).next - 1)->0,
                old(self).compiler,
            ) ==> r is Ok || r == Err::<Value, InterpretErrorType>(InterpretErrorType::RuntimeError),
    {
        let (ok, listing) = self.parse_program();
        if !ok {
            return Err(InterpretErrorType::ParseError);
        }
        let root = Ast::FunDecl {
            name: owned(" main"),
            fun_ty: FunctionType::TopLevel,
            params: Vec::new(),
            listing,
            closure: None,
        };
        if self.print_ast_flag {
            let t = print_tree(&root, fl);
            self.messages.push(t);
        }
        let ghost pre = *self;
        proof {
            if clean(*old(self)) && simple_stmts(old(self).tokens@, old(self).next - 1) is Some {
                let st = simple_stmts(old(self).tokens@, old(self).next - 1)->0;
                assert(listing@ =~= st.map_values(|a: Ast| Box::new(a)));
                assert(pre.compiler == old(self).compiler);
            }
        }
        let r = self.execute(&root, fl);
        proof {
            if clean(*old(self)) && simple_stmts(old(self).tokens@, old(self).next - 1) is Some && (r is Ok
                || r == Err::<Value, InterpretErrorType>(InterpretErrorType::RuntimeError)) {
                let (f, vars) = choose|f: usize, vars: Seq<ValueV>|
                    #[trigger] ran_program(pre, root, *self, f, vars, r);
                assert(pre.vm == old(self).vm);
                assert(ran_program(*old(self), root, *self, f, vars, r));
                assert(main_of(root, simple_stmts(old(self).tokens@, old(self).next - 1)->0));
            }
        }
        r
    }

    /// Interprets a text: its tokens are read, it is parsed into the
    /// top-level function, compiled and run. The compiler's modules and
    /// variables and the machine's global variables stay from one text to
    /// the next.
    pub fn parse_text<F: FloatOps>(&mut self, text: &String, fl: &F) -> (r: Result<
        Value,
        InterpretErrorType,
    >)
        requires
            old(self).wf(),
        ensures
            final(self).wf(),
            keeps_mod_vars(old(self).compiler, final(self).compiler),
            final(self).vm.vars@.len() >= old(self).vm.vars@.len(),
            final(self).compile_flag == old(self).compile_flag,
            r == Err::<Value, InterpretErrorType>(InterpretErrorType::ParseError) <==> final(self).error_count > 0,
            old(self).compile_flag && final(self).error_count == 0 ==> r == Err::<
                Value,
                InterpretErrorType,
            >(InterpretErrorType::CompileTimeError),
            r is Ok || r == Err::<Value, InterpretErrorType>(InterpretErrorType::RuntimeError) ==> exists|
                f: usize,
                vars: Seq<ValueV>,
            |
                #![trigger start_machine(f, vars, old(self).vm.output@)]
                old(self).vm.functions@.len() <= f < final(self).vm.functions@.len()
                    && globals_kept(vars, old(self).vm.machine().vars) && run_gave(
                    *final(self),
                    f,
                    vars,
                    old(self).vm.output@,
                    r,
                ),
            exists|ends: Seq<int>| #[trigger] tokens_of(text@, final(self).tokens@, ends),
            ran_text(*old(self), *final(self), r),
            r == Err::<Value, InterpretErrorType>(InterpretErrorType::ParseError) ==> final(self).vm
                == old(self).vm && final(self).compiler == old(self).compiler,
            r == Err::<Value, InterpretErrorType>(InterpretErrorType::CompileTimeError) ==> not_run(
                *old(self),
                *final(self),
            ),            r == Err::<Value, InterpretErrorType>(InterpretErrorType::CompileTimeError) ==> old(
                self,
            ).compile_flag || final(self).compiler.errors@.len() > 0,
    {
        self.start_text(text.as_str(), "<text>", fl);
        let ghost mid = *self;
        proof {
            if simple_stmts(self.tokens@, 0) is Some {
                lemma_simple_start(self.tokens@, 0);
                assert(readable(self.tokens@, 0, 1));
                assert(clean(*self));
            }
        }
        let r = self.interpret(fl);
        proof {
            if simple_stmts(self.tokens@, 0) is Some && (r is Ok || r == Err::<Value, InterpretErrorType>(
                InterpretErrorType::RuntimeError,
            )) {
                let (f, vars, root) = choose|f: usize, vars: Seq<ValueV>, root: Ast|
                    #[trigger] ran_program(mid, root, *self, f, vars, r) && main_of(
                        root,
                        simple_stmts(mid.tokens@, mid.next - 1)->0,
                    );
                assert(ran_program(*old(self), root, *self, f, vars, r));
            }
        }
        r
    }

    /// Interprets the contents of a file (see `parse_text`); a file that
    /// could not be read gives `ParseError`.
    pub fn parse_file<F: FloatOps>(&mut self, fname: String, contents: Option<String>, fl: &F) -> (r:
        Result<Value, InterpretErrorType>)
        requires
            old(self).wf(),
        ensures
            final(self).wf(),
            keeps_mod_vars(old(self).compiler, final(self).compiler),
            final(self).vm.vars@.len() >= old(self).vm.vars@.len(),
            contents is None ==> r == Err::<Value, InterpretErrorType>(
                InterpretErrorType::ParseError,
            ),
            contents is Some ==> (r == Err::<Value, InterpretErrorType>(
                InterpretErrorType::ParseError,
            ) <==> final(self).error_count > 0),
            r is Ok || r == Err::<Value, InterpretErrorType>(InterpretErrorType::RuntimeError) ==> exists|
                f: usize,
                vars: Seq<ValueV>,
            |
                #![trigger start_machine(f, vars, old(self).vm.output@)]
                old(self).vm.functions@.len() <= f < final(self).vm.functions@.len()
                    && globals_kept(vars, old(self).vm.machine().vars) && run_gave(
                    *final(self),
                    f,
                    vars,
                    old(self).vm.output@,
                    r,
                ),
            contents matches Some(text) ==> (exists|ends: Seq<int>| #[trigger] tokens_of(
                text@,
                final(self).tokens@,
                ends,
            )) && ran_text(*old(self), *final(self), r),
            r == Err::<Value, InterpretErrorType>(InterpretErrorType::ParseError) ==> final(self).vm
                == old(self).vm && final(self).compiler == old(self).compiler,
            r == Err::<Value, InterpretErrorType>(InterpretErrorType::CompileTimeError) ==> not_run(
                *old(self),
                *final(self),
            ),            r == Err::<Value, InterpretErrorType>(InterpretErrorType::CompileTimeError) ==> old(
                self,
            ).compile_flag || final(self).compiler.errors@.len() > 0,
    {
        match contents {
            Some(text) => {
                self.start_text(text.as_str(), fname.as_str(), fl);
                let ghost mid = *self;
                proof {
                    if simple_stmts(self.tokens@, 0) is Some {
                        lemma_simple_start(self.tokens@, 0);
                        assert(readable(self.tokens@, 0, 1));
                        assert(clean(*self));
                    }
                }
                let r = self.interpret(fl);
                proof {
                    if simple_stmts(self.tokens@, 0) is Some && (r is Ok || r == Err::<
                        Value,
                        InterpretErrorType,
                    >(InterpretErrorType::RuntimeError)) {
                        let (f, vars, root) = choose|f: usize, vars: Seq<ValueV>, root: Ast|
                            #[trigger] ran_program(mid, root, *self, f, vars, r) && main_of(
                                root,
                                simple_stmts(mid.tokens@, mid.next - 1)->0,
                            );
                        assert(ran_program(*old(self), root, *self, f, vars, r));
                    }
                }
                r
            },
            None => Err(InterpretErrorType::ParseError),
        }
    }
}

/// The statements `s` of a text compile without fail with the compiler
/// `comp` (see `prog_ok`).
pub open spec fn stmts_ok(s: Seq<Ast>, comp: Compiler) -> bool {
    prog_ok(s.map_values(|a: Ast| Box::new(a)), has_var(comp), comp.mod_var_count())
}

/// Interpreting a text took the parser from `before` to `after` with the
/// result `r`, as far as texts of simple statements go: when the text's
/// tokens are simple statements (see `simple_stmts`), no parse error was
/// found and the result is that of executing the top-level code made of
/// their trees (see `ran_program`); and when those trees compile without
/// fail (see `stmts_ok`) and the compile flag is off, the text was run.
pub open spec fn ran_text(before: Parser, after: Parser, r: Result<Value, InterpretErrorType>) -> bool {
    &&& after.compile_flag == before.compile_flag
    &&& simple_stmts(after.tokens@, 0) is Some && !before.compile_flag && stmts_ok(
        simple_stmts(after.tokens@, 0)->0,
        before.compiler,
    ) ==> r is Ok || r == Err::<Value, InterpretErrorType>(InterpretErrorType::RuntimeError)
    &&& simple_stmts(after.tokens@, 0) is Some ==> r != Err::<Value, InterpretErrorType>(
        InterpretErrorType::ParseError,
    ) && (r is Ok || r == Err::<Value, InterpretErrorType>(InterpretErrorType::RuntimeError)
        ==> exists|f: usize, vars: Seq<ValueV>, root: Ast|
        #[trigger] ran_program(before, root, after, f, vars, r) && main_of(
            root,
            simple_stmts(after.tokens@, 0)->0,
        ))
}

/// The program `root` is the top-level code `let name = val;`.
pub open spec fn let_program(root: Ast, name: Seq<char>, val: Value) -> bool {
    &&& root is FunDecl
    &&& root->FunDecl_fun_ty == FunctionType::TopLevel
    &&& root->FunDecl_params@.len() == 0
    &&& root->FunDecl_listing@.len() == 1
    &&& *root->FunDecl_listing@[0] is LetDecl
    &&& root->FunDecl_listing@[0]->LetDecl_name@ == name
    &&& *root->FunDecl_listing@[0]->LetDecl_expr == (Ast::Value { val })
}

/// The statement `s` is `name = val;`.
pub open spec fn assigns_literal(s: Ast, name: Seq<char>, val: Value) -> bool {
    &&& s is ExprStmt
    &&& *s->ExprStmt_expr matches Ast::Binary(BinaryOp::Assign, Some(l), Some(r))
    &&& *l is Variable
    &&& l->Variable_name@ == name
    &&& l->Variable_arity is None
    &&& *r == (Ast::Value { val })
}

/// The program `root` is the top-level code `name = val;`.
pub open spec fn assign_program(root: Ast, name: Seq<char>, val: Value) -> bool {
    &&& root is FunDecl
    &&& root->FunDecl_fun_ty == FunctionType::TopLevel
    &&& root->FunDecl_params@.len() == 0
    &&& root->FunDecl_listing@.len() == 1
    &&& assigns_literal(*root->FunDecl_listing@[0], name, val)
}

/// An operand that the top-level code loads by itself: a literal, or a
/// variable with a name and no arity.
pub open spec fn plain_operand(ast: Ast) -> bool {
    ||| ast is Value
    ||| (ast is Variable && ast->Variable_name@.len() > 0 && ast->Variable_arity is None)
}

/// The value of a plain operand in a run, from the globals `vars`, of code
/// that the compiler `comp` made: a literal's own value, or the global of
/// the module variable of that name.
pub open spec fn operand_value(ast: Ast, comp: Compiler, vars: Seq<ValueV>) -> ValueV {
    match ast {
        Ast::Value { val } => val@,
        Ast::Variable { name, .. } => vars[comp.mod_var(name@)->0],
        _ => ValueV::Nil,
    }
}

/// The statement `s` is `a op b;`.
pub open spec fn combines(s: Ast, op: BinaryOp, a: Ast, b: Ast) -> bool {
    s == Ast::ExprStmt { expr: Box::new(Ast::Binary(op, Some(Box::new(a)), Some(Box::new(b)))) }
}

/// The program `root` is the top-level code `a op b;`.
pub open spec fn binary_program(root: Ast, op: BinaryOp, a: Ast, b: Ast) -> bool {
    &&& root is FunDecl
    &&& root->FunDecl_fun_ty == FunctionType::TopLevel
    &&& root->FunDecl_params@.len() == 0
    &&& root->FunDecl_listing@.len() == 1
    &&& combines(*root->FunDecl_listing@[0], op, a, b)
}

/// The program `root` is the top-level code `name;`.
pub open spec fn read_program(root: Ast, name: Seq<char>) -> bool {
    &&& root is FunDecl
    &&& root->FunDecl_fun_ty == FunctionType::TopLevel
    &&& root->FunDecl_params@.len() == 0
    &&& root->FunDecl_listing@.len() == 1
    &&& *root->FunDecl_listing@[0] is ExprStmt
    &&& *root->FunDecl_listing@[0]->ExprStmt_expr is Variable
    &&& root->FunDecl_listing@[0]->ExprStmt_expr->Variable_name@ == name
    &&& root->FunDecl_listing@[0]->ExprStmt_expr->Variable_arity is None
}

/// The code that compiling a literal added after `c0` pushes it.
proof fn lemma_literal_pushes(fns: Seq<FunctionCore>, f: usize, val: Value, c0: Seq<u8>, c1: Seq<u8>)
    requires
        f < fns.len(),
        node_code_ok(Ast::Value { val }, c0, c1),
        value_loaded(Ast::Value { val }, c0, c1, fns[f as int].constants@),
    ensures
        c1.len() >= c0.len(),
        c1 == c0 + c1.subrange(c0.len() as int, c1.len() as int),
        pushes(fns, f as int, c1.subrange(c0.len() as int, c1.len() as int), val@),
{
    let n = c0.len() as int;
    let c = c1.subrange(n, c1.len() as int);
    match val {
        Value::Int(i) => {
            if 0 <= i <= 10 {
                assert(c =~= small_load_code(i as int));
            } else {
                let k = choose|k: usize|
                    k < 65536 && k < fns[f as int].constants@.len() && c1 == #[trigger] load_constant_code(
                        c0,
                        k,
                    ) && fns[f as int].constants@[k as int]@ == val@;
                assert(c =~= seq![OpCode::LoadValue.spec_to_byte(), word_high(k), word_low(k)]);
            }
        },
        Value::Bool(b) => {
            if b {
                assert(c =~= seq![OpCode::LoadTrue.spec_to_byte()]);
            } else {
                assert(c =~= seq![OpCode::LoadFalse.spec_to_byte()]);
            }
        },
        Value::Nil => {
            assert(c =~= seq![OpCode::LoadNil.spec_to_byte()]);
        },
        _ => {
            let k = choose|k: usize|
                k < 65536 && k < fns[f as int].constants@.len() && c1 == #[trigger] load_constant_code(
                    c0,
                    k,
                ) && fns[f as int].constants@[k as int]@ == val@;
            assert(c =~= seq![OpCode::LoadValue.spec_to_byte(), word_high(k), word_low(k)]);
        },
    }
    assert(c1 =~= c0 + c);
}

/// Executing `name;`, where `name` is module variable `j` of the compiler
/// before it, gives the value that global `j` had when the run before
/// ended.
proof fn lemma_read_back(
    p1: Parser,
    root2: Ast,
    p2: Parser,
    f2: usize,
    vars2: Seq<ValueV>,
    r2: Result<Value, InterpretErrorType>,
    name: Seq<char>,
    j: int,
)
    requires
        p1.wf(),
        p2.wf(),
        name.len() > 0,
        read_program(root2, name),
        r2 is Ok || r2 == Err::<Value, InterpretErrorType>(InterpretErrorType::RuntimeError),
        ran_program(p1, root2, p2, f2, vars2, r2),
        keeps_mod_vars(p1.compiler, p2.compiler),
        p1.compiler.mod_var(name) == Some(j),
        j < p1.vm.machine().vars.len(),
    ensures
        r2 matches Ok(v) && v@ == p1.vm.machine().vars[j],
{
    let fns2 = p2.vm.functions@;
    let listing2 = root2->FunDecl_listing@;
    let core2 = fns2[f2 as int];
    let m1 = p1.vm.machine();
    let mv = p1.compiler.symbols.mods@[p1.compiler.symbols.curr_mod as int];
    assert(0 <= j < mv.mod_vars@.len());
    assert(mv.mod_vars@.len() <= MAX_VARIABLES);
    let cs2 = choose|cs: Seq<Seq<u8>>|
        #[trigger] body_code(listing2, cs) && core2.code@ == cs.last() + epilogue(listing2) && (
        root2->FunDecl_params@.len() == 0 ==> cs[0].len() == 0) && (root2->FunDecl_fun_ty
            == FunctionType::TopLevel ==> top_body(listing2, cs, p2.compiler, core2.constants@));
    assert(top_stmt_at(listing2, cs2, 0, seq![Seq::<char>::empty()], p2.compiler, core2.constants@));
    assert(!seq![Seq::<char>::empty()].contains(name)) by {
        if seq![Seq::<char>::empty()].contains(name) {
            assert(name == seq![Seq::<char>::empty()][0]);
        }
    }
    lemma_kept_module_var(p1.compiler, p1.vm, p2.compiler, p2.vm, name);
    assert(cs2[0] =~= Seq::<u8>::empty());
    assert(core2.code@ =~= seq![
        OpCode::LoadVar.spec_to_byte(),
        word_high(j as usize),
        word_low(j as usize),
        OpCode::Return.spec_to_byte(),
    ]);
    assert(reads_global(fns2, f2 as int, j as usize));
    let m2 = p2.vm.machine();
    assert(vars2[j] == m1.vars[j]) by {
        assert(vars2.subrange(0, m1.vars.len() as int)[j] == vars2[j]);
    }
    match r2 {
        Ok(v) => {
            lemma_run_reads_global(
                fns2,
                f2,
                j as usize,
                vars2,
                p1.vm.output@,
                MAX_STEPS as nat,
                StepRes::Finished(v@),
                m2,
            );
        },
        _ => {
            let e = choose|e: Seq<char>|
                run_holds(
                    fns2,
                    start_machine(f2, vars2, p1.vm.output@),
                    MAX_STEPS as nat,
                    StepRes::Failed(e),
                    m2,
                );
            lemma_run_reads_global(
                fns2,
                f2,
                j as usize,
                vars2,
                p1.vm.output@,
                MAX_STEPS as nat,
                StepRes::Failed(e),
                m2,
            );
        },
    }
}

/// Executing `let name = val;` (a literal) gives nil and leaves `val` in
/// the global of the module variable `name`.
proof fn lemma_let_defines(
    p0: Parser,
    root1: Ast,
    p1: Parser,
    f1: usize,
    vars1: Seq<ValueV>,
    r1: Result<Value, InterpretErrorType>,
    name: Seq<char>,
    val: Value,
)
    requires
        p1.wf(),
        name.len() > 0,
        let_program(root1, name, val),
        r1 is Ok || r1 == Err::<Value, InterpretErrorType>(InterpretErrorType::RuntimeError),
        ran_program(p0, root1, p1, f1, vars1, r1),
    ensures
        r1 == Ok::<Value, InterpretErrorType>(Value::Nil),
        p1.compiler.mod_var(name) is Some,
        p1.compiler.mod_var(name)->0 < p1.vm.machine().vars.len(),
        p1.vm.machine().vars[p1.compiler.mod_var(name)->0] == val@,
{
    let fns1 = p1.vm.functions@;
    let listing1 = root1->FunDecl_listing@;
    let core1 = fns1[f1 as int];
    // The first program: `val`, then `DefVar` of the module variable `name`.
    let cs1 = choose|cs: Seq<Seq<u8>>|
        #[trigger] body_code(listing1, cs) && core1.code@ == cs.last() + epilogue(listing1) && (
        root1->FunDecl_params@.len() == 0 ==> cs[0].len() == 0) && (root1->FunDecl_fun_ty
            == FunctionType::TopLevel ==> top_body(listing1, cs, p1.compiler, core1.constants@));
    assert(stmt_at(listing1, cs1, 0));
    assert(top_stmt_at(listing1, cs1, 0, seq![Seq::<char>::empty()], p1.compiler, core1.constants@));
    let let_stmt = *listing1[0];
    assert(local_name(name, let_arity(*let_stmt->LetDecl_expr)) == name);
    let j = p1.compiler.mod_var(name)->0;
    let ce = choose|ce: Seq<u8>|
        node_code_ok(Ast::Value { val }, cs1[0], ce) && value_loaded(
            Ast::Value { val },
            cs1[0],
            ce,
            core1.constants@,
        ) && cs1[1] == #[trigger] (ce + define_code(ScopeType::Module, j as usize));
    assert(cs1[0] =~= Seq::<u8>::empty());
    lemma_literal_pushes(fns1, f1, val, cs1[0], ce);
    assert(ce.subrange(0, ce.len() as int) =~= ce);
    let mv = p1.compiler.symbols.mods@[p1.compiler.symbols.curr_mod as int];
    assert(0 <= j < mv.mod_vars@.len());
    assert(mv.mod_vars@.len() <= MAX_VARIABLES);
    assert(core1.code@ =~= ce + seq![
        OpCode::DefVar.spec_to_byte(),
        word_high(j as usize),
        word_low(j as usize),
        OpCode::LoadNil.spec_to_byte(),
        OpCode::Return.spec_to_byte(),
    ]);
    assert(defines_global(fns1, f1 as int, j as usize, val@));
    let m1 = p1.vm.machine();
    match r1 {
        Ok(v) => {
            lemma_run_defines_global(
                fns1,
                f1,
                j as usize,
                val@,
                vars1,
                p0.vm.output@,
                MAX_STEPS as nat,
                StepRes::Finished(v@),
                m1,
            );
        },
        _ => {
            let e = choose|e: Seq<char>|
                run_holds(
                    fns1,
                    start_machine(f1, vars1, p0.vm.output@),
                    MAX_STEPS as nat,
                    StepRes::Failed(e),
                    m1,
                );
            lemma_run_defines_global(
                fns1,
                f1,
                j as usize,
                val@,
                vars1,
                p0.vm.output@,
                MAX_STEPS as nat,
                StepRes::Failed(e),
                m1,
            );
        },
    }
}

/// What a top-level `let` stored, a later program reads back: executing
/// `let name = val;` (a literal) gives nil, and executing `name;` after it
/// gives `val`.
pub proof fn lemma_let_then_read(
    p0: Parser,
    root1: Ast,
    p1: Parser,
    f1: usize,
    vars1: Seq<ValueV>,
    r1: Result<Value, InterpretErrorType>,
    root2: Ast,
    p2: Parser,
    f2: usize,
    vars2: Seq<ValueV>,
    r2: Result<Value, InterpretErrorType>,
    name: Seq<char>,
    val: Value,
)
    requires
        p1.wf(),
        p2.wf(),
        name.len() > 0,
        let_program(root1, name, val),
        read_program(root2, name),
        r1 is Ok || r1 == Err::<Value, InterpretErrorType>(InterpretErrorType::RuntimeError),
        ran_program(p0, root1, p1, f1, vars1, r1),
        r2 is Ok || r2 == Err::<Value, InterpretErrorType>(InterpretErrorType::RuntimeError),
        ran_program(p1, root2, p2, f2, vars2, r2),
        keeps_mod_vars(p1.compiler, p2.compiler),
    ensures
        r1 == Ok::<Value, InterpretErrorType>(Value::Nil),
        r2 matches Ok(v) && v@ == val@,
{
    lemma_let_defines(p0, root1, p1, f1, vars1, r1, name, val);
    lemma_read_back(p1, root2, p2, f2, vars2, r2, name, p1.compiler.mod_var(name)->0);
}

/// What an assignment to a module variable stored, a later program reads
/// back: executing `name = val;` (a literal) gives `val`, and executing
/// `name;` after it gives `val` too.
pub proof fn lemma_assign_then_read(
    p0: Parser,
    root1: Ast,
    p1: Parser,
    f1: usize,
    vars1: Seq<ValueV>,
    r1: Result<Value, InterpretErrorType>,
    root2: Ast,
    p2: Parser,
    f2: usize,
    vars2: Seq<ValueV>,
    r2: Result<Value, InterpretErrorType>,
    name: Seq<char>,
    val: Value,
)
    requires
        p1.wf(),
        p2.wf(),
        name.len() > 0,
        assign_program(root1, name, val),
        read_program(root2, name),
        r1 is Ok || r1 == Err::<Value, InterpretErrorType>(InterpretErrorType::RuntimeError),
        ran_program(p0, root1, p1, f1, vars1, r1),
        r2 is Ok || r2 == Err::<Value, InterpretErrorType>(InterpretErrorType::RuntimeError),
        ran_program(p1, root2, p2, f2, vars2, r2),
        keeps_mod_vars(p1.compiler, p2.compiler),
    ensures
        r1 matches Ok(v) && v@ == val@,
        r2 matches Ok(v) && v@ == val@,
{
    let fns1 = p1.vm.functions@;
    let listing1 = root1->FunDecl_listing@;
    let core1 = fns1[f1 as int];
    // The first program: `val`, then `StoreVar` of the module variable `name`.
    let cs1 = choose|cs: Seq<Seq<u8>>|
        #[trigger] body_code(listing1, cs) && core1.code@ == cs.last() + epilogue(listing1) && (
        root1->FunDecl_params@.len() == 0 ==> cs[0].len() == 0) && (root1->FunDecl_fun_ty
            == FunctionType::TopLevel ==> top_body(listing1, cs, p1.compiler, core1.constants@));
    assert(top_stmt_at(listing1, cs1, 0, seq![Seq::<char>::empty()], p1.compiler, core1.constants@));
    let target = *listing1[0]->ExprStmt_expr->Binary_1->0;
    assert(local_name(name, None) == name);
    assert(!seq![Seq::<char>::empty()].contains(name)) by {
        if seq![Seq::<char>::empty()].contains(name) {
            assert(name == seq![Seq::<char>::empty()][0]);
        }
    }
    assert(target->Variable_name@ == name && target->Variable_arity is None);
    let j = p1.compiler.mod_var(name)->0;
    let cr = choose|cr: Seq<u8>|
        node_code_ok(Ast::Value { val }, cs1[0], cr) && value_loaded(
            Ast::Value { val },
            cs1[0],
            cr,
            core1.constants@,
        ) && cs1[1] == #[trigger] (cr + store_code(ScopeType::Module, j as usize));
    assert(cs1[0] =~= Seq::<u8>::empty());
    lemma_literal_pushes(fns1, f1, val, cs1[0], cr);
    assert(cr.subrange(0, cr.len() as int) =~= cr);
    let mv = p1.compiler.symbols.mods@[p1.compiler.symbols.curr_mod as int];
    assert(0 <= j < mv.mod_vars@.len());
    assert(mv.mod_vars@.len() <= MAX_VARIABLES);
    assert(core1.code@ =~= cr + seq![
        OpCode::StoreVar.spec_to_byte(),
        word_high(j as usize),
        word_low(j as usize),
        OpCode::Return.spec_to_byte(),
    ]);
    assert(assigns_global(fns1, f1 as int, j as usize, val@));
    let m1 = p1.vm.machine();
    match r1 {
        Ok(v) => {
            lemma_run_assigns_global(
                fns1,
                f1,
                j as usize,
                val@,
                vars1,
                p0.vm.output@,
                MAX_STEPS as nat,
                StepRes::Finished(v@),
                m1,
            );
        },
        _ => {
            let e = choose|e: Seq<char>|
                run_holds(
                    fns1,
                    start_machine(f1, vars1, p0.vm.output@),
                    MAX_STEPS as nat,
                    StepRes::Failed(e),
                    m1,
                );
            lemma_run_assigns_global(
                fns1,
                f1,
                j as usize,
                val@,
                vars1,
                p0.vm.output@,
                MAX_STEPS as nat,
                StepRes::Failed(e),
                m1,
            );
        },
    }
    // The second program reads the same module variable.
    lemma_read_back(p1, root2, p2, f2, vars2, r2, name, j);
}

/// The code that compiling a plain operand of the top-level code added
/// after `c0` loads its value (see `operand_value`).
proof fn lemma_operand_loads(
    p: Parser,
    f: usize,
    vars: Seq<ValueV>,
    ast: Ast,
    c0: Seq<u8>,
    c1: Seq<u8>,
)
    requires
        p.wf(),
        f < p.vm.functions@.len(),
        plain_operand(ast),
        node_code_ok(ast, c0, c1),
        value_loaded(ast, c0, c1, p.vm.functions@[f as int].constants@),
        module_read(ast, c0, c1, seq![Seq::<char>::empty()], p.compiler),
        p.compiler.mod_var_count() <= vars.len(),
    ensures
        c1.len() >= c0.len(),
        c1 == c0 + c1.subrange(c0.len() as int, c1.len() as int),
        loads(
            p.vm.functions@,
            f as int,
            c1.subrange(c0.len() as int, c1.len() as int),
            vars,
            operand_value(ast, p.compiler, vars),
        ),
{
    let fns = p.vm.functions@;
    match ast {
        Ast::Value { val } => {
            lemma_literal_pushes(fns, f, val, c0, c1);
        },
        Ast::Variable { name, arity } => {
            assert(local_name(name@, arity) == name@);
            assert(!seq![Seq::<char>::empty()].contains(name@)) by {
                if seq![Seq::<char>::empty()].contains(name@) {
                    assert(name@ == seq![Seq::<char>::empty()][0]);
                }
            }
            let j = p.compiler.mod_var(name@)->0;
            let mv = p.compiler.symbols.mods@[p.compiler.symbols.curr_mod as int];
            assert(0 <= j < mv.mod_vars@.len());
            assert(mv.mod_vars@.len() <= MAX_VARIABLES);
            let c = c1.subrange(c0.len() as int, c1.len() as int);
            assert(c =~= seq![OpCode::LoadVar.spec_to_byte(), word_high(j as usize), word_low(j as usize)]);
            assert(c1 =~= c0 + c);
            assert(vars[(j as usize) as int] == operand_value(ast, p.compiler, vars));
        },
        _ => {},
    }
}

/// Executing `a op b;` for plain operands `a` and `b` (see
/// `plain_operand`) and an arithmetic operator `op` gives what the operator
/// gives their values (see `operand_value` and `spec_math`): its exact
/// value, a float (which the embedding program computes), or, where the
/// operator refuses them, a run-time error.
pub proof fn lemma_binary_value(
    p0: Parser,
    root: Ast,
    p1: Parser,
    f: usize,
    vars: Seq<ValueV>,
    r: Result<Value, InterpretErrorType>,
    op: BinaryOp,
    a: Ast,
    b: Ast,
)
    requires
        p1.wf(),
        binary_program(root, op, a, b),
        plain_operand(a),
        plain_operand(b),
        !is_assign(op),
        math_of(op) is Some,
        r is Ok || r == Err::<Value, InterpretErrorType>(InterpretErrorType::RuntimeError),
        ran_program(p0, root, p1, f, vars, r),
    ensures
        spec_math(
            math_of(op)->0,
            false,
            operand_value(a, p1.compiler, vars),
            operand_value(b, p1.compiler, vars),
        ) matches Outcome::Exact(v) ==> (r matches Ok(x) && x@ == v),
        spec_math(
            math_of(op)->0,
            false,
            operand_value(a, p1.compiler, vars),
            operand_value(b, p1.compiler, vars),
        ) is SomeFloat ==> (r matches Ok(x) && x@ is Float),
        spec_math(
            math_of(op)->0,
            false,
            operand_value(a, p1.compiler, vars),
            operand_value(b, p1.compiler, vars),
        ) is Fails ==> r == Err::<Value, InterpretErrorType>(InterpretErrorType::RuntimeError),
{
    let fns = p1.vm.functions@;
    let listing = root->FunDecl_listing@;
    let core = fns[f as int];
    let m = math_of(op)->0;
    let locals = seq![Seq::<char>::empty()];
    let cs = choose|cs: Seq<Seq<u8>>|
        #[trigger] body_code(listing, cs) && core.code@ == cs.last() + epilogue(listing) && (
        root->FunDecl_params@.len() == 0 ==> cs[0].len() == 0) && (root->FunDecl_fun_ty
            == FunctionType::TopLevel ==> top_body(listing, cs, p1.compiler, core.constants@));
    assert(top_stmt_at(listing, cs, 0, locals, p1.compiler, core.constants@));
    assert(math_loaded(a, b, m, cs[0], cs[1], locals, p1.compiler, core.constants@));
    let (cl, cr) = choose|cl: Seq<u8>, cr: Seq<u8>|
        #![trigger value_loaded(a, cs[0], cl, core.constants@), value_loaded(b, cl, cr, core.constants@)]
        node_code_ok(a, cs[0], cl) && value_loaded(a, cs[0], cl, core.constants@) && module_read(
            a,
            cs[0],
            cl,
            locals,
            p1.compiler,
        ) && node_code_ok(b, cl, cr) && value_loaded(b, cl, cr, core.constants@) && module_read(
            b,
            cl,
            cr,
            locals,
            p1.compiler,
        ) && cs[1] == cr.push(OpCode::MathOp.spec_to_byte()).push(m.spec_to_byte());
    lemma_operand_loads(p1, f, vars, a, cs[0], cl);
    lemma_operand_loads(p1, f, vars, b, cl, cr);
    assert(cs[0] =~= Seq::<u8>::empty());
    let va = operand_value(a, p1.compiler, vars);
    let vb = operand_value(b, p1.compiler, vars);
    let ca = cl.subrange(0, cl.len() as int);
    let cb = cr.subrange(cl.len() as int, cr.len() as int);
    assert(ca =~= cl);
    assert(core.code@ =~= ca + cb + seq![
        OpCode::MathOp.spec_to_byte(),
        m.spec_to_byte(),
        OpCode::Return.spec_to_byte(),
    ]);
    assert(computes(fns, f as int, m, vars, va, vb));
    let mf = p1.vm.machine();
    match r {
        Ok(x) => {
            lemma_run_computes(
                fns,
                f,
                m,
                va,
                vb,
                vars,
                p0.vm.output@,
                MAX_STEPS as nat,
                StepRes::Finished(x@),
                mf,
            );
        },
        _ => {
            let e = choose|e: Seq<char>|
                run_holds(
                    fns,
                    start_machine(f, vars, p0.vm.output@),
                    MAX_STEPS as nat,
                    StepRes::Failed(e),
                    mf,
                );
            lemma_run_computes(
                fns,
                f,
                m,
                va,
                vb,
                vars,
                p0.vm.output@,
                MAX_STEPS as nat,
                StepRes::Failed(e),
                mf,
            );
        },
    }
}

/// A later program computes with what a top-level `let` stored: executing
/// `let name = a;` (a literal) and then `name op b;` (a literal `b`, an
/// arithmetic operator `op`) gives what the operator gives `a` and `b`.
pub proof fn lemma_let_then_compute(
    p0: Parser,
    root1: Ast,
    p1: Parser,
    f1: usize,
    vars1: Seq<ValueV>,
    r1: Result<Value, InterpretErrorType>,
    root2: Ast,
    p2: Parser,
    f2: usize,
    vars2: Seq<ValueV>,
    r2: Result<Value, InterpretErrorType>,
    name: Seq<char>,
    a: Value,
    op: BinaryOp,
    x: Ast,
    b: Value,
)
    requires
        p1.wf(),
        p2.wf(),
        name.len() > 0,
        let_program(root1, name, a),
        x is Variable && x->Variable_name@ == name && x->Variable_arity is None,
        binary_program(root2, op, x, Ast::Value { val: b }),
        !is_assign(op),
        math_of(op) is Some,
        r1 is Ok || r1 == Err::<Value, InterpretErrorType>(InterpretErrorType::RuntimeError),
        ran_program(p0, root1, p1, f1, vars1, r1),
        r2 is Ok || r2 == Err::<Value, InterpretErrorType>(InterpretErrorType::RuntimeError),
        ran_program(p1, root2, p2, f2, vars2, r2),
        keeps_mod_vars(p1.compiler, p2.compiler),
    ensures
        r1 == Ok::<Value, InterpretErrorType>(Value::Nil),
        spec_math(math_of(op)->0, false, a@, b@) matches Outcome::Exact(v) ==> (r2 matches Ok(y)
            && y@ == v),
        spec_math(math_of(op)->0, false, a@, b@) is SomeFloat ==> (r2 matches Ok(y)
            && y@ is Float),
        spec_math(math_of(op)->0, false, a@, b@) is Fails ==> r2 == Err::<Value, InterpretErrorType>(
            InterpretErrorType::RuntimeError,
        ),
{
    lemma_let_defines(p0, root1, p1, f1, vars1, r1, name, a);
    let j = p1.compiler.mod_var(name)->0;
    lemma_kept_module_var(p1.compiler, p1.vm, p2.compiler, p2.vm, name);
    let m1 = p1.vm.machine();
    assert(vars2[j] == m1.vars[j]) by {
        assert(vars2.subrange(0, m1.vars.len() as int)[j] == vars2[j]);
    }
    let lb = Ast::Value { val: b };
    lemma_binary_value(p1, root2, p2, f2, vars2, r2, op, x, lb);
    assert(operand_value(x, p2.compiler, vars2) == a@);
    assert(operand_value(lb, p2.compiler, vars2) == b@);
}

/// A text of one statement that compiles without fail on its own (see
/// `node_ok`) is one that `stmts_ok` admits.
proof fn lemma_single_ok(s: Seq<Ast>, comp: Compiler)
    requires
        s.len() == 1,
        node_ok(s[0], has_var(comp), comp.mod_var_count()),
        lits(s[0]) <= 65536,
    ensures
        stmts_ok(s, comp),
{
    let l = s.map_values(|a: Ast| Box::new(a));
    assert(*l[0] == s[0]);
    assert(let_names(l, 0) == Set::<Seq<char>>::empty());
    assert(let_count(l, 0) == 0);
    let known = |n: Seq<char>| has_var(comp)(n) || let_names(l, 0).contains(n);
    assert(known =~= has_var(comp));
    assert(stmt_fits(l, 0, has_var(comp), comp.mod_var_count()));
    assert(lits_upto(l, 1) == lits(s[0])) by {
        assert(lits_upto(l, 0) == 0);
    }
}

/// Interpreting a text whose tokens are `LITERAL;` (a literal other than a
/// closure) gives the literal's value, whatever texts went before.
pub proof fn lemma_text_literal_value(p0: Parser, p1: Parser, r: Result<Value, InterpretErrorType>, val: Value)
    requires
        p1.wf(),
        ran_text(p0, p1, r),
        !p0.compile_flag,
        !(val is Closure),
        simple_stmts(p1.tokens@, 0) matches Some(s1) && s1.len() == 1 && s1[0] == (Ast::ExprStmt {
            expr: Box::new(Ast::Value { val }),
        }),
    ensures
        r matches Ok(v) && v@ == val@,
{
    let s1 = simple_stmts(p1.tokens@, 0)->0;
    assert(lits(*s1[0]->ExprStmt_expr) == 1);
    assert(lits(s1[0]) == 1);
    lemma_single_ok(s1, p0.compiler);
    let (f, vars, root) = choose|f: usize, vars: Seq<ValueV>, root: Ast|
        #[trigger] ran_program(p0, root, p1, f, vars, r) && main_of(root, s1);
    let listing = root->FunDecl_listing@;
    assert(unboxed(listing).len() == 1 && *listing[0] == unboxed(listing)[0]);
    let fns = p1.vm.functions@;
    let core = fns[f as int];
    let cs = choose|cs: Seq<Seq<u8>>|
        #[trigger] body_code(listing, cs) && core.code@ == cs.last() + epilogue(listing) && (
        root->FunDecl_params@.len() == 0 ==> cs[0].len() == 0) && (root->FunDecl_fun_ty
            == FunctionType::TopLevel ==> top_body(listing, cs, p1.compiler, core.constants@));
    assert(top_stmt_at(listing, cs, 0, seq![Seq::<char>::empty()], p1.compiler, core.constants@));
    assert(stmt_at(listing, cs, 0));
    assert(cs[0] =~= Seq::<u8>::empty());
    lemma_literal_pushes(fns, f, val, cs[0], cs[1]);
    assert(cs[1].subrange(0, cs[1].len() as int) =~= cs[1]);
    assert(core.code@ =~= cs[1].push(OpCode::Return.spec_to_byte()));
    assert(returns_value(fns, f as int, val@));
    let mf = p1.vm.machine();
    match r {
        Ok(x) => {
            lemma_run_returns_value(fns, f, val@, vars, p0.vm.output@, MAX_STEPS as nat, StepRes::Finished(x@), mf);
        },
        _ => {
            let e = choose|e: Seq<char>|
                run_holds(fns, start_machine(f, vars, p0.vm.output@), MAX_STEPS as nat, StepRes::Failed(e), mf);
            lemma_run_returns_value(fns, f, val@, vars, p0.vm.output@, MAX_STEPS as nat, StepRes::Failed(e), mf);
        },
    }
}

/// What a `let` in one text stored, a later text reads back: when the
/// tokens of the first text are `let NAME = OPERAND;` with a literal
/// operand (not a closure) and NAME is not yet a module variable, and those
/// of the second are `NAME;`, interpreting the first gives nil and
/// interpreting the second gives the literal's value.
pub proof fn lemma_text_let_then_read(
    p0: Parser,
    p1: Parser,
    r1: Result<Value, InterpretErrorType>,
    p2: Parser,
    r2: Result<Value, InterpretErrorType>,
    name: Seq<char>,
    val: Value,
)
    requires
        p1.wf(),
        p2.wf(),
        ran_text(p0, p1, r1),
        ran_text(p1, p2, r2),
        keeps_mod_vars(p1.compiler, p2.compiler),
        name.len() > 0,
        !p0.compile_flag,
        p0.compiler.mod_var(name) is None,
        p0.compiler.mod_var_count() < MAX_VARIABLES,
        !(val is Closure),
        simple_stmts(p1.tokens@, 0) matches Some(s1) && s1.len() == 1 && s1[0] is LetDecl
            && s1[0]->LetDecl_name@ == name && *s1[0]->LetDecl_expr == (Ast::Value { val }),
        simple_stmts(p2.tokens@, 0) matches Some(s2) && s2.len() == 1 && s2[0] is ExprStmt
            && *s2[0]->ExprStmt_expr is Variable && s2[0]->ExprStmt_expr->Variable_name@ == name
            && s2[0]->ExprStmt_expr->Variable_arity is None,
    ensures
        r1 == Ok::<Value, InterpretErrorType>(Value::Nil),
        r2 matches Ok(v) && v@ == val@,
{
    let s1 = simple_stmts(p1.tokens@, 0)->0;
    let s2 = simple_stmts(p2.tokens@, 0)->0;
    assert(lits(*s1[0]->LetDecl_expr) == 1);
    assert(lits(s1[0]) == 1);
    lemma_single_ok(s1, p0.compiler);
    let (f1, vars1, root1) = choose|f: usize, vars: Seq<ValueV>, root: Ast|
        #[trigger] ran_program(p0, root, p1, f, vars, r1) && main_of(root, s1);
    let l1 = root1->FunDecl_listing@;
    assert(unboxed(l1).len() == 1 && *l1[0] == unboxed(l1)[0]);
    assert(let_program(root1, name, val));
    lemma_let_defines(p0, root1, p1, f1, vars1, r1, name, val);
    assert(lits(*s2[0]->ExprStmt_expr) == 0);
    assert(lits(s2[0]) == 0);
    lemma_single_ok(s2, p1.compiler);
    let (f2, vars2, root2) = choose|f: usize, vars: Seq<ValueV>, root: Ast|
        #[trigger] ran_program(p1, root, p2, f, vars, r2) && main_of(root, s2);
    let l2 = root2->FunDecl_listing@;
    assert(unboxed(l2).len() == 1 && *l2[0] == unboxed(l2)[0]);
    assert(read_program(root2, name));
    lemma_read_back(p1, root2, p2, f2, vars2, r2, name, p1.compiler.mod_var(name)->0);
}

/// What an assignment in one text stored, a later text reads back: when
/// NAME is a module variable, the tokens of the first text are
/// `NAME = OPERAND;` with a literal operand (not a closure), and those of
/// the second are `NAME;`, interpreting either gives the literal's value.
pub proof fn lemma_text_assign_then_read(
    p0: Parser,
    p1: Parser,
    r1: Result<Value, InterpretErrorType>,
    p2: Parser,
    r2: Result<Value, InterpretErrorType>,
    name: Seq<char>,
    val: Value,
)
    requires
        p0.wf(),
        p1.wf(),
        p2.wf(),
        !p0.compile_flag,
        p0.compiler.mod_var(name) is Some,
        keeps_mod_vars(p0.compiler, p1.compiler),
        !(val is Closure),
        ran_text(p0, p1, r1),
        ran_text(p1, p2, r2),
        keeps_mod_vars(p1.compiler, p2.compiler),
        name.len() > 0,
        simple_stmts(p1.tokens@, 0) matches Some(s1) && s1.len() == 1 && assigns_literal(
            s1[0],
            name,
            val,
        ),
        simple_stmts(p2.tokens@, 0) matches Some(s2) && s2.len() == 1 && s2[0] is ExprStmt
            && *s2[0]->ExprStmt_expr is Variable && s2[0]->ExprStmt_expr->Variable_name@ == name
            && s2[0]->ExprStmt_expr->Variable_arity is None,
    ensures
        r1 matches Ok(v) && v@ == val@,
        r2 matches Ok(v) && v@ == val@,
{
    let s1 = simple_stmts(p1.tokens@, 0)->0;
    let s2 = simple_stmts(p2.tokens@, 0)->0;
    let e1 = *s1[0]->ExprStmt_expr;
    assert(lits(*e1->Binary_1->0) == 0 && lits(*e1->Binary_2->0) == 1);
    assert(lits(e1) == 1);
    assert(lits(s1[0]) == 1);
    lemma_single_ok(s1, p0.compiler);
    lemma_kept_module_var(p0.compiler, p0.vm, p1.compiler, p1.vm, name);
    assert(lits(*s2[0]->ExprStmt_expr) == 0);
    assert(lits(s2[0]) == 0);
    lemma_single_ok(s2, p1.compiler);
    let (f1, vars1, root1) = choose|f: usize, vars: Seq<ValueV>, root: Ast|
        #[trigger] ran_program(p0, root, p1, f, vars, r1) && main_of(root, s1);
    let (f2, vars2, root2) = choose|f: usize, vars: Seq<ValueV>, root: Ast|
        #[trigger] ran_program(p1, root, p2, f, vars, r2) && main_of(root, s2);
    let l1 = root1->FunDecl_listing@;
    let l2 = root2->FunDecl_listing@;
    assert(unboxed(l1).len() == 1 && *l1[0] == unboxed(l1)[0]);
    assert(unboxed(l2).len() == 1 && *l2[0] == unboxed(l2)[0]);
    assert(assign_program(root1, name, val));
    assert(read_program(root2, name));
    lemma_assign_then_read(p0, root1, p1, f1, vars1, r1, root2, p2, f2, vars2, r2, name, val);
}

/// Interpreting a text whose tokens are `a OP b;` for literals `a` and `b`
/// (not closures) and an arithmetic operator gives what the operator gives
/// the two values: its exact value, a float, or a run-time error.
pub proof fn lemma_text_binary_value(
    p0: Parser,
    p1: Parser,
    r: Result<Value, InterpretErrorType>,
    op: BinaryOp,
    a: Value,
    b: Value,
)
    requires
        p1.wf(),
        ran_text(p0, p1, r),
        simple_stmts(p1.tokens@, 0) matches Some(s1) && s1.len() == 1 && combines(
            s1[0],
            op,
            Ast::Value { val: a },
            Ast::Value { val: b },
        ),
        !is_assign(op),
        math_of(op) is Some,
        !p0.compile_flag,
        !(a is Closure),
        !(b is Closure),
    ensures
        spec_math(math_of(op)->0, false, a@, b@) matches Outcome::Exact(v) ==> (r matches Ok(x)
            && x@ == v),
        spec_math(math_of(op)->0, false, a@, b@) is SomeFloat ==> (r matches Ok(x)
            && x@ is Float),
        spec_math(math_of(op)->0, false, a@, b@) is Fails ==> r == Err::<Value, InterpretErrorType>(
            InterpretErrorType::RuntimeError,
        ),
{
    let s1 = simple_stmts(p1.tokens@, 0)->0;
    let e = *s1[0]->ExprStmt_expr;
    assert(lits(*e->Binary_1->0) == 1 && lits(*e->Binary_2->0) == 1);
    assert(lits(e) == 2);
    assert(lits(s1[0]) == 2);
    lemma_single_ok(s1, p0.compiler);
    let (f, vars, root) = choose|f: usize, vars: Seq<ValueV>, root: Ast|
        #[trigger] ran_program(p0, root, p1, f, vars, r) && main_of(root, s1);
    let l = root->FunDecl_listing@;
    assert(unboxed(l).len() == 1 && *l[0] == unboxed(l)[0]);
    let la = Ast::Value { val: a };
    let lb = Ast::Value { val: b };
    assert(binary_program(root, op, la, lb));
    lemma_binary_value(p0, root, p1, f, vars, r, op, la, lb);
    assert(operand_value(la, p1.compiler, vars) == a@);
    assert(operand_value(lb, p1.compiler, vars) == b@);
}

} // verus!
