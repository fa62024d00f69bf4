//! The syntax tree that the parser builds and the compiler reads.

use vstd::prelude::*;

use crate::value::{FunctionType, Value};

verus! {

/// The operators that take two operands, compound assignments included.
#[derive(Debug, Clone, Copy, PartialEq, Eq, Structural)]
pub enum BinaryOp {
    Add,
    Subtract,
    Multiply,
    Divide,
    Modulo,
    Power,
    LAnd,
    LOr,
    And,
    Or,
    XOr,
    LShift,
    RShift,
    Assign,
    AddAssign,
    SubtractAssign,
    MultiplyAssign,
    DivideAssign,
    ModuloAssign,
    PowerAssign,
    AndAssign,
    OrAssign,
    XOrAssign,
    LShiftAssign,
    RShiftAssign,
}

/// How a binary operator is written in source text.
pub open spec fn binop_text(op: BinaryOp) -> Seq<char> {
    match op {
        BinaryOp::Add => seq!['+'],
        BinaryOp::Subtract => seq!['-'],
        BinaryOp::Multiply => seq!['*'],
        BinaryOp::Divide => seq!['/'],
        BinaryOp::Modulo => seq!['%'],
        BinaryOp::Power => seq!['*', '*'],
        BinaryOp::LAnd => seq!['&', '&'],
        BinaryOp::LOr => seq!['|', '|'],
        BinaryOp::And => seq!['&'],
        BinaryOp::Or => seq!['|'],
        BinaryOp::XOr => seq!['^'],
        BinaryOp::LShift => seq!['<', '<'],
        BinaryOp::RShift => seq!['>', '>'],
        BinaryOp::Assign => seq!['='],
        BinaryOp::AddAssign => seq!['+', '='],
        BinaryOp::SubtractAssign => seq!['-', '='],
        BinaryOp::MultiplyAssign => seq!['*', '='],
        BinaryOp::DivideAssign => seq!['/', '='],
        BinaryOp::ModuloAssign => seq!['%', '='],
        BinaryOp::PowerAssign => seq!['*', '*', '='],
        BinaryOp::AndAssign => seq!['&', '='],
        BinaryOp::OrAssign => seq!['|', '='],
        BinaryOp::XOrAssign => seq!['^', '='],
        BinaryOp::LShiftAssign => seq!['<', '<', '='],
        BinaryOp::RShiftAssign => seq!['>', '>', '='],
    }
}

/// The operators that take one operand.
#[derive(Debug, Clone, Copy, PartialEq, Eq, Structural)]
pub enum UnaryOp {
    Negate,
    LNot,
    Not,
}

/// A node of the syntax tree.
#[derive(Debug, PartialEq)]
pub enum Ast {
    Program { listing: Vec<Box<Ast>> },
    FunDecl {
        name: String,
        fun_ty: FunctionType,
        params: Vec<Box<Ast>>,
        listing: Vec<Box<Ast>>,
        closure: Option<usize>,
    },
    LetDecl { name: String, expr: Box<Ast> },
    ExprStmt { expr: Box<Ast> },
    Block { listing: Vec<Box<Ast>> },
    ReturnStmt { expr: Option<Box<Ast>> },
    Value { val: Value },
    Variable { name: String, arity: Option<usize> },
    Call(Option<Box<Ast>>, Vec<Box<Ast>>),
    Unary(UnaryOp, Option<Box<Ast>>),
    Binary(BinaryOp, Option<Box<Ast>>, Option<Box<Ast>>),
    TrueStmt,
    FalseStmt,
}

} // verus!
