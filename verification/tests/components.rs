use timothy::ast::{Ast, BinaryOp, UnaryOp};
use timothy::codegen::Compiler;
use timothy::lexer::{tokenize, TokenKind};
use timothy::opcode::{BitwiseOp, MathOp, OpCode};
use timothy::parser::BindingPower;
use timothy::value::{is_false, FloatOps, FunctionType, Value};
use timothy::vm::{CallFrame, CallStack, VM};

struct NoFloats;

impl FloatOps for NoFloats {
    fn parse_literal(&self, text: &str) -> Option<u64> {
        text.parse::<f64>().ok().map(|f| f.to_bits())
    }

    fn math(&self, _op: MathOp, a: u64, _b: u64) -> u64 {
        a
    }

    fn to_text(&self, a: u64) -> String {
        f64::from_bits(a).to_string()
    }
}

fn kinds(text: &str) -> Vec<TokenKind> {
    tokenize(text, "t", &NoFloats).iter().map(|t| t.kind).collect()
}

#[test]
fn opcode_bytes_round_trip() {
    for b in 0u8..=255 {
        let op = OpCode::from(b);
        if b < u8::from(OpCode::Invalid) {
            assert_eq!(u8::from(op), b);
        } else {
            assert_eq!(op, OpCode::Invalid);
        }
    }
    assert_eq!(OpCode::from(u8::from(OpCode::LoadValue)), OpCode::LoadValue);
    assert_eq!(MathOp::from(u8::from(MathOp::Power)), MathOp::Power);
    assert_eq!(BitwiseOp::from(u8::from(BitwiseOp::Xor)), BitwiseOp::Xor);
    assert_eq!(OpCode::Load0.mnemonic(), "LOAD0");
}

#[test]
fn binding_power_levels_round_trip() {
    for v in 0u8..=14 {
        assert_eq!(BindingPower::from_level(v).level(), v);
    }
    assert_eq!(BindingPower::from_level(9), BindingPower::Term);
    assert!(BindingPower::Factor.level() > BindingPower::Term.level());
}

#[test]
fn lexer_reads_keywords_numbers_strings_and_operators() {
    assert_eq!(
        kinds("let x = fn(a) { return a ** 2; }; // done"),
        vec![
            TokenKind::LetKw,
            TokenKind::Ident,
            TokenKind::Assign,
            TokenKind::AnonClosure,
            TokenKind::Ident,
            TokenKind::RParen,
            TokenKind::LBrace,
            TokenKind::ReturnKw,
            TokenKind::Ident,
            TokenKind::Power,
            TokenKind::Int,
            TokenKind::Semicolon,
            TokenKind::RBrace,
            TokenKind::Semicolon,
            TokenKind::Done,
        ]
    );
    assert_eq!(
        kinds("<<= >>= **= <= != && || \"s\" 1.5"),
        vec![
            TokenKind::LShiftAssign,
            TokenKind::RShiftAssign,
            TokenKind::PowerAssign,
            TokenKind::LessEqual,
            TokenKind::NEqual,
            TokenKind::LAnd,
            TokenKind::LOr,
            TokenKind::String,
            TokenKind::Float,
            TokenKind::Done,
        ]
    );
}

#[test]
fn lexer_values_and_errors() {
    let toks = tokenize("42 \"hi\" 99999999999999999999 @", "t", &NoFloats);
    assert_eq!(toks[0].value, Value::Int(42));
    assert_eq!(toks[1].value, Value::String("hi".to_string()));
    assert_eq!(toks[1].lexeme, "\"hi\"");
    assert_eq!(toks[2].kind, TokenKind::Error);
    assert_eq!(toks[2].lexeme, "integer literal is too large");
    assert_eq!(toks[3].kind, TokenKind::Error);
    assert_eq!(toks[3].lexeme, "unexpected character '@'");
    assert_eq!(toks[4].kind, TokenKind::Done);
    let unterminated = tokenize("\"abc", "t", &NoFloats);
    assert_eq!(unterminated[0].lexeme, "unterminated string");
    assert_eq!(unterminated[0].line, 1);
    let lines = tokenize("a\n  b", "t", &NoFloats);
    assert_eq!((lines[1].line, lines[1].col), (2, 3));
}

#[test]
fn fn_starts_an_anonymous_function_only_right_before_a_parenthesis() {
    assert_eq!(
        kinds("fn ( fn( fnx fun"),
        vec![
            TokenKind::Ident,
            TokenKind::LParen,
            TokenKind::AnonClosure,
            TokenKind::Ident,
            TokenKind::FunKw,
            TokenKind::Done,
        ]
    );
    let toks = tokenize("  // note\n  9223372036854775807 9223372036854775808", "t", &NoFloats);
    assert_eq!(toks[0].kind, TokenKind::Int);
    assert_eq!(toks[0].value, Value::Int(i64::MAX));
    assert_eq!((toks[0].line, toks[0].col), (2, 3));
    assert_eq!(toks[1].kind, TokenKind::Error);
    assert_eq!(toks[2].kind, TokenKind::Done);
}

#[test]
fn compiled_program_code() {
    let mut vm = VM::new();
    let mut c = Compiler::new(false);
    let prog = Ast::FunDecl {
        name: " main".to_string(),
        fun_ty: FunctionType::TopLevel,
        params: vec![],
        listing: vec![
            Box::new(Ast::LetDecl {
                name: "x".to_string(),
                expr: Box::new(Ast::Value { val: Value::Int(7) }),
            }),
            Box::new(Ast::ExprStmt {
                expr: Box::new(Ast::Variable { name: "x".to_string(), arity: None }),
            }),
        ],
        closure: None,
    };
    let f = c.compile(&prog, &mut vm).unwrap();
    assert_eq!(vm.functions[f].name, " main");
    assert_eq!(vm.functions[f].arity, 0);
    assert_eq!(
        vm.functions[f].code,
        vec![
            u8::from(OpCode::Load7),
            u8::from(OpCode::DefVar),
            0,
            0,
            u8::from(OpCode::LoadVar),
            0,
            0,
            u8::from(OpCode::Return),
        ]
    );
    assert_eq!(vm.vars.len(), 1);
}

#[test]
fn a_later_program_reads_the_global_an_earlier_one_defined() {
    let mut vm = VM::new();
    let mut c = Compiler::new(false);
    let main = |listing: Vec<Box<Ast>>| Ast::FunDecl {
        name: " main".to_string(),
        fun_ty: FunctionType::TopLevel,
        params: vec![],
        listing,
        closure: None,
    };
    let first = main(vec![Box::new(Ast::LetDecl {
        name: "var".to_string(),
        expr: Box::new(Ast::Value { val: Value::Int(10) }),
    })]);
    let f1 = c.compile(&first, &mut vm).unwrap();
    assert_eq!(
        vm.functions[f1].code,
        vec![
            u8::from(OpCode::Load10),
            u8::from(OpCode::DefVar),
            0,
            0,
            u8::from(OpCode::LoadNil),
            u8::from(OpCode::Return),
        ]
    );
    let second = main(vec![Box::new(Ast::ExprStmt {
        expr: Box::new(Ast::Variable { name: "var".to_string(), arity: None }),
    })]);
    let f2 = c.compile(&second, &mut vm).unwrap();
    assert_ne!(f1, f2);
    assert_eq!(
        vm.functions[f2].code,
        vec![u8::from(OpCode::LoadVar), 0, 0, u8::from(OpCode::Return)]
    );
    assert_eq!(vm.vars.len(), 1);
}

#[test]
fn a_local_of_the_enclosing_function_is_read_as_an_upvalue() {
    let mut vm = VM::new();
    let mut c = Compiler::new(false);
    let var = |n: &str| Box::new(Ast::Variable { name: n.to_string(), arity: None });
    let inner = Ast::FunDecl {
        name: "".to_string(),
        fun_ty: FunctionType::AnonClosure,
        params: vec![],
        listing: vec![Box::new(Ast::ExprStmt { expr: var("x") })],
        closure: None,
    };
    let outer = Ast::FunDecl {
        name: "outer".to_string(),
        fun_ty: FunctionType::NamedClosure,
        params: vec![var("x")],
        listing: vec![Box::new(Ast::ExprStmt { expr: Box::new(inner) })],
        closure: None,
    };
    let prog = Ast::FunDecl {
        name: " main".to_string(),
        fun_ty: FunctionType::TopLevel,
        params: vec![],
        listing: vec![Box::new(Ast::ExprStmt { expr: Box::new(outer) })],
        closure: None,
    };
    let f = c.compile(&prog, &mut vm).unwrap();
    assert_eq!(f, 0);
    assert_eq!(vm.functions.len(), 3);
    assert_eq!(vm.functions[2].arity, 0);
    assert_eq!(
        vm.functions[2].code,
        vec![u8::from(OpCode::LoadUpvalue), 0, u8::from(OpCode::Return)]
    );
}

#[test]
fn statements_compile_to_their_parts_in_order() {
    let mut vm = VM::new();
    let mut c = Compiler::new(false);
    let int = |i: i64| Some(Box::new(Ast::Value { val: Value::Int(i) }));
    let x = || Some(Box::new(Ast::Variable { name: "x".to_string(), arity: None }));
    let prog = Ast::FunDecl {
        name: " main".to_string(),
        fun_ty: FunctionType::TopLevel,
        params: vec![],
        listing: vec![
            Box::new(Ast::LetDecl {
                name: "x".to_string(),
                expr: Box::new(Ast::Value { val: Value::Int(1) }),
            }),
            Box::new(Ast::ExprStmt {
                expr: Box::new(Ast::Unary(UnaryOp::Negate, int(4))),
            }),
            Box::new(Ast::ExprStmt {
                expr: Box::new(Ast::Binary(
                    BinaryOp::AddAssign,
                    x(),
                    Some(Box::new(Ast::Binary(BinaryOp::Multiply, int(2), int(3)))),
                )),
            }),
        ],
        closure: None,
    };
    let f = c.compile(&prog, &mut vm).unwrap();
    let op = |o: OpCode| u8::from(o);
    assert_eq!(
        vm.functions[f].code,
        vec![
            op(OpCode::Load1),
            op(OpCode::DefVar),
            0,
            0,
            op(OpCode::Load4),
            op(OpCode::Neg),
            op(OpCode::Pop),
            op(OpCode::LoadVar),
            0,
            0,
            op(OpCode::Load2),
            op(OpCode::Load3),
            op(OpCode::MathOp),
            u8::from(MathOp::Multiply),
            op(OpCode::MathOp),
            u8::from(MathOp::Add),
            op(OpCode::StoreVar),
            0,
            0,
            op(OpCode::Return),
        ]
    );
}

#[test]
fn a_named_function_is_loaded_defined_and_called() {
    let mut vm = VM::new();
    let mut c = Compiler::new(false);
    let var = |n: &str| Box::new(Ast::Variable { name: n.to_string(), arity: None });
    let fun = Ast::FunDecl {
        name: "f".to_string(),
        fun_ty: FunctionType::NamedClosure,
        params: vec![var("a")],
        listing: vec![Box::new(Ast::ExprStmt { expr: var("a") })],
        closure: None,
    };
    let call = Ast::Call(Some(var("f")), vec![Box::new(Ast::Value { val: Value::Int(3) })]);
    let prog = Ast::FunDecl {
        name: " main".to_string(),
        fun_ty: FunctionType::TopLevel,
        params: vec![],
        listing: vec![
            Box::new(fun),
            Box::new(Ast::Block { listing: vec![Box::new(Ast::ExprStmt { expr: Box::new(call) })] }),
        ],
        closure: None,
    };
    let f = c.compile(&prog, &mut vm).unwrap();
    let op = |o: OpCode| u8::from(o);
    assert_eq!(vm.functions[1].name, "f");
    assert_eq!(vm.functions[1].code, vec![op(OpCode::LoadLocal1), op(OpCode::Return)]);
    assert_eq!(vm.functions[f].constants, vec![Value::Closure(1)]);
    assert_eq!(
        vm.functions[f].code,
        vec![
            op(OpCode::LoadValue),
            0,
            0,
            op(OpCode::DefVar),
            0,
            0,
            op(OpCode::LoadVar),
            0,
            0,
            op(OpCode::Load3),
            op(OpCode::Call),
            1,
            op(OpCode::Pop),
            op(OpCode::LoadNil),
            op(OpCode::Return),
        ]
    );
}

#[test]
fn large_constant_is_loaded_from_the_table_once() {
    let mut vm = VM::new();
    let mut c = Compiler::new(false);
    let big = || Box::new(Ast::Value { val: Value::Int(500) });
    let prog = Ast::FunDecl {
        name: " main".to_string(),
        fun_ty: FunctionType::TopLevel,
        params: vec![],
        listing: vec![
            Box::new(Ast::ExprStmt { expr: big() }),
            Box::new(Ast::ExprStmt { expr: big() }),
        ],
        closure: None,
    };
    let f = c.compile(&prog, &mut vm).unwrap();
    assert_eq!(vm.functions[f].constants, vec![Value::Int(500)]);
    let lv = u8::from(OpCode::LoadValue);
    assert_eq!(
        vm.functions[f].code,
        vec![lv, 0, 0, u8::from(OpCode::Pop), lv, 0, 0, u8::from(OpCode::Return)]
    );
}

#[test]
fn self_initialization_of_a_local_is_refused() {
    let mut vm = VM::new();
    let mut c = Compiler::new(false);
    let inner = Ast::FunDecl {
        name: "f".to_string(),
        fun_ty: FunctionType::NamedClosure,
        params: vec![],
        listing: vec![Box::new(Ast::LetDecl {
            name: "b".to_string(),
            expr: Box::new(Ast::Variable { name: "b".to_string(), arity: None }),
        })],
        closure: None,
    };
    let prog = Ast::FunDecl {
        name: " main".to_string(),
        fun_ty: FunctionType::TopLevel,
        params: vec![],
        listing: vec![Box::new(Ast::ExprStmt { expr: Box::new(inner) })],
        closure: None,
    };
    assert_eq!(c.compile(&prog, &mut vm), None);
    assert_eq!(c.errors, vec!["error: self-initialization of local variable 'b".to_string()]);
    assert_eq!(c.error_count, 1);
}

#[test]
fn call_stack_push_and_pop() {
    let mut cs = CallStack::new();
    cs.push(Value::Closure(3));
    cs.push(Value::Closure(4));
    assert_eq!(cs.len(), 2);
    let top = cs.pop().unwrap();
    assert_eq!(top.get_closure(), Some(4));
    assert_eq!(cs.len(), 1);
    assert_eq!(cs.top().unwrap().get_fun(), &Value::Closure(3));
    assert_eq!(CallStack::new().pop(), None);
    let frame = CallFrame::new(Value::Closure(9));
    assert_eq!(frame.get_pc(), 0);
    assert_eq!(frame.get_fp(), 0);
}

#[test]
fn global_variables_read_back_what_was_written() {
    let mut vm = VM::new();
    vm.add_var();
    vm.add_var();
    vm.set_var(1, Value::Int(5));
    assert_eq!(vm.get_var(1), Some(Value::Int(5)));
    assert_eq!(vm.get_var(0), Some(Value::Nil));
    assert_eq!(vm.get_var(2), None);
}

#[test]
fn values_that_count_as_false() {
    assert!(is_false(Value::Nil));
    assert!(is_false(Value::Bool(false)));
    assert!(!is_false(Value::Bool(true)));
    assert!(!is_false(Value::Int(0)));
}

#[test]
fn arity_is_checked_before_a_call() {
    let mut vm = VM::new();
    let mut c = Compiler::new(false);
    let f = Ast::FunDecl {
        name: "g".to_string(),
        fun_ty: FunctionType::NamedClosure,
        params: vec![Box::new(Ast::Variable { name: "a".to_string(), arity: None })],
        listing: vec![],
        closure: None,
    };
    let prog = Ast::FunDecl {
        name: " main".to_string(),
        fun_ty: FunctionType::TopLevel,
        params: vec![],
        listing: vec![Box::new(Ast::ExprStmt { expr: Box::new(f) })],
        closure: None,
    };
    let main = c.compile(&prog, &mut vm).unwrap();
    assert_eq!(main, 0);
    assert_eq!(vm.check_arity(&Value::Closure(0), 0), Ok(0));
    assert_eq!(vm.check_arity(&Value::Closure(1), 1), Ok(1));
    assert_eq!(
        vm.check_arity(&Value::Closure(1), 2),
        Err("1 args expected, found 2".to_string())
    );
    assert_eq!(
        vm.check_arity(&Value::Int(1), 0),
        Err("not a function type, but int".to_string())
    );
}
