use ordered_float::OrderedFloat;
use timothy::ast::{Ast, BinaryOp};
use timothy::opcode::MathOp;
use timothy::parser::{InterpretErrorType, Parser};
use timothy::value::{FloatOps, FunctionType, Value};

/// Floating-point arithmetic on 64-bit IEEE numbers, as the interpreter's
/// embedding program supplies it.
struct F64Ops;

impl FloatOps for F64Ops {
    fn parse_literal(&self, text: &str) -> Option<u64> {
        text.parse::<f64>().ok().map(|f| f.to_bits())
    }

    fn math(&self, op: MathOp, a: u64, b: u64) -> u64 {
        let x = OrderedFloat(f64::from_bits(a));
        let y = OrderedFloat(f64::from_bits(b));
        let r = match op {
            MathOp::Add => x + y,
            MathOp::Subtract => x - y,
            MathOp::Multiply => x * y,
            MathOp::Divide => x / y,
            MathOp::Modulo => x % y,
            _ => OrderedFloat(x.0.powf(y.0)),
        };
        r.0.to_bits()
    }

    fn to_text(&self, a: u64) -> String {
        f64::from_bits(a).to_string()
    }
}

fn run(p: &mut Parser, code: &str) -> Result<Value, InterpretErrorType> {
    p.parse_text(&mut code.to_string(), &F64Ops)
}

#[test]
fn test_add_ns_var() {
    let mut p = Parser::new(false, false, false);

    let mut code = "let var = 10;";
    let mut result = p.parse_text(&mut code.to_string(), &F64Ops);
    assert_eq!(result, Ok(Value::Nil));

    code = "var;";
    result = p.parse_text(&mut code.to_string(), &F64Ops);
    assert_eq!(result, Ok(Value::Int(10)));
}

#[test]
fn empty_program_gives_nil() {
    let mut p = Parser::new(false, false, false);
    assert_eq!(run(&mut p, ""), Ok(Value::Nil));
}

#[test]
fn last_expression_is_the_result() {
    let mut p = Parser::new(false, false, false);
    assert_eq!(run(&mut p, "1; 2; 42;"), Ok(Value::Int(42)));
}

#[test]
fn arithmetic_on_integers() {
    let mut p = Parser::new(false, false, false);
    assert_eq!(run(&mut p, "2 + 3 * 4;"), Ok(Value::Int(14)));
    assert_eq!(run(&mut p, "(7);"), Err(InterpretErrorType::ParseError));
    assert_eq!(run(&mut p, "20 - 5 - 3;"), Ok(Value::Int(12)));
    assert_eq!(run(&mut p, "7 / 2;"), Ok(Value::Int(3)));
    assert_eq!(run(&mut p, "2 ** 10;"), Ok(Value::Int(1024)));
}

#[test]
fn large_literals_use_the_constant_table() {
    let mut p = Parser::new(false, false, false);
    assert_eq!(run(&mut p, "1000 + 234;"), Ok(Value::Int(1234)));
}

#[test]
fn integer_overflow_is_a_runtime_error() {
    let mut p = Parser::new(false, false, false);
    assert_eq!(
        run(&mut p, "9223372036854775807 + 1;"),
        Err(InterpretErrorType::RuntimeError)
    );
    assert!(p.messages.iter().any(|m| m == "Runtime error."));
}

#[test]
fn division_by_zero_is_a_runtime_error() {
    let mut p = Parser::new(false, false, false);
    assert_eq!(run(&mut p, "1 / 0;"), Err(InterpretErrorType::RuntimeError));
}

#[test]
fn strings_concatenate() {
    let mut p = Parser::new(false, false, false);
    assert_eq!(
        run(&mut p, "\"ab\" + \"cd\";"),
        Ok(Value::String("abcd".to_string()))
    );
}

#[test]
fn floats_go_through_the_embedding_arithmetic() {
    let mut p = Parser::new(false, false, false);
    assert_eq!(
        run(&mut p, "1.5 + 2.25;"),
        Ok(Value::Float((3.75f64).to_bits()))
    );
}

#[test]
fn booleans_and_nil() {
    let mut p = Parser::new(false, false, false);
    assert_eq!(run(&mut p, "true;"), Ok(Value::Bool(true)));
    assert_eq!(run(&mut p, "false;"), Ok(Value::Bool(false)));
    assert_eq!(run(&mut p, "nil;"), Ok(Value::Nil));
}

#[test]
fn assignment_updates_a_module_variable() {
    let mut p = Parser::new(false, false, false);
    assert_eq!(run(&mut p, "let x = 5; x = 8; x;"), Ok(Value::Int(8)));
    assert_eq!(run(&mut p, "x += 2; x;"), Ok(Value::Int(10)));
}

#[test]
fn named_function_is_called_by_name_and_arity() {
    let mut p = Parser::new(false, false, false);
    assert_eq!(
        run(&mut p, "fun add(a, b) { a + b; }; add(1, 2);"),
        Ok(Value::Int(3))
    );
}

#[test]
fn function_returns_its_return_value() {
    let mut p = Parser::new(false, false, false);
    assert_eq!(
        run(&mut p, "fun twice(a) { return a * 2; }; twice(21);"),
        Ok(Value::Int(42))
    );
}

#[test]
fn wrong_number_of_arguments_is_a_compile_error() {
    let mut p = Parser::new(false, false, false);
    assert_eq!(
        run(&mut p, "fun one(a) { a; }; one(1, 2);"),
        Err(InterpretErrorType::CompileTimeError)
    );
}

#[test]
fn undefined_variable_is_a_compile_error() {
    let mut p = Parser::new(false, false, false);
    assert_eq!(run(&mut p, "y;"), Err(InterpretErrorType::CompileTimeError));
    assert!(p
        .messages
        .iter()
        .any(|m| m == "error: variable y is undefined"));
}

#[test]
fn redeclared_module_variable_is_a_compile_error() {
    let mut p = Parser::new(false, false, false);
    assert_eq!(run(&mut p, "let a = 1;"), Ok(Value::Nil));
    assert_eq!(run(&mut p, "let a = 2;"), Err(InterpretErrorType::CompileTimeError));
    assert!(p
        .messages
        .iter()
        .any(|m| m == "error: variable 'a' already exists"));
}

#[test]
fn missing_semicolon_is_a_parse_error() {
    let mut p = Parser::new(false, false, false);
    assert_eq!(run(&mut p, "1 + 2"), Err(InterpretErrorType::ParseError));
    assert_eq!(
        p.messages[0],
        "<text>:1:6: error at end of file: ';' expected after expression"
    );
    assert!(p.messages.iter().any(|m| m == "Found 1 error."));
}

#[test]
fn unexpected_character_is_a_parse_error() {
    let mut p = Parser::new(false, false, false);
    assert_eq!(run(&mut p, "1 $ 2;"), Err(InterpretErrorType::ParseError));
}

#[test]
fn native_compilation_is_not_supported() {
    let mut p = Parser::new(false, true, false);
    assert_eq!(run(&mut p, "1;"), Err(InterpretErrorType::CompileTimeError));
}

#[test]
fn unreadable_file_is_a_parse_error() {
    let mut p = Parser::new(false, false, false);
    assert_eq!(
        p.parse_file("missing.timothy".to_string(), None, &F64Ops),
        Err(InterpretErrorType::ParseError)
    );
    assert_eq!(
        p.parse_file("ok.timothy".to_string(), Some("3;".to_string()), &F64Ops),
        Ok(Value::Int(3))
    );
}

#[test]
fn store_fun_accepts_every_function() {
    let mut p = Parser::new(false, false, false);
    assert_eq!(p.store_fun("print", 1), Ok(()));
}

#[test]
fn printed_tree_starts_with_the_program() {
    let mut p = Parser::new(true, false, false);
    assert_eq!(run(&mut p, "let a = 1;"), Ok(Value::Nil));
    assert_eq!(
        p.messages[0],
        "(Ast Type: FunDecl; Level: 0)\n  Name:  main\n  Type: TopLevel\n  Params:\n  {\n  }\n  Listing:\n  {\n  (Ast Type: LetDecl; Level: 1)\n    Name: a\n    Expr:\n      (Ast Type: Value; Level: 3)\n        Value: 1\n  }\n"
    );
}

fn main_program(stmt: Ast) -> Ast {
    Ast::FunDecl {
        name: " main".to_string(),
        fun_ty: FunctionType::TopLevel,
        params: vec![],
        listing: vec![Box::new(stmt)],
        closure: None,
    }
}

#[test]
fn executing_a_let_then_a_read_gives_the_value_back() {
    let values = vec![
        Value::Int(10),
        Value::Int(1000),
        Value::Bool(true),
        Value::Nil,
        Value::String("text".to_string()),
    ];
    for (i, val) in values.into_iter().enumerate() {
        let mut p = Parser::new(false, false, false);
        let name = format!("v{}", i);
        let write = main_program(Ast::LetDecl {
            name: name.clone(),
            expr: Box::new(Ast::Value { val: val.clone() }),
        });
        assert_eq!(p.execute(&write, &F64Ops), Ok(Value::Nil));
        let read = main_program(Ast::ExprStmt {
            expr: Box::new(Ast::Variable { name, arity: None }),
        });
        assert_eq!(p.execute(&read, &F64Ops), Ok(val));
    }
}

#[test]
fn a_later_text_reads_what_a_let_stored() {
    let cases = vec![
        ("let a = 12345;", "a;", Value::Int(12345)),
        ("let s = \"hi\";", "s;", Value::String("hi".to_string())),
        ("let t = true;", "t;", Value::Bool(true)),
        ("let n = nil;", "n;", Value::Nil),
    ];
    for (write, read, expected) in cases {
        let mut p = Parser::new(false, false, false);
        assert_eq!(run(&mut p, write), Ok(Value::Nil));
        assert_eq!(run(&mut p, read), Ok(expected));
    }
}

#[test]
fn executing_an_assignment_then_a_read_gives_the_value_back() {
    let values = vec![Value::Int(7), Value::Int(99999), Value::Bool(false), Value::Nil];
    for (i, val) in values.into_iter().enumerate() {
        let mut p = Parser::new(false, false, false);
        let name = format!("w{}", i);
        assert_eq!(run(&mut p, &format!("let {} = 1;", name)), Ok(Value::Nil));
        let write = main_program(Ast::ExprStmt {
            expr: Box::new(Ast::Binary(
                BinaryOp::Assign,
                Some(Box::new(Ast::Variable { name: name.clone(), arity: None })),
                Some(Box::new(Ast::Value { val: val.clone() })),
            )),
        });
        assert_eq!(p.execute(&write, &F64Ops), Ok(val.clone()));
        let read = main_program(Ast::ExprStmt {
            expr: Box::new(Ast::Variable { name, arity: None }),
        });
        assert_eq!(p.execute(&read, &F64Ops), Ok(val));
    }
}

#[test]
fn a_later_text_reads_what_an_assignment_stored() {
    let cases = vec![
        ("b = 4242;", "b;", Value::Int(4242)),
        ("b = \"yo\";", "b;", Value::String("yo".to_string())),
        ("b = false;", "b;", Value::Bool(false)),
    ];
    for (write, read, expected) in cases {
        let mut p = Parser::new(false, false, false);
        assert_eq!(run(&mut p, "let b = 0;"), Ok(Value::Nil));
        assert_eq!(run(&mut p, write), Ok(expected.clone()));
        assert_eq!(run(&mut p, read), Ok(expected));
    }
}

#[test]
fn executing_an_operator_on_two_literals_gives_its_result() {
    let cases = vec![
        (BinaryOp::Add, Value::Int(3), Value::Int(4), Ok(Value::Int(7))),
        (BinaryOp::Subtract, Value::Int(1), Value::Int(50), Ok(Value::Int(-49))),
        (BinaryOp::Multiply, Value::Int(1000), Value::Int(1000), Ok(Value::Int(1000000))),
        (BinaryOp::Divide, Value::Int(7), Value::Int(0), Err(InterpretErrorType::RuntimeError)),
        (
            BinaryOp::Add,
            Value::Int(i64::MAX),
            Value::Int(1),
            Err(InterpretErrorType::RuntimeError),
        ),
        (
            BinaryOp::Add,
            Value::String("x".to_string()),
            Value::String("y".to_string()),
            Ok(Value::String("xy".to_string())),
        ),
        (BinaryOp::Add, Value::Bool(true), Value::Int(1), Err(InterpretErrorType::RuntimeError)),
        (
            BinaryOp::Multiply,
            Value::Float((1.5f64).to_bits()),
            Value::Float((4.0f64).to_bits()),
            Ok(Value::Float((6.0f64).to_bits())),
        ),
    ];
    for (op, a, b, expected) in cases {
        let mut p = Parser::new(false, false, false);
        let program = main_program(Ast::ExprStmt {
            expr: Box::new(Ast::Binary(
                op,
                Some(Box::new(Ast::Value { val: a })),
                Some(Box::new(Ast::Value { val: b })),
            )),
        });
        assert_eq!(p.execute(&program, &F64Ops), expected);
    }
}

#[test]
fn a_text_of_one_operation_gives_its_result() {
    let cases = vec![
        ("6 * 7;", Ok(Value::Int(42))),
        ("2 - 9;", Ok(Value::Int(-7))),
        ("17 % 5;", Ok(Value::Int(3))),
        ("\"ab\" * 3;", Ok(Value::String("ababab".to_string()))),
        ("nil + 1;", Err(InterpretErrorType::RuntimeError)),
        ("5 / 0;", Err(InterpretErrorType::RuntimeError)),
    ];
    for (text, expected) in cases {
        let mut p = Parser::new(false, false, false);
        assert_eq!(run(&mut p, text), expected);
    }
}

#[test]
fn a_text_that_is_refused_before_it_runs_leaves_the_globals() {
    let mut p = Parser::new(false, false, false);
    assert_eq!(run(&mut p, "let a = 1;"), Ok(Value::Nil));
    assert_eq!(run(&mut p, "a = 2 +;"), Err(InterpretErrorType::ParseError));
    assert_eq!(run(&mut p, "a;"), Ok(Value::Int(1)));
    assert_eq!(run(&mut p, "a = nowhere;"), Err(InterpretErrorType::CompileTimeError));
    assert_eq!(run(&mut p, "a;"), Ok(Value::Int(1)));
    assert_eq!(p.vm.output, "");
}

#[test]
fn a_later_program_computes_with_what_a_let_stored() {
    let mut p = Parser::new(false, false, false);
    let write = main_program(Ast::LetDecl {
        name: "k".to_string(),
        expr: Box::new(Ast::Value { val: Value::Int(40) }),
    });
    assert_eq!(p.execute(&write, &F64Ops), Ok(Value::Nil));
    let compute = main_program(Ast::ExprStmt {
        expr: Box::new(Ast::Binary(
            BinaryOp::Add,
            Some(Box::new(Ast::Variable { name: "k".to_string(), arity: None })),
            Some(Box::new(Ast::Value { val: Value::Int(2) })),
        )),
    });
    assert_eq!(p.execute(&compute, &F64Ops), Ok(Value::Int(42)));
    assert_eq!(run(&mut p, "k * 3;"), Ok(Value::Int(120)));
    assert_eq!(run(&mut p, "k / 0;"), Err(InterpretErrorType::RuntimeError));
}

#[test]
fn power_binds_tighter_than_a_product_and_negation_than_a_sum() {
    let mut p = Parser::new(false, false, false);
    assert_eq!(run(&mut p, "2 * 3 ** 2;"), Ok(Value::Int(18)));
    assert_eq!(run(&mut p, "-1 + 2;"), Ok(Value::Int(1)));
    assert_eq!(run(&mut p, "-2 ** 2;"), Ok(Value::Int(-4)));
}

#[test]
fn a_text_of_simple_statements_compiles_and_runs() {
    let mut p = Parser::new(false, false, false);
    assert_eq!(run(&mut p, "let = 1;"), Err(InterpretErrorType::ParseError));
    assert_eq!(run(&mut p, "1;"), Ok(Value::Int(1)));
    assert_eq!(run(&mut p, "let x = 5; x = 8; x + 1;"), Ok(Value::Int(9)));
}

#[test]
fn a_named_function_takes_at_most_sixteen_parameters() {
    let names: Vec<String> = (0..17).map(|i| format!("p{}", i)).collect();
    let mut p = Parser::new(false, false, false);
    let text = format!("fun f({}) {{ 1; }};", names.join(", "));
    assert_eq!(run(&mut p, &text), Err(InterpretErrorType::ParseError));
    assert!(p.messages.iter().any(|m| m.contains("too many parameters")));
    let mut q = Parser::new(false, false, false);
    let text = format!("fun g({}) {{ 1; }}; 2;", names[..16].join(", "));
    assert_eq!(run(&mut q, &text), Ok(Value::Int(2)));
}

#[test]
fn a_let_without_its_semicolon_is_a_parse_error() {
    let mut p = Parser::new(false, false, false);
    assert_eq!(run(&mut p, "let x = 1"), Err(InterpretErrorType::ParseError));
    assert!(p.messages.iter().any(|m| m.contains("';' expected after let statement")));
}
