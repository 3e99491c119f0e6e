use lib::lexer::lex;
use lib::parser::parse;
use lib::ast::{BinOp, Expr, Stmt};
use lib::error::LiabError;

fn dec(text: &str) -> u64 {
    text.parse::<f64>().unwrap().to_bits()
}

fn dbg(bits: u64) -> String {
    format!("{:?}", f64::from_bits(bits))
}



#[test]
fn parse_let_statement() {
    let tokens = lex("let x = 42;", dec).unwrap();
    let stmts = parse(tokens, &dbg).unwrap();
    assert_eq!(stmts.len(), 1);
    match &stmts[0] {
        Stmt::Let { name, value } => {
            assert_eq!(name, "x");
            assert_eq!(*value, Expr::Number(42.0f64.to_bits()));
        }
        other => panic!("Expected Let statement, got {:?}", other),
    }
}

#[test]
fn parse_print_expression() {
    let tokens = lex("print 1 + 2;", dec).unwrap();
    let stmts = parse(tokens, &dbg).unwrap();
    assert_eq!(stmts.len(), 1);
    assert!(matches!(&stmts[0], Stmt::Print(_)));
}

#[test]
fn parse_operator_precedence() {
    // 1 + 2 * 3 should parse as 1 + (2 * 3), not (1 + 2) * 3
    let tokens = lex("1 + 2 * 3;", dec).unwrap();
    let stmts = parse(tokens, &dbg).unwrap();
    match &stmts[0] {
        Stmt::Expression(Expr::BinaryOp { op, .. }) => {
            assert_eq!(*op, BinOp::Add); // top-level is Add
        }
        other => panic!("Expected BinaryOp, got {:?}", other),
    }
}

#[test]
fn parse_parenthesised_expression() {
    let tokens = lex("(1 + 2) * 3;", dec).unwrap();
    let stmts = parse(tokens, &dbg).unwrap();
    match &stmts[0] {
        Stmt::Expression(Expr::BinaryOp { op, .. }) => {
            assert_eq!(*op, BinOp::Mul); // top-level is Mul
        }
        other => panic!("Expected BinaryOp, got {:?}", other),
    }
}

// ---- v0.2 tests ----

#[test]
fn parse_function_def() {
    let tokens = lex("fn add(a, b) { return a + b; }", dec).unwrap();
    let stmts = parse(tokens, &dbg).unwrap();
    assert_eq!(stmts.len(), 1);
    match &stmts[0] {
        Stmt::FunctionDef { name, params, body } => {
            assert_eq!(name, "add");
            assert_eq!(params, &["a", "b"]);
            assert_eq!(body.len(), 1);
            assert!(matches!(&body[0], Stmt::Return(_)));
        }
        other => panic!("Expected FunctionDef, got {:?}", other),
    }
}

#[test]
fn parse_function_call() {
    let tokens = lex("let r = add(2, 3);", dec).unwrap();
    let stmts = parse(tokens, &dbg).unwrap();
    match &stmts[0] {
        Stmt::Let { value: Expr::FunctionCall { callee, args }, .. } => {
            match callee.as_ref() {
                Expr::Identifier(name) => assert_eq!(name, "add"),
                _ => panic!("Expected Identifier callee"),
            }
            assert_eq!(args.len(), 2);
        }
        other => panic!("Expected function call in let, got {:?}", other),
    }
}

#[test]
fn parse_if_statement() {
    let tokens = lex("if x > 10 { print x; }", dec).unwrap();
    let stmts = parse(tokens, &dbg).unwrap();
    assert_eq!(stmts.len(), 1);
    match &stmts[0] {
        Stmt::If { then_body, else_body, .. } => {
            assert_eq!(then_body.len(), 1);
            assert!(else_body.is_none());
        }
        other => panic!("Expected If, got {:?}", other),
    }
}

#[test]
fn parse_if_else_statement() {
    let tokens = lex("if x > 10 { print x; } else { print 0; }", dec).unwrap();
    let stmts = parse(tokens, &dbg).unwrap();
    match &stmts[0] {
        Stmt::If { else_body: Some(body), .. } => {
            assert_eq!(body.len(), 1);
        }
        other => panic!("Expected If/Else, got {:?}", other),
    }
}

#[test]
fn parse_while_loop() {
    let tokens = lex("while x < 10 { x = x + 1; }", dec).unwrap();
    let stmts = parse(tokens, &dbg).unwrap();
    assert_eq!(stmts.len(), 1);
    match &stmts[0] {
        Stmt::While { body, .. } => {
            assert_eq!(body.len(), 1);
            assert!(matches!(&body[0], Stmt::Assignment { .. }));
        }
        other => panic!("Expected While, got {:?}", other),
    }
}

#[test]
fn parse_assignment() {
    let tokens = lex("x = 42;", dec).unwrap();
    let stmts = parse(tokens, &dbg).unwrap();
    match &stmts[0] {
        Stmt::Assignment { name, value } => {
            assert_eq!(name, "x");
            assert_eq!(*value, Expr::Number(42.0f64.to_bits()));
        }
        other => panic!("Expected Assignment, got {:?}", other),
    }
}

#[test]
fn parse_boolean_literals() {
    let tokens = lex("let a = true; let b = false;", dec).unwrap();
    let stmts = parse(tokens, &dbg).unwrap();
    assert_eq!(stmts.len(), 2);
    match &stmts[0] {
        Stmt::Let { value: Expr::Boolean(true), .. } => {}
        other => panic!("Expected Boolean(true), got {:?}", other),
    }
    match &stmts[1] {
        Stmt::Let { value: Expr::Boolean(false), .. } => {}
        other => panic!("Expected Boolean(false), got {:?}", other),
    }
}

#[test]
fn parse_comparison_expression() {
    let tokens = lex("1 + 2 > 3;", dec).unwrap();
    let stmts = parse(tokens, &dbg).unwrap();
    // Top-level should be Gt, with left being Add
    match &stmts[0] {
        Stmt::Expression(Expr::BinaryOp { op, left, .. }) => {
            assert_eq!(*op, BinOp::Gt);
            match left.as_ref() {
                Expr::BinaryOp { op: inner_op, .. } => {
                    assert_eq!(*inner_op, BinOp::Add);
                }
                other => panic!("Expected inner Add, got {:?}", other),
            }
        }
        other => panic!("Expected BinaryOp, got {:?}", other),
    }
}

#[test]
fn test_valid_explicit_semicolons() {
    let source = "
        let x = 10;
        print x;
    ";
    let tokens = lex(source, dec).unwrap();
    let stmts = parse(tokens, &dbg).unwrap();
    assert_eq!(stmts.len(), 2);
}

#[test]
fn test_invalid_missing_semicolon_newline() {
    let source = "
        let x = 10
        print x
    ";
    let tokens = lex(source, dec).unwrap();
    let result = parse(tokens, &dbg);
    
    assert!(result.is_err());
    if let Err(LiabError::SyntaxError(msg)) = result {
        assert_eq!(msg, "Expected ';' after statement");
    } else {
        panic!("Expected SyntaxError for missing semicolon");
    }
}

#[test]
fn test_valid_control_flow_blocks_no_semicolon() {
    let source = "
        if x > 10 {
            print x;
        }
        let y = 5;
    ";
    let tokens = lex(source, dec).unwrap();
    assert!(parse(tokens, &dbg).is_ok());
}
