use lib::lexer::lex;
use lib::parser::parse;
use lib::interpreter::Interpreter;
use lib::value::Value;
use lib::vm::{ArithOp, CompareOp};

fn dec(text: &str) -> u64 {
    text.parse::<f64>().unwrap().to_bits()
}

fn dbg(bits: u64) -> String {
    format!("{:?}", f64::from_bits(bits))
}

fn arith(op: ArithOp, a: u64, b: u64) -> u64 {
    let (x, y) = (f64::from_bits(a), f64::from_bits(b));
    let r = match op {
        ArithOp::Add => x + y,
        ArithOp::Sub => x - y,
        ArithOp::Mul => x * y,
        ArithOp::Div => x / y,
    };
    r.to_bits()
}

fn relation(op: CompareOp, a: u64, b: u64) -> bool {
    let (x, y) = (f64::from_bits(a), f64::from_bits(b));
    match op {
        CompareOp::Eq => x == y,
        CompareOp::Neq => x != y,
        CompareOp::Gt => x > y,
        CompareOp::Lt => x < y,
        CompareOp::Gte => x >= y,
        CompareOp::Lte => x <= y,
    }
}

/// Runs a program through the whole pipeline and returns the interpreter,
/// so that its variables can be inspected.
fn run_program(source: &str) -> Result<Interpreter, String> {
    let tokens = lex(source, dec).map_err(|e| e.to_string())?;
    let stmts = parse(tokens, &dbg).map_err(|e| e.to_string())?;
    let mut interp = Interpreter::new();
    let mut out = Vec::new();
    interp.run(stmts, u64::MAX, &mut out, &dbg, &arith, &relation)?;
    Ok(interp)
}


// ---- v0.1 tests (preserved) ----

#[test]
fn variable_declaration_and_lookup() {
    let interp = run_program("let x = 42;").unwrap();
    assert_eq!(interp.env.get("x"), Some(&Value::Number(42.0f64.to_bits())));
}

#[test]
fn arithmetic_evaluation() {
    let interp = run_program("let result = 2 + 3 * 4;").unwrap();
    // 2 + (3 * 4) = 14
    assert_eq!(interp.env.get("result"), Some(&Value::Number(14.0f64.to_bits())));
}

#[test]
fn division_by_zero() {
    let result = run_program("let x = 1 / 0;");
    assert!(result.is_err());
    assert!(result.unwrap_err().contains("division by zero"));
}

#[test]
fn interpreter_undefined_variable() {
    let result = run_program("print y;");
    assert!(result.is_err());
    assert!(result.unwrap_err().contains("Undefined variable"));
}

#[test]
fn variable_reuse() {
    let interp = run_program(
        "let a = 10;\nlet b = 20;\nlet c = a + b;"
    ).unwrap();
    assert_eq!(interp.env.get("c"), Some(&Value::Number(30.0f64.to_bits())));
}

// ---- v0.2 tests ----

#[test]
fn test_boolean_values() {
    let interp = run_program("let a = true; let b = false;").unwrap();
    assert_eq!(interp.env.get("a"), Some(&Value::Boolean(true)));
    assert_eq!(interp.env.get("b"), Some(&Value::Boolean(false)));
}

#[test]
fn test_comparison_operators() {
    let interp = run_program(
        "let a = 5 > 3; let b = 5 < 3; let c = 5 == 5; let d = 5 != 3; let e = 5 >= 5; let f = 5 <= 4;"
    ).unwrap();
    assert_eq!(interp.env.get("a"), Some(&Value::Boolean(true)));
    assert_eq!(interp.env.get("b"), Some(&Value::Boolean(false)));
    assert_eq!(interp.env.get("c"), Some(&Value::Boolean(true)));
    assert_eq!(interp.env.get("d"), Some(&Value::Boolean(true)));
    assert_eq!(interp.env.get("e"), Some(&Value::Boolean(true)));
    assert_eq!(interp.env.get("f"), Some(&Value::Boolean(false)));
}

#[test]
fn interpreter_test_function_call() {
    let interp = run_program(
        "fn add(a, b) { return a + b; }\nlet result = add(2, 3);"
    ).unwrap();
    assert_eq!(interp.env.get("result"), Some(&Value::Number(5.0f64.to_bits())));
}

#[test]
fn test_function_no_return() {
    // A function without an explicit return should return 0
    let interp = run_program(
        "fn noop() { let x = 1; }\nlet r = noop();"
    ).unwrap();
    assert_eq!(interp.env.get("r"), Some(&Value::Number(0.0f64.to_bits())));
}

#[test]
fn interpreter_test_function_wrong_arity() {
    let result = run_program(
        "fn add(a, b) { return a + b; }\nadd(1);"
    );
    assert!(result.is_err());
    assert!(result.unwrap_err().contains("expects 2 arguments"));
}

#[test]
fn test_if_true_branch() {
    let interp = run_program(
        "let x = 0;\nif true { x = 42; }"
    ).unwrap();
    assert_eq!(interp.env.get("x"), Some(&Value::Number(42.0f64.to_bits())));
}

#[test]
fn test_if_false_branch() {
    let interp = run_program(
        "let x = 0;\nif false { x = 1; } else { x = 99; }"
    ).unwrap();
    assert_eq!(interp.env.get("x"), Some(&Value::Number(99.0f64.to_bits())));
}

#[test]
fn interpreter_test_while_loop() {
    let interp = run_program(
        "let x = 0;\nwhile x < 5 { x = x + 1; }"
    ).unwrap();
    assert_eq!(interp.env.get("x"), Some(&Value::Number(5.0f64.to_bits())));
}

#[test]
fn test_nested_scopes() {
    // Inner block should not leak its variable
    let interp = run_program(
        "let x = 10;\n{ let y = 20; }"
    ).unwrap();
    assert_eq!(interp.env.get("x"), Some(&Value::Number(10.0f64.to_bits())));
    assert_eq!(interp.env.get("y"), None);
}

#[test]
fn interpreter_test_assignment() {
    let interp = run_program(
        "let x = 1;\nx = 42;"
    ).unwrap();
    assert_eq!(interp.env.get("x"), Some(&Value::Number(42.0f64.to_bits())));
}

#[test]
fn test_return_outside_function() {
    let result = run_program("return 42;");
    assert!(result.is_err());
    assert!(result.unwrap_err().contains("return"));
}

#[test]
fn interpreter_test_recursive_function() {
    let interp = run_program(
        "fn factorial(n) {\n\
            if n <= 1 { return 1; }\n\
            return n * factorial(n - 1);\n\
        }\n\
        let r = factorial(5);"
    ).unwrap();
    assert_eq!(interp.env.get("r"), Some(&Value::Number(120.0f64.to_bits())));
}
