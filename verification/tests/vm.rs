use std::rc::Rc;
use lib::lexer::lex;
use lib::parser::parse;
use lib::compiler::Compiler;
use lib::value::{Value, Bindings};
use lib::vm::{VM, Step, ArithOp, CompareOp};
use lib::error::LiabError;

type Native = fn(&mut VM, &[Value]) -> Result<Value, LiabError>;

fn dec(text: &str) -> u64 {
    text.parse::<f64>().unwrap().to_bits()
}

fn show(bits: u64) -> String {
    let n = f64::from_bits(bits);
    if n.fract() == 0.0 { format!("{}", n as i64) } else { format!("{}", n) }
}

fn dbg(bits: u64) -> String {
    format!("{:?}", f64::from_bits(bits))
}

/// The source of the module `math` that the module tests load.
const MATH_MODULE: &str = "let pi = 3.14; fn add(a, b) { return a + b; } export pi; export add;";

/// Runs `vm` to the end, doing the work each step hands out.
fn drive(vm: &mut VM, natives: &[Native]) -> Result<(), LiabError> {
    loop {
        match vm.step(&show, &dbg)? {
            Step::Done => return Ok(()),
            Step::Continue => {}
            Step::Arith { op, a, b } => {
                let (x, y) = (f64::from_bits(a), f64::from_bits(b));
                let r = match op {
                    ArithOp::Add => x + y,
                    ArithOp::Sub => x - y,
                    ArithOp::Mul => x * y,
                    ArithOp::Div => x / y,
                };
                vm.push_value(Value::Number(r.to_bits()));
            }
            Step::Compare { op, a, b } => {
                let (x, y) = (f64::from_bits(a), f64::from_bits(b));
                let r = match op {
                    CompareOp::Eq => x == y,
                    CompareOp::Neq => x != y,
                    CompareOp::Gt => x > y,
                    CompareOp::Lt => x < y,
                    CompareOp::Gte => x >= y,
                    CompareOp::Lte => x <= y,
                };
                vm.push_value(Value::Boolean(r));
            }
            Step::Print(v) => println!("{}", v.display(&show)),
            Step::LoadModule(path) => {
                if path == "math" {
                    vm.enter_module(path, MATH_MODULE, dec, &dbg)?;
                } else {
                    return Err(vm.runtime_error(format!("Failed to load module '{}': not found", path)));
                }
            }
            Step::CallNative { id, args, base } => {
                let r = natives[id](vm, &args)?;
                vm.complete_native(base, r);
            }
        }
    }
}

fn run(vm: &mut VM, chunk: lib::compiler::Chunk, natives: &[Native]) -> Result<(), LiabError> {
    vm.start(chunk);
    drive(vm, natives)
}

/// Compiles and runs a program; the VM is returned to inspect its globals.
fn run_program(source: &str) -> Result<VM, LiabError> {
    let tokens = lex(source, dec).unwrap();
    let stmts = parse(tokens, &dbg).unwrap();
    let compiler = Compiler::new();
    let chunk = compiler.compile(stmts).unwrap();
    let mut vm = VM::new();
    run(&mut vm, chunk, &[])?;
    Ok(vm)
}



// ---- Arithmetic ----

#[test]
fn test_arithmetic() {
    let vm = run_program("let result = 2 + 3 * 4;").unwrap();
    assert_eq!(vm.globals.get("result"), Some(&Value::Number(14.0f64.to_bits())));
}

#[test]
fn test_subtraction() {
    let vm = run_program("let r = 10 - 3;").unwrap();
    assert_eq!(vm.globals.get("r"), Some(&Value::Number(7.0f64.to_bits())));
}

#[test]
fn test_division() {
    let vm = run_program("let r = 10 / 4;").unwrap();
    assert_eq!(vm.globals.get("r"), Some(&Value::Number(2.5f64.to_bits())));
}

#[test]
fn test_division_by_zero() {
    let result = run_program("let r = 10 / 0;");
    assert!(result.is_err());
    assert!(result.unwrap_err().to_string().contains("division by zero"));
}

// ---- Comparisons ----

#[test]
fn test_comparisons() {
    let vm = run_program(
        "let a = 5 > 3; let b = 5 < 3; let c = 5 == 5;\
         let d = 5 != 3; let e = 5 >= 5; let f = 5 <= 4;"
    ).unwrap();
    assert_eq!(vm.globals.get("a"), Some(&Value::Boolean(true)));
    assert_eq!(vm.globals.get("b"), Some(&Value::Boolean(false)));
    assert_eq!(vm.globals.get("c"), Some(&Value::Boolean(true)));
    assert_eq!(vm.globals.get("d"), Some(&Value::Boolean(true)));
    assert_eq!(vm.globals.get("e"), Some(&Value::Boolean(true)));
    assert_eq!(vm.globals.get("f"), Some(&Value::Boolean(false)));
}

// ---- Variables ----

#[test]
fn test_let_and_get() {
    let vm = run_program("let x = 42;").unwrap();
    assert_eq!(vm.globals.get("x"), Some(&Value::Number(42.0f64.to_bits())));
}

#[test]
fn vm_test_assignment() {
    let vm = run_program("let x = 1; x = 42;").unwrap();
    assert_eq!(vm.globals.get("x"), Some(&Value::Number(42.0f64.to_bits())));
}

#[test]
fn test_undefined_variable() {
    let result = run_program("print y;");
    assert!(result.is_err());
    assert!(result.unwrap_err().to_string().contains("Undefined variable"));
}

// ---- Booleans ----

#[test]
fn test_booleans() {
    let vm = run_program("let a = true; let b = false;").unwrap();
    assert_eq!(vm.globals.get("a"), Some(&Value::Boolean(true)));
    assert_eq!(vm.globals.get("b"), Some(&Value::Boolean(false)));
}

// ---- If/Else ----

#[test]
fn test_if_true() {
    let vm = run_program("let x = 0; if true { x = 42; }").unwrap();
    assert_eq!(vm.globals.get("x"), Some(&Value::Number(42.0f64.to_bits())));
}

#[test]
fn test_if_false_else() {
    let vm = run_program(
        "let x = 0; if false { x = 1; } else { x = 99; }"
    ).unwrap();
    assert_eq!(vm.globals.get("x"), Some(&Value::Number(99.0f64.to_bits())));
}

// ---- While ----

#[test]
fn vm_test_while_loop() {
    let vm = run_program(
        "let x = 0; while x < 5 { x = x + 1; }"
    ).unwrap();
    assert_eq!(vm.globals.get("x"), Some(&Value::Number(5.0f64.to_bits())));
}

// ---- Functions ----

#[test]
fn vm_test_function_call() {
    let vm = run_program(
        "fn add(a, b) { return a + b; } let r = add(2, 3);"
    ).unwrap();
    assert_eq!(vm.globals.get("r"), Some(&Value::Number(5.0f64.to_bits())));
}

#[test]
fn vm_test_function_wrong_arity() {
    let result = run_program(
        "fn add(a, b) { return a + b; } add(1);"
    );
    assert!(result.is_err());
    assert!(result.unwrap_err().to_string().contains("expects 2 arguments"));
}

#[test]
fn vm_test_recursive_function() {
    let vm = run_program(
        "fn factorial(n) {\n\
            if n <= 1 { return 1; }\n\
            return n * factorial(n - 1);\n\
        }\n\
        let r = factorial(5);"
    ).unwrap();
    assert_eq!(vm.globals.get("r"), Some(&Value::Number(120.0f64.to_bits())));
}

// ---- Native Rust Functions ----

fn rust_call(vm: &mut VM, args: &[Value]) -> Result<Value, LiabError> {
    if let (Value::String(name), Value::Number(val)) = (&args[0], &args[1]) {
        if name == "process_data" {
            // Double the number as a mock process
            return Ok(Value::Number((f64::from_bits(*val) * 2.0).to_bits()));
        }
    }
    Err(vm.runtime_error("Invalid arguments or unknown function".to_string()))
}

fn zero(_: &mut VM, _: &[Value]) -> Result<Value, LiabError> {
    Ok(Value::Number(0.0f64.to_bits()))
}

fn area(_: &mut VM, _: &[Value]) -> Result<Value, LiabError> {
    Ok(Value::Number(99.9f64.to_bits()))
}

#[test]
fn test_native_function_rust_call() {
    let tokens = lex("let r = rust.call(\"process_data\", 10);", dec).unwrap();
    let stmts = parse(tokens, &dbg).unwrap();
    let chunk = Compiler::new().compile(stmts).unwrap();

    let mut vm = VM::new();
    // Register the native dispatcher "rust.call" into namespace "rust", arity 2
    vm.register_function("rust", "call", 2, 0);

    run(&mut vm, chunk, &[rust_call]).unwrap();
    assert_eq!(vm.globals.get("r"), Some(&Value::Number(20.0f64.to_bits())));
}

#[test]
fn test_native_invalid_arity() {
    let tokens = lex("let r = rust.call(10);", dec).unwrap();
    let stmts = parse(tokens, &dbg).unwrap();
    let chunk = Compiler::new().compile(stmts).unwrap();
    let mut vm = VM::new();
    vm.register_function("rust", "call", 2, 0);
    let err = run(&mut vm, chunk, &[zero]).unwrap_err();
    if let LiabError::RuntimeError { message, .. } = err {
        assert!(message.contains("expects 2 arguments, got 1"));
    } else {
        panic!("Expected RuntimeError");
    }
}

#[test]
fn test_chained_namespace_access() {
    let tokens = lex("let r = math.geo.area();", dec).unwrap();
    let stmts = parse(tokens, &dbg).unwrap();
    let chunk = Compiler::new().compile(stmts).unwrap();
    let mut vm = VM::new();

    let mut geo_ns = Bindings::new();
    geo_ns.insert("area".to_string(), Value::NativeFunction {
        name: "math.geo.area".to_string(),
        arity: 0,
        id: 0,
    });

    let mut math_ns = Bindings::new();
    math_ns.insert("geo".to_string(), Value::Namespace(Rc::new(geo_ns)));

    vm.globals.insert("math".to_string(), Value::Namespace(Rc::new(math_ns)));

    run(&mut vm, chunk, &[area]).unwrap();
    assert_eq!(vm.globals.get("r"), Some(&Value::Number(99.9f64.to_bits())));
}

#[test]
fn test_call_non_function() {
    let tokens = lex("let a = 10; a();", dec).unwrap();
    let stmts = parse(tokens, &dbg).unwrap();
    let chunk = Compiler::new().compile(stmts).unwrap();
    let mut vm = VM::new();
    let err = run(&mut vm, chunk, &[]).unwrap_err();
    if let LiabError::RuntimeError { message, .. } = err {
        assert!(message.contains("Cannot call"), "Unexpected error: {}", message);
    } else {
        panic!("Expected RuntimeError");
    }
}

#[test]
fn test_lazy_module_loading() {
    // The module `math` is served by the test host (see MATH_MODULE).
    let tokens = lex("love \"math\"; let result = math.add(10, 5); let dynamic_pi = math[\"pi\"];", dec).unwrap();
    let stmts = parse(tokens, &dbg).unwrap();
    let chunk = Compiler::new().compile(stmts).unwrap();
    let mut vm = VM::new();
    run(&mut vm, chunk, &[]).unwrap();

    // 10 + 5 from the math `add` module
    assert_eq!(vm.globals.get("result"), Some(&Value::Number(15.0f64.to_bits())));
    assert_eq!(vm.globals.get("dynamic_pi"), Some(&Value::Number(3.14f64.to_bits())));

    // Assert the math namespace caches
    if let Some(Value::Namespace(exports)) = vm.globals.get("math") {
        assert!(exports.contains_key("pi"));
        assert!(exports.contains_key("add"));
    } else {
        panic!("Expected math module to parse locally inside namespace");
    }
}
