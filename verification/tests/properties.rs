use std::rc::Rc;
use lib::lexer::{lex, lex_identifier, Token};
use lib::parser::parse;
use lib::ast::{BinOp, Expr, Stmt};
use lib::compiler::{Chunk, Compiler, Instruction};
use lib::disassembler::{can_list, disassemble_chunk, disassemble_instruction};
use lib::environment::Environment;
use lib::error::LiabError;
use lib::interpreter::Interpreter;
use lib::value::{Bindings, Value};
use lib::vm::{ArithOp, CompareOp, Step, VM};

type Native = fn(&mut VM, &[Value]) -> Result<Value, LiabError>;

fn dec(text: &str) -> u64 {
    text.parse::<f64>().unwrap().to_bits()
}

fn show(bits: u64) -> String {
    let n = f64::from_bits(bits);
    if n.fract() == 0.0 { format!("{}", n as i64) } else { format!("{}", n) }
}

fn dbg(bits: u64) -> String {
    format!("{:?}", f64::from_bits(bits))
}

fn num(x: f64) -> Value {
    Value::Number(x.to_bits())
}

fn arith(op: ArithOp, a: u64, b: u64) -> u64 {
    let (x, y) = (f64::from_bits(a), f64::from_bits(b));
    let r = match op {
        ArithOp::Add => x + y,
        ArithOp::Sub => x - y,
        ArithOp::Mul => x * y,
        ArithOp::Div => x / y,
    };
    r.to_bits()
}

fn relation(op: CompareOp, a: u64, b: u64) -> bool {
    let (x, y) = (f64::from_bits(a), f64::from_bits(b));
    match op {
        CompareOp::Eq => x == y,
        CompareOp::Neq => x != y,
        CompareOp::Gt => x > y,
        CompareOp::Lt => x < y,
        CompareOp::Gte => x >= y,
        CompareOp::Lte => x <= y,
    }
}

fn compile(source: &str) -> Chunk {
    let tokens = lex(source, dec).unwrap();
    let stmts = parse(tokens, &dbg).unwrap();
    Compiler::new().compile(stmts).unwrap()
}

/// What a run did: the values printed and the modules it asked for.
struct Host {
    printed: Vec<Value>,
    loads: Vec<String>,
}

/// Runs `vm` to the end; module sources come from `modules`.
fn drive(vm: &mut VM, modules: &[(&str, &str)], natives: &[Native], host: &mut Host) -> Result<(), LiabError> {
    loop {
        match vm.step(&show, &dbg)? {
            Step::Done => return Ok(()),
            Step::Continue => {}
            Step::Arith { op, a, b } => vm.push_value(Value::Number(arith(op, a, b))),
            Step::Compare { op, a, b } => vm.push_value(Value::Boolean(relation(op, a, b))),
            Step::Print(v) => host.printed.push(v),
            Step::LoadModule(path) => {
                host.loads.push(path.clone());
                match modules.iter().find(|(p, _)| *p == path.as_str()) {
                    Some((_, src)) => vm.enter_module(path, src, dec, &dbg)?,
                    None => return Err(vm.runtime_error(format!("Failed to load module '{}': missing", path))),
                }
            }
            Step::CallNative { id, args, base } => {
                let r = natives[id](vm, &args)?;
                vm.complete_native(base, r);
            }
        }
    }
}

fn run_with(source: &str, modules: &[(&str, &str)]) -> (VM, Host, Result<(), LiabError>) {
    let chunk = compile(source);
    let mut vm = VM::new();
    let mut host = Host { printed: Vec::new(), loads: Vec::new() };
    vm.start(chunk);
    let r = drive(&mut vm, modules, &[], &mut host);
    (vm, host, r)
}

fn runtime_message(r: Result<(), LiabError>) -> String {
    match r {
        Err(LiabError::RuntimeError { message, .. }) => message,
        other => panic!("expected a runtime error, got {:?}", other),
    }
}

fn operand(i: &Instruction) -> Option<usize> {
    match i {
        Instruction::Constant(k) | Instruction::DefineGlobal(k) | Instruction::GetGlobal(k)
        | Instruction::SetGlobal(k) | Instruction::GetProperty(k) | Instruction::Love(k)
        | Instruction::Export(k) => Some(*k),
        _ => None,
    }
}

/// Checks what the well-formedness law states of a chunk and its functions.
fn check_well_formed(c: &Chunk) {
    let n = c.code.len();
    for i in &c.code {
        if let Some(k) = operand(i) {
            assert!(k < c.constants.len());
            if !matches!(i, Instruction::Constant(_)) {
                assert!(matches!(c.constants[k], Value::String(_)));
            }
        }
        match i {
            Instruction::Jump(t) | Instruction::JumpIfFalse(t) => assert!(*t <= n),
            _ => {}
        }
    }
    assert!(n >= 2);
    assert_eq!(c.code[n - 1], Instruction::Return);
    match c.code[n - 2] {
        Instruction::Constant(k) => assert_eq!(c.constants[k], num(0.0)),
        ref other => panic!("expected the implicit return value, got {:?}", other),
    }
    for v in &c.constants {
        if let Value::CompiledFunction { chunk, .. } = v {
            check_well_formed(chunk);
        }
    }
}

// ---- compiler ----

#[test]
fn compiled_chunks_are_well_formed() {
    let chunk = compile(
        "let x = 1; fn f(a, b) { let c = a; if a > b { return a; } else { c = b; } while c < 10 { c = c + 1; } return c; } \
         if x == 1 { print f(1, 2); } while x < 3 { x = x + 1; } love \"m\"; export x;",
    );
    check_well_formed(&chunk);
    assert!(can_list(&chunk));
}

#[test]
fn nested_function_chunks_end_with_return_zero() {
    let chunk = compile("fn outer(a) { fn inner(b) { print b; } inner(a); }");
    check_well_formed(&chunk);
    let outer = chunk.constants.iter().find_map(|v| match v {
        Value::CompiledFunction { chunk, .. } => Some(chunk.clone()),
        _ => None,
    }).unwrap();
    let inner = outer.constants.iter().find_map(|v| match v {
        Value::CompiledFunction { chunk, .. } => Some(chunk.clone()),
        _ => None,
    }).unwrap();
    let n = inner.code.len();
    assert_eq!(inner.code[n - 1], Instruction::Return);
    assert!(matches!(inner.code[n - 2], Instruction::Constant(k) if inner.constants[k] == num(0.0)));
}

#[test]
fn if_else_jumps_are_patched() {
    let chunk = compile("if true { print 1; } else { print 2; }");
    // Constant(0) JumpIfFalse Constant Print Jump Constant Print ...
    assert_eq!(chunk.code[1], Instruction::JumpIfFalse(5));
    assert_eq!(chunk.code[4], Instruction::Jump(7));
}

#[test]
fn while_jumps_back_to_condition() {
    let chunk = compile("while false { print 1; }");
    assert_eq!(chunk.code[1], Instruction::JumpIfFalse(5));
    assert_eq!(chunk.code[4], Instruction::Jump(0));
}

#[test]
fn function_parameters_are_local_slots() {
    let chunk = compile("fn add(a, b) { let c = b; return a + c; }");
    match &chunk.constants[0] {
        Value::CompiledFunction { name, arity, chunk: f, module } => {
            assert_eq!(name, "add");
            assert_eq!(*arity, 2);
            assert_eq!(*module, None);
            assert_eq!(f.code[0], Instruction::GetLocal(1));
            assert_eq!(f.code[1], Instruction::GetLocal(0));
            assert_eq!(f.code[2], Instruction::GetLocal(2));
            assert_eq!(f.code[3], Instruction::Add);
        }
        other => panic!("expected a compiled function, got {:?}", other),
    }
}

#[test]
fn module_functions_carry_their_module() {
    let tokens = lex("fn f() { return 1; }", dec).unwrap();
    let stmts = parse(tokens, &dbg).unwrap();
    let chunk = Compiler::with_module(Some("math".to_string())).compile(stmts).unwrap();
    match &chunk.constants[0] {
        Value::CompiledFunction { module, .. } => assert_eq!(module.as_deref(), Some("math")),
        other => panic!("expected a compiled function, got {:?}", other),
    }
}

#[test]
fn chunk_building_blocks() {
    let mut c = Chunk::new();
    assert_eq!(c.current_offset(), 0);
    let k = c.add_constant(num(7.0));
    assert_eq!(k, 0);
    assert_eq!(c.emit(Instruction::Constant(k)), 0);
    let j = c.emit_jump(Instruction::JumpIfFalse(0xFFFF));
    assert_eq!(j, 1);
    c.emit(Instruction::Pop);
    c.patch_jump(j);
    assert_eq!(c.code[1], Instruction::JumpIfFalse(3));
    assert_eq!(c.current_offset(), 3);
    assert_eq!(Chunk::default().code.len(), 0);
}

// ---- lexer and parser ----

#[test]
fn token_stream_ends_with_one_eof() {
    assert_eq!(lex("", dec).unwrap(), vec![Token::Eof]);
    assert_eq!(lex("// nothing but a comment", dec).unwrap(), vec![Token::Eof]);
    let ts = lex("let a = 1; print a;", dec).unwrap();
    assert_eq!(ts.last(), Some(&Token::Eof));
    assert_eq!(ts.iter().filter(|t| **t == Token::Eof).count(), 1);
}

#[test]
fn identifier_runs() {
    let chars: Vec<char> = "ab_1 c".chars().collect();
    let mut pos = 0;
    assert_eq!(lex_identifier(&chars, &mut pos), "ab_1");
    assert_eq!(pos, 4);
    assert_eq!(lex_identifier(&chars, &mut pos), "");
    assert_eq!(pos, 4);
    let mut far = 10;
    assert_eq!(lex_identifier(&chars, &mut far), "");
    assert_eq!(far, 10);
}

#[test]
fn lex_errors() {
    match lex("\"open", dec) {
        Err(LiabError::SyntaxError(m)) => assert_eq!(m, "Unterminated string literal"),
        other => panic!("unexpected {:?}", other),
    }
    match lex("1.", dec) {
        Err(LiabError::SyntaxError(m)) => assert_eq!(m, "Invalid number literal: '1.'"),
        other => panic!("unexpected {:?}", other),
    }
}

#[test]
fn lex_non_ascii_identifier_characters() {
    let ts = lex("x1é = 2;", dec).unwrap();
    assert_eq!(ts[0], Token::Identifier("x1é".to_string()));
}

#[test]
fn subtraction_associates_left() {
    let stmts = parse(lex("1 - 2 - 3;", dec).unwrap(), &dbg).unwrap();
    match &stmts[0] {
        Stmt::Expression(Expr::BinaryOp { left, op, right }) => {
            assert_eq!(*op, BinOp::Sub);
            assert_eq!(**right, Expr::Number(3.0f64.to_bits()));
            assert!(matches!(**left, Expr::BinaryOp { op: BinOp::Sub, .. }));
        }
        other => panic!("unexpected {:?}", other),
    }
}

#[test]
fn parse_member_and_index() {
    let stmts = parse(lex("a.b[\"c\"];", dec).unwrap(), &dbg).unwrap();
    match &stmts[0] {
        Stmt::Expression(Expr::Index { object, index }) => {
            assert_eq!(**index, Expr::String("c".to_string()));
            assert!(matches!(**object, Expr::Member { .. }));
        }
        other => panic!("unexpected {:?}", other),
    }
}

#[test]
fn parse_reports_unexpected_token() {
    let r = parse(lex("let = 3;", dec).unwrap(), &dbg);
    match r {
        Err(LiabError::SyntaxError(m)) => assert_eq!(m, "Expected variable name after 'let', found Equals"),
        other => panic!("unexpected {:?}", other),
    }
    let r = parse(lex("let 5 = 3;", dec).unwrap(), &dbg);
    match r {
        Err(LiabError::SyntaxError(m)) => assert_eq!(m, "Expected variable name after 'let', found Number(5.0)"),
        other => panic!("unexpected {:?}", other),
    }
    let r = parse(lex("print (1;", dec).unwrap(), &dbg);
    match r {
        Err(LiabError::SyntaxError(m)) => assert_eq!(m, "Expected RightParen, found Semicolon"),
        other => panic!("unexpected {:?}", other),
    }
}

// ---- disassembler ----

#[test]
fn disassembled_lines_match_the_listing_format() {
    let chunk = compile("let x = 42; print x; if x { print 1; }");
    assert_eq!(disassemble_instruction(&chunk, 0, &show), format!("0000  {:<16} {:>4}    ; {}", "Constant", 0, 42));
    assert_eq!(disassemble_instruction(&chunk, 1, &show), format!("0001  {:<16} {:>4}    ; '{}'", "DefineGlobal", 1, "\"x\""));
    assert_eq!(disassemble_instruction(&chunk, 3, &show), "0003  Print");
    assert_eq!(disassemble_instruction(&chunk, 5, &show), format!("0005  {:<16} -> {:04}", "JumpIfFalse", 8));
    let listing = disassemble_chunk(&chunk, "<script>", &show);
    assert!(listing.starts_with("== <script> ==\n0000  Constant"));
    assert_eq!(listing.lines().count(), 1 + chunk.code.len());
}

#[test]
fn unlistable_chunk_is_detected() {
    let chunk = Chunk { code: vec![Instruction::Constant(5)], constants: vec![] };
    assert!(!can_list(&chunk));
}

// ---- values ----

#[test]
fn value_text() {
    assert_eq!(num(2.5).display(&show), "2.5");
    assert_eq!(num(3.0).display(&show), "3");
    assert_eq!(Value::Boolean(true).display(&show), "true");
    assert_eq!(Value::String("hi".to_string()).display(&show), "\"hi\"");
    let native = Value::NativeFunction { name: "rust.call".to_string(), arity: 2, id: 0 };
    assert_eq!(native.display(&show), "<native fn rust.call>");
    assert_eq!(Value::Namespace(Rc::new(Bindings::new())).display(&show), "<namespace>");
    assert_eq!(num(2.0).debug(&dbg), "Number(2.0)");
    assert_eq!(Value::String("a\"b".to_string()).debug(&dbg), "String(\"a\\\"b\")");
    assert_eq!(native.debug(&dbg), "NativeFunction { name: \"rust.call\", arity: 2, .. }");
}

#[test]
fn debug_text_shows_every_field() {
    let f = Value::Function {
        name: "f".to_string(),
        params: Rc::new(vec!["a".to_string()]),
        body: Rc::new(vec![
            Stmt::Let { name: "b".to_string(), value: Expr::BinaryOp {
                left: Box::new(Expr::Identifier("a".to_string())),
                op: BinOp::Mul,
                right: Box::new(Expr::Number(2.0f64.to_bits())),
            } },
            Stmt::If {
                condition: Expr::Boolean(true),
                then_body: vec![Stmt::Return(Expr::Identifier("b".to_string()))],
                else_body: None,
            },
            Stmt::Expression(Expr::FunctionCall {
                callee: Box::new(Expr::Member { object: Box::new(Expr::Identifier("m".to_string())), property: "g".to_string() }),
                args: vec![Expr::String("s".to_string()), Expr::Number(1.5f64.to_bits())],
            }),
        ]),
    };
    assert_eq!(
        f.debug(&dbg),
        "Function { name: \"f\", params: [\"a\"], body: [Let { name: \"b\", value: BinaryOp { left: Identifier(\"a\"), op: Mul, right: Number(2.0) } }, \
         If { condition: Boolean(true), then_body: [Return(Identifier(\"b\"))], else_body: None }, \
         Expression(FunctionCall { callee: Member { object: Identifier(\"m\"), property: \"g\" }, args: [String(\"s\"), Number(1.5)] })] }"
    );
    let chunk = compile("fn f(a) { return a + 1; }");
    let compiled = chunk.constants.iter().find(|v| matches!(v, Value::CompiledFunction { .. })).unwrap();
    assert_eq!(
        compiled.debug(&dbg),
        "CompiledFunction { name: \"f\", arity: 1, chunk: Chunk { code: [GetLocal(0), Constant(0), Add, Return, Constant(1), Return], \
         constants: [Number(1.0), Number(0.0)] }, module_path: None }"
    );
    let mut b: Bindings<Value> = Bindings::new();
    b.insert("pi".to_string(), num(3.5));
    b.insert("add".to_string(), Value::Boolean(false));
    b.insert("Z".to_string(), Value::String("z".to_string()));
    assert_eq!(
        Value::Namespace(Rc::new(b)).debug(&dbg),
        "Namespace({\"Z\": String(\"z\"), \"add\": Boolean(false), \"pi\": Number(3.5)})"
    );
    assert_eq!(Value::Namespace(Rc::new(Bindings::new())).debug(&dbg), "Namespace({})");
}

#[test]
fn runtime_errors_name_the_frame_and_instruction() {
    let vm = VM::new();
    match vm.runtime_error("boom".to_string()) {
        LiabError::RuntimeError { message, ip, frame_name } => {
            assert_eq!(message, "boom");
            assert_eq!(ip, 0);
            assert_eq!(frame_name, "<missing_frame>");
        },
        other => panic!("expected a runtime error, got {:?}", other),
    }
    let (_, _, r) = run_with("fn f() { return 1; } let x = f + 1;", &[]);
    assert_eq!(
        runtime_message(r),
        "Operand must be a number, got CompiledFunction { name: \"f\", arity: 0, chunk: Chunk { code: [Constant(0), Return, \
         Constant(1), Return], constants: [Number(1.0), Number(0.0)] }, module_path: None }"
    );
}

#[test]
fn bindings_insert_get_remove() {
    let mut b: Bindings<Value> = Bindings::new();
    b.insert("a".to_string(), num(1.0));
    b.insert("a".to_string(), num(2.0));
    assert_eq!(b.get("a"), Some(&num(2.0)));
    assert!(b.contains_key("a"));
    assert_eq!(b.remove("a"), Some(num(2.0)));
    assert_eq!(b.get("a"), None);
    assert_eq!(b.remove("a"), None);
}

// ---- virtual machine ----

#[test]
fn define_then_get_gives_back_the_value() {
    let (vm, host, r) = run_with("let x = 5; print x;", &[]);
    assert!(r.is_ok());
    assert_eq!(host.printed, vec![num(5.0)]);
    assert_eq!(vm.globals.get("x"), Some(&num(5.0)));
}

#[test]
fn division_by_zero_reports_the_instruction() {
    let (_, _, r) = run_with("let a = 1; let r = a / 0;", &[]);
    match r {
        Err(LiabError::RuntimeError { message, ip, frame_name }) => {
            assert_eq!(message, "Runtime error: division by zero");
            assert_eq!(ip, 4);
            assert_eq!(frame_name, "<script>");
        }
        other => panic!("unexpected {:?}", other),
    }
}

#[test]
fn negative_zero_divisor_is_refused() {
    let chunk = Chunk {
        code: vec![Instruction::Constant(0), Instruction::Constant(1), Instruction::Div],
        constants: vec![num(1.0), num(-0.0)],
    };
    let mut vm = VM::new();
    vm.start(chunk);
    let mut host = Host { printed: Vec::new(), loads: Vec::new() };
    let r = drive(&mut vm, &[], &[], &mut host);
    assert_eq!(runtime_message(r), "Runtime error: division by zero");
}

#[test]
fn cyclic_modules_are_refused() {
    let modules = [("a", "love \"b\";"), ("b", "love \"a\";")];
    let (_, host, r) = run_with("love \"a\";", &modules);
    assert_eq!(runtime_message(r), "Cyclic dependency detected: 'a'");
    assert_eq!(host.loads, vec!["a".to_string(), "b".to_string()]);
}

#[test]
fn a_module_is_loaded_once() {
    let modules = [("m", "let v = 7; export v;")];
    let (vm, host, r) = run_with("love \"m\"; love \"m\"; let w = m.v;", &modules);
    assert!(r.is_ok());
    assert_eq!(host.loads, vec!["m".to_string()]);
    assert_eq!(vm.globals.get("w"), Some(&num(7.0)));
}

#[test]
fn module_is_bound_under_its_file_stem() {
    let modules = [("lib/tools", "let t = 1; export t;")];
    let (vm, _, r) = run_with("love \"lib/tools\"; let got = tools.t;", &modules);
    assert!(r.is_ok());
    assert_eq!(vm.globals.get("got"), Some(&num(1.0)));
    assert!(vm.globals.contains_key("tools"));
}

#[test]
fn module_variables_stay_in_the_module() {
    let modules = [("m", "let hidden = 1; let shown = 2; export shown;")];
    let (vm, _, r) = run_with("love \"m\"; let y = m.hidden;", &modules);
    assert_eq!(runtime_message(r), "Property 'hidden' not found in namespace");
    assert!(!vm.globals.contains_key("hidden"));
}

#[test]
fn export_needs_a_module() {
    let (_, _, r) = run_with("let x = 1; export x;", &[]);
    assert_eq!(runtime_message(r), "Cannot export from top-level script, only modules");
}

#[test]
fn missing_module_export() {
    let modules = [("m", "export nothing;")];
    let (_, _, r) = run_with("love \"m\";", &modules);
    assert_eq!(runtime_message(r), "Undefined variable to export: 'nothing'");
}

#[test]
fn module_lex_errors_are_reported() {
    let modules = [("m", "let $ = 1;")];
    let (_, _, r) = run_with("love \"m\";", &modules);
    assert_eq!(runtime_message(r), "Module lex error: Syntax Error: Unknown character: '$'");
}

#[test]
fn vm_runtime_errors() {
    let (_, _, r) = run_with("y = 1;", &[]);
    assert_eq!(runtime_message(r), "Undefined variable: 'y'");
    let (_, _, r) = run_with("let a = true + 1;", &[]);
    assert_eq!(runtime_message(r), "Operand must be a number, got Boolean(true)");
    let (_, _, r) = run_with("let a = 1; let b = a.p;", &[]);
    assert_eq!(runtime_message(r), "Cannot access property 'p' on Number(1.0)");
    let (_, _, r) = run_with("let a = 2.5; let b = a[\"k\"];", &[]);
    assert_eq!(runtime_message(r), "Cannot index into '2.5'");
    let (_, _, r) = run_with("let a = \"s\"; a();", &[]);
    assert_eq!(runtime_message(r), "Cannot call '\"s\"' — it is not a function");
}

#[test]
fn namespace_index_must_be_a_string() {
    let mut vm = VM::new();
    vm.register_function("ns", "f", 0, 0);
    vm.start(compile("let r = ns[1];"));
    let mut host = Host { printed: Vec::new(), loads: Vec::new() };
    let r = drive(&mut vm, &[], &[], &mut host);
    assert_eq!(runtime_message(r), "Namespace index must be a string");
}

#[test]
fn malformed_bytecode_is_refused() {
    let mut vm = VM::new();
    vm.start(Chunk { code: vec![Instruction::Pop], constants: vec![] });
    let mut host = Host { printed: Vec::new(), loads: Vec::new() };
    let r = drive(&mut vm, &[], &[], &mut host);
    assert_eq!(runtime_message(r), "Stack underflow on Pop");

    let mut vm = VM::new();
    vm.start(Chunk { code: vec![Instruction::Constant(3)], constants: vec![] });
    let r = drive(&mut vm, &[], &[], &mut host);
    assert_eq!(runtime_message(r), "Constant index out of range");

    let mut vm = VM::new();
    vm.start(Chunk { code: vec![Instruction::GetLocal(4)], constants: vec![] });
    let r = drive(&mut vm, &[], &[], &mut host);
    assert_eq!(runtime_message(r), "Stack underflow on GetLocal");
}

#[test]
fn stepping_without_a_frame() {
    let mut vm = VM::new();
    match vm.step(&show, &dbg) {
        Err(LiabError::RuntimeError { message, ip, frame_name }) => {
            assert_eq!(message, "No active call frame");
            assert_eq!(ip, 0);
            assert_eq!(frame_name, "<missing_frame>");
        }
        other => panic!("unexpected {:?}", other),
    }
}

#[test]
fn call_returns_to_the_caller_stack() {
    let (vm, host, r) = run_with("fn two() { return 2; } print 1 + two() * 3;", &[]);
    assert!(r.is_ok());
    assert_eq!(host.printed, vec![num(7.0)]);
    assert!(vm.globals.contains_key("two"));
}

#[test]
fn register_function_keeps_other_globals() {
    let mut vm = VM::new();
    vm.globals.insert("rust".to_string(), num(1.0));
    vm.register_function("rust", "call", 2, 0);
    assert_eq!(vm.globals.get("rust"), Some(&num(1.0)));
    vm.register_function("math", "sin", 1, 3);
    vm.register_function("math", "cos", 1, 4);
    match vm.globals.get("math") {
        Some(Value::Namespace(ns)) => {
            assert_eq!(ns.get("cos"), Some(&Value::NativeFunction { name: "math.cos".to_string(), arity: 1, id: 4 }));
            assert!(ns.contains_key("sin"));
        }
        other => panic!("unexpected {:?}", other),
    }
}

#[test]
fn trace_shows_stack_and_next_instruction() {
    let mut vm = VM::new();
    vm.start(compile("print 1 + 2;"));
    assert_eq!(vm.trace_text(&show), Some(format!("{}\n0000  {:<16} {:>4}    ; 1\n", " ".repeat(10), "Constant", 0)));
    vm.step(&show, &dbg).unwrap();
    vm.step(&show, &dbg).unwrap();
    assert_eq!(vm.trace_text(&show), Some(format!("{}[ 1 ][ 2 ]\n0002  Add\n", " ".repeat(10))));
}

// ---- environment ----

#[test]
fn environment_laws_on_values() {
    let mut global = Environment::new();
    global.define("x".to_string(), num(1.0));
    global.define("y".to_string(), num(2.0));
    let mut child = Environment::with_parent(global);
    assert_eq!(child.get("x"), Some(&num(1.0)));
    child.define("x".to_string(), num(10.0));
    assert_eq!(child.get("x"), Some(&num(10.0)));
    child.set("y", num(20.0)).unwrap();
    assert_eq!(child.get("y"), Some(&num(20.0)));
    assert_eq!(child.get("x"), Some(&num(10.0)));
    assert_eq!(child.set("z", num(0.0)), Err("Undefined variable: 'z'".to_string()));
    let parent = child.into_parent().unwrap();
    assert_eq!(parent.get("x"), Some(&num(1.0)));
    assert_eq!(parent.get("y"), Some(&num(20.0)));
    assert!(parent.into_parent().is_none());
}

// ---- interpreter ----

fn interpret(source: &str, fuel: u64) -> (Interpreter, Vec<Value>, Result<(), String>) {
    let stmts = parse(lex(source, dec).unwrap(), &dbg).unwrap();
    let mut interp = Interpreter::new();
    let mut out = Vec::new();
    let r = interp.run(stmts, fuel, &mut out, &dbg, &arith, &relation);
    (interp, out, r)
}

#[test]
fn interpreter_collects_printed_values() {
    let (_, out, r) = interpret("print 1; print \"a\"; print 2 > 1;", u64::MAX);
    assert!(r.is_ok());
    assert_eq!(out, vec![num(1.0), Value::String("a".to_string()), Value::Boolean(true)]);
}

#[test]
fn interpreter_errors() {
    assert_eq!(interpret("let a = true + 1;", u64::MAX).2, Err("Expected a number, got true".to_string()));
    assert_eq!(interpret("let a = b.c;", u64::MAX).2, Err("Interpreter does not support member access".to_string()));
    assert_eq!(interpret("love \"m\";", u64::MAX).2, Err("Interpreter does not support loading modules natively".to_string()));
    assert_eq!(interpret("let a = 1; a();", u64::MAX).2, Err("Cannot call 'Number(1.0)' — it is not a function".to_string()));
}

#[test]
fn interpreter_string_truthiness() {
    // Only `false` and zero are false: every string, the empty one too, is true.
    let (interp, _, r) = interpret("let a = 0; if \"\" { a = 1; } else { a = 2; } if \"x\" { a = a + 10; }", u64::MAX);
    assert!(r.is_ok());
    assert_eq!(interp.env.get("a"), Some(&num(11.0)));
    let (interp, _, r) = interpret("let a = 0; if false { a = 1; } if 0 { a = a + 2; } if -0 { a = a + 4; }", u64::MAX);
    assert!(r.is_ok());
    assert_eq!(interp.env.get("a"), Some(&num(0.0)));
}

#[test]
fn interpreter_blocks_keep_outer_names() {
    let (interp, _, r) = interpret("let x = 10; { let y = 20; x = 5; { let z = y; } }", u64::MAX);
    assert!(r.is_ok());
    assert_eq!(interp.env.get("x"), Some(&num(5.0)));
    assert_eq!(interp.env.get("y"), None);
    assert_eq!(interp.env.get("z"), None);
    let (interp, _, r) = interpret("let n = 0; fn f() { let local = 1; return local; } n = f(); if true { let t = 2; }", u64::MAX);
    assert!(r.is_ok());
    assert_eq!(interp.env.get("n"), Some(&num(1.0)));
    assert_eq!(interp.env.get("local"), None);
    assert_eq!(interp.env.get("t"), None);
}

#[test]
fn vm_runs_are_deterministic() {
    let source = "love \"m\"; let i = 0; let s = 0; while i < 5 { s = s + m.twice(i); i = i + 1; print s; }";
    let modules = [("m", "fn twice(n) { return n * 2; } export twice;")];
    let (vm1, host1, r1) = run_with(source, &modules);
    let (vm2, host2, r2) = run_with(source, &modules);
    assert!(r1.is_ok());
    assert_eq!(format!("{:?}", r1), format!("{:?}", r2));
    assert_eq!(host1.printed, host2.printed);
    assert_eq!(host1.loads, host2.loads);
    assert_eq!(format!("{:?}", vm1), format!("{:?}", vm2));
    assert_eq!(host1.printed.last(), Some(&num(20.0)));
}

#[test]
fn interpreter_fuel_limits_loops_and_calls() {
    let (_, _, r) = interpret("let i = 0; while true { i = i + 1; }", 3);
    assert_eq!(r, Err("Execution limit reached".to_string()));
    let (interp, _, r) = interpret("let i = 0; while i < 3 { i = i + 1; }", 3);
    assert!(r.is_ok());
    assert_eq!(interp.env.get("i"), Some(&num(3.0)));
    let (_, _, r) = interpret("fn f(n) { return f(n); } f(1);", 5);
    assert_eq!(r, Err("Execution limit reached".to_string()));
}

#[test]
fn interpreter_functions_see_the_caller_scope() {
    let (interp, _, r) = interpret("let k = 3; fn g() { return k * 2; } let r = g();", u64::MAX);
    assert!(r.is_ok());
    assert_eq!(interp.env.get("r"), Some(&num(6.0)));
}
