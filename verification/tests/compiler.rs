use lib::lexer::lex;
use lib::parser::parse;
use lib::compiler::{Chunk, Compiler, Instruction};
use lib::value::Value;
use lib::error::LiabError;

fn dec(text: &str) -> u64 {
    text.parse::<f64>().unwrap().to_bits()
}

fn dbg(bits: u64) -> String {
    format!("{:?}", f64::from_bits(bits))
}



/// Helper: compile a source string into a Chunk.
fn compile_source(source: &str) -> Result<Chunk, LiabError> {
    let tokens = lex(source, dec)?;
    let stmts = parse(tokens, &dbg)?;
    let compiler = Compiler::new();
    compiler.compile(stmts)
}

#[test]
fn compile_constant() {
    let chunk = compile_source("42;").unwrap();
    // Should have: Constant(0), Pop, Constant(1), Return
    assert!(matches!(chunk.code[0], Instruction::Constant(0)));
    assert_eq!(chunk.constants[0], Value::Number(42.0f64.to_bits()));
    assert!(matches!(chunk.code[1], Instruction::Pop));
}

#[test]
fn compile_arithmetic() {
    let chunk = compile_source("1 + 2;").unwrap();
    // Constant(0), Constant(1), Add, Pop, ...
    assert!(matches!(chunk.code[0], Instruction::Constant(0)));
    assert!(matches!(chunk.code[1], Instruction::Constant(1)));
    assert!(matches!(chunk.code[2], Instruction::Add));
    assert!(matches!(chunk.code[3], Instruction::Pop));
}

#[test]
fn compile_let_and_print() {
    let chunk = compile_source("let x = 5; print x;").unwrap();
    // Constant(0), DefineGlobal("x"), GetGlobal("x"), Print, ...
    assert!(matches!(chunk.code[0], Instruction::Constant(0)));
    assert!(matches!(chunk.code[1], Instruction::DefineGlobal(_)));
    assert!(matches!(chunk.code[2], Instruction::GetGlobal(_)));
    assert!(matches!(chunk.code[3], Instruction::Print));
}

#[test]
fn compile_if() {
    let chunk = compile_source("if true { print 1; }").unwrap();
    // Should contain a JumpIfFalse
    assert!(chunk.code.iter().any(|i| matches!(i, Instruction::JumpIfFalse(_))));
}

#[test]
fn compile_while() {
    let chunk = compile_source("while false { print 1; }").unwrap();
    // Should contain both JumpIfFalse and Jump (loop back)
    assert!(chunk.code.iter().any(|i| matches!(i, Instruction::JumpIfFalse(_))));
    assert!(chunk.code.iter().any(|i| matches!(i, Instruction::Jump(_))));
}

#[test]
fn compile_function() {
    let chunk = compile_source("fn add(a, b) { return a + b; }").unwrap();
    // Should have a CompiledFunction in the constant pool
    assert!(chunk.constants.iter().any(|v| matches!(v, Value::CompiledFunction { .. })));
}
