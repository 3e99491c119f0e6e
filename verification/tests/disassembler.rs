use lib::lexer::lex;
use lib::parser::parse;
use lib::compiler::{Chunk, Compiler};
use lib::disassembler::{disassemble_chunk, disassemble_instruction};

fn dec(text: &str) -> u64 {
    text.parse::<f64>().unwrap().to_bits()
}

fn dbg(bits: u64) -> String {
    format!("{:?}", f64::from_bits(bits))
}

/// How `print` shows a number: integral values without a fraction.
fn show(bits: u64) -> String {
    let n = f64::from_bits(bits);
    if n.fract() == 0.0 { format!("{}", n as i64) } else { format!("{}", n) }
}



fn compile(source: &str) -> Chunk {
    let tokens = lex(source, dec).unwrap();
    let stmts = parse(tokens, &dbg).unwrap();
    Compiler::new().compile(stmts).unwrap()
}

#[test]
fn test_disassemble_simple() {
    let chunk = compile("let x = 42; print x;");
    let output = disassemble_chunk(&chunk, "<script>", &show);
    assert!(output.contains("== <script> =="));
    assert!(output.contains("Constant"));
    assert!(output.contains("42"));
    assert!(output.contains("DefineGlobal"));
    assert!(output.contains("Print"));
    assert!(output.contains("Return"));
}

#[test]
fn test_disassemble_function() {
    let chunk = compile("fn add(a, b) { return a + b; }");
    let output = disassemble_chunk(&chunk, "<script>", &show);
    // Should have the script-level listing AND a nested
    // "== fn add ==" section.
    assert!(output.contains("== fn add =="));
    assert!(output.contains("GetLocal"));
    assert!(output.contains("Add"));
}

#[test]
fn test_disassemble_jumps() {
    let chunk = compile("if true { print 1; }");
    let output = disassemble_chunk(&chunk, "<script>", &show);
    assert!(output.contains("JumpIfFalse"));
}

#[test]
fn test_disassemble_instruction_single() {
    let chunk = compile("42;");
    let line = disassemble_instruction(&chunk, 0, &show);
    assert!(line.contains("Constant"));
    assert!(line.contains("42"));
}
