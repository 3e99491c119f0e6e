# LIAB, verified

LIAB is a small scripting language: a lexer, a recursive-descent parser, a
bytecode compiler, a stack virtual machine with modules and native functions,
a disassembler, and a tree-walking interpreter. The library in `src/` is
written in Verus; every function carries a contract that the verifier proves.

## Layout

- `src/lexer.rs`, `src/parser.rs`: tokens and the grammar, each specified by a
  spec function (`spec_lex`, `spec_parse`) that the code is proved to compute.
- `src/compiler.rs`: code generation (`program_chunk`), and the law that every
  compiled chunk is well-formed (operands exist, jumps land in the code, each
  chunk ends with the implicit `return 0`).
- `src/vm.rs`: the machine as a state transition (`step_spec`); `VM::step`
  executes one instruction and hands the host the work it cannot do itself.
  Laws cover cyclic module loading, module caching, division by zero,
  exports, definition then lookup, calls and returns.
- `src/disassembler.rs`, `src/environment.rs`, `src/interpreter.rs`,
  `src/value.rs`, `src/error.rs`, `src/ast.rs`, `src/text.rs`.
- `app/main.rs`: the command-line runner (`liab [--disassemble] [--trace] <file.liab>`).
- `tests/`: tests of every module.

## Numbers and the host

LIAB numbers are IEEE-754 doubles. The library carries them as their bit
patterns (`u64`); the host decodes literals, performs arithmetic and
comparisons, and renders numbers as text, through closures or through the
`Step` values the machine returns.
