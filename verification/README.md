# timothy

A small scripting language: a lexer, a Pratt parser, a compiler to byte
code and a stack-based virtual machine, verified with Verus.

    let var = 10;
    fun add(a, b) { a + b; };
    add(var, 2);

Layout:

- `src/opcode.rs`: the instructions and operators and their byte encoding.
- `src/value.rs`, `src/text.rs`, `src/arith.rs`: values, message texts and
  the arithmetic of the language.
- `src/machine.rs`: the meaning of each instruction as a specification.
- `src/vm.rs`: the virtual machine, proved to follow `machine.rs`.
- `src/ast.rs`, `src/lexer.rs`, `src/parser.rs`, `src/printer.rs`: the
  syntax tree, the lexer, the parser and interpreter, the tree printer.
- `src/compiler.rs`, `src/codegen.rs`: the compiler's tables and the code
  generator.
- `app/lib.rs`: floating-point arithmetic (through `ordered_float`), file
  reading and printing of diagnostics for programs that embed the
  interpreter.

Floating-point numbers are carried as bit patterns; the embedding program
supplies their arithmetic through the `FloatOps` trait.
