# jolang

The toolchain of the Jolang language, verified with Verus: a lexer and a parser for
Jolang sources, scopes of variables, an intermediate representation with its text form
and its bytecode object format, the builtin functions, and the older tape assembler.

- `src/source.rs`, `src/chars.rs`, `src/text.rs`: source buffers, cursors and readers.
- `src/lexer.rs`: tokens, stated over the characters of the text.
- `src/ast.rs`, `src/builder.rs`: the syntax tree and the parser, each parsing function
  stated by a specification function over the text and the reader's state.
- `src/scope.rs`: declarations of variables in a scope.
- `src/ir.rs`, `src/printer.rs`, `src/bytecode.rs`: the intermediate representation, its
  text, and its object format (see `lemma_read_write` for reading back what was written).
- `src/ffi.rs`, `src/platform.rs`: builtin functions and platforms.
- `src/tape.rs`: sections, text and data of tape programs, and their objects.
- `src/generator.rs`: the state of code generation: blocks being written with the
  sizes on their stacks (by the stack effects of the instruction table), the place of
  the next instruction, external functions, and scopes of variables.
- `app/main.rs`: the `jolang` command (files, arguments, printing).

What the library does not hold: the translation of statements and expressions into
instructions, and a runtime that executes objects (the LLVM one). The translation
reads variables with an instruction that copies a value from deep in the stack, which
the object format's instruction set does not have (it keeps variables in local slots),
and it counts sizes in bits where the format counts bytes. So `jolang build` parses
and checks a source and then fails with "no code generator is available", and
`jolang run` reads and checks an object and then fails with "no compatible runtimes
found".
