# crust

A compiler for a small subset of C (functions returning `int`, local
variables, arithmetic, bitwise, relational and logical operators, the
conditional operator, `if`/`else` and `return`) that emits x86-64 assembly in
AT&T syntax.

The library is verified with Verus:

- `src/lexer.rs` — tokens, the token patterns and the claiming of matches by
  position; `lex` turns source text into tokens.
- `src/pattern.rs` — the regular-expression engine (`fancy-regex`) behind the
  lexer, reached through a few trusted wrappers.
- `src/parser.rs` — the syntax tree and a recursive-descent parser, each level
  stated against a mathematical grammar.
- `src/generator.rs` — code generation, stated against a mathematical model of
  the emitted text and of the stack layout.
- `src/numbers.rs` — decimal parsing and printing of integers.
- `src/*_laws.rs` — properties that relate several functions, among them
  that expression code pushes exactly as often as it pops.

`app/main.rs` is the command-line driver: it reads a file, calls the library,
writes the assembly and runs `gcc`.
