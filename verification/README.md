# kiln

The front end of the Kiln programming language, verified with Verus.

- `src/token.rs` — the tokens.
- `src/text.rs` — character classes and string building taken from `std`.
- `src/lexer.rs` — the lexer and its specification (`lex_step`, `lex_all`,
  `denotes`), with laws on where lexing ends, on reading all tokens as
  one token at a time, and on blank text in front of a program.
- `src/ast.rs` — the syntax tree and its view (strings as character
  sequences).
- `src/parser.rs` — the recursive-descent parser and its specification
  (functions named `p_*`), with laws on operator precedence.  Struct
  definitions read `struct Name [then] field: type ... end`, the fields
  separated by optional commas or semicolons.
- `src/interpreter.rs` — the debug runner that renders expression statements.
- `src/codegen.rs` — the decisions of code generation: type lowering and
  instruction selection.
- `app/` — the compiler program: reads `program.kiln`, drives LLVM through
  inkwell and runs `main` in the JIT.
- `tests/` — tests of the lexer, the parser, the runner and code generation.
