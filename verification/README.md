# paw_lang

A compiler from the paw language to Luau, written in Verus.

- `src/lexer/scanner.rs`: the scanner, from source text to tokens, with every
  diagnostic collected.
- `src/lexer/parser.rs`: a recursive-descent parser with error recovery; each
  parsing function is proved equal to a functional definition of the grammar.
- `src/lexer/expr.rs`, `src/codegen/statements.rs`: the syntax trees, their
  mathematical views and their prefix (S-expression) forms.
- `src/codegen/`: the emitter (text with indentation) and the code generator,
  proved to produce exactly the Luau text that `stmts_code` defines.
- `src/error/`: diagnostics, their messages, codes, help texts and labels.
- `src/lexer/precedence.rs`: the proof that the parser groups operators by
  precedence and associates them to the left.
- `src/lowerable.rs`: the proof that every program the parser accepts can be
  lowered.
- `src/lib.rs`: `compile_tokens`, parsing and lowering in one call.
- `app/lib.rs`: `compile` and `compile_report`, which print number literals
  through `f64` and render diagnostics with `miette`.

Run the tests with the verified build; `tests/` holds one file per part.
