# zerox

A small scripting language front end (lexer, parser and the value-independent parts of
an interpreter) written in Verus, with its behaviour stated in contracts and proved.

- `src/lex.rs`, `src/lex/`: the lexer. `lex/scan.rs` states the token grammar as spec
  functions, `lex/laws.rs` proves what every token list looks like.
- `src/parse.rs`, `src/parse/`: the recursive-descent parser. `parse/grammar.rs` states
  the grammar; each `parse_*` function is proved to compute it.
- `src/interpret.rs`, `src/interpret/rules.rs`: variable scopes, string literal text,
  call arity, and the rules operators apply to the kinds of their operands.
- `src/span.rs`, `src/text.rs`, `src/error.rs`, `src/cli.rs`: spans, string helpers,
  the error type and the command-line modes.
- `app/`: the program around the library: reading files and the prompt, printing, and
  the evaluator, which computes with `f64` values.
