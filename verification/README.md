# lang_parser

A lexer and a recursive-descent parser for a small ML-like language (type
declarations, type signatures, bindings with patterns, arithmetic and
comparison operators, `let`, `if`, `match`, lambdas and type annotations),
verified with Verus.

## Layout

- `src/token.rs`: token kinds and tokens.
- `src/lexer.rs`: source text to tokens; `lex` states what `lexer` returns.
- `src/ast.rs`: the syntax tree; every node has a mathematical view.
- `src/error.rs`: the parse error.
- `src/grammar.rs`: for each parsing rule, what running it at a position of
  a token sequence gives: how many tokens it moves past, and the node or the
  error, or that the parser would stop the program there.
- `src/parser.rs`: the parser. Each of its methods is proved to move and
  return exactly what its rule in `grammar.rs` gives.
- `src/reach.rs`, `src/bounds.rs`, `src/properties.rs`: properties proved for
  every input: the tokens tile the source; every successful rule moves
  forward; no rule moves past the closing `Eof`; a failure stops on the token
  its error names; a successful parse reads the whole source; the spans of
  the statements are ordered slices of the source.
- `tests/`: the parser and lexer run on concrete sources.
