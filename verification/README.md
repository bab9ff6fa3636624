# minicomp

A small compiler front end, verified with Verus. It lexes a tiny C-like
language (functions, `int` variables and arrays, arithmetic, comparisons,
`while`, `if`/`else`, `break`, `continue`, `print`, `read`, `return`) and
compiles it to a textual intermediate representation (`%func`, `%int`,
`%add`, `%mov`, `%branch_ifn`, ...).

- `src/lexer.rs`: `lex` and its specification `spec_lex`.
- `src/expr.rs`, `src/stmt.rs`, `src/program.rs`: the recursive-descent
  parser; every parsing function is proved to produce exactly the output,
  position, state or error message that the spec function of its grammar
  rule gives.
- `src/state.rs`: symbol table, function table, temporaries.
- `src/text.rs`: decimal notation.
- `app/main.rs`: command-line driver (reads a file, prints the code).
