# rustic

A lexer, parser, type checker and tree-walking interpreter for Rustic++, a
small C-like language, written in Verus. The lexer, parser, checker and
interpreter are specified by contracts over mathematical models, and Verus
proves them.

## Layout

- `src/text.rs` — characters and strings: UTF-8 widths, decimal text,
  character classes, and the two calls into `std` the library trusts
  (`String::push` and `str`'s `Debug` text).
- `src/lexer.rs` — `tokenize` and the `Lexer`. The specification `lex`
  follows the lexer's byte counter exactly; `lex_locs` gives the line and
  column where each token starts.
- `src/ast.rs` — the syntax tree, its views, and deep copies.
- `src/parser.rs` — the recursive-descent `Parser`, specified routine by
  routine (`p_program`, `p_item`, `p_stmt`, ...), error messages (with the
  line and column of the offending token) included. A call on a field
  chain, `m.f(x)`, calls the dotted name `m.f`. A number literal is read
  as a float by a function the caller supplies (as the interpreter does
  for its arithmetic); it becomes an integer literal when the float's bit
  pattern holds a whole number within `i64` (`literal_int`), and messages
  print a number as that function prints the float.
- `src/names.rs` — `NameMap`, a map from names to values with distinct
  keys, viewed as a `Map`.
- `src/type_check.rs` — the `TypeChecker`, specified by `t_expr`, `t_stmt`,
  `t_item`, and the laws on the scopes it opens and closes.
- `src/interp.rs` — the interpreter, specified by `ev_expr` and `ev_stmt`:
  a `return` leaves the whole function, and loops run until their
  condition fails (or a `return`, or a `break` in a `while` expression).
  Floating-point arithmetic is done by a function the caller supplies.
- `app/` — the command-line front ends (`rcpp` parses a file; run as
  `rustic-interp` it runs the file's `main`) and the `f64` work: reading
  literals, arithmetic, and `Debug` text.
- `tests/` — tests of each module on concrete programs.
