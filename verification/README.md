# mysz_core

The front end and middle end of a compiler for the mysz language, verified with Verus.

- `src/lexing`: the lexer, from source text to tokens.
- `src/parse`: the AST and the recursive-descent parser.
- `src/semantics`: the analyser: scopes, types, generic and variadic functions.
- `src/ir`: three-address code and the lowering of the AST to it.
- `src/backend`: a NASM text back end, and the decisions an object-code back end makes
  before it calls a code generator.
- `src/compiler.rs`, `src/athelp.rs`, `src/utils`: compilation units, their
  dependency order, import resolution and merging, error reports.
- `app/`: the command-line driver, which reads files and prints what the library
  reports.
- `tests/`: tests of the library.

Every function in `src/` carries a contract that Verus checks; the few calls into the
standard library and `indexmap` that Verus cannot read sit in small wrappers whose
contracts state what those functions are documented to do.
