# atomc

A front end for AtomC, a small C-like language, written in Verus.

- `src/token.rs`: tokens and their mathematical values.
- `src/scan.rs`: the lexical grammar as spec functions over sequences of
  characters (`skip`, `scan_token`, `next_token`, `lex_from`) and the laws of
  the lexer.
- `src/lexer.rs`: the executable lexer, proved to compute `next_token` and
  `lex_from` exactly.
- `src/chars.rs`: character classes (white space decided here; letters and
  digits through `char`'s own methods, whose contracts the proofs take on
  trust) and `String::push`.
- `src/symbol.rs`, `src/symtable.rs`: symbols and the scoped symbol table, with
  the laws of definition, lookup and scopes.
- `src/grammar.rs`: the syntax as the recursive-descent checker reads it, as
  spec functions over tokens and the state of the symbol table.
- `src/parser.rs`: the executable checker, proved to follow `grammar.rs`.
- `app/main.rs`: the command-line driver that reads files and prints tokens.
- `tests/`: tests of the lexer, the symbol table and the checker.
