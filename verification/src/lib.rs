//! A front end for the AtomC language: a lexer that turns source text into
//! tokens, a scoped symbol table, and a recursive-descent syntax checker.

pub mod symbol;
pub mod token;
pub mod chars;
pub mod scan;
pub mod lexer;
pub mod symtable;
pub mod grammar;
pub mod parser;
pub mod grammar_laws;
pub mod lex_laws;
