//! Front end of a small templating language: a lexer that turns source text
//! into a token stream, a recursive-descent parser that builds an abstract
//! syntax tree, a flat symbol table filled by declarations met during the
//! parse, and a diagnostics collection that lets the parse continue past
//! recoverable syntax errors.

pub mod ast;
pub mod diagnostic;
pub mod lexer;
pub mod parser;
pub mod symbol_table;
pub mod token;
