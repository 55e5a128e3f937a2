//! Front end of a small imperative language: a mode-switching lexical
//! scanner that turns source text into a token stream with per-token
//! positions and accumulated diagnostics, and a recursive-descent parser
//! that builds an abstract syntax tree from that stream.

pub mod ast;
pub mod ast_nodes;
pub mod char_classes;
pub mod laws;
pub mod lex_errors;
pub mod parse_model;
pub mod parser;
pub mod position;
pub mod scan_model;
pub mod scanner;
pub mod tokens;
pub mod utils;
