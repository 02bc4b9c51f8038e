//! Parsing of a GraphQL-like query language into an abstract syntax tree.
//!
//! The text is first split into a token tree (`lexer`), whose bracketed
//! groups are already nested, and then walked by a recursive-descent parser
//! (`parser`) whose productions are specified by the functions of `grammar`.
pub mod ast;
pub mod grammar;
pub mod laws;
pub mod lexer;
pub mod parser;
pub mod text;
pub mod token;
