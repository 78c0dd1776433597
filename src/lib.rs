//! Documentation extraction for a declaration language of native
//! functions, enumerations, structures and constants: a parser from text
//! to declarations, the canonical text of expressions, and the assembly of
//! declarations into one document keyed by type name, constant name and
//! native hash.
pub mod model;
pub mod text;
pub mod lexer;
pub mod expr_spec;
pub mod expr_parser;
pub mod grammar_spec;
pub mod parser;
pub mod document;
pub mod mapping;
pub mod laws;
