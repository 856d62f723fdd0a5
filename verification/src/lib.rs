//! Scanner for a small scripting language: source text to positioned tokens,
//! a table of scanned files joined over imports, and the signatures of the
//! functions that the table defines.

pub mod common;
pub mod lexer;
pub mod parser;
pub mod resolver;
pub mod table;
pub mod text;
