//! A compiler from message definitions to schema records.
//!
//! A message definition is a text of lines that define constants and fields. It is parsed
//! into a tree as its grammar says (`grammar`, `tokens`, `pattern`, `parser`, `tree`), the
//! message is read off the tree (`ast`), and the message is lowered into the record that a
//! schema is rendered from (`lower`, `mapping`, `schema_id`). `compiler` runs the stages
//! one after the other.

pub mod ast;
pub mod compiler;
pub mod error;
pub mod grammar;
pub mod lower;
pub mod mapping;
pub mod parser;
pub mod pattern;
pub mod schema_id;
pub mod text;
pub mod tokens;
pub mod tree;
