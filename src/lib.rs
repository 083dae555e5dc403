//! A tokenizer for a small SQL-like query language.
//!
//! Query text is split into keywords, symbols, identifiers, string literals
//! and numeric literals, each carrying the position of its first character.

pub mod location;
pub mod token;
pub mod rules;
pub mod lexers;
pub mod tokenizer;
pub mod laws;
pub mod reader;
pub mod joining;
