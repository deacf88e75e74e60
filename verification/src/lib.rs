//! A small statement-oriented scripting language: statement splitting,
//! variables stored as typed byte payloads, CSV loading helpers and an
//! interpreter whose decisions are verified.

pub mod text;
pub mod numbers;
pub mod binary64;
pub mod utf8_text;
pub mod environment;
pub mod csv;
pub mod operations;
pub mod syntax;
pub mod pattern;
pub mod parser;
pub mod compiler;
pub mod interpreter;
