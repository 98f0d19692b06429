//! Project templates with a small embedded expression language.
//!
//! Text is rendered by replacing each `{{ ... }}` block with the value of the
//! expression inside it; templates decide per file whether it is copied,
//! rendered or skipped.

pub mod text;
pub mod error;
pub mod table;
pub mod ast;
pub mod lexer;
pub mod parser;
pub mod file_options;
pub mod template;
pub mod prompt;
pub mod config;
pub mod args;
