//! A single-pass tokenizer: source text in, a flat sequence of classified
//! tokens with their line and column spans out, or the first lexical error.

pub mod chars;
pub mod error;
pub mod grammar;
pub mod invariants;
pub mod laws;
pub mod lexer;
pub mod locating;
pub mod machine;
pub mod relexing;
pub mod text;
pub mod token;

pub use crate::error::{LexError, LexErrorType};
pub use crate::lexer::Lexer;
pub use crate::token::{Operator, Token, TokenType};
