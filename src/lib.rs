//! Lexical front end of a small statically typed scripting language: a
//! character cursor, a scanner that turns source text into tokens, and a
//! renderer for source-anchored diagnostics.
pub mod char_stream;
mod chars;
pub mod error_handling;
pub mod laws;
pub mod lexicon;
pub mod scanner;
pub mod token;

pub use crate::char_stream::CharStream;
pub use crate::error_handling::{ErrorHandler, LineInformation};
pub use crate::token::{Token, TokenType};
pub use crate::scanner::{scan, tokenize, Diagnostic, ScannerError};
pub use crate::lexicon::ScanErrorKind;
