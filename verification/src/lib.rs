//! Lexical front end for a small scripting language.
//!
//! The scanner walks the source text once, left to right, turning it into a
//! flat sequence of tokens plus an ordered list of diagnostics; the comb pass
//! then rewrites the transient newline markers into inferred statement
//! terminators, or deletes them, from local token context.

pub mod comb;
pub mod error;
pub mod token;
pub mod scan_spec;
pub mod scanner;
pub mod unicode;

pub use error::ErrorKind;
pub use error::InterpreterError;
pub use error::InterpreterErrors;
pub use scanner::Scanner;
pub use token::Token;
pub use token::TokenKind;
