//! The front end of an interpreter for a small expression language: a
//! scanner from source text to tokens, a recursive-descent parser from tokens
//! to expression trees, and a printer of those trees.
pub mod ast;
pub mod error;
pub mod parser;
pub mod scanner;
pub mod token;

pub use ast::{Expr, Literal};
pub use error::Error;
pub use parser::Parser;
pub use scanner::{Diagnostic, Scanner};
pub use token::{Token, TokenType};
