//! Arithmetic formulas over signed decimal numbers: `+`, `-`, `*`, `/`,
//! parentheses, and the usual precedence.
//!
//! [`parse_expr`] reads a text as one formula and returns its tree, or
//! says what part of the text it could not read.  The module `grammar`
//! defines what every text comes to; the parser is proved to return
//! exactly that.  The module `laws` states what follows for all texts,
//! and the module `spelling` says what the texts are that are read as a
//! formula: its tokens, with any whitespace between them.

pub mod consumption;
pub mod continuation;
pub mod error;
pub mod grammar;
pub mod laws;
pub mod lexical;
pub mod parser;
pub mod scanner;
pub mod spelling;
pub mod syntax;

pub use error::ParseError;
pub use grammar::Expected;
pub use parser::parse_expr;
pub use syntax::{Expr, Literal, Operator};
