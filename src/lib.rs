//! Front end of an interpreter for a small scripting language: a scanner
//! that turns source characters into tokens, and a recursive-descent parser
//! that turns tokens into an expression tree.

pub mod parser;
pub mod scanner;
pub mod token_types;

pub use parser::{valid_tokens, Constant, Expr, Parser, ParserError, UnaryOp};
pub use scanner::{ScanError, Scanner};
pub use token_types::{Literal, Token, TokenType};
