//! A lexical scanner for the rex language: source text in, a lazy stream of
//! typed, position-annotated tokens out.

mod text;
pub mod laws;
pub mod lexer;
pub mod scanner;
pub mod token;
pub mod utilities;

pub use utilities::{is_alphabetical, is_alphanumeric, is_integer, is_numeric, Position};
pub use token::{Token, TokenType};
pub use scanner::Scanner;
