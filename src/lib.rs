pub mod lexer;
pub mod text;
pub mod token;

pub use lexer::{Lexer, LexerError};
pub use token::{keyword_to_token, Token};
