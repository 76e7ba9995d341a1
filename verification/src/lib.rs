//! A lexer for a small C-like language: a character source with lookahead,
//! the token vocabulary, the lexical grammar as specification functions, and
//! a tokenizer proved to produce exactly the token stream the grammar defines.

pub mod grammar;
pub mod scanner;
pub mod text;
pub mod theorems;
pub mod token;
pub mod tokeniser;

pub use scanner::Scanner;
pub use token::Token;
pub use tokeniser::Tokenizer;
