pub mod chars;
pub mod lex;
pub mod lexer;
pub mod lexing;
pub mod tokens;
