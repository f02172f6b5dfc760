pub mod error;
pub mod lexer;
pub mod parser;
pub mod unparse;
