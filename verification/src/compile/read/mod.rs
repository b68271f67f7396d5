pub mod lex;
pub mod token;
pub mod parse;
