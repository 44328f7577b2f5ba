//! Front end of the Loris language: a lexer that turns source text into
//! tokens and a parser that builds statements from them.

pub mod ast;
pub mod lexer;
pub mod parser;
pub mod repl;
mod text;
pub mod token;
