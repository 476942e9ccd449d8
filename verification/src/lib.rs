pub mod error;
pub mod interpreter;
pub mod lexer;
pub mod numeric;
pub mod parser;
pub mod semantics;
pub mod table;
pub mod text;
