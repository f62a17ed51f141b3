pub mod ast;
pub mod error;
pub mod grammar;
pub mod lexer;
pub mod parser;
pub mod token;
pub mod properties;
pub mod reach;
pub mod bounds;
pub mod shapes;
pub mod chains;
pub mod forms;
pub mod compound;
