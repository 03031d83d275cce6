pub mod ast;
pub mod grammar;
pub mod numeral;
pub mod parser;
