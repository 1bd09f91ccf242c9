pub mod calc;
pub mod laws;
pub mod parser;
pub mod tokenizer;
pub mod value;
pub mod visitors;
