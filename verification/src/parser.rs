pub mod error;
pub mod parser;
