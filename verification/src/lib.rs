pub mod ast;
pub mod compile;
pub mod outside;
pub mod parser;
pub mod pre_processing;
pub mod types;
