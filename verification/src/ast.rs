pub mod attribute;
pub mod block;
pub mod constant;
pub mod contract;
pub mod file;
pub mod function;
pub mod literal;
pub mod variable;
