pub mod buffer;
pub mod chance;
pub mod hex_text;
pub mod ordered_set;
pub mod text;
