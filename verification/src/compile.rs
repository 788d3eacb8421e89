pub mod alignment;
pub mod artifacts;
pub mod compile;
pub mod determinism;
pub mod file;
pub mod fillers;
pub mod item_places;
pub mod placement;
pub mod push_encoding;
pub mod settings;
