pub mod attribute;
pub mod names;
pub mod opcode;
pub mod queue;
pub mod dependencies;
pub mod block_flow;
pub mod declarations;
pub mod inlining;
pub mod analysis;
pub mod pre_processing;
pub mod remapping;
pub mod layout;
pub mod uniqueness;
pub mod reachability;
