pub mod bytes32;
