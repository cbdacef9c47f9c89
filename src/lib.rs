//! Core logic of a sandbox bootstrap service: the fixed-size request and
//! response frames exchanged with the sandbox parent process, the progress of
//! transfers over a pipe that may deliver data in fragments, and the decisions
//! taken while reaping terminated children.
pub mod frame;
pub mod leader;
pub mod reap;
pub mod transfer;
