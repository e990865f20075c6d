//! A Proof-of-History generator: a sequential SHA-256 hash chain that mixes in
//! external messages, batches idle hashes and marks periodic ticks.
pub mod chain;

pub mod poh;
pub mod laws;
