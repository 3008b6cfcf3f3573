//! Verified core of a Hash256 proof-of-work miner: the Keccak-256 mining
//! kernel, the packing of the challenge and difficulty, the host's search and
//! fee decisions, and the settings.
pub mod config;
pub mod fees;
pub mod hexfmt;
pub mod keccak;
pub mod kernel;
pub mod logline;
pub mod search;
pub mod words;
