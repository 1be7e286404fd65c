//! Core of a light client for a BFT chain: it advances a small trusted state to a
//! newer height by verifying signed headers, without replaying the chain.

pub mod capabilities;
pub mod errors;
pub mod fork_detector;
pub mod grounding;
pub mod options;
pub mod peers;
pub mod predicates;
pub mod rpc;
pub mod scheduler;
pub mod store;
pub mod supervisor;
pub mod trace;
pub mod types;
pub mod verification;
pub mod voting_power;
