//! What the operations are for, stated of their calls.
//!
//! Each law takes the arguments and results of one or more calls and says, in plain arithmetic
//! and plain sequences, what the results satisfy or how they are related.

pub mod models;
pub mod numbers;
pub mod remote;
pub mod runs;
pub mod shards;
pub mod statistics;
pub mod texts;
pub mod vectors;
