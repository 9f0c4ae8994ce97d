//! The bench: what its runs decide and report.

pub mod engine;
pub mod helpers;
pub mod local;
pub mod remote_ffn;
pub mod remote_moe;
pub mod row;
pub mod steps;
