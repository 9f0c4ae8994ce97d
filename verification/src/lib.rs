//! The verified core of a language-model server and its benchmark.
//!
//! - [`cache`] and [`service`] answer nearest-neighbour lookups from precompiled layer outputs,
//!   with the mathematics of [`vector`] and the wire form of [`wire`].
//! - [`gemma3`] describes the Gemma 3 architecture.
//! - [`bench`] measures runs: the statistics, the summary rows, the labels, the parsing of shard
//!   maps and the course of each kind of run.
//! - [`laws`] says what all of these are for, in terms of their calls.
//! - [`float`], [`arith`], [`order`] and [`text`] are what these are made of: numbers by their
//!   encodings, the arithmetic that a caller supplies, stable ranking, and text by characters.

pub mod arith;
pub mod bench;
pub mod cache;
pub mod float;
pub mod gemma3;
pub mod laws;
pub mod order;
pub mod service;
pub mod text;
pub mod vector;
pub mod wire;
