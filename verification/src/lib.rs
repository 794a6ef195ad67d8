//! Verified core of a grammar-based compiler fuzzer built on LibAFL.
//!
//! The library holds the decisions of the fuzzer: how the per-run
//! "correctness step" histogram is kept, how the coverage-map size is read
//! from the instrumented binary's output, how guard values are copied into
//! the shared coverage map, how corpus files become inputs, and how decoded
//! grammar inputs are handed to the target.
pub mod text;
pub mod coverage;
pub mod metadata;
pub mod observer;
pub mod redirection;
pub mod config;
pub mod options;
pub mod description;
