//! A load test of a gateway pair: its options, its samples and its figures.
pub mod args;
pub mod sample;
pub mod stats;
