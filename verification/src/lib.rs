//! A reproducible micro-benchmark harness for predecessor search.
//!
//! The harness generates a sorted key set and a pseudo-random query stream
//! from a seed, drives two index engines through the same lookups (a static
//! search tree and a general-purpose ordered map), and derives comparable
//! throughput and latency figures from the measured time.

pub mod clock;
pub mod config;
pub mod engine;
pub mod measure;
pub mod metrics;
pub mod ordered;
pub mod tree;
pub mod workload;
