//! Micro-benchmark kernels and the statistics of a concurrent request load run.
//!
//! The kernels (Fibonacci, quicksort, string work) are verified against their
//! mathematical definitions, and the load-run aggregator against a model of
//! outcomes, nearest-rank percentiles and rounded fixed-point metrics. Two
//! small wrappers are trusted: `String::push`, and the `regex` crate's
//! compilation and match search.
pub mod fibonacci;
pub mod outcome;
pub mod report;
pub mod sorting;
pub mod stats;
pub mod strings;
