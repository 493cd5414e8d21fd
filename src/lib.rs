//! Counting a target word over a set of texts under three strategies: one after
//! another, fanned out over a thread pool, and as a producer/consumer pipeline.
pub mod words;
pub mod report;
pub mod source;
pub mod runners;
pub mod pipeline;
pub mod laws;
