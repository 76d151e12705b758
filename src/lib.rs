//! Concurrent HTTP latency probing: header cycling, resource assignment,
//! startup spreading, the per-task probing state machine and the streaming
//! aggregator that folds measurements into a histogram.

pub mod aggregate;
pub mod headers;
pub mod pools;
pub mod probe;
pub mod startup;
