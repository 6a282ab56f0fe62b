//! An incremental computation engine: a versioned, dependency-tracked
//! memoization graph with early cutoff and cooperative cancellation,
//! together with the small value types that its clients exchange.

pub mod key;
pub mod share;
pub mod inputs;
pub mod computation;
pub mod cancellation;
pub mod graph;
pub mod engine;
pub mod task;
pub mod profiler;
pub mod error;
pub mod execute_error;
pub mod status;
pub mod artifact_tag;
pub mod debug_eval;
pub mod laws;
