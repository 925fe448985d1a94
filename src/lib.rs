//! Load generation core for an HTTP benchmarking client: work distribution,
//! per-worker rate limiting, worker loop decisions, histogram statistics and
//! report rendering.

pub mod args;
pub mod bench;
pub mod bucket;
pub mod format;
pub mod http;
pub mod metrics;
pub mod number;
pub mod otlp;
pub mod plan;
pub mod report;
pub mod stats;
