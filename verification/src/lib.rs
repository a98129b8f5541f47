//! A keyed single-flight transaction queue driving sequential retryable
//! pipelines.
//!
//! The queue maps a key to at most one running transaction, assigns each
//! submission a strictly increasing generation number, and — under the
//! supersede-latest policy — remembers only the newest pending submission
//! per key, resolving older pending ones as superseded. A pipeline is an
//! ordered list of steps executed top to bottom with bounded retries on
//! transient failures, short-circuit on fatal failures (designated cleanup
//! steps still run), and cooperative abort at checkpoints once the
//! transaction is no longer the newest for its key.

pub mod config;
pub mod laws;
pub mod outcome;
pub mod pipeline;
pub mod queue;
pub mod retry;
