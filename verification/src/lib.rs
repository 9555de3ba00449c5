//! A small structured-concurrency toolkit, with a few companions.
//!
//! - [`reduce`]: the maximum of a slice by fork-join recursion.
//! - [`channel`]: channel handles that are closed by a call.
//! - [`pipeline`]: a source, a pool of workers and a sink over two channels.
//! - [`delivery`]: whether every item reached the sink once, and in order.
//! - [`parallel`]: work on every element of a slice, serial or in parallel.
//! - [`sorting`]: sorting under a chosen order.
//! - [`random`]: random passwords and throws of a die.
//! - [`cmd_line`]: what a command line tool makes of a number argument.
//! - [`error`]: why a concurrent run failed.

pub mod channel;
pub mod cmd_line;
pub mod delivery;
pub mod error;
pub mod parallel;
pub mod pipeline;
pub mod random;
pub mod reduce;
pub mod sorting;
