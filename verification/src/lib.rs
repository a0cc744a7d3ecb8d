//! A codec for the Redis serialization protocol, and what the tools round it
//! compute.
//!
//! `resp` is the codec: the frames, their exact bytes, an incremental
//! decoder that says how many bytes each frame took, and the proofs that the
//! two fit together. `metrics` and `ordered_map` hold named counters and the
//! insertion-ordered map under them. `cli`, `process` and `utils` hold what
//! the command line tool decides and computes between reading and writing.
pub mod cli;
pub mod metrics;
pub mod ordered_map;
pub mod process;
pub mod resp;
pub mod text;
pub mod utils;
