//! The wire codec: frames, their exact byte encoding, and an incremental decoder.
//!
//! `frame` has the frames and their model, `encode` and `decode` the two
//! directions over bytes, `typed` the same by the type of the value, and
//! `laws` what holds of the two directions together.
pub mod buffer;
pub mod container;
pub mod decode;
pub mod double;
pub mod encode;
pub mod equal;
pub mod error;
pub mod frame;
pub mod laws;
pub mod typed;
pub mod wellformed;
pub mod wire;
