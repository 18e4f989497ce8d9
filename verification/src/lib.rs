//! Verified core of a one-shot HTTP load-testing client.
//!
//! The library covers the logic of the tool: decomposing a URL into a
//! target description, extracting the status code from a raw response,
//! accounting the bytes of a drained stream, shaping per-request
//! outcomes, and reducing a list of outcomes into aggregate statistics.
//! The surrounding binary performs the actual network I/O and hands the
//! library plain values.

pub mod errors;
pub mod url;
pub mod response;
pub mod request;
pub mod stats;
