//! A client library for the line-oriented control protocol of a
//! malware-scanning daemon: command encoding, chunked stream framing and the
//! parsing of the daemon's textual replies.
pub mod error;
pub mod number;
pub mod protocol;
pub mod response;
pub mod stats_block;
pub mod text;

pub use error::ClamError;
pub use response::{ScanResult, Signature, Stats, Version};
