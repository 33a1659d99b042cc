//! The errors of the client.
use vstd::prelude::*;

verus! {

/// std's I/O error, carried through opaquely.
#[verifier::external_type_specification]
#[verifier::external_body]
pub struct ExIoError(std::io::Error);

/// The error of `u64::from_str`, carried through opaquely.
#[verifier::external_type_specification]
#[verifier::external_body]
pub struct ExParseIntError(std::num::ParseIntError);

/// The error of chrono's date parsing, carried through opaquely.
#[verifier::external_type_specification]
#[verifier::external_body]
pub struct ExDateParseError(chrono::format::ParseError);

/// Every way an operation of the client can fail.
#[derive(Debug)]
pub enum ClamError {
    /// The host and port did not resolve to a socket address.
    InvalidIpAddress(std::io::Error),
    /// The connection to the daemon could not be opened or read.
    ConnectionError(std::io::Error),
    /// A command could not be written or its reply read.
    CommandError(std::io::Error),
    /// The daemon's reply did not have the expected shape; holds the reply.
    InvalidData(String),
    /// A chunk was too long for the 32-bit length prefix; holds its length.
    InvalidDataLength(usize),
    /// The release date of a version reply did not parse.
    DateParseError(chrono::format::ParseError),
    /// A number in a reply did not parse.
    IntParseError(std::num::ParseIntError),
}

} // verus!
