//! The library's error type.

use vstd::prelude::*;

use crate::wire::code::ResponseCode;

verus! {

/// `std::io::Error`, carried opaquely by [`Error::Io`].
#[verifier::external_type_specification]
#[verifier::external_body]
pub struct ExIoError(std::io::Error);

/// Errors produced by the library.
#[derive(Debug)]
#[non_exhaustive]
pub enum Error {
    /// Underlying I/O failure on the connection.
    Io(std::io::Error),
    /// A line exceeded the configured maximum length.
    LineTooLong {
        /// Configured maximum line length.
        max: usize,
    },
    /// Malformed input that should be reported to the peer with a response
    /// code (e.g. `350 Invalid Query Syntax`).
    Protocol {
        /// Response code to surface to the client.
        code: ResponseCode,
        /// Human-readable detail, sent verbatim after the code.
        message: String,
    },
    /// A handler failed; reported as `402` unless otherwise specified. The
    /// payload is the failure's description.
    Handler(String),
    /// The session's idle timer fired.
    IdleTimeout,
}

impl Error {
    /// Build a protocol error from a code and detail string.
    pub fn protocol(code: ResponseCode, message: String) -> (e: Error)
        ensures
            e matches Error::Protocol { code: c, message: m } && c == code && m@ == message@,
    {
        Error::Protocol { code, message }
    }

    /// Wrap a handler failure, given by its description.
    pub fn handler(message: String) -> (e: Error)
        ensures
            e matches Error::Handler(m) && m@ == message@,
    {
        Error::Handler(message)
    }
}

/// `Result<T, Error>`.
pub type Result<T> = std::result::Result<T, Error>;

} // verus!
