//! Referral Whois (RWhois, RFC 2167) protocol library: line framing, the
//! `%rwhois` banner, response codes, request classification, the query
//! grammar, response writing and parsing, directive logic and the
//! per-connection decisions of a server session.

pub mod buf;
pub mod codec;
pub mod context;
pub mod directive;
pub mod digits;
pub mod error;
pub mod query;
pub mod server;
pub mod session;
pub mod text;
pub mod wire;

pub use error::{Error, Result};
pub use wire::code::ResponseCode;

use vstd::prelude::*;

verus! {

/// Maximum length of a single protocol line, in bytes.
pub const MAX_LINE: usize = 512;

/// Protocol version advertised in the `%rwhois` banner.
pub const PROTOCOL_VERSION: &'static str = "1.5";

} // verus!
