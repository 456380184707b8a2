//! The errors that an operation of this crate can report.

use vstd::prelude::*;
use crate::json::JsonValue;

verus! {

/// The errors that can occur.
///
/// Failures of the transport, of header conversion, of body parsing and of
/// file writing arise in the unverified shell that performs the exchange;
/// the shell reports them here as plain messages.
#[derive(Debug)]
pub enum Error {
    /// The transport failed (network, TLS or DNS).
    Reqwest(String),
    /// A session identifier could not be used as a header value.
    HeaderValue(String),
    /// A reply header could not be converted to text.
    HeaderToStr(String),
    /// A body was not valid structured text.
    Json(String),
    /// A file could not be written or read.
    Io(String),
    /// An integer could not be parsed.  Kept for callers that read port
    /// numbers; nothing in this crate reports it.
    ParseInt(String),
    /// A reply did not contain an expected field; carries the field name and
    /// an image of the reply.
    InvalidResponse(&'static str, JsonValue),
    /// Any other failure, described in the message.
    Custom(String),
}

} // verus!
