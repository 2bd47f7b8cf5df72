//! What can go wrong, crate-wide.

use vstd::prelude::*;

use crate::models::StreamID;
use crate::text::{decimal, hexadecimal, push_decimal, push_hexadecimal};

verus! {

/// A failure, crate-wide.
#[derive(Debug, Clone, PartialEq, Eq)]
pub enum Error {
    /// The peer closed the connection, or it was closed under us.
    Closed,
    /// The peer broke the protocol.
    Protocol(String),
    /// The peer went past one of the configured ceilings.
    Limit(String),
    /// One stream failed; the connection itself stays usable.
    Stream {
        /// The stream that failed.
        id: StreamID,
        /// The protocol error code to reset it with.
        code: u64,
        /// What went wrong.
        reason: String,
    },
    /// An operation ran past its deadline.
    Timeout(String),
    /// The TLS handshake failed, or a TLS object could not be built.
    Tls(String),
    /// No usable HTTP version could be agreed on.
    Version(String),
    /// The transport underneath failed; carries the failure's rendering.
    Io(String),
}

/// The rendering of an error, as its message reads.
pub open spec fn spec_message(e: Error) -> Seq<char> {
    match e {
        Error::Closed => "connection closed"@,
        Error::Protocol(r) => "protocol violation: "@ + r@,
        Error::Limit(r) => "limit exceeded: "@ + r@,
        Error::Stream { id, code, reason } => "stream "@ + decimal(id.0 as nat) + " failed with 0x"@
            + hexadecimal(code as nat) + ": "@ + reason@,
        Error::Timeout(r) => "timed out: "@ + r@,
        Error::Tls(r) => "tls error: "@ + r@,
        Error::Version(r) => "version negotiation failed: "@ + r@,
        Error::Io(r) => "io error: "@ + r@,
    }
}

fn prefixed(prefix: &str, reason: &String) -> (out: String)
    ensures
        out@ == prefix@ + reason@,
{
    let out = String::from_str(prefix);
    out.concat(reason.as_str())
}

impl Error {
    /// A failure on one stream.
    pub fn stream(id: StreamID, code: u64, reason: String) -> (e: Error)
        ensures
            e == (Error::Stream { id, code, reason }),
    {
        Error::Stream { id, code, reason }
    }

    /// Narrows a connection-wide failure to one stream.
    ///
    /// A protocol violation or a limit becomes a failure of stream `id` with
    /// `code`, keeping its reason; anything else is returned unchanged.
    pub fn on_stream(self, id: StreamID, code: u64) -> (e: Error)
        ensures
            e == (match self {
                Error::Protocol(reason) => Error::Stream { id, code, reason },
                Error::Limit(reason) => Error::Stream { id, code, reason },
                other => other,
            }),
    {
        match self {
            Error::Protocol(reason) | Error::Limit(reason) => Error::Stream { id, code, reason },
            error => error,
        }
    }

    /// The error rendered as text.
    pub fn message(&self) -> (out: String)
        ensures
            out@ == spec_message(*self),
    {
        match self {
            Error::Closed => String::from_str("connection closed"),
            Error::Protocol(r) => prefixed("protocol violation: ", r),
            Error::Limit(r) => prefixed("limit exceeded: ", r),
            Error::Stream { id, code, reason } => {
                let mut out = String::from_str("stream ");
                push_decimal(&mut out, id.0);
                out.append(" failed with 0x");
                push_hexadecimal(&mut out, *code);
                out.append(": ");
                out.append(reason.as_str());
                out
            },
            Error::Timeout(r) => prefixed("timed out: ", r),
            Error::Tls(r) => prefixed("tls error: ", r),
            Error::Version(r) => prefixed("version negotiation failed: ", r),
            Error::Io(r) => prefixed("io error: ", r),
        }
    }
}

} // verus!
