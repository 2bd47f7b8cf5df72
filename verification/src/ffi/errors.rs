//! Carrying [`Error`] across the boundary.
//!
//! A fallible call returns a [`Status`], which says what kind of failure it
//! was and nothing more; an [`ErrorHandle`] carries the message that goes
//! with it.

use vstd::prelude::*;

use crate::errors::{spec_message, Error};
use crate::models::StreamID;

verus! {

/// What a call did.
///
/// `Ok` is zero and every failure is non-zero on the C side. The variants
/// past `IO` have no [`Error`] behind them: they are raised by the boundary
/// itself, before the crate is reached.
#[derive(Debug, Clone, Copy, PartialEq, Eq, Structural)]
pub enum Status {
    /// The call succeeded (`Ok` on the C side).
    Success,
    /// The peer closed the connection, or it was closed under us.
    Closed,
    /// The peer broke the protocol.
    Protocol,
    /// The peer went past one of the configured ceilings.
    Limit,
    /// One stream failed; the connection itself stays usable.
    Stream,
    /// An operation ran past its deadline.
    Timeout,
    /// The TLS handshake failed, or a TLS object could not be built.
    TLS,
    /// No usable HTTP version could be agreed on.
    Version,
    /// The transport underneath failed.
    IO,
    /// An argument was null where it may not be, or was not UTF-8.
    Invalid,
    /// The runtime could not be built, or the call was made without one.
    Runtime,
}

/// The status that stands for an error.
pub open spec fn status_of(error: Error) -> Status {
    match error {
        Error::Closed => Status::Closed,
        Error::Protocol(_) => Status::Protocol,
        Error::Limit(_) => Status::Limit,
        Error::Stream { .. } => Status::Stream,
        Error::Timeout(_) => Status::Timeout,
        Error::Tls(_) => Status::TLS,
        Error::Version(_) => Status::Version,
        Error::Io(_) => Status::IO,
    }
}

/// The fixed description of a status.
pub open spec fn status_text(status: Status) -> Seq<char> {
    match status {
        Status::Success => "ok"@,
        Status::Closed => "connection closed"@,
        Status::Protocol => "protocol violation"@,
        Status::Limit => "limit exceeded"@,
        Status::Stream => "stream failed"@,
        Status::Timeout => "timed out"@,
        Status::TLS => "tls error"@,
        Status::Version => "version negotiation failed"@,
        Status::IO => "io error"@,
        Status::Invalid => "invalid argument"@,
        Status::Runtime => "runtime unavailable"@,
    }
}

/// The payload an error carries, without the prefix its rendering adds.
pub open spec fn reason_of(error: Error) -> Seq<char> {
    match error {
        Error::Closed => Seq::empty(),
        Error::Protocol(reason) => reason@,
        Error::Limit(reason) => reason@,
        Error::Stream { reason, .. } => reason@,
        Error::Timeout(reason) => reason@,
        Error::Tls(reason) => reason@,
        Error::Version(reason) => reason@,
        Error::Io(failure) => failure@,
    }
}

impl Status {
    /// The status that stands for `error`.
    pub fn of(error: &Error) -> (status: Status)
        ensures
            status == status_of(*error),
    {
        match error {
            Error::Closed => Status::Closed,
            Error::Protocol(_) => Status::Protocol,
            Error::Limit(_) => Status::Limit,
            Error::Stream { .. } => Status::Stream,
            Error::Timeout(_) => Status::Timeout,
            Error::Tls(_) => Status::TLS,
            Error::Version(_) => Status::Version,
            Error::Io(_) => Status::IO,
        }
    }

    /// A fixed description of the status, for a caller that has no error.
    pub fn message(&self) -> (text: &'static str)
        ensures
            text@ == status_text(*self),
    {
        match self {
            Status::Success => "ok",
            Status::Closed => "connection closed",
            Status::Protocol => "protocol violation",
            Status::Limit => "limit exceeded",
            Status::Stream => "stream failed",
            Status::Timeout => "timed out",
            Status::TLS => "tls error",
            Status::Version => "version negotiation failed",
            Status::IO => "io error",
            Status::Invalid => "invalid argument",
            Status::Runtime => "runtime unavailable",
        }
    }
}

/// A failure, with the message that goes with it.
///
/// The message is rendered once, when the handle is built. A stream failure
/// is the one that carries more than a message, so the stream it names and
/// the code to reset it by are kept alongside.
pub struct ErrorHandle {
    /// What kind of failure it was.
    pub status: Status,
    /// What went wrong, as the error renders it.
    pub message: String,
    /// What went wrong, without the prefix the rendering adds.
    pub reason: String,
    /// The stream that failed, on a stream failure.
    pub stream_id: Option<StreamID>,
    /// The protocol error code to reset that stream with.
    pub code: Option<u64>,
}

impl ErrorHandle {
    /// The handle that stands for `error`.
    pub fn new(error: &Error) -> (handle: ErrorHandle)
        ensures
            handle.status == status_of(*error),
            handle.message@ == spec_message(*error),
            handle.reason@ == reason_of(*error),
            handle.stream_id == (match *error {
                Error::Stream { id, .. } => Some(id),
                _ => None,
            }),
            handle.code == (match *error {
                Error::Stream { code, .. } => Some(code),
                _ => None,
            }),
    {
        let (stream_id, code) = match error {
            Error::Stream { id, code, .. } => (Some(*id), Some(*code)),
            _ => (None, None),
        };
        ErrorHandle { status: Status::of(error), message: error.message(), reason: ErrorHandle::reason(error), stream_id, code }
    }

    /// The payload `error` carries, without the prefix its rendering adds.
    pub fn reason(error: &Error) -> (out: String)
        ensures
            out@ == reason_of(*error),
    {
        match error {
            Error::Closed => String::new(),
            Error::Protocol(reason) => reason.clone(),
            Error::Limit(reason) => reason.clone(),
            Error::Timeout(reason) => reason.clone(),
            Error::Tls(reason) => reason.clone(),
            Error::Version(reason) => reason.clone(),
            Error::Stream { reason, .. } => reason.clone(),
            Error::Io(failure) => failure.clone(),
        }
    }

    /// The error a status and a reason stand for.
    ///
    /// The statuses raised by the boundary itself, `Invalid` and `Runtime`,
    /// have no error behind them and read as a protocol violation; `Ok`
    /// reads as a closed connection; a stream failure names stream 0 with
    /// code 0.
    pub fn build(status: Status, reason: String) -> (error: Error)
        ensures
            error == (match status {
                Status::Success | Status::Closed => Error::Closed,
                Status::Protocol | Status::Invalid | Status::Runtime => Error::Protocol(reason),
                Status::Limit => Error::Limit(reason),
                Status::Stream => Error::Stream { id: StreamID(0), code: 0, reason },
                Status::Timeout => Error::Timeout(reason),
                Status::TLS => Error::Tls(reason),
                Status::Version => Error::Version(reason),
                Status::IO => Error::Io(reason),
            }),
    {
        match status {
            Status::Success | Status::Closed => Error::Closed,
            Status::Protocol | Status::Invalid | Status::Runtime => Error::Protocol(reason),
            Status::Limit => Error::Limit(reason),
            Status::Stream => Error::stream(StreamID(0), 0, reason),
            Status::Timeout => Error::Timeout(reason),
            Status::TLS => Error::Tls(reason),
            Status::Version => Error::Version(reason),
            Status::IO => Error::Io(reason),
        }
    }
}

} // verus!
