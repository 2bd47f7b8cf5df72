//! Messages and their vocabulary across the boundary.

use vstd::prelude::*;

use crate::ffi::{borrow_text, view_text, Slice};
use crate::models::{Method, Role};

verus! {

/// Which transport a port names, and so which versions it can carry.
#[derive(Debug, Clone, Copy, PartialEq, Eq, Structural)]
pub enum PortKind {
    /// A Unix domain socket, named by `path`.
    UDS,
    /// A TCP port, named by `number`.
    TCP,
    /// A UDP port carrying QUIC, named by `number`.
    QUIC,
}

/// A port to dial or bind.
///
/// `number` is read for [`PortKind::TCP`] and [`PortKind::QUIC`], and `path`
/// for [`PortKind::UDS`].
#[derive(Clone, Copy)]
pub struct Port<'a> {
    /// Which transport the port names.
    pub kind: PortKind,
    /// The port number, for a TCP or QUIC port.
    pub number: u16,
    /// The socket path, for a Unix domain socket.
    pub path: Slice<'a>,
}

impl<'a> Port<'a> {
    /// The port this names; `None` when a Unix socket path is absent or is
    /// not UTF-8.
    pub fn parse(&self) -> (port: Option<crate::models::Port>)
        ensures
            match self.kind {
                PortKind::TCP => port == Some(crate::models::Port::TCP(self.number)),
                PortKind::QUIC => port == Some(crate::models::Port::QUIC(self.number)),
                PortKind::UDS => match view_text(self.path) {
                    Some(text) => port matches Some(crate::models::Port::UDS(path)) && path@ == text,
                    None => port is None,
                },
            },
    {
        match self.kind {
            PortKind::TCP => Some(crate::models::Port::TCP(self.number)),
            PortKind::QUIC => Some(crate::models::Port::QUIC(self.number)),
            PortKind::UDS => match borrow_text(self.path) {
                Some(text) => Some(crate::models::Port::UDS(text.to_owned())),
                None => None,
            },
        }
    }
}

/// The number a role crosses as: the roles in their own order.
pub open spec fn role_number(role: Role) -> u32 {
    match role {
        Role::UserAgent => 0,
        Role::Origin => 1,
        Role::Proxy => 2,
        Role::Gateway => 3,
        Role::Tunnel => 4,
    }
}

impl Role {
    /// The number `role` crosses as.
    ///
    /// The two enums are kept in the same order, so a caller can still tell
    /// a proxy from a user agent, and a tunnel from either.
    pub fn build(role: Role) -> (n: u32)
        ensures
            n == role_number(role),
    {
        match role {
            Role::UserAgent => 0,
            Role::Origin => 1,
            Role::Proxy => 2,
            Role::Gateway => 3,
            Role::Tunnel => 4,
        }
    }
}

/// What a port or a version runs over: the C half of
/// [`crate::models::TransportKind`].
#[derive(Debug, Clone, Copy, PartialEq, Eq, Structural)]
pub enum TransportKind {
    /// An ordered byte stream: TCP, or a Unix domain socket.
    Stream,
    /// QUIC, over UDP.
    QUIC,
}

impl TransportKind {
    /// The C half of `transport`.
    pub fn build(transport: crate::models::TransportKind) -> (out: TransportKind)
        ensures
            out == (match transport {
                crate::models::TransportKind::Stream => TransportKind::Stream,
                crate::models::TransportKind::QUIC => TransportKind::QUIC,
            }),
    {
        match transport {
            crate::models::TransportKind::Stream => TransportKind::Stream,
            crate::models::TransportKind::QUIC => TransportKind::QUIC,
        }
    }
}

/// How field names are cased on the wire: the C half of
/// [`crate::models::HeaderCase`].
#[derive(Debug, Clone, Copy, PartialEq, Eq, Structural)]
pub enum HeaderCase {
    /// `Content-Length`: each dash-separated word capitalised.
    Title,
    /// `content-length`: entirely lowercase.
    Lower,
}

impl HeaderCase {
    /// The casing this stands for.
    pub fn parse(self) -> (case: crate::models::HeaderCase)
        ensures
            case == (match self {
                HeaderCase::Title => crate::models::HeaderCase::Title,
                HeaderCase::Lower => crate::models::HeaderCase::Lower,
            }),
    {
        match self {
            HeaderCase::Title => crate::models::HeaderCase::Title,
            HeaderCase::Lower => crate::models::HeaderCase::Lower,
        }
    }

    /// The C half of `case`.
    pub fn build(case: crate::models::HeaderCase) -> (out: HeaderCase)
        ensures
            out == (match case {
                crate::models::HeaderCase::Title => HeaderCase::Title,
                crate::models::HeaderCase::Lower => HeaderCase::Lower,
            }),
    {
        match case {
            crate::models::HeaderCase::Title => HeaderCase::Title,
            crate::models::HeaderCase::Lower => HeaderCase::Lower,
        }
    }
}

/// The method a wire code names: 0 to 8 in the order `GET`, `HEAD`, `POST`,
/// `PUT`, `DELETE`, `CONNECT`, `OPTIONS`, `TRACE`, `PATCH`.
pub open spec fn method_of_code(code: i32) -> Option<Method> {
    if code == 0 { Some(Method::GET) }
    else if code == 1 { Some(Method::HEAD) }
    else if code == 2 { Some(Method::POST) }
    else if code == 3 { Some(Method::PUT) }
    else if code == 4 { Some(Method::DELETE) }
    else if code == 5 { Some(Method::CONNECT) }
    else if code == 6 { Some(Method::OPTIONS) }
    else if code == 7 { Some(Method::TRACE) }
    else if code == 8 { Some(Method::PATCH) }
    else { None }
}

impl Method {
    /// The method a wire code names, or `None` when it names none.
    ///
    /// A negative code stands for an absent method, which is how a caller
    /// says it does not know which request a response answers.
    pub fn from_code(code: i32) -> (method: Option<Method>)
        ensures
            method == method_of_code(code),
    {
        match code {
            0 => Some(Method::GET),
            1 => Some(Method::HEAD),
            2 => Some(Method::POST),
            3 => Some(Method::PUT),
            4 => Some(Method::DELETE),
            5 => Some(Method::CONNECT),
            6 => Some(Method::OPTIONS),
            7 => Some(Method::TRACE),
            8 => Some(Method::PATCH),
            _ => None,
        }
    }
}

/// Which kind of body a message carries.
#[derive(Debug, Clone, Copy, PartialEq, Eq, Structural)]
pub enum BodyKind {
    /// No body at all (`None` on the C side).
    Empty,
    /// Octets held in memory.
    Data,
    /// A UTF-8 string held in memory.
    Text,
    /// A filesystem path, read when the body is needed.
    File,
}

} // verus!
