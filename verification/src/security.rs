//! What a connection turned out to be underneath: the parameters its
//! handshake settled, and the encodings certificates and keys come in.

use vstd::prelude::*;

verus! {

/// A TLS version, by its wire code.
#[derive(Debug, Clone, Copy, PartialEq, Eq, Structural)]
pub struct TLSVersion(pub u16);

/// A TLS named group, by its wire code.
#[derive(Debug, Clone, Copy, PartialEq, Eq, Structural)]
pub struct TLSGroup(pub u16);

/// A TLS cipher suite, by its wire code.
#[derive(Debug, Clone, Copy, PartialEq, Eq, Structural)]
pub struct TLSCipher(pub u16);

/// Which encoding a certificate or key blob is in.
#[derive(Debug, Clone, Copy, PartialEq, Eq, Structural)]
pub enum Format {
    /// Binary DER: one object per blob.
    DER,
    /// Base64 DER between armour lines: as many objects as were
    /// concatenated.
    PEM,
}

/// What a connection turned out to be underneath.
#[derive(Debug, Clone, Copy, PartialEq, Eq, Structural)]
pub struct Security {
    /// Whether the transport underneath authenticated the peer.
    pub secure: bool,
    /// Whether the message arrived in early data, and so may be a replay.
    pub early_data: bool,
    /// Whether the transport underneath was TLS.
    pub tls: bool,
    /// The negotiated TLS version, if the handshake settled one.
    pub tls_version: Option<TLSVersion>,
    /// The negotiated named group, if the handshake settled one.
    pub tls_group: Option<TLSGroup>,
    /// The negotiated cipher suite, if the handshake settled one.
    pub tls_cipher: Option<TLSCipher>,
    /// Whether the transport underneath was QUIC.
    pub quic: bool,
    /// The negotiated QUIC version, if there is one.
    pub quic_version: Option<u32>,
}

/// TLS options: cipher, group and signature lists, entries separated by `:`
/// and most preferred first, each absent to keep its default; and the
/// switches for the server's suite order, tickets, early data and
/// certificate compression.
#[derive(Debug, Clone, PartialEq, Eq)]
pub struct TLSConfig {
    /// The cipher suites to allow.
    pub ciphers: Option<String>,
    /// The key exchange groups to offer, most preferred first.
    pub groups: Option<String>,
    /// The signature algorithms to accept.
    pub signature_algorithms: Option<String>,
    /// Whether the server's suite order wins over the client's.
    pub prefer_server_ciphers: bool,
    /// Whether sessions may resume over tickets.
    pub session_tickets: bool,
    /// Whether early data is allowed on a resumed session.
    pub early_data: bool,
    /// Whether certificates are compressed with zlib, as RFC 8879 describes.
    pub certificate_compression: bool,
}

} // verus!
