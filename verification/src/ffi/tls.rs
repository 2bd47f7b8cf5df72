//! TLS configuration and outcomes across the boundary.

use vstd::prelude::*;

use crate::ffi::{borrow_text, view_text, Slice};
use crate::security::{Format as CertificateFormat, Security as Negotiated, TLSCipher, TLSGroup, TLSConfig as Options, TLSVersion};

verus! {

/// TLS options as text: cipher, group and signature lists, entries separated
/// by `:` and most preferred first; an absent slice keeps that field's
/// default.
#[derive(Clone, Copy)]
pub struct TLSConfig<'a> {
    /// The cipher suites to allow.
    pub ciphers: Slice<'a>,
    /// The key exchange groups to offer, most preferred first.
    pub groups: Slice<'a>,
    /// The signature algorithms to accept.
    pub signature_algorithms: Slice<'a>,
    /// Whether the server's suite order wins over the client's.
    pub prefer_server_ciphers: bool,
    /// Whether sessions may resume over tickets.
    pub session_tickets: bool,
    /// Whether early data is allowed on a resumed session.
    pub early_data: bool,
    /// Whether certificates are compressed with zlib, as RFC 8879 describes.
    pub certificate_compression: bool,
}

/// An optional list as it crosses: absent stays absent, present text is
/// read, and anything that is not UTF-8 is refused (`None`).
pub open spec fn option_text(slice: Slice) -> Option<Option<Seq<char>>> {
    if slice.data is None {
        Some(None)
    } else {
        match view_text(slice) {
            Some(text) => Some(Some(text)),
            None => None,
        }
    }
}

/// Whether an optional list was read as `crossed` says.
pub open spec fn read_as(field: Option<String>, crossed: Option<Seq<char>>) -> bool {
    match crossed {
        Some(text) => field matches Some(s) && s@ == text,
        None => field is None,
    }
}

fn read_option(slice: Slice) -> (out: Option<Option<String>>)
    ensures
        match option_text(slice) {
            Some(crossed) => out matches Some(field) && read_as(field, crossed),
            None => out is None,
        },
{
    if slice.data.is_none() {
        Some(None)
    } else {
        match borrow_text(slice) {
            Some(text) => Some(Some(text.to_owned())),
            None => None,
        }
    }
}

impl<'a> TLSConfig<'a> {
    /// The options this stands for; `None` when a list is not UTF-8.
    pub fn parse(&self) -> (out: Option<Options>)
        ensures
            match (option_text(self.ciphers), option_text(self.groups), option_text(self.signature_algorithms)) {
                (Some(ciphers), Some(groups), Some(signature_algorithms)) => out matches Some(options) && {
                    &&& read_as(options.ciphers, ciphers)
                    &&& read_as(options.groups, groups)
                    &&& read_as(options.signature_algorithms, signature_algorithms)
                    &&& options.prefer_server_ciphers == self.prefer_server_ciphers
                    &&& options.session_tickets == self.session_tickets
                    &&& options.early_data == self.early_data
                    &&& options.certificate_compression == self.certificate_compression
                },
                _ => out is None,
            },
    {
        let ciphers = match read_option(self.ciphers) {
            Some(field) => field,
            None => return None,
        };
        let groups = match read_option(self.groups) {
            Some(field) => field,
            None => return None,
        };
        let signature_algorithms = match read_option(self.signature_algorithms) {
            Some(field) => field,
            None => return None,
        };
        Some(Options {
            ciphers,
            groups,
            signature_algorithms,
            prefer_server_ciphers: self.prefer_server_ciphers,
            session_tickets: self.session_tickets,
            early_data: self.early_data,
            certificate_compression: self.certificate_compression,
        })
    }
}

/// One host's ECH configuration list. A host of `*` applies wherever no
/// exact entry matches.
#[derive(Clone, Copy)]
pub struct ECHEntry<'a> {
    /// The host the list applies to.
    pub host: Slice<'a>,
    /// The `ECHConfigList`, as the key holder publishes it.
    pub config_list: Slice<'a>,
}

/// Which encoding a certificate or key blob is in: the C half of
/// [`CertificateFormat`].
#[derive(Debug, Clone, Copy, PartialEq, Eq, Structural)]
pub enum Format {
    /// Binary DER.
    DER,
    /// Base64 DER between armour lines.
    PEM,
}

impl Format {
    /// The C half of `format`.
    pub fn build(format: CertificateFormat) -> (out: Format)
        ensures
            out == (match format {
                CertificateFormat::DER => Format::DER,
                CertificateFormat::PEM => Format::PEM,
            }),
    {
        match format {
            CertificateFormat::DER => Format::DER,
            CertificateFormat::PEM => Format::PEM,
        }
    }
}

/// What a connection turned out to be underneath: the C half of
/// [`Negotiated`], with a value the handshake did not settle carried as `-1`.
#[derive(Debug, Clone, Copy, PartialEq, Eq, Structural)]
pub struct Security {
    /// Whether the transport underneath authenticated the peer.
    pub secure: bool,
    /// Whether the message arrived in early data, and so may be a replay.
    pub early_data: bool,
    /// Whether the transport underneath was TLS.
    pub tls: bool,
    /// The negotiated TLS version's wire code, or `-1`.
    pub tls_version: i32,
    /// The negotiated named group's wire code, or `-1`.
    pub tls_group: i32,
    /// The negotiated cipher suite's wire code, or `-1`.
    pub tls_cipher: i32,
    /// Whether the transport underneath was QUIC.
    pub quic: bool,
    /// The negotiated QUIC version, or `-1`.
    pub quic_version: i64,
}

/// A settled 16-bit code as it crosses, or `-1`.
pub open spec fn code_of(code: Option<u16>) -> i32 {
    match code {
        Some(c) => c as i32,
        None => -1i32,
    }
}

/// A crossed 16-bit code read back: the code when it fits, none otherwise.
pub open spec fn code_from(value: i32) -> Option<u16> {
    if 0 <= value <= u16::MAX { Some(value as u16) } else { None }
}

/// The C half of a negotiated outcome.
pub open spec fn security_code(security: Negotiated) -> Security {
    Security {
        secure: security.secure,
        early_data: security.early_data,
        tls: security.tls,
        tls_version: code_of(match security.tls_version { Some(v) => Some(v.0), None => None }),
        tls_group: code_of(match security.tls_group { Some(g) => Some(g.0), None => None }),
        tls_cipher: code_of(match security.tls_cipher { Some(c) => Some(c.0), None => None }),
        quic: security.quic,
        quic_version: match security.quic_version { Some(v) => v as i64, None => -1i64 },
    }
}

/// The negotiated outcome a C half stands for; a code out of range, `-1`
/// among them, reads as unsettled.
pub open spec fn security_of(security: Security) -> Negotiated {
    Negotiated {
        secure: security.secure,
        early_data: security.early_data,
        tls: security.tls,
        tls_version: match code_from(security.tls_version) { Some(c) => Some(TLSVersion(c)), None => None },
        tls_group: match code_from(security.tls_group) { Some(c) => Some(TLSGroup(c)), None => None },
        tls_cipher: match code_from(security.tls_cipher) { Some(c) => Some(TLSCipher(c)), None => None },
        quic: security.quic,
        quic_version: if 0 <= security.quic_version <= u32::MAX { Some(security.quic_version as u32) } else { None },
    }
}

fn encode_code(code: Option<u16>) -> (value: i32)
    ensures
        value == code_of(code),
{
    match code {
        Some(c) => c as i32,
        None => -1,
    }
}

fn decode_code(value: i32) -> (code: Option<u16>)
    ensures
        code == code_from(value),
{
    if 0 <= value && value <= 65535 { Some(value as u16) } else { None }
}

impl Security {
    /// The C half of `security`.
    pub fn build(security: &Negotiated) -> (out: Security)
        ensures
            out == security_code(*security),
    {
        Security {
            secure: security.secure,
            early_data: security.early_data,
            tls: security.tls,
            tls_version: encode_code(match security.tls_version { Some(v) => Some(v.0), None => None }),
            tls_group: encode_code(match security.tls_group { Some(g) => Some(g.0), None => None }),
            tls_cipher: encode_code(match security.tls_cipher { Some(c) => Some(c.0), None => None }),
            quic: security.quic,
            quic_version: match security.quic_version { Some(v) => v as i64, None => -1 },
        }
    }

    /// The negotiated outcome this stands for.
    pub fn parse(&self) -> (out: Negotiated)
        ensures
            out == security_of(*self),
    {
        Negotiated {
            secure: self.secure,
            early_data: self.early_data,
            tls: self.tls,
            tls_version: match decode_code(self.tls_version) { Some(c) => Some(TLSVersion(c)), None => None },
            tls_group: match decode_code(self.tls_group) { Some(c) => Some(TLSGroup(c)), None => None },
            tls_cipher: match decode_code(self.tls_cipher) { Some(c) => Some(TLSCipher(c)), None => None },
            quic: self.quic,
            quic_version: if 0 <= self.quic_version && self.quic_version <= 4294967295 { Some(self.quic_version as u32) } else { None },
        }
    }
}

/// A negotiated outcome crosses the boundary and comes back unchanged.
pub proof fn law_security_round_trip(security: Negotiated)
    ensures
        security_of(security_code(security)) == security,
{
}

} // verus!
