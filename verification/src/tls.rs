//! TLS identities, protocol negotiation and Encrypted Client Hello.
//!
//! The version of HTTP a connection ends up speaking is decided during the
//! handshake by ALPN, so this module is where negotiation happens:
//! [`alpn_wire`] is what is offered, [`select_alpn`] is how a server picks,
//! and [`negotiated`] reads back what was chosen.
//!
//! Encrypted Client Hello encrypts the server name in the handshake, so a
//! watcher sees only the public name. [`EchKeys`] is what a server holds,
//! [`EchConfigList`] is what a client is given, and [`EchStatus`] is how
//! either finds out whether it was actually used.

use vstd::prelude::*;

use crate::errors::Error;
use crate::models::{bytes_equal, spec_alpn, spec_from_alpn, spec_major, Version};
use crate::text::{debug_quote, debug_text, lossy_text, utf8_lossy};

verus! {

/// Wraps a TLS failure, described by `message`, as an [`Error`].
pub fn tls_error(message: &str) -> (e: Error)
    ensures
        e matches Error::Tls(m) && m@ == message@,
{
    Error::Tls(String::from_str(message))
}

/// The octet views of a list of octet vectors.
pub open spec fn byte_views(v: Seq<Vec<u8>>) -> Seq<Seq<u8>> {
    Seq::new(v.len(), |i: int| v[i]@)
}

/// The ALPN identifiers of a list of versions, one per entry.
pub open spec fn spec_alpns(versions: Seq<Version>) -> Seq<Seq<u8>> {
    Seq::new(versions.len(), |i: int| spec_alpn(versions[i]))
}

/// The ALPN identifiers in wire form: each length-prefixed, run together.
pub open spec fn spec_alpn_wire(versions: Seq<Version>) -> Seq<u8>
    decreases versions.len(),
{
    if versions.len() == 0 {
        seq![]
    } else {
        spec_alpn_wire(versions.drop_last()) + seq![spec_alpn(versions.last()).len() as u8] + spec_alpn(versions.last())
    }
}

/// The ALPN protocol identifiers for a list of versions, one per entry.
pub fn alpn(versions: &[Version]) -> (out: Vec<Vec<u8>>)
    ensures
        byte_views(out@) == spec_alpns(versions@),
{
    let mut out: Vec<Vec<u8>> = Vec::new();
    let mut i: usize = 0;
    while i < versions.len()
        invariant
            i <= versions.len(),
            byte_views(out@) == spec_alpns(versions@.take(i as int)),
        decreases versions.len() - i,
    {
        let protocol = versions[i].alpn();
        proof {
            assert(byte_views(out@.push(protocol)) =~= byte_views(out@).push(protocol@));
            assert(spec_alpns(versions@.take(i + 1)) =~= spec_alpns(versions@.take(i as int)).push(spec_alpn(versions@[i as int])));
        }
        out.push(protocol);
        i = i + 1;
    }
    assert(versions@.take(versions.len() as int) == versions@);
    out
}

/// The ALPN protocol identifiers in wire form: each length-prefixed, run together.
pub fn alpn_wire(versions: &[Version]) -> (out: Vec<u8>)
    ensures
        out@ == spec_alpn_wire(versions@),
{
    let mut out: Vec<u8> = Vec::new();
    let mut i: usize = 0;
    while i < versions.len()
        invariant
            i <= versions.len(),
            out@ == spec_alpn_wire(versions@.take(i as int)),
        decreases versions.len() - i,
    {
        let protocol = versions[i].alpn();
        assert(versions@.take(i + 1).drop_last() == versions@.take(i as int));
        assert(versions@.take(i + 1).last() == versions@[i as int]);
        out.push(protocol.len() as u8);
        let mut k: usize = 0;
        let ghost base = out@;
        while k < protocol.len()
            invariant
                k <= protocol.len(),
                out@ == base + protocol@.take(k as int),
            decreases protocol.len() - k,
        {
            out.push(protocol[k]);
            assert(protocol@.take(k + 1) == protocol@.take(k as int).push(protocol@[k as int]));
            k = k + 1;
        }
        assert(protocol@.take(protocol.len() as int) == protocol@);
        i = i + 1;
    }
    assert(versions@.take(versions.len() as int) == versions@);
    out
}

/// The protocols a client lists in an ALPN extension, in order.
///
/// Reading stops at the first entry whose length runs past the end.
pub open spec fn client_protocols(client: Seq<u8>) -> Seq<Seq<u8>>
    decreases client.len(),
{
    if client.len() == 0 {
        seq![]
    } else {
        let end = 1 + client[0] as int;
        if end > client.len() {
            seq![]
        } else {
            seq![client.subrange(1, end)] + client_protocols(client.skip(end))
        }
    }
}

/// The first protocol of `offered`, in the server's order, that the client
/// also lists.
pub open spec fn spec_select_alpn(offered: Seq<Seq<u8>>, client: Seq<u8>) -> Option<Seq<u8>>
    decreases offered.len(),
{
    if offered.len() == 0 {
        None
    } else if client_protocols(client).contains(offered[0]) {
        Some(offered[0])
    } else {
        spec_select_alpn(offered.drop_first(), client)
    }
}

proof fn lemma_protocols_step(client: Seq<u8>, index: int)
    requires
        0 <= index < client.len(),
        index + 1 + client[index] as int <= client.len(),
    ensures
        client_protocols(client.skip(index)) == seq![client.subrange(index + 1, index + 1 + client[index] as int)]
            + client_protocols(client.skip(index + 1 + client[index] as int)),
{
    let rest = client.skip(index);
    assert(rest[0] == client[index]);
    assert(rest.subrange(1, 1 + client[index] as int) == client.subrange(index + 1, index + 1 + client[index] as int));
    assert(rest.skip(1 + client[index] as int) == client.skip(index + 1 + client[index] as int));
}

/// Whether the client lists `wanted`, and where its octets sit if it does.
fn find_protocol(wanted: &[u8], client: &[u8]) -> (out: Option<usize>)
    ensures
        match out {
            Some(start) => start + wanted@.len() <= client@.len() && client@.subrange(start as int, start + wanted@.len())
                == wanted@ && client_protocols(client@).contains(wanted@),
            None => !client_protocols(client@).contains(wanted@),
        },
{
    let mut index: usize = 0;
    let ghost seen: Seq<Seq<u8>> = seq![];
    assert(client@.skip(0) == client@);
    while index < client.len()
        invariant
            index <= client.len(),
            client_protocols(client@) == seen + client_protocols(client@.skip(index as int)),
            !seen.contains(wanted@),
        decreases client.len() - index,
    {
        let length = client[index] as usize;
        if length >= client.len() - index {
            assert(client_protocols(client@.skip(index as int)) == Seq::<Seq<u8>>::empty()) by {
                assert(client@.skip(index as int)[0] == client@[index as int]);
            }
            assert(seen + Seq::<Seq<u8>>::empty() == seen);
            return None;
        }
        let end = index + 1 + length;
        proof {
            lemma_protocols_step(client@, index as int);
        }
        let protocol = vstd::slice::slice_subrange(client, index + 1, end);
        let ghost piece = client@.subrange(index + 1, end as int);
        assert(seen + client_protocols(client@.skip(index as int)) == seen.push(piece) + client_protocols(client@.skip(end as int)));
        if bytes_equal(protocol, wanted) {
            assert(client_protocols(client@)[seen.len() as int] == piece);
            return Some(index + 1);
        }
        proof {
            seen = seen.push(piece);
        }
        index = end;
    }
    assert(client_protocols(client@.skip(index as int)) == Seq::<Seq<u8>>::empty());
    assert(seen + Seq::<Seq<u8>>::empty() == seen);
    None
}

/// Picks a protocol from what a client offered.
///
/// The server's preference wins: `offered` is walked in order and the first
/// entry the client also lists is chosen. `None` when nothing overlaps, which
/// must fail the handshake rather than fall back to something unnegotiated.
pub fn select_alpn<'a>(offered: &[Vec<u8>], client: &'a [u8]) -> (out: Option<&'a [u8]>)
    ensures
        match out {
            Some(p) => spec_select_alpn(byte_views(offered@), client@) == Some(p@),
            None => spec_select_alpn(byte_views(offered@), client@) is None,
        },
{
    let ghost all = byte_views(offered@);
    let mut i: usize = 0;
    assert(all.skip(0) == all);
    while i < offered.len()
        invariant
            i <= offered.len(),
            all == byte_views(offered@),
            spec_select_alpn(all, client@) == spec_select_alpn(all.skip(i as int), client@),
        decreases offered.len() - i,
    {
        assert(all.skip(i as int)[0] == offered@[i as int]@);
        assert(all.skip(i as int).drop_first() == all.skip(i + 1));
        let wanted: &[u8] = offered[i].as_slice();
        match find_protocol(wanted, client) {
            Some(start) => {
                let limit = client.len();
                let width = wanted.len();
                assert(start + width <= limit);
                let end = start + width;
                return Some(vstd::slice::slice_subrange(client, start, end));
            },
            None => {},
        }
        i = i + 1;
    }
    None
}

/// The first version of `versions` whose major number is 1.
pub open spec fn first_http1(versions: Seq<Version>) -> Option<Version>
    decreases versions.len(),
{
    if versions.len() == 0 {
        None
    } else if spec_major(versions[0]) == 1 {
        Some(versions[0])
    } else {
        first_http1(versions.drop_first())
    }
}

/// The version a completed handshake settled on, or why none was.
pub open spec fn spec_negotiated(alpn: Option<Seq<u8>>, versions: Seq<Version>) -> Result<Version, Seq<char>> {
    match alpn {
        None => match first_http1(versions) {
            Some(v) => Ok(v),
            None => Err("the peer selected no protocol"@),
        },
        Some(a) => match spec_from_alpn(a) {
            Some(v) => if versions.contains(v) {
                Ok(v)
            } else {
                Err("the peer selected "@ + debug_text(lossy_text(a)))
            },
            None => Err("the peer selected "@ + debug_text(lossy_text(a))),
        },
    }
}

/// The octet view of an optional octet slice.
pub open spec fn opt_bytes(o: Option<&[u8]>) -> Option<Seq<u8>> {
    match o {
        Some(b) => Some(b@),
        None => None,
    }
}

/// The version a completed handshake settled on.
///
/// A peer that selected nothing falls back to HTTP/1.x, which predates ALPN,
/// and only when that was on offer.
///
/// # Errors
///
/// Returns [`Error::Version`] when the peer selected nothing and no HTTP/1.x
/// was offered, or selected something outside `versions`.
pub fn negotiated(alpn: Option<&[u8]>, versions: &[Version]) -> (out: Result<Version, Error>)
    ensures
        match out {
            Ok(v) => spec_negotiated(opt_bytes(alpn), versions@) == Ok::<Version, Seq<char>>(v),
            Err(e) => e matches Error::Version(m) && spec_negotiated(opt_bytes(alpn), versions@) == Err::<Version, Seq<char>>(m@),
        },
{
    match alpn {
        None => {
            let mut i: usize = 0;
            assert(versions@.skip(0) == versions@);
            while i < versions.len()
                invariant
                    i <= versions.len(),
                    alpn is None,
                    first_http1(versions@) == first_http1(versions@.skip(i as int)),
                decreases versions.len() - i,
            {
                assert(versions@.skip(i as int)[0] == versions@[i as int]);
                assert(versions@.skip(i as int).drop_first() == versions@.skip(i + 1));
                if versions[i].major() == 1 {
                    return Ok(versions[i]);
                }
                i = i + 1;
            }
            Err(Error::Version(String::from_str("the peer selected no protocol")))
        },
        Some(a) => {
            let found = Version::from_alpn(a);
            match found {
                Some(v) => {
                    let mut i: usize = 0;
                    while i < versions.len()
                        invariant
                            i <= versions.len(),
                            alpn == Some(a),
                            spec_from_alpn(a@) == Some(v),
                            forall|k: int| 0 <= k < i ==> versions@[k] != v,
                        decreases versions.len() - i,
                    {
                        if versions[i] == v {
                            assert(versions@.contains(v)) by {
                                assert(versions@[i as int] == v);
                            }
                            return Ok(v);
                        }
                        i = i + 1;
                    }
                },
                None => {},
            }
            let text = utf8_lossy(a);
            let quoted = debug_quote(text.as_str());
            let message = String::from_str("the peer selected ").concat(quoted.as_str());
            Err(Error::Version(message))
        },
    }
}

/// A certificate chain and the private key that goes with it.
#[derive(Debug, Clone)]
pub struct Identity {
    /// The chain in DER, leaf first, then whatever intermediates are needed.
    pub certificates: Vec<Vec<u8>>,
    /// The private key, in PKCS#8 DER.
    pub key: Vec<u8>,
}

impl Identity {
    /// An identity from a DER chain and a PKCS#8 key.
    ///
    /// Nothing is parsed here; a malformed chain or key surfaces when a
    /// context is built from it.
    pub fn new(certificates: Vec<Vec<u8>>, key: Vec<u8>) -> (out: Identity)
        ensures
            out.certificates@ == certificates@,
            out.key@ == key@,
    {
        Identity { certificates, key }
    }
}

/// The ECHConfig version this crate understands.
pub const ECH_VERSION: u16 = 0xfe0d;

/// A big-endian 16-bit number.
pub open spec fn be16(high: u8, low: u8) -> int {
    high as int * 256 + low as int
}

/// The two octets a 16-bit number is written as, big-endian.
pub open spec fn be16_bytes(n: u16) -> Seq<u8> {
    seq![(n / 256) as u8, (n % 256) as u8]
}

/// One ECH configuration, as plain values.
pub struct EchConfigView {
    pub version: u16,
    pub public_name: Seq<char>,
    pub maximum_name_length: u8,
}

/// The fields one ECHConfig's contents carry, or why they cannot be read.
pub open spec fn spec_contents(raw: Seq<u8>) -> Result<EchConfigView, Seq<char>> {
    if raw.len() < 5 {
        Err("ECHConfig is too short"@)
    } else {
        let offset = 5 + be16(raw[3], raw[4]);
        if offset + 2 > raw.len() {
            Err("ECHConfig ends inside its cipher suites"@)
        } else {
            let offset = offset + 2 + be16(raw[offset], raw[offset + 1]);
            if offset >= raw.len() {
                Err("ECHConfig has no maximum name length"@)
            } else if offset + 1 >= raw.len() {
                Err("ECHConfig has no public name"@)
            } else {
                let start = offset + 2;
                let end = start + raw[offset + 1] as int;
                if end > raw.len() {
                    Err("ECHConfig public name runs past the config"@)
                } else {
                    Ok(
                        EchConfigView {
                            version: ECH_VERSION,
                            public_name: lossy_text(raw.subrange(start, end)),
                            maximum_name_length: raw[offset],
                        },
                    )
                }
            }
        }
    }
}

/// The configurations of the supported version in the body of an
/// `ECHConfigList`, in order, or the first reason one cannot be read.
pub open spec fn spec_configs(body: Seq<u8>) -> Result<Seq<EchConfigView>, Seq<char>>
    decreases body.len(),
{
    if body.len() < 4 {
        Ok(seq![])
    } else {
        let version = be16(body[0], body[1]);
        let end = 4 + be16(body[2], body[3]);
        if end > body.len() {
            Err("an ECHConfig runs past the list"@)
        } else {
            let rest = spec_configs(body.skip(end));
            if version == ECH_VERSION {
                match spec_contents(body.subrange(4, end)) {
                    Err(m) => Err(m),
                    Ok(config) => match rest {
                        Ok(configs) => Ok(seq![config] + configs),
                        Err(m) => Err(m),
                    },
                }
            } else {
                rest
            }
        }
    }
}

/// What a published `ECHConfigList` reads as, or why it cannot be read.
pub open spec fn spec_config_list(raw: Seq<u8>) -> Result<Seq<EchConfigView>, Seq<char>> {
    if raw.len() < 2 {
        Err("ECHConfigList is too short"@)
    } else if be16(raw[0], raw[1]) != raw.len() - 2 {
        Err("ECHConfigList length does not match its contents"@)
    } else {
        match spec_configs(raw.skip(2)) {
            Err(m) => Err(m),
            Ok(configs) => if configs.len() == 0 {
                Err("ECHConfigList carries no supported ECHConfig"@)
            } else {
                Ok(configs)
            },
        }
    }
}

/// One ECH configuration, as far as a client needs to read it.
///
/// The public key and cipher suites stay in the raw config that the TLS
/// stack is given; only the fields a caller might want to inspect are lifted
/// out.
#[derive(Debug, Clone)]
pub struct EchConfig {
    /// The config version; always [`ECH_VERSION`] here.
    pub version: u16,
    /// The name that appears in the outer, visible handshake.
    pub public_name: String,
    /// The length the real server name is padded to, so its size leaks nothing.
    pub maximum_name_length: u8,
}

impl View for EchConfig {
    type V = EchConfigView;

    open spec fn view(&self) -> EchConfigView {
        EchConfigView {
            version: self.version,
            public_name: self.public_name@,
            maximum_name_length: self.maximum_name_length,
        }
    }
}

/// A list of ECH configurations, as published for a host.
#[derive(Debug, Clone)]
pub struct EchConfigList {
    /// The configurations of a version this crate understands.
    pub configs: Vec<EchConfig>,
}

/// The plain values of a list of configurations.
pub open spec fn config_views(v: Seq<EchConfig>) -> Seq<EchConfigView> {
    Seq::new(v.len(), |i: int| v[i]@)
}

impl View for EchConfigList {
    type V = Seq<EchConfigView>;

    open spec fn view(&self) -> Seq<EchConfigView> {
        config_views(self.configs@)
    }
}

fn read_be16(high: u8, low: u8) -> (n: usize)
    ensures
        n == be16(high, low),
{
    (high as usize) * 256 + (low as usize)
}

impl EchConfigList {
    /// Parses a published `ECHConfigList`.
    ///
    /// Configurations of other versions are skipped rather than rejected,
    /// since a list is expected to carry several.
    ///
    /// # Errors
    ///
    /// Returns [`Error::Tls`] when the list is too short, its declared length
    /// disagrees with its contents, a config runs past the end, or nothing in
    /// it is of a supported version.
    pub fn parse(raw: &[u8]) -> (out: Result<EchConfigList, Error>)
        ensures
            match out {
                Ok(list) => spec_config_list(raw@) == Ok::<Seq<EchConfigView>, Seq<char>>(list@),
                Err(e) => e matches Error::Tls(m) && spec_config_list(raw@) == Err::<Seq<EchConfigView>, Seq<char>>(m@),
            },
    {
        if raw.len() < 2 {
            return Err(Error::Tls(String::from_str("ECHConfigList is too short")));
        }
        let declared = read_be16(raw[0], raw[1]);
        let body = vstd::slice::slice_subrange(raw, 2, raw.len());
        assert(body@ == raw@.skip(2));
        if declared != body.len() {
            return Err(Error::Tls(String::from_str("ECHConfigList length does not match its contents")));
        }
        let mut configs: Vec<EchConfig> = Vec::new();
        let mut offset: usize = 0;
        assert(body@.skip(0) == body@);
        while body.len() - offset >= 4
            invariant
                offset <= body.len(),
                raw@.len() >= 2,
                be16(raw@[0], raw@[1]) == raw@.len() - 2,
                body@ == raw@.skip(2),
                spec_configs(body@) == match spec_configs(body@.skip(offset as int)) {
                    Ok(rest) => Ok(config_views(configs@) + rest),
                    Err(m) => Err(m),
                },
            decreases body.len() - offset,
        {
            let ghost here = body@.skip(offset as int);
            assert(here[0] == body@[offset as int] && here[1] == body@[offset + 1]);
            assert(here[2] == body@[offset + 2] && here[3] == body@[offset + 3]);
            let version = read_be16(body[offset], body[offset + 1]);
            let size = read_be16(body[offset + 2], body[offset + 3]);
            assert(version == be16(here[0], here[1]) && size == be16(here[2], here[3]));
            offset = offset + 4;
            if size > body.len() - offset {
                assert(4 + size > here.len());
                assert(spec_configs(here) == Err::<Seq<EchConfigView>, Seq<char>>("an ECHConfig runs past the list"@));
                return Err(Error::Tls(String::from_str("an ECHConfig runs past the list")));
            }
            let contents = vstd::slice::slice_subrange(body, offset, offset + size);
            assert(contents@ == here.subrange(4, 4 + size as int));
            assert(here.skip(4 + size as int) == body@.skip(offset + size));
            if version == 0xfe0d {
                let config = match EchConfigList::contents(contents) {
                    Ok(config) => config,
                    Err(e) => {
                        return Err(e);
                    },
                };
                proof {
                    assert(config_views(configs@.push(config)) =~= config_views(configs@).push(config@));
                    assert forall|rest: Seq<EchConfigView>| #![auto] config_views(configs@).push(config@) + rest == config_views(configs@) + (seq![config@] + rest) by {
                        assert(config_views(configs@).push(config@) + rest =~= config_views(configs@) + (seq![config@] + rest));
                    }
                }
                configs.push(config);
            }
            offset = offset + size;
        }
        assert(body@.skip(offset as int).len() < 4);
        assert(config_views(configs@) + Seq::<EchConfigView>::empty() == config_views(configs@));
        if configs.len() == 0 {
            return Err(Error::Tls(String::from_str("ECHConfigList carries no supported ECHConfig")));
        }
        Ok(EchConfigList { configs })
    }

    /// Reads the fields this crate needs out of one ECHConfig's contents.
    ///
    /// # Errors
    ///
    /// Returns [`Error::Tls`] when the config is too short or any of its
    /// length-prefixed parts runs past the end.
    pub fn contents(raw: &[u8]) -> (out: Result<EchConfig, Error>)
        ensures
            match out {
                Ok(config) => spec_contents(raw@) == Ok::<EchConfigView, Seq<char>>(config@),
                Err(e) => e matches Error::Tls(m) && spec_contents(raw@) == Err::<EchConfigView, Seq<char>>(m@),
            },
    {
        if raw.len() < 5 {
            return Err(Error::Tls(String::from_str("ECHConfig is too short")));
        }
        let key_length = read_be16(raw[3], raw[4]);
        let offset = 5 + key_length;
        if offset + 2 > raw.len() {
            return Err(Error::Tls(String::from_str("ECHConfig ends inside its cipher suites")));
        }
        let cipher_length = read_be16(raw[offset], raw[offset + 1]);
        let offset = offset + 2 + cipher_length;
        if offset >= raw.len() {
            return Err(Error::Tls(String::from_str("ECHConfig has no maximum name length")));
        }
        let maximum_name_length = raw[offset];
        if offset + 1 >= raw.len() {
            return Err(Error::Tls(String::from_str("ECHConfig has no public name")));
        }
        let name_length = raw[offset + 1] as usize;
        let start = offset + 2;
        if name_length > raw.len() - start {
            return Err(Error::Tls(String::from_str("ECHConfig public name runs past the config")));
        }
        let name = vstd::slice::slice_subrange(raw, start, start + name_length);
        Ok(EchConfig { version: ECH_VERSION, public_name: utf8_lossy(name), maximum_name_length })
    }
}

/// The ECHConfig contents a key is published with, before the version and
/// length that frame them.
pub open spec fn spec_ech_contents(public_name: Seq<u8>, config_id: u8, public_key: Seq<u8>) -> Seq<u8> {
    seq![config_id, 0x00u8, 0x20u8] + be16_bytes(public_key.len() as u16) + public_key + seq![
        0x00u8,
        0x04u8,
        0x00u8,
        0x01u8,
        0x00u8,
        0x01u8,
        64u8,
        public_name.len() as u8,
    ] + public_name + seq![0x00u8, 0x00u8]
}

/// One whole ECHConfig around a public key: version, length, contents.
pub open spec fn spec_ech_config(public_name: Seq<u8>, config_id: u8, public_key: Seq<u8>) -> Seq<u8> {
    let contents = spec_ech_contents(public_name, config_id, public_key);
    seq![0xfeu8, 0x0du8] + be16_bytes(contents.len() as u16) + contents
}

/// A server's ECH key pair, and the config that publishes its public half.
///
/// The config is what a client needs in order to encrypt its ClientHello; the
/// private key is what the server decrypts it with. Publish
/// [`EchKeys::config_list`] where clients can reach it.
#[derive(Debug, Clone)]
pub struct EchKeys {
    /// One ECHConfig: version(2) || length(2) || contents.
    pub config: Vec<u8>,
    /// The raw X25519 HPKE private key (32 bytes).
    pub private_key: Vec<u8>,
}

/// Appends a 16-bit number, big-endian.
fn push_be16(out: &mut Vec<u8>, n: u16)
    ensures
        final(out)@ == old(out)@ + be16_bytes(n),
{
    out.push((n / 256) as u8);
    out.push((n % 256) as u8);
}

/// Appends octets.
fn push_bytes(out: &mut Vec<u8>, bytes: &[u8])
    ensures
        final(out)@ == old(out)@ + bytes@,
{
    let mut k: usize = 0;
    while k < bytes.len()
        invariant
            k <= bytes.len(),
            out@ == old(out)@ + bytes@.take(k as int),
        decreases bytes.len() - k,
    {
        out.push(bytes[k]);
        assert(bytes@.take(k + 1) == bytes@.take(k as int).push(bytes@[k as int]));
        k = k + 1;
    }
    assert(bytes@.take(bytes.len() as int) == bytes@);
}

impl EchKeys {
    /// The KEM identifier written into the config: X25519 with HKDF-SHA256.
    pub const KEM_X25519_HKDF_SHA256: u16 = 0x0020;
    /// The KDF identifier written into the config: HKDF-SHA256.
    pub const KDF_HKDF_SHA256: u16 = 0x0001;
    /// The AEAD identifier written into the config: AES-128-GCM.
    pub const AEAD_AES_128_GCM: u16 = 0x0001;
    /// The name length clients pad to, so the real name's size leaks nothing.
    pub const MAXIMUM_NAME_LENGTH: u8 = 64;

    /// Builds one ECHConfig around a public key.
    ///
    /// A `public_name` longer than 255 octets does not fit its length prefix,
    /// and is not accepted.
    pub fn encode(public_name: &str, config_id: u8, public_key: &[u8]) -> (out: Vec<u8>)
        requires
            vstd::utf8::encode_utf8(public_name@).len() <= 255,
        ensures
            out@ == spec_ech_config(vstd::utf8::encode_utf8(public_name@), config_id, public_key@),
    {
        let name = public_name.as_bytes();
        let mut contents: Vec<u8> = Vec::new();
        contents.push(config_id);
        push_be16(&mut contents, 0x0020);
        push_be16(&mut contents, public_key.len() as u16);
        push_bytes(&mut contents, public_key);
        push_be16(&mut contents, 4);
        push_be16(&mut contents, 0x0001);
        push_be16(&mut contents, 0x0001);
        contents.push(64);
        contents.push(name.len() as u8);
        push_bytes(&mut contents, name);
        push_be16(&mut contents, 0);
        assert(contents@ =~= spec_ech_contents(name@, config_id, public_key@));
        let mut config: Vec<u8> = Vec::new();
        push_be16(&mut config, 0xfe0d);
        push_be16(&mut config, contents.len() as u16);
        push_bytes(&mut config, &contents);
        assert(config@ =~= spec_ech_config(name@, config_id, public_key@));
        config
    }

    /// The config wrapped as a one-entry `ECHConfigList`, ready to publish.
    pub fn config_list(&self) -> (out: Vec<u8>)
        ensures
            out@ == be16_bytes(self.config@.len() as u16) + self.config@,
    {
        let mut list: Vec<u8> = Vec::new();
        push_be16(&mut list, self.config.len() as u16);
        push_bytes(&mut list, &self.config);
        list
    }
}

/// Whether ECH was actually used on a completed handshake.
///
/// A handshake can succeed with ECH rejected, having fallen back to the public
/// name — in which case the real server name travelled in the clear. Check
/// this where that matters.
#[derive(Debug, Clone, Copy, PartialEq, Eq, Structural)]
pub struct EchStatus {
    /// Whether the server accepted the encrypted ClientHello.
    pub accepted: bool,
}

impl EchStatus {
    /// Whether the server name was in fact encrypted.
    pub fn succeeded(&self) -> (b: bool)
        ensures
            b == self.accepted,
    {
        self.accepted
    }
}

/// What a QUIC server builds its TLS context from.
///
/// The QUIC stack would otherwise load certificates from paths on disk; this
/// supplies an in-memory [`Identity`] instead, which is also the only way to
/// install ECH keys.
#[derive(Debug, Clone)]
pub struct QuicServerTls {
    /// The certificate chain and key to serve.
    pub identity: Identity,
    /// The ECH keys, if the server offers ECH.
    pub ech: Option<EchKeys>,
}

/// What a QUIC client builds its TLS context from.
#[derive(Debug, Clone)]
pub struct QuicClientTls {
    /// The trusted roots in DER; empty uses the platform trust store.
    pub roots: Vec<Vec<u8>>,
}

proof fn lemma_be16_roundtrip(n: u16)
    ensures
        be16(be16_bytes(n)[0], be16_bytes(n)[1]) == n,
{
}

/// What a server publishes is what a client reads: the one-entry list
/// [`EchKeys::config_list`] wraps around [`EchKeys::encode`] parses back to a
/// single configuration carrying the public name and the padding length.
///
/// Stated for a config whose lengths fit their 16-bit prefixes.
pub proof fn law_published_config_parses(public_name: Seq<u8>, config_id: u8, public_key: Seq<u8>)
    requires
        public_name.len() <= 255,
        public_key.len() + public_name.len() <= 65516,
    ensures
        ({
            let config = spec_ech_config(public_name, config_id, public_key);
            spec_config_list(be16_bytes(config.len() as u16) + config) == Ok::<Seq<EchConfigView>, Seq<char>>(
                seq![
                    EchConfigView {
                        version: ECH_VERSION,
                        public_name: lossy_text(public_name),
                        maximum_name_length: 64,
                    },
                ],
            )
        }),
{
    let contents = spec_ech_contents(public_name, config_id, public_key);
    let config = spec_ech_config(public_name, config_id, public_key);
    let list = be16_bytes(config.len() as u16) + config;
    let pk = public_key.len() as int;
    let nl = public_name.len() as int;
    assert(contents.len() == 15 + pk + nl);
    assert(config.len() == 4 + contents.len() as int);
    lemma_be16_roundtrip(config.len() as u16);
    lemma_be16_roundtrip(contents.len() as u16);
    lemma_be16_roundtrip(pk as u16);
    assert(list[0] == be16_bytes(config.len() as u16)[0]);
    assert(list[1] == be16_bytes(config.len() as u16)[1]);
    let body = list.skip(2);
    assert(body == config);
    assert(body[2] == be16_bytes(contents.len() as u16)[0]);
    assert(body[3] == be16_bytes(contents.len() as u16)[1]);
    assert(body[0] == 0xfeu8 && body[1] == 0x0du8);
    assert(body.subrange(4, 4 + contents.len() as int) == contents);
    assert(body.skip(4 + contents.len() as int).len() == 0);
    assert(spec_configs(body.skip(4 + contents.len() as int)) == Ok::<Seq<EchConfigView>, Seq<char>>(seq![]));
    assert(contents[3] == be16_bytes(pk as u16)[0]);
    assert(contents[4] == be16_bytes(pk as u16)[1]);
    let off = 5 + pk;
    assert(contents[off] == 0x00u8 && contents[off + 1] == 0x04u8);
    assert(contents[off + 6] == 64u8);
    assert(contents[off + 7] == nl as u8);
    assert(contents.subrange(off + 8, off + 8 + nl) == public_name);
    let view = EchConfigView { version: ECH_VERSION, public_name: lossy_text(public_name), maximum_name_length: 64 };
    assert(spec_contents(contents) == Ok::<EchConfigView, Seq<char>>(view));
    assert(seq![view] + Seq::<EchConfigView>::empty() == seq![view]);
}

/// The contents of an ECHConfig laid out field by field: the key config
/// (config id, KEM, public key, cipher suites), the maximum name length, the
/// public name and the extensions, each variable part behind its length.
pub open spec fn ech_contents_of(
    config_id: u8,
    kem: u16,
    public_key: Seq<u8>,
    cipher_suites: Seq<u8>,
    maximum_name_length: u8,
    public_name: Seq<u8>,
    extensions: Seq<u8>,
) -> Seq<u8> {
    seq![config_id] + be16_bytes(kem) + be16_bytes(public_key.len() as u16) + public_key
        + be16_bytes(cipher_suites.len() as u16) + cipher_suites
        + seq![maximum_name_length, public_name.len() as u8] + public_name
        + be16_bytes(extensions.len() as u16) + extensions
}

/// Any one-entry list a server may publish reads back as the configuration
/// it was built from, whatever its KEM, key, cipher suites and extensions:
/// the public name and the maximum name length come back as written, found
/// past a cipher-suite list of whatever length the config declares.
///
/// Stated for a config whose lengths fit their prefixes.
pub proof fn law_config_list_reads_back_any_config(
    config_id: u8,
    kem: u16,
    public_key: Seq<u8>,
    cipher_suites: Seq<u8>,
    maximum_name_length: u8,
    public_name: Seq<u8>,
    extensions: Seq<u8>,
)
    requires
        public_name.len() <= 255,
        public_key.len() + cipher_suites.len() + public_name.len() + extensions.len() <= 65520,
    ensures
        ({
            let contents = ech_contents_of(
                config_id,
                kem,
                public_key,
                cipher_suites,
                maximum_name_length,
                public_name,
                extensions,
            );
            let config = seq![0xfeu8, 0x0du8] + be16_bytes(contents.len() as u16) + contents;
            spec_config_list(be16_bytes(config.len() as u16) + config) == Ok::<Seq<EchConfigView>, Seq<char>>(
                seq![
                    EchConfigView {
                        version: ECH_VERSION,
                        public_name: lossy_text(public_name),
                        maximum_name_length,
                    },
                ],
            )
        }),
{
    let contents = ech_contents_of(
        config_id,
        kem,
        public_key,
        cipher_suites,
        maximum_name_length,
        public_name,
        extensions,
    );
    let config = seq![0xfeu8, 0x0du8] + be16_bytes(contents.len() as u16) + contents;
    let list = be16_bytes(config.len() as u16) + config;
    let pk = public_key.len() as int;
    let cs = cipher_suites.len() as int;
    let nl = public_name.len() as int;
    let ex = extensions.len() as int;
    assert(contents.len() == 11 + pk + cs + nl + ex);
    assert(config.len() == 4 + contents.len() as int);
    lemma_be16_roundtrip(config.len() as u16);
    lemma_be16_roundtrip(contents.len() as u16);
    lemma_be16_roundtrip(pk as u16);
    lemma_be16_roundtrip(cs as u16);
    assert(list[0] == be16_bytes(config.len() as u16)[0]);
    assert(list[1] == be16_bytes(config.len() as u16)[1]);
    let body = list.skip(2);
    assert(body == config);
    assert(body[2] == be16_bytes(contents.len() as u16)[0]);
    assert(body[3] == be16_bytes(contents.len() as u16)[1]);
    assert(body[0] == 0xfeu8 && body[1] == 0x0du8);
    assert(body.subrange(4, 4 + contents.len() as int) == contents);
    assert(body.skip(4 + contents.len() as int).len() == 0);
    assert(spec_configs(body.skip(4 + contents.len() as int)) == Ok::<Seq<EchConfigView>, Seq<char>>(seq![]));
    assert(contents[3] == be16_bytes(pk as u16)[0]);
    assert(contents[4] == be16_bytes(pk as u16)[1]);
    let off = 5 + pk;
    assert(contents[off] == be16_bytes(cs as u16)[0]);
    assert(contents[off + 1] == be16_bytes(cs as u16)[1]);
    let names_at = off + 2 + cs;
    assert(contents[names_at] == maximum_name_length);
    assert(contents[names_at + 1] == nl as u8);
    assert(contents.subrange(names_at + 2, names_at + 2 + nl) == public_name);
    let view = EchConfigView { version: ECH_VERSION, public_name: lossy_text(public_name), maximum_name_length };
    assert(spec_contents(contents) == Ok::<EchConfigView, Seq<char>>(view));
    assert(seq![view] + Seq::<EchConfigView>::empty() == seq![view]);
}

proof fn lemma_select_is_offered(offered: Seq<Seq<u8>>, client: Seq<u8>)
    ensures
        spec_select_alpn(offered, client) matches Some(p) ==> offered.contains(p) && client_protocols(client).contains(p),
    decreases offered.len(),
{
    if offered.len() > 0 && !client_protocols(client).contains(offered[0]) {
        lemma_select_is_offered(offered.drop_first(), client);
        if let Some(p) = spec_select_alpn(offered, client) {
            let k = choose|k: int| 0 <= k < offered.drop_first().len() && offered.drop_first()[k] == p;
            assert(offered[k + 1] == p);
        }
    } else if offered.len() > 0 {
        assert(offered[0] == offered[0]);
    }
}

/// The ALPN identifiers of the versions name them back.
pub proof fn lemma_alpn_names_version(v: Version)
    ensures
        spec_from_alpn(spec_alpn(v)) == Some(v),
{
    assert(spec_alpn(Version::V1_0) != spec_alpn(Version::V1_1)) by {
        assert(spec_alpn(Version::V1_0)[7] != spec_alpn(Version::V1_1)[7]);
    }
    assert(spec_alpn(Version::V2_0) != spec_alpn(Version::V3_0)) by {
        assert(spec_alpn(Version::V2_0)[1] != spec_alpn(Version::V3_0)[1]);
    }
}

/// A protocol a server selects out of its own offer is one the handshake is
/// then negotiated to: whatever [`select_alpn`] picks from the identifiers of
/// `versions`, [`negotiated`] accepts against the same `versions`, as the
/// version that identifier names.
pub proof fn law_selected_protocol_negotiates(versions: Seq<Version>, client: Seq<u8>)
    requires
        spec_select_alpn(spec_alpns(versions), client) is Some,
    ensures
        ({
            let p = spec_select_alpn(spec_alpns(versions), client)->0;
            spec_negotiated(Some(p), versions) matches Ok(v) && spec_alpn(v) == p && client_protocols(client).contains(p)
        }),
{
    let offered = spec_alpns(versions);
    lemma_select_is_offered(offered, client);
    let p = spec_select_alpn(offered, client)->0;
    let k = choose|k: int| 0 <= k < offered.len() && offered[k] == p;
    let v = versions[k];
    assert(spec_alpn(v) == p);
    lemma_alpn_names_version(v);
    assert(versions.contains(v));
}

} // verus!
