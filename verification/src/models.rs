//! The vocabulary the rest of the crate is written in: HTTP versions, methods,
//! roles, URLs, field sections and messages.

use vstd::prelude::*;

use crate::text::{chars_of, lower_seq, lowercase, push_all, push_char, push_decimal, same, decimal};

verus! {

/// A version of HTTP.
#[derive(Debug, Clone, Copy, PartialEq, Eq, Structural)]
pub enum Version {
    /// HTTP/1.0.
    V1_0,
    /// HTTP/1.1.
    V1_1,
    /// HTTP/2.
    V2_0,
    /// HTTP/3.
    V3_0,
}

/// What a version or a port runs over.
#[derive(Debug, Clone, Copy, PartialEq, Eq, Structural)]
pub enum TransportKind {
    /// An ordered byte stream: TCP, or a Unix domain socket.
    Stream,
    /// QUIC, over UDP.
    QUIC,
}

/// The major version number.
pub open spec fn spec_major(v: Version) -> u8 {
    match v {
        Version::V1_0 | Version::V1_1 => 1,
        Version::V2_0 => 2,
        Version::V3_0 => 3,
    }
}

/// The ALPN protocol identifier a version is negotiated under.
pub open spec fn spec_alpn(v: Version) -> Seq<u8> {
    match v {
        Version::V1_0 => seq![104u8, 116, 116, 112, 47, 49, 46, 48],
        Version::V1_1 => seq![104u8, 116, 116, 112, 47, 49, 46, 49],
        Version::V2_0 => seq![104u8, 50],
        Version::V3_0 => seq![104u8, 51],
    }
}

/// The version whose ALPN identifier is `alpn`, if any.
pub open spec fn spec_from_alpn(alpn: Seq<u8>) -> Option<Version> {
    if alpn == spec_alpn(Version::V1_0) {
        Some(Version::V1_0)
    } else if alpn == spec_alpn(Version::V1_1) {
        Some(Version::V1_1)
    } else if alpn == spec_alpn(Version::V2_0) {
        Some(Version::V2_0)
    } else if alpn == spec_alpn(Version::V3_0) {
        Some(Version::V3_0)
    } else {
        None
    }
}

impl Version {
    /// The major version number: 1, 2 or 3.
    pub fn major(&self) -> (m: u8)
        ensures
            m == spec_major(*self),
    {
        match self {
            Version::V1_0 | Version::V1_1 => 1,
            Version::V2_0 => 2,
            Version::V3_0 => 3,
        }
    }

    /// The ALPN protocol identifier this version is negotiated under:
    /// `http/1.0`, `http/1.1`, `h2` or `h3`.
    pub fn alpn(&self) -> (out: Vec<u8>)
        ensures
            out@ == spec_alpn(*self),
    {
        match self {
            Version::V1_0 => vec![104u8, 116, 116, 112, 47, 49, 46, 48],
            Version::V1_1 => vec![104u8, 116, 116, 112, 47, 49, 46, 49],
            Version::V2_0 => vec![104u8, 50],
            Version::V3_0 => vec![104u8, 51],
        }
    }

    /// The version an ALPN protocol identifier names, if any.
    pub fn from_alpn(alpn: &[u8]) -> (out: Option<Version>)
        ensures
            out == spec_from_alpn(alpn@),
    {
        let candidates = [Version::V1_0, Version::V1_1, Version::V2_0, Version::V3_0];
        let mut i: usize = 0;
        while i < 4
            invariant
                i <= 4,
                candidates@ == seq![Version::V1_0, Version::V1_1, Version::V2_0, Version::V3_0],
                forall|k: int| 0 <= k < i ==> alpn@ != spec_alpn(#[trigger] candidates@[k]),
            decreases 4 - i,
        {
            let wanted = candidates[i].alpn();
            if bytes_equal(alpn, &wanted) {
                return Some(candidates[i]);
            }
            i = i + 1;
        }
        assert(alpn@ != spec_alpn(candidates@[0]));
        assert(alpn@ != spec_alpn(candidates@[1]));
        assert(alpn@ != spec_alpn(candidates@[2]));
        assert(alpn@ != spec_alpn(candidates@[3]));
        None
    }

    /// What this version runs over: QUIC for HTTP/3, a byte stream otherwise.
    pub fn transport(&self) -> (t: TransportKind)
        ensures
            t == (if *self == Version::V3_0 { TransportKind::QUIC } else { TransportKind::Stream }),
    {
        match self {
            Version::V3_0 => TransportKind::QUIC,
            _ => TransportKind::Stream,
        }
    }
}

/// What a version runs over: QUIC for HTTP/3, a byte stream otherwise.
pub open spec fn version_transport(version: Version) -> TransportKind {
    if version == Version::V3_0 { TransportKind::QUIC } else { TransportKind::Stream }
}

/// A port to dial or bind.
#[derive(Debug, Clone, PartialEq, Eq)]
pub enum Port {
    /// A Unix domain socket, by path.
    UDS(String),
    /// A TCP port.
    TCP(u16),
    /// A UDP port carrying QUIC.
    QUIC(u16),
}

/// What a port runs over.
pub open spec fn port_transport(port: Port) -> TransportKind {
    match port {
        Port::QUIC(_) => TransportKind::QUIC,
        _ => TransportKind::Stream,
    }
}

/// The versions of `versions` a port of this transport carries, in order.
pub open spec fn offered(versions: Seq<Version>, transport: TransportKind) -> Seq<Version>
    decreases versions.len(),
{
    if versions.len() == 0 {
        versions
    } else {
        let rest = offered(versions.drop_last(), transport);
        if version_transport(versions.last()) == transport { rest.push(versions.last()) } else { rest }
    }
}

impl Port {
    /// What the port runs over: QUIC for a QUIC port, a byte stream for TCP
    /// and Unix domain sockets.
    pub fn transport(&self) -> (t: TransportKind)
        ensures
            t == port_transport(*self),
    {
        match self {
            Port::QUIC(_) => TransportKind::QUIC,
            _ => TransportKind::Stream,
        }
    }

    /// Whether the port can carry `version`: exactly when their transports
    /// match.
    pub fn carries(&self, version: Version) -> (b: bool)
        ensures
            b == (version_transport(version) == port_transport(*self)),
    {
        version.transport() == self.transport()
    }

    /// Which of `versions` the port can carry, in the order they were given.
    pub fn offers(&self, versions: &[Version]) -> (out: Vec<Version>)
        ensures
            out@ == offered(versions@, port_transport(*self)),
    {
        let mut out: Vec<Version> = Vec::new();
        let mut i: usize = 0;
        while i < versions.len()
            invariant
                i <= versions.len(),
                out@ == offered(versions@.take(i as int), port_transport(*self)),
            decreases versions.len() - i,
        {
            assert(versions@.take(i + 1).drop_last() == versions@.take(i as int));
            if self.carries(versions[i]) {
                out.push(versions[i]);
            }
            i = i + 1;
        }
        assert(versions@.take(versions.len() as int) == versions@);
        out
    }
}

/// Whether two octet sequences are equal.
pub fn bytes_equal(a: &[u8], b: &[u8]) -> (out: bool)
    ensures
        out == (a@ == b@),
{
    if a.len() != b.len() {
        return false;
    }
    let mut i: usize = 0;
    while i < a.len()
        invariant
            i <= a.len() == b.len(),
            forall|k: int| 0 <= k < i ==> a@[k] == b@[k],
        decreases a.len() - i,
    {
        if a[i] != b[i] {
            return false;
        }
        i = i + 1;
    }
    assert(a@ =~= b@);
    true
}

/// A request method.
#[derive(Debug, Clone, Copy, PartialEq, Eq, Structural)]
pub enum Method {
    /// `GET`.
    GET,
    /// `HEAD`.
    HEAD,
    /// `POST`.
    POST,
    /// `PUT`.
    PUT,
    /// `DELETE`.
    DELETE,
    /// `CONNECT`.
    CONNECT,
    /// `OPTIONS`.
    OPTIONS,
    /// `TRACE`.
    TRACE,
    /// `PATCH`.
    PATCH,
}

/// Which part an end plays in an exchange.
#[derive(Debug, Clone, Copy, PartialEq, Eq, Structural)]
pub enum Role {
    /// A client that originates requests.
    UserAgent,
    /// A server that answers them.
    Origin,
    /// An intermediary that forwards requests on the client's behalf.
    Proxy,
    /// An intermediary that fronts an origin.
    Gateway,
    /// A blind relay.
    Tunnel,
}

/// How field names are cased on the way out.
#[derive(Debug, Clone, Copy, PartialEq, Eq, Structural)]
pub enum HeaderCase {
    /// `Content-Length`: each dash-separated word capitalised.
    Title,
    /// `content-length`: entirely lowercase.
    Lower,
}

/// The identifier of a stream within a connection.
#[derive(Debug, Clone, Copy, PartialEq, Eq, Structural)]
pub struct StreamID(pub u64);

/// An absolute URL, split into the parts a request needs.
#[derive(Debug, Clone)]
pub struct Url {
    /// The scheme, lowercased.
    pub scheme: String,
    /// The host.
    pub host: String,
    /// The port, explicit or the scheme's default.
    pub port: u16,
    /// The request target: path, query and fragment.
    pub target: String,
}

/// Whether a scheme is one of the secure ones, `https` or `wss`.
pub open spec fn secure_scheme(scheme: Seq<char>) -> bool {
    scheme == seq!['h', 't', 't', 'p', 's'] || scheme == seq!['w', 's', 's']
}

/// The port a scheme is reached on when none is written: 443 for a secure
/// scheme, 80 otherwise.
pub open spec fn default_port(scheme: Seq<char>) -> u16 {
    if secure_scheme(scheme) {
        443
    } else {
        80
    }
}

/// The authority of a host and port under a scheme: the host, and `:port`
/// when the port is not the scheme's default.
pub open spec fn spec_authority(scheme: Seq<char>, host: Seq<char>, port: u16) -> Seq<char> {
    if port == default_port(scheme) {
        host
    } else {
        host + seq![':'] + decimal(port as nat)
    }
}

impl Url {
    /// Whether the scheme is a secure one.
    pub fn secure(&self) -> (b: bool)
        ensures
            b == secure_scheme(self.scheme@),
    {
        let scheme = chars_of(self.scheme.as_str());
        same(&scheme, &['h', 't', 't', 'p', 's']) || same(&scheme, &['w', 's', 's'])
    }

    /// The host, and the port when it is not the default for the scheme.
    pub fn authority(&self) -> (out: String)
        ensures
            out@ == spec_authority(self.scheme@, self.host@, self.port),
    {
        let mut out = String::new();
        let host = chars_of(self.host.as_str());
        push_all(&mut out, &host);
        let default: u16 = if self.secure() { 443 } else { 80 };
        if self.port != default {
            push_char(&mut out, ':');
            push_decimal(&mut out, self.port as u64);
            assert(out@ == host@ + seq![':'] + decimal(self.port as nat));
        }
        out
    }
}

/// A field section: name and value pairs, names stored lowercase.
#[derive(Debug, Clone)]
pub struct Headers {
    /// The fields, in the order they were added.
    pub fields: Vec<(String, String)>,
}

/// The character views of name and value pairs.
pub open spec fn pair_views(v: Seq<(String, String)>) -> Seq<(Seq<char>, Seq<char>)> {
    Seq::new(v.len(), |i: int| (v[i].0@, v[i].1@))
}

/// The values stored under `name`, in order.
pub open spec fn values_of(fields: Seq<(Seq<char>, Seq<char>)>, name: Seq<char>) -> Seq<Seq<char>>
    decreases fields.len(),
{
    if fields.len() == 0 {
        seq![]
    } else {
        let rest = values_of(fields.drop_last(), name);
        if fields.last().0 == name {
            rest.push(fields.last().1)
        } else {
            rest
        }
    }
}

impl View for Headers {
    type V = Seq<(Seq<char>, Seq<char>)>;

    open spec fn view(&self) -> Seq<(Seq<char>, Seq<char>)> {
        pair_views(self.fields@)
    }
}

impl Headers {
    /// An empty section.
    pub fn new() -> (h: Headers)
        ensures
            h@ == Seq::<(Seq<char>, Seq<char>)>::empty(),
    {
        Headers { fields: Vec::new() }
    }

    /// How many fields there are.
    pub fn len(&self) -> (n: usize)
        ensures
            n == self@.len(),
    {
        self.fields.len()
    }

    /// Whether a field is stored under `name`, matched ignoring ASCII case.
    pub fn contains(&self, name: &str) -> (b: bool)
        ensures
            b == exists|i: int| 0 <= i < self@.len() && self@[i].0 == lower_seq(name@),
    {
        let wanted = lowercase(&chars_of(name));
        let mut i: usize = 0;
        while i < self.fields.len()
            invariant
                i <= self.fields.len(),
                wanted@ == lower_seq(name@),
                forall|k: int| 0 <= k < i ==> self@[k].0 != wanted@,
            decreases self.fields.len() - i,
        {
            let field_name = chars_of(self.fields[i].0.as_str());
            if same(&field_name, &wanted) {
                assert(self@[i as int].0 == wanted@);
                return true;
            }
            i = i + 1;
        }
        false
    }

    /// Every value stored under `name`, matched ignoring ASCII case, in order.
    pub fn get_all(&self, name: &str) -> (out: Vec<Vec<char>>)
        ensures
            crate::text::views(out@) == values_of(self@, lower_seq(name@)),
    {
        let wanted = lowercase(&chars_of(name));
        let mut out: Vec<Vec<char>> = Vec::new();
        let mut i: usize = 0;
        while i < self.fields.len()
            invariant
                i <= self.fields.len(),
                wanted@ == lower_seq(name@),
                crate::text::views(out@) == values_of(self@.take(i as int), wanted@),
            decreases self.fields.len() - i,
        {
            let field_name = chars_of(self.fields[i].0.as_str());
            assert(self@.take(i + 1).drop_last() == self@.take(i as int));
            if same(&field_name, &wanted) {
                let value = chars_of(self.fields[i].1.as_str());
                proof {
                    assert(crate::text::views(out@.push(value)) == crate::text::views(out@).push(value@));
                }
                out.push(value);
            }
            i = i + 1;
        }
        assert(self@.take(self.fields.len() as int) == self@);
        out
    }

    /// Adds a field under a name the caller has already lowercased.
    pub fn append_lowercase(&mut self, name: &str, value: String)
        ensures
            final(self)@ == old(self)@.push((name@, value@)),
    {
        let name = String::from_str(name);
        self.fields.push((name, value));
        assert(pair_views(self.fields@) == pair_views(old(self).fields@).push((name@, value@)));
    }
}

/// An HTTP message: a request, a response, or one still being assembled.
#[derive(Debug, Clone)]
pub struct Message {
    /// The version that framed the message.
    pub version: Version,
    /// The method, on a request.
    pub method: Option<Method>,
    /// The status code, on a response.
    pub status_code: Option<u16>,
    /// The request target, on a request.
    pub target: Option<String>,
    /// Whether the message travelled over a secure transport.
    pub secure: bool,
    /// The field section, if any field was set.
    pub headers: Option<Headers>,
}

impl Message {
    /// Whether the message is a request.
    pub fn is_request(&self) -> (b: bool)
        ensures
            b == self.method is Some,
    {
        self.method.is_some()
    }

    /// Whether the message is a response.
    pub fn is_response(&self) -> (b: bool)
        ensures
            b == self.status_code is Some,
    {
        self.status_code.is_some()
    }
}

} // verus!
