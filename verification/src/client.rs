//! What a client decides around a request: how to dial a URL, which version
//! speaks where nothing can be negotiated, when a host's HSTS policy moves a
//! URL to its secure scheme, and which fields a request goes out with.

use vstd::prelude::*;

use crate::cookies::{join_pairs, learn_all, matching_pairs, stores, str_views, CookieJar};
use crate::models::{spec_authority, spec_major, values_of, Headers, Url, Version};
use crate::text::{chars_of, same, string_of, views};

verus! {

/// The version to speak where nothing can be negotiated: the one version a
/// configuration pins, unless that is HTTP/3, or HTTP/1.1.
pub open spec fn spec_prior_version(versions: Seq<Version>) -> Version {
    if versions.len() == 1 && spec_major(versions[0]) != 3 { versions[0] } else { Version::V1_1 }
}

/// The version to speak where nothing can be negotiated.
pub fn prior_version(versions: &[Version]) -> (version: Version)
    ensures
        version == spec_prior_version(versions@),
{
    if versions.len() == 1 && versions[0].major() != 3 {
        versions[0]
    } else {
        Version::V1_1
    }
}

/// Whether HTTP/3 is on offer and nothing else is.
pub open spec fn spec_only_h3(versions: Seq<Version>) -> bool {
    versions.contains(Version::V3_0) && forall|i: int| 0 <= i < versions.len() ==> spec_major(#[trigger] versions[i]) == 3
}

/// Whether HTTP/3 is the only version on offer, and so QUIC the only
/// transport to dial.
pub fn only_h3(versions: &[Version]) -> (b: bool)
    ensures
        b == spec_only_h3(versions@),
{
    let mut found = false;
    let mut i: usize = 0;
    while i < versions.len()
        invariant
            i <= versions.len(),
            found == exists|k: int| 0 <= k < i && versions@[k] == Version::V3_0,
            forall|k: int| 0 <= k < i ==> spec_major(#[trigger] versions@[k]) == 3,
        decreases versions.len() - i,
    {
        if versions[i].major() != 3 {
            return false;
        }
        if versions[i] == Version::V3_0 {
            found = true;
        }
        i = i + 1;
    }
    found
}

/// How a URL is dialled.
#[derive(Debug, Clone, Copy, PartialEq, Eq, Structural)]
pub enum Dial {
    /// Plain TCP, speaking this version.
    Plain(Version),
    /// QUIC, speaking HTTP/3.
    QUIC,
    /// TLS over TCP, negotiating the version by ALPN.
    TLS,
}

/// How to dial a URL: an insecure scheme over plain TCP in the prior
/// version, a secure one over QUIC when only HTTP/3 is on offer and over TLS
/// otherwise.
pub open spec fn spec_dial(secure: bool, versions: Seq<Version>) -> Dial {
    if !secure {
        Dial::Plain(spec_prior_version(versions))
    } else if spec_only_h3(versions) {
        Dial::QUIC
    } else {
        Dial::TLS
    }
}

/// How to dial `url` with these versions on offer.
pub fn dial(url: &Url, versions: &[Version]) -> (how: Dial)
    ensures
        how == spec_dial(crate::models::secure_scheme(url.scheme@), versions@),
{
    if !url.secure() {
        return Dial::Plain(prior_version(versions));
    }
    if only_h3(versions) {
        Dial::QUIC
    } else {
        Dial::TLS
    }
}

/// Whether a scheme is one HSTS moves: `http` or `ws`.
pub open spec fn upgradable(scheme: Seq<char>) -> bool {
    scheme == seq!['h', 't', 't', 'p'] || scheme == seq!['w', 's']
}

/// Moves a URL to its secure scheme when its host insists on TLS: `http`
/// becomes `https` and `ws` becomes `wss`, and a default port of 80 moves to
/// 443. `host_is_strict` is what the HSTS store says of the URL's host.
pub fn apply_hsts(url: &mut Url, host_is_strict: bool)
    ensures
        host_is_strict && upgradable(old(url).scheme@) ==> {
            &&& final(url).scheme@ == old(url).scheme@ + seq!['s']
            &&& final(url).port == if old(url).port == 80 { 443u16 } else { old(url).port }
            &&& final(url).host@ == old(url).host@
            &&& final(url).target@ == old(url).target@
        },
        !(host_is_strict && upgradable(old(url).scheme@)) ==> *final(url) == *old(url),
{
    let scheme = chars_of(url.scheme.as_str());
    let http = same(&scheme, &['h', 't', 't', 'p']);
    let ws = same(&scheme, &['w', 's']);
    if host_is_strict && (http || ws) {
        let mut secure = String::from_str(url.scheme.as_str());
        crate::text::push_all(&mut secure, &['s']);
        url.scheme = secure;
        if url.port == 80 {
            url.port = 443;
        }
    }
}

/// The name of the `Host` field.
pub open spec fn host_field() -> Seq<char> {
    seq!['h', 'o', 's', 't']
}

/// The name of the `Cookie` field.
pub open spec fn cookie_field() -> Seq<char> {
    seq!['c', 'o', 'o', 'k', 'i', 'e']
}

/// Whether a field is stored under `name`.
pub open spec fn has(fields: Seq<(Seq<char>, Seq<char>)>, name: Seq<char>) -> bool {
    exists|i: int| 0 <= i < fields.len() && fields[i].0 == name
}

/// The fields a request for `url` goes out with: the caller's, then `Host`
/// of the URL's authority unless the caller set one, then `Cookie` of the
/// jar's matching pairs unless the caller set one or none match.
pub open spec fn spec_request_fields(
    fields: Seq<(Seq<char>, Seq<char>)>,
    authority: Seq<char>,
    pairs: Option<Seq<(Seq<char>, Seq<char>)>>,
) -> Seq<(Seq<char>, Seq<char>)> {
    let hosted = if has(fields, host_field()) { fields } else { fields.push((host_field(), authority)) };
    match pairs {
        Some(p) => if has(hosted, cookie_field()) || p.len() == 0 { hosted } else { hosted.push((cookie_field(), join_pairs(p))) },
        None => hosted,
    }
}

/// The fields a request for `url` goes out with, from the caller's and the
/// client's cookie jar at `now`.
pub fn request_fields(headers: Option<Headers>, url: &Url, jar: Option<&CookieJar>, now: u64) -> (fields: Headers)
    ensures
        fields@ == spec_request_fields(
            match headers { Some(h) => h@, None => Seq::empty() },
            spec_authority(url.scheme@, url.host@, url.port),
            match jar {
                Some(j) => Some(matching_pairs(j@, url.scheme@, url.host@, url.target@, now)),
                None => None,
            },
        ),
{
    let mut fields = match headers {
        Some(h) => h,
        None => Headers::new(),
    };
    proof {
        reveal_strlit("host");
        reveal_strlit("cookie");
        assert("host"@ == host_field());
        assert("cookie"@ == cookie_field());
        assert(crate::text::lower_seq("host"@) == "host"@);
        assert(crate::text::lower_seq("cookie"@) == "cookie"@);
    }
    if !fields.contains("host") {
        fields.append_lowercase("host", url.authority());
    }
    match jar {
        Some(jar) => {
            if !fields.contains("cookie") {
                match jar.cookie(url, now) {
                    Some(cookie) => fields.append_lowercase("cookie", cookie),
                    None => {},
                }
            }
        },
        None => {},
    }
    fields
}

/// The name of the `Set-Cookie` field.
pub open spec fn set_cookie_field() -> Seq<char> {
    seq!['s', 'e', 't', '-', 'c', 'o', 'o', 'k', 'i', 'e']
}

/// The `Set-Cookie` values a response carried, in order.
pub open spec fn set_cookies(headers: Option<&Headers>) -> Seq<Seq<char>> {
    match headers {
        Some(h) => values_of(h@, set_cookie_field()),
        None => Seq::empty(),
    }
}

/// Takes the `Set-Cookie` values a response for `url` carried into the jar,
/// as the jar learns them at `now`.
pub fn learn_response(jar: &mut CookieJar, url: &Url, headers: Option<&Headers>, now: u64)
    requires
        old(jar).limits.max_cookies >= 1 || forall|k: int|
            0 <= k < set_cookies(headers).len()
                ==> !stores(#[trigger] set_cookies(headers)[k]),
    ensures
        final(jar).limits == old(jar).limits,
        final(jar)@ == learn_all(old(jar)@, url.host@, url.target@,
            set_cookies(headers), now, old(jar).limits),
{
    match headers {
        None => {},
        Some(headers) => {
            proof {
                reveal_strlit("set-cookie");
                assert(crate::text::lower_seq("set-cookie"@) == set_cookie_field());
            }
            let values = headers.get_all("set-cookie");
            if values.len() > 0 {
                let mut owned: Vec<String> = Vec::new();
                let mut i: usize = 0;
                while i < values.len()
                    invariant
                        i <= values.len(),
                        owned@.len() == i,
                        forall|k: int| 0 <= k < i ==> #[trigger] owned@[k]@ == values@[k]@,
                    decreases values.len() - i,
                {
                    owned.push(string_of(&values[i]));
                    i = i + 1;
                }
                let mut refs: Vec<&str> = Vec::new();
                let mut j: usize = 0;
                while j < owned.len()
                    invariant
                        j <= owned.len(),
                        refs@.len() == j,
                        forall|k: int| 0 <= k < j ==> (#[trigger] refs@[k])@ == owned@[k]@,
                    decreases owned.len() - j,
                {
                    refs.push(owned[j].as_str());
                    j = j + 1;
                }
                assert(str_views(refs@) == views(values@));
                assert(views(values@) == set_cookies(Some(headers)));
                assert forall|k: int| 0 <= k < refs@.len() implies (#[trigger] refs@[k])@ == set_cookies(Some(headers))[k] by {
                    assert(str_views(refs@)[k] == refs@[k]@);
                }
                let given = refs.as_slice();
                jar.learn(url, given, now);
            }
        },
    }
}

} // verus!
