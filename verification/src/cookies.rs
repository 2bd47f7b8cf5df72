//! Cookies.
//!
//! [`Cookie`] and [`SetCookie`] are the two sides of the exchange — what a
//! client sends and what a server sets — and [`CookieJar`] is the client-side
//! store that turns one into the other across requests.
//!
//! Instants are readings of a monotonic clock in nanoseconds.

use vstd::prelude::*;

use crate::models::{pair_views, secure_scheme, Url};
use crate::text::{
    chars_of, lower_seq, lowercase, push_char, same, split, split_at_char, split_once, split_once_char,
    string_of, trim, trim_char, trim_matches, trim_ws, views, debug_quote, debug_text, lemma_find,
    push_signed_decimal, signed_decimal, copy_range, ends_with, is_prefix, is_suffix, rfind, rfind_char,
    starts_with, lemma_rfind, trim_char_start, trim_start_char,
};

verus! {

/// The `SameSite` attribute of a cookie.
#[derive(Debug, Clone, Copy, PartialEq, Eq, Structural)]
pub enum SameSite {
    /// Never sent on a cross-site request.
    Strict,
    /// Sent on a cross-site request only when it is a top-level navigation.
    Lax,
    /// Sent on every cross-site request; browsers require `Secure` alongside it.
    /// Written `None` on the wire.
    Unrestricted,
}

/// The attribute value a `SameSite` is written as.
pub open spec fn samesite_text(s: SameSite) -> Seq<char> {
    match s {
        SameSite::Strict => seq!['S', 't', 'r', 'i', 'c', 't'],
        SameSite::Lax => seq!['L', 'a', 'x'],
        SameSite::Unrestricted => seq!['N', 'o', 'n', 'e'],
    }
}

/// The `SameSite` an attribute value names, ignoring ASCII case.
pub open spec fn spec_samesite(value: Seq<char>) -> Option<SameSite> {
    let v = lower_seq(value);
    if v == seq!['s', 't', 'r', 'i', 'c', 't'] {
        Some(SameSite::Strict)
    } else if v == seq!['l', 'a', 'x'] {
        Some(SameSite::Lax)
    } else if v == seq!['n', 'o', 'n', 'e'] {
        Some(SameSite::Unrestricted)
    } else {
        None
    }
}

impl SameSite {
    /// The attribute value as it belongs in a `Set-Cookie` field.
    pub fn as_str(&self) -> (out: &'static str)
        ensures
            out@ == samesite_text(*self),
    {
        match self {
            SameSite::Strict => {
                proof {
                    reveal_strlit("Strict");
                }
                "Strict"
            },
            SameSite::Lax => {
                proof {
                    reveal_strlit("Lax");
                }
                "Lax"
            },
            SameSite::Unrestricted => {
                proof {
                    reveal_strlit("None");
                }
                "None"
            },
        }
    }

    /// Reads an attribute value, ignoring case. `None` when it names nothing.
    pub fn parse(value: &str) -> (out: Option<SameSite>)
        ensures
            out == spec_samesite(value@),
    {
        let v = lowercase(&chars_of(value));
        if same(&v, &['s', 't', 'r', 'i', 'c', 't']) {
            Some(SameSite::Strict)
        } else if same(&v, &['l', 'a', 'x']) {
            Some(SameSite::Lax)
        } else if same(&v, &['n', 'o', 'n', 'e']) {
            Some(SameSite::Unrestricted)
        } else {
            None
        }
    }
}

/// Whether an octet is a separator, and so cannot appear in a token.
pub open spec fn separator(byte: u8) -> bool {
    byte <= 0x20 || byte == 0x7f || byte == 0x28 || byte == 0x29 || byte == 0x3c || byte == 0x3e
        || byte == 0x40 || byte == 0x2c || byte == 0x3b || byte == 0x3a || byte == 0x5c
        || byte == 0x22 || byte == 0x2f || byte == 0x5b || byte == 0x5d || byte == 0x3f
        || byte == 0x3d || byte == 0x7b || byte == 0x7d
}

/// Whether a character puts a separator octet into its UTF-8 encoding.
///
/// Only an ASCII character can: every octet of a longer encoding is at or
/// above `0x80`.
pub open spec fn separator_char(c: char) -> bool {
    (c as u32) < 0x80 && separator((c as u32) as u8)
}

/// Whether a name is a token: non-empty, with no separator in it.
pub open spec fn is_token(name: Seq<char>) -> bool {
    name.len() > 0 && forall|i: int| 0 <= i < name.len() ==> !separator_char(#[trigger] name[i])
}

/// The name and value a `Cookie` field part carries, if it carries one.
pub open spec fn cookie_pair(part: Seq<char>) -> Option<(Seq<char>, Seq<char>)> {
    match split_once(part, '=') {
        None => None,
        Some((name, raw)) => Some((trim(name), trim_char(trim(raw), '"'))),
    }
}

/// Whether a pair is already stored under `name`.
pub open spec fn has_name(pairs: Seq<(Seq<char>, Seq<char>)>, name: Seq<char>) -> bool {
    exists|i: int| 0 <= i < pairs.len() && #[trigger] pairs[i].0 == name
}

/// The pairs read from the parts of a `Cookie` field, in order.
///
/// A part with no `=` or an empty name is skipped, and a repeated name keeps
/// its first value.
pub open spec fn cookie_pairs(parts: Seq<Seq<char>>) -> Seq<(Seq<char>, Seq<char>)>
    decreases parts.len(),
{
    if parts.len() == 0 {
        seq![]
    } else {
        let acc = cookie_pairs(parts.drop_last());
        match cookie_pair(parts.last()) {
            None => acc,
            Some((name, value)) => if name.len() == 0 || has_name(acc, name) {
                acc
            } else {
                acc.push((name, value))
            },
        }
    }
}

/// One pair as a `Cookie` field writes it: `name=value`.
pub open spec fn pair_text(pair: (Seq<char>, Seq<char>)) -> Seq<char> {
    pair.0 + seq!['='] + pair.1
}

/// The pairs written out, separated by `; `.
pub open spec fn join_pairs(pairs: Seq<(Seq<char>, Seq<char>)>) -> Seq<char>
    decreases pairs.len(),
{
    if pairs.len() == 0 {
        seq![]
    } else if pairs.len() == 1 {
        pair_text(pairs[0])
    } else {
        join_pairs(pairs.drop_last()) + seq![';', ' '] + pair_text(pairs.last())
    }
}

/// The value of the first pair stored under `name`.
pub open spec fn lookup(pairs: Seq<(Seq<char>, Seq<char>)>, name: Seq<char>) -> Option<Seq<char>>
    decreases pairs.len(),
{
    if pairs.len() == 0 {
        None
    } else if pairs[0].0 == name {
        Some(pairs[0].1)
    } else {
        lookup(pairs.drop_first(), name)
    }
}

/// The contents of a `Cookie` field: the pairs a client sends back.
#[derive(Debug, Clone, PartialEq, Eq)]
pub struct Cookie {
    /// The name and value pairs, in the order they were sent.
    pub pairs: Vec<(String, String)>,
}

impl View for Cookie {
    type V = Seq<(Seq<char>, Seq<char>)>;

    open spec fn view(&self) -> Seq<(Seq<char>, Seq<char>)> {
        pair_views(self.pairs@)
    }
}

/// Whether `pairs` holds a pair named `name`.
fn holds_name(pairs: &Vec<(String, String)>, name: &[char]) -> (b: bool)
    ensures
        b == has_name(pair_views(pairs@), name@),
{
    let mut i: usize = 0;
    while i < pairs.len()
        invariant
            i <= pairs.len(),
            forall|k: int| 0 <= k < i ==> pair_views(pairs@)[k].0 != name@,
        decreases pairs.len() - i,
    {
        let key = chars_of(pairs[i].0.as_str());
        if same(&key, name) {
            assert(pair_views(pairs@)[i as int].0 == name@);
            return true;
        }
        i = i + 1;
    }
    false
}

impl Cookie {
    /// Whether an octet is a separator, and so cannot appear in a token.
    pub fn is_separator(byte: u8) -> (b: bool)
        ensures
            b == separator(byte),
    {
        byte <= 0x20 || byte == 0x7f || byte == 0x28 || byte == 0x29 || byte == 0x3c || byte == 0x3e
            || byte == 0x40 || byte == 0x2c || byte == 0x3b || byte == 0x3a || byte == 0x5c
            || byte == 0x22 || byte == 0x2f || byte == 0x5b || byte == 0x5d || byte == 0x3f
            || byte == 0x3d || byte == 0x7b || byte == 0x7d
    }

    /// An empty set of pairs.
    pub fn new() -> (c: Cookie)
        ensures
            c@ == Seq::<(Seq<char>, Seq<char>)>::empty(),
    {
        Cookie { pairs: Vec::new() }
    }

    /// The value stored under this exact name, if there is one.
    pub fn get(&self, name: &str) -> (out: Option<&str>)
        ensures
            match out {
                Some(v) => lookup(self@, name@) == Some(v@),
                None => lookup(self@, name@) is None,
            },
    {
        let wanted = chars_of(name);
        let mut i: usize = 0;
        assert(self@.skip(0) == self@);
        while i < self.pairs.len()
            invariant
                i <= self.pairs.len(),
                wanted@ == name@,
                lookup(self@, name@) == lookup(self@.skip(i as int), name@),
            decreases self.pairs.len() - i,
        {
            let key = chars_of(self.pairs[i].0.as_str());
            assert(self@.skip(i as int)[0] == self@[i as int]);
            assert(self@.skip(i as int).drop_first() == self@.skip(i + 1));
            if same(&key, &wanted) {
                return Some(self.pairs[i].1.as_str());
            }
            i = i + 1;
        }
        None
    }

    /// Reads a `Cookie` field value.
    ///
    /// Pairs with no `=`, and pairs with an empty name, are skipped; where a
    /// name repeats, the first pair wins. A value wrapped in double quotes is
    /// unwrapped. Parsing never fails — a malformed field yields whatever
    /// pairs could be read from it.
    pub fn parse(value: &str) -> (c: Cookie)
        ensures
            c@ == cookie_pairs(split(value@, ';')),
    {
        let text = chars_of(value);
        let parts = split_at_char(&text, ';');
        let ghost pieces = views(parts@);
        let mut cookie = Cookie::new();
        let mut k: usize = 0;
        while k < parts.len()
            invariant
                k <= parts.len(),
                pieces == views(parts@),
                pieces == split(value@, ';'),
                cookie@ == cookie_pairs(pieces.take(k as int)),
            decreases parts.len() - k,
        {
            assert(pieces.take(k + 1).drop_last() == pieces.take(k as int));
            assert(pieces.take(k + 1).last() == parts@[k as int]@);
            match split_once_char(&parts[k], '=') {
                None => {},
                Some((raw_name, raw)) => {
                    let name = trim_ws(&raw_name);
                    if name.len() != 0 && !holds_name(&cookie.pairs, &name) {
                        let value = trim_matches(&trim_ws(&raw), '"');
                        let name_text = string_of(&name);
                        let value_text = string_of(&value);
                        proof {
                            assert(pair_views(cookie.pairs@.push((name_text, value_text)))
                                == pair_views(cookie.pairs@).push((name@, value@)));
                        }
                        cookie.pairs.push((name_text, value_text));
                    }
                },
            }
            k = k + 1;
        }
        assert(pieces.take(parts.len() as int) == pieces);
        cookie
    }

    /// Writes the pairs back out as a `Cookie` field value.
    pub fn build(&self) -> (out: String)
        ensures
            out@ == join_pairs(self@),
    {
        let mut out = String::new();
        let mut i: usize = 0;
        while i < self.pairs.len()
            invariant
                i <= self.pairs.len(),
                out@ == join_pairs(self@.take(i as int)),
            decreases self.pairs.len() - i,
        {
            let ghost before = out@;
            assert(self@.take(i + 1).drop_last() == self@.take(i as int));
            assert(self@.take(i + 1).last() == self@[i as int]);
            if i > 0 {
                out.append("; ");
                proof {
                    reveal_strlit("; ");
                }
            }
            out.append(self.pairs[i].0.as_str());
            push_char(&mut out, '=');
            out.append(self.pairs[i].1.as_str());
            proof {
                if i == 0 {
                    assert(self@.take(1)[0] == self@[0]);
                }
            }
            i = i + 1;
        }
        assert(self@.take(self.pairs.len() as int) == self@);
        out
    }
}

/// The character view of an optional string.
pub open spec fn opt_view(o: Option<String>) -> Option<Seq<char>> {
    match o {
        Some(s) => Some(s@),
        None => None,
    }
}

/// A `Set-Cookie` as plain values.
#[verifier::ext_equal]
pub struct SetCookieView {
    pub name: Seq<char>,
    pub value: Seq<char>,
    pub expires: Option<Seq<char>>,
    pub max_age: Option<i64>,
    pub domain: Option<Seq<char>>,
    pub path: Option<Seq<char>>,
    pub secure: bool,
    pub httponly: bool,
    pub samesite: Option<SameSite>,
}

/// A cookie with no attributes set.
pub open spec fn fresh_cookie(name: Seq<char>, value: Seq<char>) -> SetCookieView {
    SetCookieView {
        name,
        value,
        expires: None,
        max_age: None,
        domain: None,
        path: None,
        secure: false,
        httponly: false,
        samesite: None,
    }
}

/// Whether every character is an ASCII digit.
pub open spec fn all_digits(d: Seq<char>) -> bool {
    forall|i: int| 0 <= i < d.len() ==> '0' <= #[trigger] d[i] && d[i] <= '9'
}

/// The number a run of decimal digits spells.
pub open spec fn digits_value(d: Seq<char>) -> nat
    decreases d.len(),
{
    if d.len() == 0 {
        0
    } else {
        digits_value(d.drop_last()) * 10 + ((d.last() as u32) - 48) as nat
    }
}

/// A `Max-Age` value: an optional `-` and then digits, saturating at the
/// largest `i64`.
pub open spec fn spec_age(text: Seq<char>) -> Option<i64> {
    let negative = text.len() > 0 && text[0] == '-';
    let digits = if negative { text.drop_first() } else { text };
    if digits.len() == 0 || !all_digits(digits) {
        None
    } else {
        let magnitude: int = if digits_value(digits) > i64::MAX { i64::MAX as int } else { digits_value(digits) as int };
        Some((if negative { -magnitude } else { magnitude }) as i64)
    }
}

/// The key, lowercased, and the raw value of one `Set-Cookie` attribute.
pub open spec fn attribute(part: Seq<char>) -> (Seq<char>, Seq<char>) {
    match split_once(part, '=') {
        Some((key, raw)) => (lower_seq(trim(key)), trim(raw)),
        None => (lower_seq(trim(part)), seq![]),
    }
}

/// A cookie with one attribute applied.
pub open spec fn apply_attribute(c: SetCookieView, part: Seq<char>) -> SetCookieView {
    let (key, raw) = attribute(part);
    if key == seq!['e', 'x', 'p', 'i', 'r', 'e', 's'] {
        SetCookieView { expires: Some(raw), ..c }
    } else if key == seq!['m', 'a', 'x', '-', 'a', 'g', 'e'] {
        SetCookieView { max_age: spec_age(raw), ..c }
    } else if key == seq!['d', 'o', 'm', 'a', 'i', 'n'] {
        SetCookieView { domain: Some(raw), ..c }
    } else if key == seq!['p', 'a', 't', 'h'] {
        SetCookieView { path: Some(raw), ..c }
    } else if key == seq!['s', 'e', 'c', 'u', 'r', 'e'] {
        SetCookieView { secure: true, ..c }
    } else if key == seq!['h', 't', 't', 'p', 'o', 'n', 'l', 'y'] {
        SetCookieView { httponly: true, ..c }
    } else if key == seq!['s', 'a', 'm', 'e', 's', 'i', 't', 'e'] {
        SetCookieView { samesite: spec_samesite(raw), ..c }
    } else {
        c
    }
}

/// A cookie with each attribute applied in turn.
pub open spec fn apply_attributes(c: SetCookieView, parts: Seq<Seq<char>>) -> SetCookieView
    decreases parts.len(),
{
    if parts.len() == 0 {
        c
    } else {
        apply_attribute(apply_attributes(c, parts.drop_last()), parts.last())
    }
}

/// What a `Set-Cookie` field value reads as, or `None` when its first part
/// has no `name=value` pair.
pub open spec fn spec_parse_set_cookie(value: Seq<char>) -> Option<SetCookieView> {
    let parts = split(value, ';');
    match split_once(parts[0], '=') {
        None => None,
        Some((name, raw)) => Some(apply_attributes(fresh_cookie(trim(name), trim(raw)), parts.skip(1))),
    }
}

/// Whether a character may appear in a cookie value: printable ASCII other
/// than space, a quote, a comma, a semicolon and a backslash.
pub open spec fn value_char(c: char) -> bool {
    '!' <= c && c <= '~' && c != '"' && c != ',' && c != ';' && c != '\\'
}

/// Whether every character of a value may appear in a cookie value.
pub open spec fn is_cookie_value(v: Seq<char>) -> bool {
    forall|i: int| 0 <= i < v.len() ==> value_char(#[trigger] v[i])
}

/// `prefix` and `s`, when `s` is present.
pub open spec fn optional_part(prefix: Seq<char>, s: Option<Seq<char>>) -> Seq<char> {
    match s {
        Some(s) => prefix + s,
        None => seq![],
    }
}

/// The `; Max-Age=` part a cookie is written with, if it has one.
pub open spec fn max_age_part(m: Option<i64>) -> Seq<char> {
    match m {
        Some(m) => "; Max-Age="@ + signed_decimal(m as int),
        None => seq![],
    }
}

/// The flag part a cookie is written with when `flag` is set.
pub open spec fn flag_part(flag: bool, text: Seq<char>) -> Seq<char> {
    if flag {
        text
    } else {
        seq![]
    }
}

/// The `; SameSite=` part a cookie is written with, if it has one.
pub open spec fn samesite_part(s: Option<SameSite>) -> Seq<char> {
    match s {
        Some(s) => "; SameSite="@ + samesite_text(s),
        None => seq![],
    }
}

/// The `Set-Cookie` field value a cookie is written as.
pub open spec fn set_cookie_text(c: SetCookieView) -> Seq<char> {
    c.name + seq!['='] + c.value + optional_part("; Expires="@, c.expires) + max_age_part(c.max_age)
        + optional_part("; Domain="@, c.domain) + optional_part("; Path="@, c.path) + flag_part(
        c.secure,
        "; Secure"@,
    ) + flag_part(c.httponly, "; HttpOnly"@) + samesite_part(c.samesite)
}

/// One `Set-Cookie` field: the cookie a server asks a client to keep.
#[derive(Debug, Clone, PartialEq, Eq)]
pub struct SetCookie {
    /// The cookie name, which must be a token.
    pub name: String,
    /// The cookie value.
    pub value: String,
    /// The `Expires` attribute, kept verbatim as the peer wrote it.
    pub expires: Option<String>,
    /// The `Max-Age` attribute in seconds; zero or less deletes the cookie.
    pub max_age: Option<i64>,
    /// The `Domain` attribute; absent makes the cookie host-only.
    pub domain: Option<String>,
    /// The `Path` attribute; absent defaults to [`StoredCookie::default_path`] of the request target.
    pub path: Option<String>,
    /// The `Secure` attribute, which confines the cookie to secure transports.
    pub secure: bool,
    /// The `HttpOnly` attribute, which hides the cookie from scripts.
    pub httponly: bool,
    /// The `SameSite` attribute.
    pub samesite: Option<SameSite>,
}

impl View for SetCookie {
    type V = SetCookieView;

    open spec fn view(&self) -> SetCookieView {
        SetCookieView {
            name: self.name@,
            value: self.value@,
            expires: opt_view(self.expires),
            max_age: self.max_age,
            domain: opt_view(self.domain),
            path: opt_view(self.path),
            secure: self.secure,
            httponly: self.httponly,
            samesite: self.samesite,
        }
    }
}

/// `prefix` and then `reason`.
fn message_around(prefix: &str, middle: &String, suffix: &str) -> (out: String)
    ensures
        out@ == prefix@ + middle@ + suffix@,
{
    let out = String::from_str(prefix);
    let out = out.concat(middle.as_str());
    out.concat(suffix)
}

/// Appends `prefix` and `s` when `s` is present.
fn push_optional(out: &mut String, prefix: &str, s: &Option<String>)
    ensures
        final(out)@ == old(out)@ + optional_part(prefix@, opt_view(*s)),
{
    match s {
        Some(s) => {
            out.append(prefix);
            out.append(s.as_str());
        },
        None => {},
    }
}

impl SetCookie {
    /// A cookie with no attributes set.
    pub fn new(name: String, value: String) -> (c: SetCookie)
        ensures
            c@ == fresh_cookie(name@, value@),
    {
        SetCookie {
            name,
            value,
            expires: None,
            max_age: None,
            domain: None,
            path: None,
            secure: false,
            httponly: false,
            samesite: None,
        }
    }

    /// Reads a `Max-Age` value: an optional `-` and then digits.
    ///
    /// `None` when the text is not that shape. A value too large for an `i64`
    /// saturates rather than failing.
    pub fn age(text: &str) -> (out: Option<i64>)
        ensures
            out == spec_age(text@),
    {
        let chars = chars_of(text);
        let negative = chars.len() > 0 && chars[0] == '-';
        let start: usize = if negative { 1 } else { 0 };
        let ghost digits = if negative { text@.drop_first() } else { text@ };
        assert(digits == chars@.skip(start as int));
        assert(negative == (text@.len() > 0 && text@[0] == '-'));
        if start == chars.len() {
            assert(digits.len() == 0);
            return None;
        }
        let mut value: u64 = 0;
        let mut saturated = false;
        let mut i: usize = start;
        while i < chars.len()
            invariant
                start <= i <= chars.len(),
                chars@ == text@,
                digits == chars@.skip(start as int),
                digits == (if text@.len() > 0 && text@[0] == '-' { text@.drop_first() } else { text@ }),
                negative == (text@.len() > 0 && text@[0] == '-'),
                all_digits(chars@.subrange(start as int, i as int)),
                saturated ==> digits_value(chars@.subrange(start as int, i as int)) > i64::MAX,
                !saturated ==> value == digits_value(chars@.subrange(start as int, i as int)),
                !saturated ==> value <= i64::MAX,
            decreases chars.len() - i,
        {
            let c = chars[i];
            if c < '0' || c > '9' {
                assert(digits[i - start] == c);
                assert(!all_digits(digits));
                assert(spec_age(text@) is None);
                return None;
            }
            let ghost prefix = chars@.subrange(start as int, i as int);
            let ghost next = chars@.subrange(start as int, i + 1);
            assert(next.drop_last() == prefix);
            assert(next.last() == c);
            let d: u64 = ((c as u32) - 48) as u64;
            if !saturated {
                if value > 922337203685477580 || (value == 922337203685477580 && d > 7) {
                    saturated = true;
                } else {
                    value = value * 10 + d;
                }
            }
            assert(all_digits(next)) by {
                assert forall|k: int| 0 <= k < next.len() implies '0' <= #[trigger] next[k] && next[k] <= '9' by {
                    if k < prefix.len() {
                        assert(next[k] == prefix[k]);
                    }
                }
            }
            i = i + 1;
        }
        assert(chars@.subrange(start as int, chars.len() as int) == digits);
        let magnitude: i64 = if saturated { i64::MAX } else { value as i64 };
        if negative {
            Some(-magnitude)
        } else {
            Some(magnitude)
        }
    }

    /// Reads a `Set-Cookie` field value.
    ///
    /// Attribute names are matched case-insensitively, and ones that are not
    /// recognised are ignored.
    ///
    /// # Errors
    ///
    /// Returns [`Error::Protocol`] when the field carries no `name=value` pair.
    pub fn parse(value: &str) -> (out: Result<SetCookie, crate::errors::Error>)
        ensures
            match out {
                Ok(c) => spec_parse_set_cookie(value@) == Some(c@),
                Err(e) => spec_parse_set_cookie(value@) is None && (e matches crate::errors::Error::Protocol(r)
                    && r@ == "Set-Cookie has no name=value pair"@),
            },
    {
        let text = chars_of(value);
        let parts = split_at_char(&text, ';');
        let ghost pieces = views(parts@);
        proof {
            lemma_split_nonempty(value@, ';');
        }
        assert(pieces[0] == parts@[0]@);
        let (raw_name, raw_value) = match split_once_char(&parts[0], '=') {
            Some(pair) => pair,
            None => {
                return Err(crate::errors::Error::Protocol(String::from_str("Set-Cookie has no name=value pair")));
            },
        };
        let mut cookie = SetCookie::new(string_of(&trim_ws(&raw_name)), string_of(&trim_ws(&raw_value)));
        let ghost start = cookie@;
        let mut k: usize = 1;
        assert(pieces.skip(1).take(0) == Seq::<Seq<char>>::empty());
        while k < parts.len()
            invariant
                1 <= k <= parts.len(),
                pieces == views(parts@),
                pieces == split(value@, ';'),
                cookie@ == apply_attributes(start, pieces.skip(1).take(k - 1)),
            decreases parts.len() - k,
        {
            assert(pieces.skip(1).take(k as int).drop_last() == pieces.skip(1).take(k - 1));
            assert(pieces.skip(1).take(k as int).last() == parts@[k as int]@);
            let ghost before = cookie@;
            let part = &parts[k];
            let (key, raw) = match split_once_char(part, '=') {
                Some((key, raw)) => (lowercase(&trim_ws(&key)), trim_ws(&raw)),
                None => (lowercase(&trim_ws(part)), Vec::new()),
            };
            assert(attribute(part@) == (key@, raw@));
            if same(&key, &['e', 'x', 'p', 'i', 'r', 'e', 's']) {
                cookie.expires = Some(string_of(&raw));
            } else if same(&key, &['m', 'a', 'x', '-', 'a', 'g', 'e']) {
                let raw_text = string_of(&raw);
                cookie.max_age = SetCookie::age(raw_text.as_str());
            } else if same(&key, &['d', 'o', 'm', 'a', 'i', 'n']) {
                cookie.domain = Some(string_of(&raw));
            } else if same(&key, &['p', 'a', 't', 'h']) {
                cookie.path = Some(string_of(&raw));
            } else if same(&key, &['s', 'e', 'c', 'u', 'r', 'e']) {
                cookie.secure = true;
            } else if same(&key, &['h', 't', 't', 'p', 'o', 'n', 'l', 'y']) {
                cookie.httponly = true;
            } else if same(&key, &['s', 'a', 'm', 'e', 's', 'i', 't', 'e']) {
                let raw_text = string_of(&raw);
                cookie.samesite = SameSite::parse(raw_text.as_str());
            }
            assert(cookie@ =~= apply_attribute(before, part@));
            k = k + 1;
        }
        assert(pieces.skip(1).take(parts.len() - 1) == pieces.skip(1));
        Ok(cookie)
    }

    /// Writes the cookie out as a `Set-Cookie` field value.
    ///
    /// # Errors
    ///
    /// Returns [`Error::Protocol`] when the name is not a token, or when the
    /// value carries an octet that would let it break out of the field —
    /// whitespace, a quote, a comma, a semicolon, a backslash, or anything
    /// outside printable ASCII.
    pub fn build(&self) -> (out: Result<String, crate::errors::Error>)
        ensures
            match out {
                Ok(s) => is_token(self.name@) && is_cookie_value(self.value@) && s@ == set_cookie_text(self@),
                Err(e) => match e {
                    crate::errors::Error::Protocol(reason) => if !is_token(self.name@) {
                        reason@ == "cookie name "@ + debug_text(self.name@) + " is not a token"@
                    } else {
                        !is_cookie_value(self.value@) && reason@ == "cookie value of "@
                            + debug_text(self.name@) + " carries a forbidden octet"@
                    },
                    _ => false,
                },
            },
    {
        let name = chars_of(self.name.as_str());
        if !name_is_token(&name) {
            let quoted = debug_quote(self.name.as_str());
            return Err(crate::errors::Error::Protocol(message_around("cookie name ", &quoted, " is not a token")));
        }
        let value = chars_of(self.value.as_str());
        if !value_is_cookie_value(&value) {
            let quoted = debug_quote(self.name.as_str());
            return Err(
                crate::errors::Error::Protocol(message_around("cookie value of ", &quoted, " carries a forbidden octet")),
            );
        }
        let out = self.render();
        Ok(out)
    }

    /// The field value this cookie is written as, unchecked.
    fn render(&self) -> (out: String)
        ensures
            out@ == set_cookie_text(self@),
    {
        let mut out = String::from_str(self.name.as_str());
        push_char(&mut out, '=');
        out.append(self.value.as_str());
        push_optional(&mut out, "; Expires=", &self.expires);
        push_max_age(&mut out, self.max_age);
        push_optional(&mut out, "; Domain=", &self.domain);
        push_optional(&mut out, "; Path=", &self.path);
        push_flag(&mut out, self.secure, "; Secure");
        push_flag(&mut out, self.httponly, "; HttpOnly");
        push_samesite(&mut out, self.samesite);
        out
    }
}

fn push_max_age(out: &mut String, m: Option<i64>)
    ensures
        final(out)@ == old(out)@ + max_age_part(m),
{
    match m {
        Some(m) => {
            out.append("; Max-Age=");
            push_signed_decimal(out, m);
        },
        None => {},
    }
}

fn push_flag(out: &mut String, flag: bool, text: &str)
    ensures
        final(out)@ == old(out)@ + flag_part(flag, text@),
{
    if flag {
        out.append(text);
    }
}

fn push_samesite(out: &mut String, s: Option<SameSite>)
    ensures
        final(out)@ == old(out)@ + samesite_part(s),
{
    match s {
        Some(s) => {
            out.append("; SameSite=");
            out.append(s.as_str());
        },
        None => {},
    }
}

/// Whether a name is a token.
fn name_is_token(name: &[char]) -> (b: bool)
    ensures
        b == is_token(name@),
{
    if name.len() == 0 {
        return false;
    }
    let mut i: usize = 0;
    while i < name.len()
        invariant
            i <= name.len(),
            forall|k: int| 0 <= k < i ==> !separator_char(#[trigger] name@[k]),
        decreases name.len() - i,
    {
        let code: u32 = name[i] as u32;
        if code < 0x80 && Cookie::is_separator(code as u8) {
            assert(separator_char(name@[i as int]));
            return false;
        }
        i = i + 1;
    }
    true
}

/// Whether every character may appear in a cookie value.
fn value_is_cookie_value(value: &[char]) -> (b: bool)
    ensures
        b == is_cookie_value(value@),
{
    let mut j: usize = 0;
    while j < value.len()
        invariant
            j <= value.len(),
            forall|k: int| 0 <= k < j ==> value_char(#[trigger] value@[k]),
        decreases value.len() - j,
    {
        let c = value[j];
        if !('!' <= c && c <= '~' && c != '"' && c != ',' && c != ';' && c != '\\') {
            assert(!value_char(value@[j as int]));
            return false;
        }
        j = j + 1;
    }
    true
}

/// `split` always yields at least one piece.
pub proof fn lemma_split_nonempty(s: Seq<char>, c: char)
    ensures
        split(s, c).len() >= 1,
{
    lemma_find(s, c);
}

/// The path of a request target: everything before the first `?` or `#`.
pub open spec fn path_part(target: Seq<char>) -> Seq<char>
    decreases target.len(),
{
    if target.len() == 0 || target[0] == '?' || target[0] == '#' {
        seq![]
    } else {
        seq![target[0]] + path_part(target.drop_first())
    }
}

/// Whether a request target falls under a cookie path.
pub open spec fn spec_path_matches(target: Seq<char>, cookie_path: Seq<char>) -> bool {
    let request_path = path_part(target);
    if request_path == cookie_path {
        true
    } else if is_prefix(cookie_path, request_path) {
        let rest = request_path.skip(cookie_path.len() as int);
        (cookie_path.len() > 0 && cookie_path.last() == '/') || (rest.len() > 0 && rest[0] == '/')
    } else {
        false
    }
}

/// The path a cookie takes when the server sets none.
pub open spec fn spec_default_path(target: Seq<char>) -> Seq<char> {
    let path = path_part(target);
    match rfind(path, '/') {
        Some(i) => if i == 0 {
            seq!['/']
        } else {
            path.take(i)
        },
        None => seq!['/'],
    }
}

proof fn lemma_path_part_step(s: Seq<char>, i: int)
    requires
        0 <= i < s.len(),
        forall|k: int| 0 <= k <= i ==> s[k] != '?' && s[k] != '#',
    ensures
        s.take(i) + path_part(s.skip(i)) == s.take(i + 1) + path_part(s.skip(i + 1)),
{
    assert(s.skip(i)[0] == s[i]);
    assert(s.skip(i).drop_first() == s.skip(i + 1));
    assert(path_part(s.skip(i)) == seq![s[i]] + path_part(s.skip(i + 1)));
    assert(s.take(i) + seq![s[i]] == s.take(i + 1));
}

/// The path of a request target.
fn request_path(target: &[char]) -> (out: Vec<char>)
    ensures
        out@ == path_part(target@),
{
    let mut i: usize = 0;
    assert(target@.take(0) + path_part(target@.skip(0)) == path_part(target@)) by {
        assert(target@.skip(0) == target@);
        assert(target@.take(0) + path_part(target@) == path_part(target@));
    }
    while i < target.len() && target[i] != '?' && target[i] != '#'
        invariant
            i <= target.len(),
            forall|k: int| 0 <= k < i ==> target@[k] != '?' && target@[k] != '#',
            target@.take(i as int) + path_part(target@.skip(i as int)) == path_part(target@),
        decreases target.len() - i,
    {
        proof {
            lemma_path_part_step(target@, i as int);
        }
        i = i + 1;
    }
    assert(path_part(target@.skip(i as int)) == Seq::<char>::empty()) by {
        if i < target.len() {
            assert(target@.skip(i as int)[0] == target@[i as int]);
        }
    }
    assert(target@.take(i as int) + Seq::<char>::empty() == target@.take(i as int));
    copy_range(target, 0, i)
}

/// A cookie as a [`CookieJar`] holds it, as plain values.
#[verifier::ext_equal]
pub struct StoredView {
    pub name: Seq<char>,
    pub value: Seq<char>,
    pub domain: Seq<char>,
    pub host_only: bool,
    pub path: Seq<char>,
    pub secure: bool,
    pub expires: Option<u64>,
}

/// Whether a stored cookie has expired by `now`.
pub open spec fn expired(c: StoredView, now: u64) -> bool {
    match c.expires {
        Some(expiry) => expiry <= now,
        None => false,
    }
}

/// Whether a host falls under a cookie's domain.
pub open spec fn domain_matches(c: StoredView, host: Seq<char>) -> bool {
    if c.host_only {
        host == c.domain
    } else {
        host == c.domain || is_suffix(seq!['.'] + c.domain, host)
    }
}

/// Whether a stored cookie belongs on a request for a URL at `now`.
pub open spec fn spec_matches(c: StoredView, scheme: Seq<char>, host: Seq<char>, target: Seq<char>, now: u64) -> bool {
    !expired(c, now) && !(c.secure && !secure_scheme(scheme)) && domain_matches(c, lower_seq(host))
        && spec_path_matches(target, c.path)
}

/// A cookie as a [`CookieJar`] holds it, with its attributes resolved.
///
/// A stored cookie differs from the [`SetCookie`] it came from in that the
/// domain and path have been filled in from the request when the server left
/// them out, and the lifetime has become a deadline on the local clock.
#[derive(Debug, Clone)]
pub struct StoredCookie {
    /// The cookie name.
    pub name: String,
    /// The cookie value.
    pub value: String,
    /// The domain this cookie belongs to, lowercased and without a leading dot.
    pub domain: String,
    /// Whether the cookie is confined to exactly `domain` rather than its subdomains.
    pub host_only: bool,
    /// The path prefix this cookie is scoped to.
    pub path: String,
    /// Whether the cookie may only travel over a secure transport.
    pub secure: bool,
    /// When the cookie expires; `None` makes it last as long as the jar does.
    pub expires: Option<u64>,
}

impl View for StoredCookie {
    type V = StoredView;

    open spec fn view(&self) -> StoredView {
        StoredView {
            name: self.name@,
            value: self.value@,
            domain: self.domain@,
            host_only: self.host_only,
            path: self.path@,
            secure: self.secure,
            expires: self.expires,
        }
    }
}

impl StoredCookie {
    /// Whether a request target falls under a cookie's path.
    ///
    /// The two match when they are equal, or when the target continues past the
    /// cookie path at a `/` boundary.
    pub fn path_matches(target: &str, cookie_path: &str) -> (b: bool)
        ensures
            b == spec_path_matches(target@, cookie_path@),
    {
        let path = request_path(&chars_of(target));
        let cookie_path = chars_of(cookie_path);
        if same(&path, &cookie_path) {
            return true;
        }
        if starts_with(&path, &cookie_path) {
            let ends_slash = cookie_path.len() > 0 && cookie_path[cookie_path.len() - 1] == '/';
            let rest_slash = path.len() > cookie_path.len() && path[cookie_path.len()] == '/';
            assert(path@.skip(cookie_path.len() as int).len() > 0 ==> path@.skip(cookie_path.len() as int)[0]
                == path@[cookie_path.len() as int]);
            return ends_slash || rest_slash;
        }
        false
    }

    /// The path a cookie takes when the server sets no `Path` attribute: the
    /// request target up to, but not including, its last `/`.
    pub fn default_path(target: &str) -> (out: String)
        ensures
            out@ == spec_default_path(target@),
    {
        let path = request_path(&chars_of(target));
        proof {
            lemma_rfind(path@, '/');
            reveal_strlit("/");
        }
        match rfind_char(&path, '/') {
            Some(index) => if index == 0 {
                String::from_str("/")
            } else {
                string_of(&copy_range(&path, 0, index))
            },
            None => String::from_str("/"),
        }
    }

    /// Whether this cookie belongs on a request for `url` at `now`.
    ///
    /// The cookie has to be unexpired, allowed on the transport, and matched
    /// by both domain and path.
    pub fn matches(&self, url: &Url, now: u64) -> (b: bool)
        ensures
            b == spec_matches(self@, url.scheme@, url.host@, url.target@, now),
    {
        match self.expires {
            Some(expiry) => if expiry <= now {
                return false;
            },
            None => {},
        }
        if self.secure && !url.secure() {
            return false;
        }
        let host = lowercase(&chars_of(url.host.as_str()));
        let domain = chars_of(self.domain.as_str());
        let domain_ok = if self.host_only {
            same(&host, &domain)
        } else {
            let mut dotted: Vec<char> = Vec::new();
            dotted.push('.');
            let mut k: usize = 0;
            while k < domain.len()
                invariant
                    k <= domain.len(),
                    dotted@ == seq!['.'] + domain@.take(k as int),
                decreases domain.len() - k,
            {
                dotted.push(domain[k]);
                assert(domain@.take(k + 1) == domain@.take(k as int).push(domain@[k as int]));
                k = k + 1;
            }
            assert(domain@.take(domain.len() as int) == domain@);
            same(&host, &domain) || ends_with(&host, &dotted)
        };
        domain_ok && StoredCookie::path_matches(url.target.as_str(), self.path.as_str())
    }
}

/// The ceilings a [`CookieJar`] keeps itself under.
#[derive(Debug, Clone, Copy, PartialEq, Eq, Structural)]
pub struct CookieLimits {
    /// The number of cookies one jar may hold across all origins.
    pub max_cookies: u32,
    /// The number of cookies one jar may hold for a single domain.
    pub max_cookies_per_domain: u16,
}

impl Default for CookieLimits {
    fn default() -> (l: CookieLimits)
        ensures
            l.max_cookies == 3000 && l.max_cookies_per_domain == 50,
    {
        CookieLimits { max_cookies: 3000, max_cookies_per_domain: 50 }
    }
}

/// How many stored cookies belong to `domain`.
pub open spec fn count_domain(es: Seq<StoredView>, domain: Seq<char>) -> nat
    decreases es.len(),
{
    if es.len() == 0 {
        0
    } else {
        count_domain(es.drop_last(), domain) + if es.last().domain == domain { 1nat } else { 0nat }
    }
}

/// The first stored cookie that belongs to `domain`.
pub open spec fn first_of_domain(es: Seq<StoredView>, domain: Seq<char>) -> Option<int>
    decreases es.len(),
{
    if es.len() == 0 {
        None
    } else if es[0].domain == domain {
        Some(0)
    } else {
        match first_of_domain(es.drop_first(), domain) {
            Some(i) => Some(i + 1),
            None => None,
        }
    }
}

/// The entries left once room is made for one more cookie in `domain`.
///
/// The oldest cookie of the domain goes when the domain is at its ceiling,
/// and then the oldest cookies overall until the jar is under its own.
pub open spec fn spec_evict(es: Seq<StoredView>, domain: Seq<char>, limits: CookieLimits) -> Seq<StoredView> {
    let es1 = if count_domain(es, domain) >= limits.max_cookies_per_domain {
        match first_of_domain(es, domain) {
            Some(i) => es.remove(i),
            None => es,
        }
    } else {
        es
    };
    if es1.len() >= limits.max_cookies {
        es1.skip(es1.len() - limits.max_cookies + 1)
    } else {
        es1
    }
}

/// The entries that do not share this name, domain and path.
pub open spec fn without_key(es: Seq<StoredView>, name: Seq<char>, domain: Seq<char>, path: Seq<char>) -> Seq<StoredView>
    decreases es.len(),
{
    if es.len() == 0 {
        seq![]
    } else {
        let rest = without_key(es.drop_last(), name, domain, path);
        let e = es.last();
        if e.name == name && e.domain == domain && e.path == path {
            rest
        } else {
            rest.push(e)
        }
    }
}

/// The entries that have not expired by `now`.
pub open spec fn unexpired(es: Seq<StoredView>, now: u64) -> Seq<StoredView>
    decreases es.len(),
{
    if es.len() == 0 {
        seq![]
    } else {
        let rest = unexpired(es.drop_last(), now);
        if expired(es.last(), now) {
            rest
        } else {
            rest.push(es.last())
        }
    }
}

/// How many nanoseconds there are in a second.
pub open spec fn nanos_per_second() -> int {
    1_000_000_000
}

/// When a cookie with this `Max-Age` learned at `now` expires; `None` when it
/// does not, or when the deadline lies past the clock's range.
pub open spec fn deadline(max_age: Option<i64>, now: u64) -> Option<u64> {
    match max_age {
        Some(seconds) => {
            let secs: int = if seconds < 0 { 0 } else { seconds as int };
            if now + secs * nanos_per_second() <= u64::MAX {
                Some((now + secs * nanos_per_second()) as u64)
            } else {
                None
            }
        },
        None => None,
    }
}

/// The domain a cookie is stored under, and whether it is host-only.
pub open spec fn resolved_domain(c: SetCookieView, host: Seq<char>) -> (Seq<char>, bool) {
    match c.domain {
        Some(d) => (lower_seq(trim_char_start(d, '.')), false),
        None => (lower_seq(host), true),
    }
}

/// The path a cookie is stored under.
pub open spec fn resolved_path(c: SetCookieView, target: Seq<char>) -> Seq<char> {
    match c.path {
        Some(p) => p,
        None => spec_default_path(target),
    }
}

/// The stored form of a cookie learned from a response for `host` and `target`.
pub open spec fn stored_from(c: SetCookieView, host: Seq<char>, target: Seq<char>, now: u64) -> StoredView {
    StoredView {
        name: c.name,
        value: c.value,
        domain: resolved_domain(c, host).0,
        host_only: resolved_domain(c, host).1,
        path: resolved_path(c, target),
        secure: c.secure,
        expires: deadline(c.max_age, now),
    }
}

/// Whether a cookie only deletes: its `Max-Age` has already run out.
pub open spec fn deletes(c: SetCookieView) -> bool {
    match c.max_age {
        Some(seconds) => seconds <= 0,
        None => false,
    }
}

/// The entries once one `Set-Cookie` value has been taken in.
pub open spec fn learn_one(
    es: Seq<StoredView>,
    host: Seq<char>,
    target: Seq<char>,
    value: Seq<char>,
    now: u64,
    limits: CookieLimits,
) -> Seq<StoredView> {
    match spec_parse_set_cookie(value) {
        None => es,
        Some(c) => {
            let s = stored_from(c, host, target, now);
            let es1 = without_key(es, s.name, s.domain, s.path);
            if deletes(c) {
                es1
            } else {
                spec_evict(unexpired(es1, now), s.domain, limits).push(s)
            }
        },
    }
}

/// The entries once each `Set-Cookie` value has been taken in, in order.
pub open spec fn learn_all(
    es: Seq<StoredView>,
    host: Seq<char>,
    target: Seq<char>,
    values: Seq<Seq<char>>,
    now: u64,
    limits: CookieLimits,
) -> Seq<StoredView>
    decreases values.len(),
{
    if values.len() == 0 {
        es
    } else {
        learn_one(learn_all(es, host, target, values.drop_last(), now, limits), host, target, values.last(), now, limits)
    }
}

/// The pairs of the entries that belong on a request for a URL at `now`.
pub open spec fn matching_pairs(
    es: Seq<StoredView>,
    scheme: Seq<char>,
    host: Seq<char>,
    target: Seq<char>,
    now: u64,
) -> Seq<(Seq<char>, Seq<char>)>
    decreases es.len(),
{
    if es.len() == 0 {
        seq![]
    } else {
        let rest = matching_pairs(es.drop_last(), scheme, host, target, now);
        if spec_matches(es.last(), scheme, host, target, now) {
            rest.push((es.last().name, es.last().value))
        } else {
            rest
        }
    }
}

/// The plain values of a list of stored cookies.
pub open spec fn stored_views(es: Seq<StoredCookie>) -> Seq<StoredView> {
    Seq::new(es.len(), |i: int| es[i]@)
}

/// A client-side cookie store.
///
/// Its size is bounded by [`CookieLimits::max_cookies`] and
/// [`CookieLimits::max_cookies_per_domain`], and the oldest entry is evicted
/// when either ceiling is reached.
#[derive(Debug)]
pub struct CookieJar {
    /// The cookies held, in the order they were stored.
    pub entries: Vec<StoredCookie>,
    /// The ceilings the jar keeps itself under.
    pub limits: CookieLimits,
}

impl View for CookieJar {
    type V = Seq<StoredView>;

    open spec fn view(&self) -> Seq<StoredView> {
        stored_views(self.entries@)
    }
}

proof fn lemma_views_remove(es: Seq<StoredCookie>, i: int)
    requires
        0 <= i < es.len(),
    ensures
        stored_views(es.remove(i)) == stored_views(es).remove(i),
{
    assert(stored_views(es.remove(i)) =~= stored_views(es).remove(i));
}

proof fn lemma_views_push(es: Seq<StoredCookie>, c: StoredCookie)
    ensures
        stored_views(es.push(c)) == stored_views(es).push(c@),
{
    assert(stored_views(es.push(c)) =~= stored_views(es).push(c@));
}

/// Whether two strings hold the same characters.
fn same_text(a: &String, b: &[char]) -> (out: bool)
    ensures
        out == (a@ == b@),
{
    let a = chars_of(a.as_str());
    same(&a, b)
}

pub proof fn lemma_count_domain_split(es: Seq<StoredView>, domain: Seq<char>, i: int)
    requires
        0 <= i <= es.len(),
    ensures
        count_domain(es, domain) == count_domain(es.take(i), domain) + count_domain(es.skip(i), domain),
    decreases es.len() - i,
{
    if i < es.len() {
        lemma_count_domain_split(es, domain, i + 1);
        assert(es.take(i + 1).drop_last() == es.take(i));
        let tail = es.skip(i);
        lemma_count_front(tail, domain);
        assert(tail.drop_first() == es.skip(i + 1));
    } else {
        assert(es.take(i) == es);
        assert(es.skip(i).len() == 0);
    }
}

pub proof fn lemma_count_front(es: Seq<StoredView>, domain: Seq<char>)
    requires
        es.len() > 0,
    ensures
        count_domain(es, domain) == count_domain(es.drop_first(), domain) + (if es[0].domain == domain {
            1nat
        } else {
            0nat
        }),
    decreases es.len(),
{
    let first: nat = if es[0].domain == domain { 1 } else { 0 };
    let last: nat = if es.last().domain == domain { 1 } else { 0 };
    if es.len() > 1 {
        let a = es.drop_last();
        let b = es.drop_first();
        lemma_count_front(a, domain);
        assert(a.drop_first() == b.drop_last());
        assert(b.last() == es.last());
        assert(a[0] == es[0]);
        assert(count_domain(a, domain) == count_domain(a.drop_first(), domain) + first);
        assert(count_domain(b, domain) == count_domain(b.drop_last(), domain) + last);
        assert(count_domain(es, domain) == count_domain(a, domain) + last);
    } else {
        assert(es.drop_first().len() == 0);
        assert(es.drop_last().len() == 0);
        assert(es.last() == es[0]);
        assert(count_domain(es.drop_last(), domain) == 0);
        assert(count_domain(es.drop_first(), domain) == 0);
        assert(count_domain(es, domain) == count_domain(es.drop_last(), domain) + last);
    }
}

impl CookieJar {
    /// Makes room for one more cookie in `domain`.
    ///
    /// Drops the oldest cookie for the domain when it is at
    /// [`CookieLimits::max_cookies_per_domain`], and then the oldest cookies
    /// overall until the jar is under [`CookieLimits::max_cookies`].
    pub fn evict(entries: &mut Vec<StoredCookie>, domain: &str, limits: &CookieLimits)
        requires
            limits.max_cookies >= 1,
        ensures
            stored_views(final(entries)@) == spec_evict(stored_views(old(entries)@), domain@, *limits),
    {
        let ghost es = stored_views(entries@);
        let wanted = chars_of(domain);
        let mut count: usize = 0;
        let mut first: Option<usize> = None;
        let mut i: usize = 0;
        while i < entries.len()
            invariant
                i <= entries.len(),
                wanted@ == domain@,
                es == stored_views(entries@),
                count as nat == count_domain(es.take(i as int), domain@),
                count <= i,
                match first {
                    Some(f) => first_of_domain(es, domain@) == Some(f as int),
                    None => forall|k: int| 0 <= k < i ==> es[k].domain != domain@,
                },
            decreases entries.len() - i,
        {
            assert(es.take(i + 1).drop_last() == es.take(i as int));
            if same_text(&entries[i].domain, &wanted) {
                count = count + 1;
                if first.is_none() {
                    proof {
                        lemma_first_of_domain_at(es, domain@, i as int);
                    }
                    first = Some(i);
                }
            }
            i = i + 1;
        }
        assert(es.take(entries.len() as int) == es);
        proof {
            if first is None {
                lemma_first_of_domain_none(es, domain@);
            }
        }
        if count >= limits.max_cookies_per_domain as usize {
            match first {
                Some(oldest) => {
                    proof {
                        lemma_first_of_domain_bounds(es, domain@);
                        lemma_views_remove(entries@, oldest as int);
                    }
                    entries.remove(oldest);
                },
                None => {},
            }
        }
        let ghost es1 = stored_views(entries@);
        assert(es1.len() == entries@.len());
        let max = limits.max_cookies as usize;
        let mut removed: usize = 0;
        while entries.len() >= max
            invariant
                max >= 1,
                max == limits.max_cookies,
                removed <= es1.len(),
                es1.len() <= usize::MAX,
                entries@.len() == es1.len() - removed,
                removed > 0 ==> entries@.len() + 1 >= max,
                stored_views(entries@) == es1.skip(removed as int),
            decreases entries.len(),
        {
            proof {
                lemma_views_remove(entries@, 0);
                assert(es1.skip(removed as int).remove(0) == es1.skip(removed + 1));
            }
            entries.remove(0);
            removed = removed + 1;
        }
        proof {
            if es1.len() >= max {
                assert(removed == es1.len() - max + 1);
            } else {
                assert(removed == 0);
                assert(es1.skip(0) == es1);
            }
        }
    }
}

proof fn lemma_first_of_domain_at(es: Seq<StoredView>, domain: Seq<char>, i: int)
    requires
        0 <= i < es.len(),
        es[i].domain == domain,
        forall|k: int| 0 <= k < i ==> es[k].domain != domain,
    ensures
        first_of_domain(es, domain) == Some(i),
    decreases i,
{
    if i > 0 {
        lemma_first_of_domain_at(es.drop_first(), domain, i - 1);
    }
}

proof fn lemma_first_of_domain_none(es: Seq<StoredView>, domain: Seq<char>)
    requires
        forall|k: int| 0 <= k < es.len() ==> es[k].domain != domain,
    ensures
        first_of_domain(es, domain) is None,
    decreases es.len(),
{
    if es.len() > 0 {
        lemma_first_of_domain_none(es.drop_first(), domain);
    }
}

proof fn lemma_first_of_domain_bounds(es: Seq<StoredView>, domain: Seq<char>)
    ensures
        first_of_domain(es, domain) matches Some(i) ==> 0 <= i < es.len() && es[i].domain == domain,
    decreases es.len(),
{
    if es.len() > 0 && es[0].domain != domain {
        lemma_first_of_domain_bounds(es.drop_first(), domain);
    }
}

/// The character views of a list of strings.
pub open spec fn str_views(vs: Seq<&str>) -> Seq<Seq<char>> {
    Seq::new(vs.len(), |i: int| vs[i]@)
}

/// Whether a `Set-Cookie` value, once read, stores a cookie.
pub open spec fn stores(value: Seq<char>) -> bool {
    match spec_parse_set_cookie(value) {
        Some(c) => !deletes(c),
        None => false,
    }
}

/// When a cookie with this `Max-Age` learned at `now` expires.
fn deadline_of(max_age: Option<i64>, now: u64) -> (out: Option<u64>)
    ensures
        out == deadline(max_age, now),
{
    match max_age {
        Some(seconds) => {
            let secs: u64 = if seconds < 0 { 0 } else { seconds as u64 };
            if secs > 18446744073 {
                assert(now + secs * nanos_per_second() > u64::MAX);
                return None;
            }
            let span: u64 = secs * 1_000_000_000;
            now.checked_add(span)
        },
        None => None,
    }
}

/// Moves every entry out of `entries`, in order.
fn take_all(entries: &mut Vec<StoredCookie>) -> (out: Vec<StoredCookie>)
    ensures
        out@ == old(entries)@,
        final(entries)@ == Seq::<StoredCookie>::empty(),
{
    let mut out: Vec<StoredCookie> = Vec::new();
    std::mem::swap(entries, &mut out);
    out
}

impl CookieJar {
    /// Drops every entry that shares this name, domain and path.
    fn remove_key(entries: &mut Vec<StoredCookie>, name: &[char], domain: &[char], path: &[char])
        ensures
            stored_views(final(entries)@) == without_key(stored_views(old(entries)@), name@, domain@, path@),
    {
        let ghost orig = stored_views(entries@);
        let mut rest = take_all(entries);
        let mut k: usize = 0;
        let total = rest.len();
        assert(orig.len() == total);
        assert(orig.skip(0) == orig);
        while rest.len() > 0
            invariant
                k <= orig.len(),
                orig.len() <= usize::MAX,
                rest@.len() == orig.len() - k,
                stored_views(rest@) == orig.skip(k as int),
                stored_views(entries@) == without_key(orig.take(k as int), name@, domain@, path@),
            decreases rest.len(),
        {
            proof {
                lemma_views_remove(rest@, 0);
                assert(orig.skip(k as int).remove(0) == orig.skip(k + 1));
                assert(orig.take(k + 1).drop_last() == orig.take(k as int));
                assert(orig.take(k + 1).last() == orig[k as int]);
                assert(stored_views(rest@)[0] == orig[k as int]);
            }
            let e = rest.remove(0);
            let same_key = same_text(&e.name, name) && same_text(&e.domain, domain) && same_text(&e.path, path);
            if !same_key {
                proof {
                    lemma_views_push(entries@, e);
                }
                entries.push(e);
            }
            k = k + 1;
        }
        assert(orig.take(orig.len() as int) == orig);
    }

    /// Drops every entry that has expired by `now`.
    fn remove_expired(entries: &mut Vec<StoredCookie>, now: u64)
        ensures
            stored_views(final(entries)@) == unexpired(stored_views(old(entries)@), now),
    {
        let ghost orig = stored_views(entries@);
        let mut rest = take_all(entries);
        let mut k: usize = 0;
        let total = rest.len();
        assert(orig.len() == total);
        assert(orig.skip(0) == orig);
        while rest.len() > 0
            invariant
                k <= orig.len(),
                orig.len() <= usize::MAX,
                rest@.len() == orig.len() - k,
                stored_views(rest@) == orig.skip(k as int),
                stored_views(entries@) == unexpired(orig.take(k as int), now),
            decreases rest.len(),
        {
            proof {
                lemma_views_remove(rest@, 0);
                assert(orig.skip(k as int).remove(0) == orig.skip(k + 1));
                assert(orig.take(k + 1).drop_last() == orig.take(k as int));
                assert(orig.take(k + 1).last() == orig[k as int]);
                assert(stored_views(rest@)[0] == orig[k as int]);
            }
            let e = rest.remove(0);
            let gone = match e.expires {
                Some(expiry) => expiry <= now,
                None => false,
            };
            if !gone {
                proof {
                    lemma_views_push(entries@, e);
                }
                entries.push(e);
            }
            k = k + 1;
        }
        assert(orig.take(orig.len() as int) == orig);
    }

    /// An empty jar with the default limits.
    pub fn new() -> (jar: CookieJar)
        ensures
            jar@ == Seq::<StoredView>::empty(),
            jar.limits.max_cookies == 3000,
            jar.limits.max_cookies_per_domain == 50,
    {
        CookieJar { entries: Vec::new(), limits: CookieLimits::default() }
    }

    /// The same jar, bounded by `limits`.
    pub fn with_limits(self, limits: CookieLimits) -> (jar: CookieJar)
        ensures
            jar@ == self@,
            jar.limits == limits,
    {
        CookieJar { entries: self.entries, limits }
    }

    /// Takes in the `Set-Cookie` values a response for `url` carried.
    ///
    /// A cookie replaces any it shares a name, domain and path with. One whose
    /// `Max-Age` has already passed deletes rather than stores. Values that do
    /// not parse are skipped rather than failing the whole batch.
    pub fn learn(&mut self, url: &Url, values: &[&str], now: u64)
        requires
            old(self).limits.max_cookies >= 1 || forall|k: int| 0 <= k < values@.len() ==> !stores(#[trigger] values@[k]@),
        ensures
            final(self).limits == old(self).limits,
            final(self)@ == learn_all(old(self)@, url.host@, url.target@, str_views(values@), now, old(self).limits),
    {
        let ghost orig = self@;
        let mut k: usize = 0;
        assert(str_views(values@).take(0) == Seq::<Seq<char>>::empty());
        while k < values.len()
            invariant
                k <= values.len(),
                self.limits == old(self).limits,
                self.limits.max_cookies >= 1 || forall|j: int| 0 <= j < values@.len() ==> !stores(#[trigger] values@[j]@),
                self@ == learn_all(orig, url.host@, url.target@, str_views(values@).take(k as int), now, self.limits),
            decreases values.len() - k,
        {
            let ghost before = self@;
            assert(str_views(values@).take(k + 1).drop_last() == str_views(values@).take(k as int));
            assert(str_views(values@).take(k + 1).last() == values@[k as int]@);
            self.learn_value(url, values[k], now);
            k = k + 1;
        }
        assert(str_views(values@).take(values.len() as int) == str_views(values@));
    }

    /// Takes in one `Set-Cookie` value.
    fn learn_value(&mut self, url: &Url, value: &str, now: u64)
        requires
            old(self).limits.max_cookies >= 1 || !stores(value@),
        ensures
            final(self).limits == old(self).limits,
            final(self)@ == learn_one(old(self)@, url.host@, url.target@, value@, now, old(self).limits),
    {
        let cookie = match SetCookie::parse(value) {
            Ok(cookie) => cookie,
            Err(_) => {
                return;
            },
        };
        let ghost c = cookie@;
        let (domain, host_only) = match &cookie.domain {
            Some(d) => (lowercase(&trim_start_char(&chars_of(d.as_str()), '.')), false),
            None => (lowercase(&chars_of(url.host.as_str())), true),
        };
        let path = match &cookie.path {
            Some(p) => chars_of(p.as_str()),
            None => {
                let p = StoredCookie::default_path(url.target.as_str());
                chars_of(p.as_str())
            },
        };
        let expires = deadline_of(cookie.max_age, now);
        let deleting = match cookie.max_age {
            Some(seconds) => seconds <= 0,
            None => false,
        };
        let name = chars_of(cookie.name.as_str());
        CookieJar::remove_key(&mut self.entries, &name, &domain, &path);
        if deleting {
            return;
        }
        CookieJar::remove_expired(&mut self.entries, now);
        let domain_text = string_of(&domain);
        CookieJar::evict(&mut self.entries, domain_text.as_str(), &self.limits);
        let stored = StoredCookie {
            name: cookie.name,
            value: cookie.value,
            domain: domain_text,
            host_only,
            path: string_of(&path),
            secure: cookie.secure,
            expires,
        };
        assert(stored@ == stored_from(c, url.host@, url.target@, now));
        proof {
            lemma_views_push(self.entries@, stored);
        }
        self.entries.push(stored);
    }

    /// The `Cookie` field value for a request to `url`, if any cookie matches.
    pub fn cookie(&self, url: &Url, now: u64) -> (out: Option<String>)
        ensures
            match out {
                Some(s) => matching_pairs(self@, url.scheme@, url.host@, url.target@, now).len() > 0
                    && s@ == join_pairs(matching_pairs(self@, url.scheme@, url.host@, url.target@, now)),
                None => matching_pairs(self@, url.scheme@, url.host@, url.target@, now).len() == 0,
            },
    {
        let mut pairs = Cookie::new();
        let mut i: usize = 0;
        while i < self.entries.len()
            invariant
                i <= self.entries.len(),
                pairs@ == matching_pairs(self@.take(i as int), url.scheme@, url.host@, url.target@, now),
            decreases self.entries.len() - i,
        {
            assert(self@.take(i + 1).drop_last() == self@.take(i as int));
            assert(self@.take(i + 1).last() == self.entries@[i as int]@);
            let e = &self.entries[i];
            if e.matches(url, now) {
                let name = string_of(&chars_of(e.name.as_str()));
                let value = string_of(&chars_of(e.value.as_str()));
                proof {
                    assert(pair_views(pairs.pairs@.push((name, value))) == pair_views(pairs.pairs@).push((name@, value@)));
                }
                pairs.pairs.push((name, value));
            }
            i = i + 1;
        }
        assert(self@.take(self.entries.len() as int) == self@);
        if pairs.pairs.len() == 0 {
            None
        } else {
            Some(pairs.build())
        }
    }

    /// Drops every cookie that has expired by `now`.
    pub fn prune(&mut self, now: u64)
        ensures
            final(self).limits == old(self).limits,
            final(self)@ == unexpired(old(self)@, now),
    {
        CookieJar::remove_expired(&mut self.entries, now);
    }
}

} // verus!
