//! What holds of the cookie codecs across calls: a field value that
//! [`SetCookie::build`] writes reads back, through [`SetCookie::parse`], as
//! the cookie it was written from, and a `Cookie` field value that
//! [`Cookie::build`] writes reads back, through [`Cookie::parse`], as the
//! pairs it was written from.
//!
//! [`SetCookie::build`]: crate::cookies::SetCookie::build
//! [`SetCookie::parse`]: crate::cookies::SetCookie::parse
//! [`Cookie::build`]: crate::cookies::Cookie::build
//! [`Cookie::parse`]: crate::cookies::Cookie::parse

use vstd::prelude::*;

use crate::cookies::{
    apply_attribute, apply_attributes, attribute, cookie_pair, cookie_pairs, flag_part, has_name, join_pairs, pair_text, fresh_cookie, is_cookie_value, is_token, max_age_part,
    optional_part, samesite_part, samesite_text, separator_char, set_cookie_text, spec_parse_set_cookie, spec_samesite,
    value_char, SameSite, SetCookieView,
};
use crate::text::{
    decimal, digit, find, is_ws, lemma_find, lower_seq, signed_decimal, split, split_once, trim, trim_char, trim_char_end,
    trim_char_start, trim_end, trim_start,
};

verus! {

/// `find` answers the first occurrence, and only it.
proof fn lemma_find_is(s: Seq<char>, c: char, i: int)
    requires
        0 <= i < s.len(),
        s[i] == c,
        forall|j: int| 0 <= j < i ==> s[j] != c,
    ensures
        find(s, c) == Some(i),
{
    lemma_find(s, c);
}

/// `find` answers none when `c` does not occur.
proof fn lemma_find_none(s: Seq<char>, c: char)
    requires
        forall|j: int| 0 <= j < s.len() ==> s[j] != c,
    ensures
        find(s, c) is None,
{
    lemma_find(s, c);
}

/// Splitting at a separator placed between two texts splits each of them.
pub proof fn lemma_split_concat(t: Seq<char>, q: Seq<char>, c: char)
    ensures
        split(t + seq![c] + q, c) == split(t, c) + split(q, c),
    decreases t.len(),
{
    let s = t + seq![c] + q;
    lemma_find(t, c);
    match find(t, c) {
        None => {
            lemma_find_is(s, c, t.len() as int);
            assert(s.take(t.len() as int) == t);
            assert(s.skip(t.len() as int + 1) == q);
        },
        Some(i) => {
            lemma_find_is(s, c, i);
            assert(s.take(i) == t.take(i));
            assert(s.skip(i + 1) == t.skip(i + 1) + seq![c] + q);
            lemma_split_concat(t.skip(i + 1), q, c);
        },
    }
}

/// A text without the separator is one piece.
pub proof fn lemma_split_single(q: Seq<char>, c: char)
    requires
        forall|j: int| 0 <= j < q.len() ==> q[j] != c,
    ensures
        split(q, c) == seq![q],
{
    lemma_find_none(q, c);
}

/// A key without `=` is cut off at the `=` that follows it.
proof fn lemma_split_once_after(key: Seq<char>, raw: Seq<char>)
    requires
        forall|j: int| 0 <= j < key.len() ==> key[j] != '=',
    ensures
        split_once(key + seq!['='] + raw, '=') == Some((key, raw)),
{
    let s = key + seq!['='] + raw;
    lemma_find_is(s, '=', key.len() as int);
    assert(s.take(key.len() as int) == key);
    assert(s.skip(key.len() as int + 1) == raw);
}

/// The decimal digits of a number are digits, and spell the number.
proof fn lemma_decimal_digits(n: nat)
    ensures
        decimal(n).len() > 0,
        crate::cookies::all_digits(decimal(n)),
        crate::cookies::digits_value(decimal(n)) == n,
        decimal(n)[0] != '-',
    decreases n,
{
    if n >= 10 {
        lemma_decimal_digits(n / 10);
        let d = decimal(n / 10).push(digit(n % 10));
        assert(d.drop_last() == decimal(n / 10));
        assert(d.last() == digit(n % 10));
        assert(d[0] == decimal(n / 10)[0]);
        assert((digit(n % 10) as u32) == 48 + n % 10);
        assert(decimal(n) == d);
        assert(crate::cookies::digits_value(d) == crate::cookies::digits_value(decimal(n / 10)) * 10 + n % 10);
        assert((n / 10) * 10 + n % 10 == n);
    } else {
        let d = seq![digit(n)];
        assert(d.drop_last() == Seq::<char>::empty());
        assert((digit(n) as u32) == 48 + n);
        assert(decimal(n) == d);
        assert(crate::cookies::digits_value(d) == crate::cookies::digits_value(Seq::<char>::empty()) * 10 + n);
    }
}

/// A signed number written in decimal reads back as itself, the smallest
/// `i64` aside.
pub proof fn lemma_age_round_trip(m: i64)
    requires
        m != i64::MIN,
    ensures
        crate::cookies::spec_age(signed_decimal(m as int)) == Some(m),
{
    if m < 0 {
        lemma_decimal_digits((-m) as nat);
        let text = signed_decimal(m as int);
        assert(text.drop_first() == decimal((-m) as nat));
    } else {
        lemma_decimal_digits(m as nat);
    }
}

/// A separator-free piece added after a separator becomes one more piece.
proof fn lemma_add_part(t: Seq<char>, parts: Seq<Seq<char>>, q: Seq<char>)
    requires
        split(t, ';') == parts,
        forall|j: int| 0 <= j < q.len() ==> q[j] != ';',
    ensures
        split(t + seq![';'] + q, ';') == parts.push(q),
{
    lemma_split_concat(t, q, ';');
    lemma_split_single(q, ';');
}

/// Applying one more attribute to the attributes already applied.
proof fn lemma_apply_step(start: SetCookieView, applied: Seq<Seq<char>>, q: Seq<char>)
    ensures
        apply_attributes(start, applied.push(q)) == apply_attribute(apply_attributes(start, applied), q),
{
    assert(applied.push(q).drop_last() == applied);
}

/// A number written in decimal holds no `;` and no whitespace at its ends.
proof fn lemma_signed_decimal_clean(m: i64)
    ensures
        signed_decimal(m as int).len() > 0,
        forall|j: int| 0 <= j < signed_decimal(m as int).len() ==> #[trigger] signed_decimal(m as int)[j] != ';',
        !is_ws(signed_decimal(m as int)[0]),
        !is_ws(signed_decimal(m as int).last()),
{
    let n: nat = if m < 0 { (-m) as nat } else { m as nat };
    lemma_decimal_digits(n);
    let d = decimal(n);
    assert(d.last() == d[d.len() - 1]);
    assert('0' <= d[d.len() - 1] && d[d.len() - 1] <= '9');
    assert('0' <= d[0] && d[0] <= '9');
    if m < 0 {
        let text = seq!['-'] + d;
        assert(text.last() == d.last());
        assert forall|j: int| 0 <= j < text.len() implies text[j] != ';' by {
            if j > 0 {
                assert(text[j] == d[j - 1]);
                assert('0' <= d[j - 1] && d[j - 1] <= '9');
            }
        }
    } else {
        assert forall|j: int| 0 <= j < d.len() implies d[j] != ';' by {
            assert('0' <= d[j] && d[j] <= '9');
        }
    }
}

/// A key written with one leading space reads back, trimmed, without it.
proof fn lemma_trim_key(key: Seq<char>)
    requires
        key.len() >= 2,
        key[0] == ' ',
        !is_ws(key[1]),
        !is_ws(key.last()),
    ensures
        trim(key) == key.drop_first(),
{
    assert(trim_start(key.drop_first()) == key.drop_first());
    assert(key.drop_first().last() == key.last());
    assert(trim_end(key.drop_first()) == key.drop_first());
}

/// A text with no whitespace at either end is its own trim.
proof fn lemma_trim_clean(s: Seq<char>)
    requires
        s.len() > 0 ==> !is_ws(s[0]) && !is_ws(s.last()),
    ensures
        trim(s) == s,
{
}

/// An attribute written as a key with one leading space, `=` and a value
/// reads back as the key, trimmed and lowercased, and the value, trimmed.
proof fn lemma_valued_attribute(key: Seq<char>, raw: Seq<char>)
    requires
        key.len() >= 2,
        key[0] == ' ',
        !is_ws(key[1]),
        !is_ws(key.last()),
        forall|j: int| 0 <= j < key.len() ==> key[j] != '=',
    ensures
        attribute(key + seq!['='] + raw) == (lower_seq(key.drop_first()), trim(raw)),
{
    lemma_split_once_after(key, raw);
    lemma_trim_key(key);
}

/// A flag written as a key with one leading space reads back as the key,
/// trimmed and lowercased.
proof fn lemma_flag_attribute(key: Seq<char>)
    requires
        key.len() >= 2,
        key[0] == ' ',
        !is_ws(key[1]),
        !is_ws(key.last()),
        forall|j: int| 0 <= j < key.len() ==> key[j] != '=',
    ensures
        attribute(key) == (lower_seq(key.drop_first()), Seq::<char>::empty()),
{
    lemma_find_none(key, '=');
    lemma_trim_key(key);
}

/// Whether an attribute value survives being written and read back: it has
/// no `;` in it and no whitespace at either end.
pub open spec fn attribute_safe(value: Option<Seq<char>>) -> bool {
    match value {
        Some(v) => (forall|j: int| 0 <= j < v.len() ==> v[j] != ';') && trim(v) == v,
        None => true,
    }
}

/// Where reading back a written field value stands: `text` splits into
/// `parts`, led by the `name=value` pair, and the attributes after it turn
/// `start` into `view`.
spec fn reads_as(text: Seq<char>, parts: Seq<Seq<char>>, start: SetCookieView, view: SetCookieView, pair: Seq<char>) -> bool {
    &&& split(text, ';') == parts
    &&& parts.len() >= 1
    &&& parts[0] == pair
    &&& apply_attributes(start, parts.skip(1)) == view
}

/// Writing one more `;`-separated piece is reading one more attribute.
proof fn lemma_step(text: Seq<char>, parts: Seq<Seq<char>>, start: SetCookieView, view: SetCookieView, pair: Seq<char>, q: Seq<char>)
    requires
        reads_as(text, parts, start, view, pair),
        forall|j: int| 0 <= j < q.len() ==> q[j] != ';',
    ensures
        reads_as(text + seq![';'] + q, parts.push(q), start, apply_attribute(view, q), pair),
{
    lemma_add_part(text, parts, q);
    assert(parts.push(q).skip(1) == parts.skip(1).push(q));
    lemma_apply_step(start, parts.skip(1), q);
}

/// A `key=raw` piece with no `;` in it.
proof fn lemma_piece_clean(key: Seq<char>, raw: Seq<char>)
    requires
        forall|j: int| 0 <= j < key.len() ==> key[j] != ';',
        forall|j: int| 0 <= j < raw.len() ==> raw[j] != ';',
    ensures
        forall|j: int| 0 <= j < (key + seq!['='] + raw).len() ==> #[trigger] (key + seq!['='] + raw)[j] != ';',
{
    let q = key + seq!['='] + raw;
    assert forall|j: int| 0 <= j < q.len() implies q[j] != ';' by {
        if j < key.len() {
            assert(q[j] == key[j]);
        } else if j > key.len() {
            assert(q[j] == raw[j - key.len() - 1]);
        }
    }
}

proof fn step_expires(c: SetCookieView, text: Seq<char>, parts: Seq<Seq<char>>, start: SetCookieView, view: SetCookieView, pair: Seq<char>)
    -> (next: (Seq<char>, Seq<Seq<char>>, SetCookieView))
    requires
        reads_as(text, parts, start, view, pair),
        attribute_safe(c.expires),
    ensures
        next.0 == text + optional_part("; Expires="@, c.expires),
        next.2 == (SetCookieView { expires: if c.expires is Some { c.expires } else { view.expires }, ..view }),
        reads_as(next.0, next.1, start, next.2, pair),
{
    reveal_strlit("; Expires=");
    match c.expires {
        Some(e) => {
            let key = seq![' ', 'E', 'x', 'p', 'i', 'r', 'e', 's'];
            let q = key + seq!['='] + e;
            lemma_piece_clean(key, e);
            lemma_step(text, parts, start, view, pair, q);
            lemma_valued_attribute(key, e);
            assert(lower_seq(key.drop_first()) == seq!['e', 'x', 'p', 'i', 'r', 'e', 's']);
            assert(text + optional_part("; Expires="@, c.expires) == text + seq![';'] + q);
            (text + seq![';'] + q, parts.push(q), apply_attribute(view, q))
        },
        None => (text, parts, view),
    }
}

proof fn step_max_age(c: SetCookieView, text: Seq<char>, parts: Seq<Seq<char>>, start: SetCookieView, view: SetCookieView, pair: Seq<char>)
    -> (next: (Seq<char>, Seq<Seq<char>>, SetCookieView))
    requires
        reads_as(text, parts, start, view, pair),
        c.max_age != Some(i64::MIN),
    ensures
        next.0 == text + max_age_part(c.max_age),
        next.2 == (SetCookieView { max_age: if c.max_age is Some { c.max_age } else { view.max_age }, ..view }),
        reads_as(next.0, next.1, start, next.2, pair),
{
    reveal_strlit("; Max-Age=");
    match c.max_age {
        Some(m) => {
            let key = seq![' ', 'M', 'a', 'x', '-', 'A', 'g', 'e'];
            let raw = signed_decimal(m as int);
            lemma_signed_decimal_clean(m);
            let q = key + seq!['='] + raw;
            lemma_piece_clean(key, raw);
            lemma_step(text, parts, start, view, pair, q);
            lemma_valued_attribute(key, raw);
            lemma_trim_clean(raw);
            lemma_age_round_trip(m);
            assert(lower_seq(key.drop_first()) == seq!['m', 'a', 'x', '-', 'a', 'g', 'e']);
            assert(text + max_age_part(c.max_age) == text + seq![';'] + q);
            (text + seq![';'] + q, parts.push(q), apply_attribute(view, q))
        },
        None => (text, parts, view),
    }
}

proof fn step_domain(c: SetCookieView, text: Seq<char>, parts: Seq<Seq<char>>, start: SetCookieView, view: SetCookieView, pair: Seq<char>)
    -> (next: (Seq<char>, Seq<Seq<char>>, SetCookieView))
    requires
        reads_as(text, parts, start, view, pair),
        attribute_safe(c.domain),
    ensures
        next.0 == text + optional_part("; Domain="@, c.domain),
        next.2 == (SetCookieView { domain: if c.domain is Some { c.domain } else { view.domain }, ..view }),
        reads_as(next.0, next.1, start, next.2, pair),
{
    reveal_strlit("; Domain=");
    match c.domain {
        Some(d) => {
            let key = seq![' ', 'D', 'o', 'm', 'a', 'i', 'n'];
            let q = key + seq!['='] + d;
            lemma_piece_clean(key, d);
            lemma_step(text, parts, start, view, pair, q);
            lemma_valued_attribute(key, d);
            assert(lower_seq(key.drop_first()) == seq!['d', 'o', 'm', 'a', 'i', 'n']);
            assert(text + optional_part("; Domain="@, c.domain) == text + seq![';'] + q);
            (text + seq![';'] + q, parts.push(q), apply_attribute(view, q))
        },
        None => (text, parts, view),
    }
}

proof fn step_path(c: SetCookieView, text: Seq<char>, parts: Seq<Seq<char>>, start: SetCookieView, view: SetCookieView, pair: Seq<char>)
    -> (next: (Seq<char>, Seq<Seq<char>>, SetCookieView))
    requires
        reads_as(text, parts, start, view, pair),
        attribute_safe(c.path),
    ensures
        next.0 == text + optional_part("; Path="@, c.path),
        next.2 == (SetCookieView { path: if c.path is Some { c.path } else { view.path }, ..view }),
        reads_as(next.0, next.1, start, next.2, pair),
{
    reveal_strlit("; Path=");
    match c.path {
        Some(p) => {
            let key = seq![' ', 'P', 'a', 't', 'h'];
            let q = key + seq!['='] + p;
            lemma_piece_clean(key, p);
            lemma_step(text, parts, start, view, pair, q);
            lemma_valued_attribute(key, p);
            assert(lower_seq(key.drop_first()) == seq!['p', 'a', 't', 'h']);
            assert(text + optional_part("; Path="@, c.path) == text + seq![';'] + q);
            (text + seq![';'] + q, parts.push(q), apply_attribute(view, q))
        },
        None => (text, parts, view),
    }
}

proof fn step_flags(c: SetCookieView, text: Seq<char>, parts: Seq<Seq<char>>, start: SetCookieView, view: SetCookieView, pair: Seq<char>)
    -> (next: (Seq<char>, Seq<Seq<char>>, SetCookieView))
    requires
        reads_as(text, parts, start, view, pair),
    ensures
        next.0 == text + flag_part(c.secure, "; Secure"@) + flag_part(c.httponly, "; HttpOnly"@),
        next.2 == (SetCookieView { secure: c.secure || view.secure, httponly: c.httponly || view.httponly, ..view }),
        reads_as(next.0, next.1, start, next.2, pair),
{
    reveal_strlit("; Secure");
    reveal_strlit("; HttpOnly");
    let (t1, p1, v1) = if c.secure {
        let q = seq![' ', 'S', 'e', 'c', 'u', 'r', 'e'];
        lemma_step(text, parts, start, view, pair, q);
        lemma_flag_attribute(q);
        assert(lower_seq(q.drop_first()) == seq!['s', 'e', 'c', 'u', 'r', 'e']);
        assert(text + flag_part(c.secure, "; Secure"@) == text + seq![';'] + q);
        (text + seq![';'] + q, parts.push(q), apply_attribute(view, q))
    } else {
        (text, parts, view)
    };
    if c.httponly {
        let q = seq![' ', 'H', 't', 't', 'p', 'O', 'n', 'l', 'y'];
        lemma_step(t1, p1, start, v1, pair, q);
        lemma_flag_attribute(q);
        assert(lower_seq(q.drop_first()) == seq!['h', 't', 't', 'p', 'o', 'n', 'l', 'y']);
        assert(t1 + flag_part(c.httponly, "; HttpOnly"@) == t1 + seq![';'] + q);
        (t1 + seq![';'] + q, p1.push(q), apply_attribute(v1, q))
    } else {
        (t1, p1, v1)
    }
}

/// A `SameSite` value written out reads back as itself.
proof fn lemma_samesite_round_trip(same: SameSite)
    ensures
        spec_samesite(samesite_text(same)) == Some(same),
{
    match same {
        SameSite::Strict => {
            assert(lower_seq(seq!['S', 't', 'r', 'i', 'c', 't']) == seq!['s', 't', 'r', 'i', 'c', 't']);
        },
        SameSite::Lax => {
            assert(lower_seq(seq!['L', 'a', 'x']) == seq!['l', 'a', 'x']);
            assert(seq!['l', 'a', 'x'] != seq!['s', 't', 'r', 'i', 'c', 't']);
        },
        SameSite::Unrestricted => {
            assert(lower_seq(seq!['N', 'o', 'n', 'e']) == seq!['n', 'o', 'n', 'e']);
            assert(seq!['n', 'o', 'n', 'e'] != seq!['s', 't', 'r', 'i', 'c', 't']);
            assert(seq!['n', 'o', 'n', 'e'] != seq!['l', 'a', 'x']);
        },
    }
}

proof fn step_samesite(c: SetCookieView, text: Seq<char>, parts: Seq<Seq<char>>, start: SetCookieView, view: SetCookieView, pair: Seq<char>)
    -> (next: (Seq<char>, Seq<Seq<char>>, SetCookieView))
    requires
        reads_as(text, parts, start, view, pair),
    ensures
        next.0 == text + samesite_part(c.samesite),
        next.2 == (SetCookieView { samesite: if c.samesite is Some { c.samesite } else { view.samesite }, ..view }),
        reads_as(next.0, next.1, start, next.2, pair),
{
    reveal_strlit("; SameSite=");
    match c.samesite {
        Some(same) => {
            let key = seq![' ', 'S', 'a', 'm', 'e', 'S', 'i', 't', 'e'];
            let raw = samesite_text(same);
            let q = key + seq!['='] + raw;
            lemma_piece_clean(key, raw);
            lemma_step(text, parts, start, view, pair, q);
            lemma_valued_attribute(key, raw);
            lemma_trim_clean(raw);
            assert(lower_seq(key.drop_first()) == seq!['s', 'a', 'm', 'e', 's', 'i', 't', 'e']);
            lemma_samesite_round_trip(same);
            assert(text + samesite_part(c.samesite) == text + seq![';'] + q);
            (text + seq![';'] + q, parts.push(q), apply_attribute(view, q))
        },
        None => (text, parts, view),
    }
}

/// A `Set-Cookie` field value written from a cookie reads back as that
/// cookie: whenever the cookie can be written (a token name with no
/// whitespace at its ends, and a valid value), its attribute values carry no
/// `;` and no whitespace at their ends, and its `Max-Age`, if any, is not the
/// smallest `i64`, which reads back saturated.
pub proof fn law_set_cookie_round_trip(c: SetCookieView)
    requires
        is_token(c.name),
        trim(c.name) == c.name,
        is_cookie_value(c.value),
        attribute_safe(c.expires),
        attribute_safe(c.domain),
        attribute_safe(c.path),
        c.max_age != Some(i64::MIN),
    ensures
        spec_parse_set_cookie(set_cookie_text(c)) == Some(c),
{
    assert forall|j: int| 0 <= j < c.name.len() implies c.name[j] != '=' && c.name[j] != ';' by {
        assert(!separator_char(c.name[j]));
    }
    assert forall|j: int| 0 <= j < c.value.len() implies c.value[j] != ';' && !is_ws(c.value[j]) by {
        assert(value_char(c.value[j]));
    }
    if c.value.len() > 0 {
        assert(c.value.last() == c.value[c.value.len() - 1]);
    }
    lemma_trim_clean(c.value);
    let pair = c.name + seq!['='] + c.value;
    lemma_piece_clean(c.name, c.value);
    lemma_split_single(pair, ';');
    lemma_split_once_after(c.name, c.value);
    let start = fresh_cookie(c.name, c.value);
    let parts: Seq<Seq<char>> = seq![pair];
    assert(parts.skip(1) == Seq::<Seq<char>>::empty());
    assert(reads_as(pair, parts, start, start, pair));
    let (t1, p1, v1) = step_expires(c, pair, parts, start, start, pair);
    let (t2, p2, v2) = step_max_age(c, t1, p1, start, v1, pair);
    let (t3, p3, v3) = step_domain(c, t2, p2, start, v2, pair);
    let (t4, p4, v4) = step_path(c, t3, p3, start, v3, pair);
    let (t5, p5, v5) = step_flags(c, t4, p4, start, v4, pair);
    let (t6, p6, v6) = step_samesite(c, t5, p5, start, v5, pair);
    assert(t6 == set_cookie_text(c));
    assert(v6 == c);
}

/// Whether a pair survives being written into a `Cookie` field and read
/// back: a non-empty name with no `=` or `;` in it, a value with no `;` in
/// it, neither with whitespace at its ends, and a value not wrapped in a
/// double quote at either end.
pub open spec fn pair_safe(pair: (Seq<char>, Seq<char>)) -> bool {
    &&& pair.0.len() > 0
    &&& forall|j: int| 0 <= j < pair.0.len() ==> pair.0[j] != '=' && pair.0[j] != ';'
    &&& !is_ws(pair.0[0]) && !is_ws(pair.0.last())
    &&& forall|j: int| 0 <= j < pair.1.len() ==> pair.1[j] != ';'
    &&& pair.1.len() > 0 ==> !is_ws(pair.1[0]) && !is_ws(pair.1.last()) && pair.1[0] != '"' && pair.1.last() != '"'
}

/// A pair written with an optional leading space reads back as itself.
proof fn lemma_pair_reads_back(pair: (Seq<char>, Seq<char>), lead: Seq<char>)
    requires
        pair_safe(pair),
        lead == Seq::<char>::empty() || lead == seq![' '],
    ensures
        cookie_pair(lead + pair_text(pair)) == Some(pair),
        forall|j: int| 0 <= j < (lead + pair_text(pair)).len() ==> #[trigger] (lead + pair_text(pair))[j] != ';',
{
    let (name, value) = pair;
    let key = lead + name;
    assert forall|j: int| 0 <= j < key.len() implies key[j] != '=' && key[j] != ';' by {
        if j >= lead.len() {
            assert(key[j] == name[j - lead.len()]);
        }
    }
    assert(lead + pair_text(pair) == key + seq!['='] + value);
    lemma_split_once_after(key, value);
    lemma_piece_clean(key, value);
    if lead.len() == 1 {
        assert(key.drop_first() == name);
        assert(trim_start(key) == trim_start(name));
    } else {
        assert(key == name);
    }
    assert(trim_start(name) == name);
    assert(trim(key) == name);
    lemma_trim_clean(value);
    if value.len() > 0 {
        assert(trim_char_start(value, '"') == value);
        assert(trim_char_end(value, '"') == value);
    }
    assert(trim_char(trim(value), '"') == value);
}

/// The pieces a written `Cookie` field splits into at `;`.
proof fn lemma_join_splits(pairs: Seq<(Seq<char>, Seq<char>)>)
    requires
        pairs.len() > 0,
        forall|i: int| 0 <= i < pairs.len() ==> pair_safe(#[trigger] pairs[i]),
    ensures
        split(join_pairs(pairs), ';') == seq![pair_text(pairs[0])] + Seq::new((pairs.len() - 1) as nat, |i: int| seq![' '] + pair_text(pairs[i + 1])),
    decreases pairs.len(),
{
    if pairs.len() == 1 {
        lemma_pair_reads_back(pairs[0], Seq::empty());
        assert(Seq::<char>::empty() + pair_text(pairs[0]) == pair_text(pairs[0]));
        lemma_split_single(pair_text(pairs[0]), ';');
    } else {
        let rest = pairs.drop_last();
        assert forall|i: int| 0 <= i < rest.len() implies pair_safe(#[trigger] rest[i]) by {
            assert(rest[i] == pairs[i]);
        }
        lemma_join_splits(rest);
        let q = seq![' '] + pair_text(pairs.last());
        lemma_pair_reads_back(pairs.last(), seq![' ']);
        assert(join_pairs(pairs) == join_pairs(rest) + seq![';'] + q);
        lemma_split_concat(join_pairs(rest), q, ';');
        lemma_split_single(q, ';');
        assert(split(join_pairs(pairs), ';') == seq![pair_text(pairs[0])] + Seq::new((pairs.len() - 1) as nat, |i: int| seq![' '] + pair_text(pairs[i + 1])));
    }
}

/// Reading back the pieces of a written `Cookie` field gives the pairs.
proof fn lemma_pairs_read_back(pairs: Seq<(Seq<char>, Seq<char>)>)
    requires
        pairs.len() > 0,
        forall|i: int| 0 <= i < pairs.len() ==> pair_safe(#[trigger] pairs[i]),
        forall|i: int, j: int| 0 <= i < j < pairs.len() ==> pairs[i].0 != pairs[j].0,
    ensures
        cookie_pairs(seq![pair_text(pairs[0])] + Seq::new((pairs.len() - 1) as nat, |i: int| seq![' '] + pair_text(pairs[i + 1]))) == pairs,
    decreases pairs.len(),
{
    let parts = seq![pair_text(pairs[0])] + Seq::new((pairs.len() - 1) as nat, |i: int| seq![' '] + pair_text(pairs[i + 1]));
    if pairs.len() == 1 {
        lemma_pair_reads_back(pairs[0], Seq::empty());
        assert(Seq::<char>::empty() + pair_text(pairs[0]) == pair_text(pairs[0]));
        assert(parts.drop_last() == Seq::<Seq<char>>::empty());
        assert(parts.len() == 1);
        assert(parts.last() == pair_text(pairs[0]));
        assert(cookie_pairs(parts.drop_last()) == Seq::<(Seq<char>, Seq<char>)>::empty());
        assert(!has_name(Seq::<(Seq<char>, Seq<char>)>::empty(), pairs[0].0));
        assert(Seq::<(Seq<char>, Seq<char>)>::empty().push(pairs[0]) == seq![pairs[0]]);
        assert(cookie_pairs(parts) == seq![pairs[0]]);
    } else {
        let rest = pairs.drop_last();
        assert forall|i: int| 0 <= i < rest.len() implies pair_safe(#[trigger] rest[i]) by {
            assert(rest[i] == pairs[i]);
        }
        lemma_pairs_read_back(rest);
        let rest_parts = seq![pair_text(rest[0])] + Seq::new((rest.len() - 1) as nat, |i: int| seq![' '] + pair_text(rest[i + 1]));
        assert(parts.drop_last() == rest_parts);
        assert(parts.last() == seq![' '] + pair_text(pairs.last()));
        lemma_pair_reads_back(pairs.last(), seq![' ']);
        assert(!has_name(rest, pairs.last().0)) by {
            if has_name(rest, pairs.last().0) {
                let i = choose|i: int| 0 <= i < rest.len() && #[trigger] rest[i].0 == pairs.last().0;
                assert(pairs[i].0 == pairs[pairs.len() - 1].0);
            }
        }
        assert(rest.push(pairs.last()) == pairs);
    }
}

/// A `Cookie` field value written from pairs reads back as those pairs,
/// whenever the names are distinct and every pair is safe to write (see
/// [`pair_safe`]).
pub proof fn law_cookie_round_trip(pairs: Seq<(Seq<char>, Seq<char>)>)
    requires
        forall|i: int| 0 <= i < pairs.len() ==> pair_safe(#[trigger] pairs[i]),
        forall|i: int, j: int| 0 <= i < j < pairs.len() ==> pairs[i].0 != pairs[j].0,
    ensures
        cookie_pairs(split(join_pairs(pairs), ';')) == pairs,
{
    if pairs.len() == 0 {
        lemma_split_single(Seq::<char>::empty(), ';');
        let parts = seq![Seq::<char>::empty()];
        assert(parts.drop_last() == Seq::<Seq<char>>::empty());
        lemma_find_none(Seq::<char>::empty(), '=');
        assert(parts.len() == 1);
        assert(parts.last() == Seq::<char>::empty());
        assert(cookie_pair(Seq::<char>::empty()) is None);
        assert(cookie_pairs(parts.drop_last()) == Seq::<(Seq<char>, Seq<char>)>::empty());
        assert(cookie_pairs(parts) == Seq::<(Seq<char>, Seq<char>)>::empty());
    } else {
        lemma_join_splits(pairs);
        lemma_pairs_read_back(pairs);
    }
}

} // verus!
