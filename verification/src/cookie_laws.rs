//! What holds of a [`CookieJar`] across calls: it stays within its ceilings,
//! it never holds two cookies under one name, domain and path, and a cookie
//! it has just taken in is sent back on the next request that it matches.
//!
//! [`CookieJar`]: crate::cookies::CookieJar

use vstd::prelude::*;

use crate::cookies::{
    count_domain, deletes, first_of_domain, learn_one, matching_pairs, resolved_domain, spec_default_path,
    spec_evict, spec_matches, spec_parse_set_cookie, spec_path_matches, stored_from, stores, unexpired,
    without_key, CookieLimits, StoredView, path_part, deadline, expired, domain_matches, SetCookieView,
    lemma_count_front,
};
use crate::models::secure_scheme;
use crate::text::{is_prefix, is_suffix, lower_seq, rfind, lemma_rfind, lemma_trim_char_start_skip, trim_char_start};

verus! {

proof fn lemma_without_key_len(es: Seq<StoredView>, n: Seq<char>, d: Seq<char>, p: Seq<char>)
    ensures
        without_key(es, n, d, p).len() <= es.len(),
    decreases es.len(),
{
    if es.len() > 0 {
        lemma_without_key_len(es.drop_last(), n, d, p);
    }
}

proof fn lemma_unexpired_len(es: Seq<StoredView>, now: u64)
    ensures
        unexpired(es, now).len() <= es.len(),
    decreases es.len(),
{
    if es.len() > 0 {
        lemma_unexpired_len(es.drop_last(), now);
    }
}

proof fn lemma_first_of_domain_bounds(es: Seq<StoredView>, domain: Seq<char>)
    ensures
        first_of_domain(es, domain) matches Some(i) ==> 0 <= i < es.len() && es[i].domain == domain,
    decreases es.len(),
{
    if es.len() > 0 && es[0].domain != domain {
        lemma_first_of_domain_bounds(es.drop_first(), domain);
    }
}

/// Making room in a jar leaves it one short of its ceiling, at most.
pub proof fn lemma_evict_len(es: Seq<StoredView>, domain: Seq<char>, limits: CookieLimits)
    requires
        limits.max_cookies >= 1,
    ensures
        spec_evict(es, domain, limits).len() < limits.max_cookies,
        spec_evict(es, domain, limits).len() <= es.len(),
{
    lemma_first_of_domain_bounds(es, domain);
}

/// A jar within its ceiling stays within it when it takes in a cookie.
pub proof fn law_learn_stays_bounded(
    es: Seq<StoredView>,
    host: Seq<char>,
    target: Seq<char>,
    value: Seq<char>,
    now: u64,
    limits: CookieLimits,
)
    requires
        limits.max_cookies >= 1,
        es.len() <= limits.max_cookies,
    ensures
        learn_one(es, host, target, value, now, limits).len() <= limits.max_cookies,
{
    if let Some(c) = spec_parse_set_cookie(value) {
        let s = stored_from(c, host, target, now);
        let es1 = without_key(es, s.name, s.domain, s.path);
        lemma_without_key_len(es, s.name, s.domain, s.path);
        lemma_unexpired_len(es1, now);
        lemma_evict_len(unexpired(es1, now), s.domain, limits);
    }
}

proof fn lemma_count_concat(a: Seq<StoredView>, b: Seq<StoredView>, d: Seq<char>)
    ensures
        count_domain(a + b, d) == count_domain(a, d) + count_domain(b, d),
    decreases b.len(),
{
    if b.len() == 0 {
        assert(a + b == a);
    } else {
        lemma_count_concat(a, b.drop_last(), d);
        assert((a + b).drop_last() == a + b.drop_last());
        assert((a + b).last() == b.last());
    }
}

proof fn lemma_count_skip(es: Seq<StoredView>, k: int, d: Seq<char>)
    requires
        0 <= k <= es.len(),
    ensures
        count_domain(es.skip(k), d) <= count_domain(es, d),
{
    assert(es == es.take(k) + es.skip(k));
    lemma_count_concat(es.take(k), es.skip(k), d);
}

proof fn lemma_count_remove(es: Seq<StoredView>, i: int, d: Seq<char>)
    requires
        0 <= i < es.len(),
    ensures
        count_domain(es.remove(i), d) + (if es[i].domain == d { 1nat } else { 0nat }) == count_domain(es, d),
{
    assert(es.remove(i) == es.take(i) + es.skip(i + 1));
    lemma_count_concat(es.take(i), es.skip(i + 1), d);
    assert(es == es.take(i) + es.skip(i));
    lemma_count_concat(es.take(i), es.skip(i), d);
    lemma_count_front(es.skip(i), d);
    assert(es.skip(i).drop_first() == es.skip(i + 1));
    assert(es.skip(i)[0] == es[i]);
}

proof fn lemma_first_of_domain_found(es: Seq<StoredView>, d: Seq<char>)
    requires
        count_domain(es, d) > 0,
    ensures
        first_of_domain(es, d) is Some,
    decreases es.len(),
{
    if es.len() > 0 {
        lemma_count_front(es, d);
        if es[0].domain != d {
            lemma_first_of_domain_found(es.drop_first(), d);
        }
    }
}

proof fn lemma_without_key_count(es: Seq<StoredView>, n: Seq<char>, dom: Seq<char>, p: Seq<char>, d: Seq<char>)
    ensures
        count_domain(without_key(es, n, dom, p), d) <= count_domain(es, d),
    decreases es.len(),
{
    if es.len() > 0 {
        lemma_without_key_count(es.drop_last(), n, dom, p, d);
        let rest = without_key(es.drop_last(), n, dom, p);
        assert(rest.push(es.last()).drop_last() == rest);
    }
}

proof fn lemma_unexpired_count(es: Seq<StoredView>, now: u64, d: Seq<char>)
    ensures
        count_domain(unexpired(es, now), d) <= count_domain(es, d),
    decreases es.len(),
{
    if es.len() > 0 {
        lemma_unexpired_count(es.drop_last(), now, d);
        let rest = unexpired(es.drop_last(), now);
        assert(rest.push(es.last()).drop_last() == rest);
    }
}

/// Making room for a cookie of `domain` leaves that domain below its ceiling
/// and no other domain above where it was.
pub proof fn lemma_evict_count(es: Seq<StoredView>, domain: Seq<char>, limits: CookieLimits, d: Seq<char>)
    requires
        limits.max_cookies >= 1,
        limits.max_cookies_per_domain >= 1,
        count_domain(es, d) <= limits.max_cookies_per_domain,
    ensures
        count_domain(spec_evict(es, domain, limits), d) <= count_domain(es, d),
        d == domain ==> count_domain(spec_evict(es, domain, limits), d) < limits.max_cookies_per_domain,
{
    lemma_first_of_domain_bounds(es, domain);
    let es1 = if count_domain(es, domain) >= limits.max_cookies_per_domain {
        match first_of_domain(es, domain) {
            Some(i) => es.remove(i),
            None => es,
        }
    } else {
        es
    };
    if count_domain(es, domain) >= limits.max_cookies_per_domain {
        lemma_first_of_domain_found(es, domain);
        let i = first_of_domain(es, domain)->0;
        lemma_count_remove(es, i, d);
    }
    if es1.len() >= limits.max_cookies {
        lemma_count_skip(es1, es1.len() - limits.max_cookies + 1, d);
    }
}

/// A jar that keeps every domain within its ceiling keeps it there when it
/// takes in a cookie.
pub proof fn law_learn_stays_within_domain_ceiling(
    es: Seq<StoredView>,
    host: Seq<char>,
    target: Seq<char>,
    value: Seq<char>,
    now: u64,
    limits: CookieLimits,
    d: Seq<char>,
)
    requires
        limits.max_cookies >= 1,
        limits.max_cookies_per_domain >= 1,
        count_domain(es, d) <= limits.max_cookies_per_domain,
    ensures
        count_domain(learn_one(es, host, target, value, now, limits), d) <= limits.max_cookies_per_domain,
{
    if let Some(c) = spec_parse_set_cookie(value) {
        let s = stored_from(c, host, target, now);
        let es1 = without_key(es, s.name, s.domain, s.path);
        lemma_without_key_count(es, s.name, s.domain, s.path, d);
        lemma_unexpired_count(es1, now, d);
        let es2 = unexpired(es1, now);
        if !deletes(c) {
            lemma_evict_count(es2, s.domain, limits, d);
            let es3 = spec_evict(es2, s.domain, limits);
            assert(es3.push(s).drop_last() == es3);
        }
    }
}

/// Whether a stored cookie sits under this name, domain and path.
pub open spec fn has_key(e: StoredView, n: Seq<char>, d: Seq<char>, p: Seq<char>) -> bool {
    e.name == n && e.domain == d && e.path == p
}

/// Whether no two cookies share a name, domain and path.
pub open spec fn keys_unique(es: Seq<StoredView>) -> bool {
    forall|i: int, j: int|
        0 <= i < j < es.len() ==> !has_key(#[trigger] es[i], es[j].name, es[j].domain, #[trigger] es[j].path)
}

/// Whether every entry of `r` is an entry of `es`.
pub open spec fn within(r: Seq<StoredView>, es: Seq<StoredView>) -> bool {
    forall|i: int| 0 <= i < r.len() ==> exists|j: int| 0 <= j < es.len() && #[trigger] r[i] == es[j]
}

/// Whether no cookie sits under this name, domain and path.
pub open spec fn key_absent(es: Seq<StoredView>, n: Seq<char>, d: Seq<char>, p: Seq<char>) -> bool {
    forall|i: int| 0 <= i < es.len() ==> !has_key(#[trigger] es[i], n, d, p)
}

proof fn lemma_without_key_shape(es: Seq<StoredView>, n: Seq<char>, d: Seq<char>, p: Seq<char>)
    ensures
        within(without_key(es, n, d, p), es),
        key_absent(without_key(es, n, d, p), n, d, p),
        keys_unique(es) ==> keys_unique(without_key(es, n, d, p)),
    decreases es.len(),
{
    if es.len() > 0 {
        let init = es.drop_last();
        lemma_without_key_shape(init, n, d, p);
        let rest = without_key(init, n, d, p);
        assert(within(rest, es)) by {
            assert forall|i: int| 0 <= i < rest.len() implies exists|j: int| 0 <= j < es.len() && #[trigger] rest[i] == es[j] by {
                let j = choose|j: int| 0 <= j < init.len() && rest[i] == init[j];
                assert(es[j] == init[j]);
            }
        }
        if keys_unique(es) {
            assert(keys_unique(init)) by {
                assert forall|i: int, j: int| 0 <= i < j < init.len() implies !has_key(#[trigger] init[i], init[j].name, init[j].domain, #[trigger] init[j].path) by {
                    assert(init[i] == es[i] && init[j] == es[j]);
                }
            }
        }
        let e = es.last();
        if !has_key(e, n, d, p) {
            let r = rest.push(e);
            assert(within(r, es)) by {
                assert forall|i: int| 0 <= i < r.len() implies exists|j: int| 0 <= j < es.len() && #[trigger] r[i] == es[j] by {
                    if i < rest.len() {
                        assert(r[i] == rest[i]);
                    } else {
                        assert(r[i] == es[es.len() - 1]);
                    }
                }
            }
            if keys_unique(es) {
                assert forall|i: int, j: int| 0 <= i < j < r.len() implies !has_key(#[trigger] r[i], r[j].name, r[j].domain, #[trigger] r[j].path) by {
                    if j < rest.len() {
                        assert(r[i] == rest[i] && r[j] == rest[j]);
                    } else {
                        let k = choose|k: int| 0 <= k < init.len() && rest[i] == init[k];
                        assert(r[i] == es[k]);
                        assert(r[j] == es[es.len() - 1]);
                    }
                }
            }
        }
    }
}

proof fn lemma_unexpired_shape(es: Seq<StoredView>, now: u64)
    ensures
        within(unexpired(es, now), es),
        keys_unique(es) ==> keys_unique(unexpired(es, now)),
    decreases es.len(),
{
    if es.len() > 0 {
        let init = es.drop_last();
        lemma_unexpired_shape(init, now);
        let rest = unexpired(init, now);
        assert(within(rest, es)) by {
            assert forall|i: int| 0 <= i < rest.len() implies exists|j: int| 0 <= j < es.len() && #[trigger] rest[i] == es[j] by {
                let j = choose|j: int| 0 <= j < init.len() && rest[i] == init[j];
                assert(es[j] == init[j]);
            }
        }
        if keys_unique(es) {
            assert(keys_unique(init)) by {
                assert forall|i: int, j: int| 0 <= i < j < init.len() implies !has_key(#[trigger] init[i], init[j].name, init[j].domain, #[trigger] init[j].path) by {
                    assert(init[i] == es[i] && init[j] == es[j]);
                }
            }
        }
        let e = es.last();
        if !expired(e, now) {
            let r = rest.push(e);
            assert(within(r, es)) by {
                assert forall|i: int| 0 <= i < r.len() implies exists|j: int| 0 <= j < es.len() && #[trigger] r[i] == es[j] by {
                    if i < rest.len() {
                        assert(r[i] == rest[i]);
                    } else {
                        assert(r[i] == es[es.len() - 1]);
                    }
                }
            }
            if keys_unique(es) {
                assert forall|i: int, j: int| 0 <= i < j < r.len() implies !has_key(#[trigger] r[i], r[j].name, r[j].domain, #[trigger] r[j].path) by {
                    if j < rest.len() {
                        assert(r[i] == rest[i] && r[j] == rest[j]);
                    } else {
                        let k = choose|k: int| 0 <= k < init.len() && rest[i] == init[k];
                        assert(r[i] == es[k]);
                        assert(r[j] == es[es.len() - 1]);
                    }
                }
            }
        }
    }
}

proof fn lemma_evict_shape(es: Seq<StoredView>, domain: Seq<char>, limits: CookieLimits)
    requires
        limits.max_cookies >= 1,
    ensures
        within(spec_evict(es, domain, limits), es),
        keys_unique(es) ==> keys_unique(spec_evict(es, domain, limits)),
{
    lemma_first_of_domain_bounds(es, domain);
    let es1 = if count_domain(es, domain) >= limits.max_cookies_per_domain {
        match first_of_domain(es, domain) {
            Some(i) => es.remove(i),
            None => es,
        }
    } else {
        es
    };
    assert(within(es1, es) && (keys_unique(es) ==> keys_unique(es1))) by {
        if es1 != es {
            let i = first_of_domain(es, domain)->0;
            assert forall|k: int| 0 <= k < es1.len() implies exists|j: int| 0 <= j < es.len() && #[trigger] es1[k] == es[j] by {
                if k < i {
                    assert(es1[k] == es[k]);
                } else {
                    assert(es1[k] == es[k + 1]);
                }
            }
            if keys_unique(es) {
                assert forall|a: int, b: int| 0 <= a < b < es1.len() implies !has_key(#[trigger] es1[a], es1[b].name, es1[b].domain, #[trigger] es1[b].path) by {
                    let a2 = if a < i { a } else { a + 1 };
                    let b2 = if b < i { b } else { b + 1 };
                    assert(es1[a] == es[a2] && es1[b] == es[b2]);
                }
            }
        } else {
            assert forall|k: int| 0 <= k < es1.len() implies exists|j: int| 0 <= j < es.len() && #[trigger] es1[k] == es[j] by {
                assert(es1[k] == es[k]);
            }
        }
    }
    let r = spec_evict(es, domain, limits);
    if es1.len() < limits.max_cookies {
        assert(r == es1);
    }
    if es1.len() >= limits.max_cookies {
        let off = es1.len() - limits.max_cookies + 1;
        assert(r == es1.skip(off));
        assert forall|k: int| 0 <= k < r.len() implies exists|j: int| 0 <= j < es.len() && #[trigger] r[k] == es[j] by {
            assert(r[k] == es1[k + off]);
            assert(0 <= k + off < es1.len());
            let j = choose|j: int| 0 <= j < es.len() && #[trigger] es1[k + off] == es[j];
            assert(r[k] == es[j]);
        }
        if keys_unique(es) {
            assert forall|a: int, b: int| 0 <= a < b < r.len() implies !has_key(#[trigger] r[a], r[b].name, r[b].domain, #[trigger] r[b].path) by {
                assert(r[a] == es1[a + off] && r[b] == es1[b + off]);
            }
        }
    }
}

proof fn lemma_absent_within(r: Seq<StoredView>, es: Seq<StoredView>, n: Seq<char>, d: Seq<char>, p: Seq<char>)
    requires
        within(r, es),
        key_absent(es, n, d, p),
    ensures
        key_absent(r, n, d, p),
{
    assert forall|i: int| 0 <= i < r.len() implies !has_key(#[trigger] r[i], n, d, p) by {
        let j = choose|j: int| 0 <= j < es.len() && r[i] == es[j];
    }
}

/// A jar never holds two cookies under one name, domain and path: taking in
/// a cookie replaces whichever it shares all three with.
pub proof fn law_learn_keeps_keys_unique(
    es: Seq<StoredView>,
    host: Seq<char>,
    target: Seq<char>,
    value: Seq<char>,
    now: u64,
    limits: CookieLimits,
)
    requires
        limits.max_cookies >= 1,
        keys_unique(es),
    ensures
        keys_unique(learn_one(es, host, target, value, now, limits)),
{
    if let Some(c) = spec_parse_set_cookie(value) {
        let s = stored_from(c, host, target, now);
        let es1 = without_key(es, s.name, s.domain, s.path);
        lemma_without_key_shape(es, s.name, s.domain, s.path);
        if !deletes(c) {
            let es2 = unexpired(es1, now);
            lemma_unexpired_shape(es1, now);
            lemma_absent_within(es2, es1, s.name, s.domain, s.path);
            let es3 = spec_evict(es2, s.domain, limits);
            lemma_evict_shape(es2, s.domain, limits);
            lemma_absent_within(es3, es2, s.name, s.domain, s.path);
            let r = es3.push(s);
            assert forall|i: int, j: int| 0 <= i < j < r.len() implies !has_key(#[trigger] r[i], r[j].name, r[j].domain, #[trigger] r[j].path) by {
                if j < es3.len() {
                    assert(r[i] == es3[i] && r[j] == es3[j]);
                } else {
                    assert(r[i] == es3[i]);
                    assert(r[j] == s);
                }
            }
        }
    }
}

proof fn lemma_rfind_found(s: Seq<char>, c: char, k: int)
    requires
        0 <= k < s.len(),
        s[k] == c,
    ensures
        rfind(s, c) is Some,
    decreases s.len(),
{
    if s.last() != c {
        assert(k < s.len() - 1);
        assert(s.drop_last()[k] == c);
        lemma_rfind_found(s.drop_last(), c, k);
    }
}

/// A target that starts with `/` falls under the path a cookie takes when
/// the server sets none.
pub proof fn lemma_default_path_matches(target: Seq<char>)
    requires
        target.len() > 0,
        target[0] == '/',
    ensures
        spec_path_matches(target, spec_default_path(target)),
{
    let rp = path_part(target);
    assert(rp == seq!['/'] + path_part(target.drop_first()));
    assert(rp[0] == '/');
    lemma_rfind_found(rp, '/', 0);
    lemma_rfind(rp, '/');
    let i = rfind(rp, '/')->0;
    if i == 0 {
        let cp = seq!['/'];
        assert(rp.take(1) == cp);
        assert(is_prefix(cp, rp));
    } else {
        let cp = rp.take(i);
        assert(cp.len() < rp.len());
        assert(is_prefix(cp, rp));
        assert(rp.skip(i)[0] == rp[i]);
    }
}

/// A cookie a jar has just taken in from a response is sent back on the next
/// request for the same URL.
///
/// Stated for a cookie that sets no `Domain` or `Path`, does not delete, and
/// is either not `Secure` or was learned over a secure scheme, for a request
/// target that starts with `/`: its pair is the last one the jar sends.
pub proof fn law_learned_cookie_is_sent(
    es: Seq<StoredView>,
    scheme: Seq<char>,
    host: Seq<char>,
    target: Seq<char>,
    value: Seq<char>,
    now: u64,
    limits: CookieLimits,
)
    requires
        spec_parse_set_cookie(value) is Some,
        !deletes(spec_parse_set_cookie(value)->0),
        spec_parse_set_cookie(value)->0.domain is None,
        spec_parse_set_cookie(value)->0.path is None,
        spec_parse_set_cookie(value)->0.secure ==> secure_scheme(scheme),
        target.len() > 0,
        target[0] == '/',
    ensures
        ({
            let c = spec_parse_set_cookie(value)->0;
            let sent = matching_pairs(learn_one(es, host, target, value, now, limits), scheme, host, target, now);
            sent.len() > 0 && sent.last() == (c.name, c.value)
        }),
{
    let c = spec_parse_set_cookie(value)->0;
    let s = stored_from(c, host, target, now);
    let es3 = spec_evict(unexpired(without_key(es, s.name, s.domain, s.path), now), s.domain, limits);
    let r = es3.push(s);
    assert(learn_one(es, host, target, value, now, limits) == r);
    assert(r.drop_last() == es3);
    assert(r.last() == s);
    lemma_default_path_matches(target);
    assert(!expired(s, now));
    assert(domain_matches(s, lower_seq(host)));
    assert(spec_matches(s, scheme, host, target, now));
}

/// A cookie whose `Max-Age` has run out leaves nothing behind under its name,
/// domain and path.
pub proof fn law_expired_cookie_deletes(
    es: Seq<StoredView>,
    host: Seq<char>,
    target: Seq<char>,
    value: Seq<char>,
    now: u64,
    limits: CookieLimits,
)
    requires
        spec_parse_set_cookie(value) is Some,
        deletes(spec_parse_set_cookie(value)->0),
    ensures
        ({
            let s = stored_from(spec_parse_set_cookie(value)->0, host, target, now);
            key_absent(learn_one(es, host, target, value, now, limits), s.name, s.domain, s.path)
        }),
{
    let s = stored_from(spec_parse_set_cookie(value)->0, host, target, now);
    lemma_without_key_shape(es, s.name, s.domain, s.path);
}

/// A cookie a jar has just taken in is sent on any later request it
/// matches, whatever attributes it was set with: its pair is the last one
/// the jar sends.
pub proof fn law_learned_cookie_is_sent_where_it_matches(
    es: Seq<StoredView>,
    host: Seq<char>,
    target: Seq<char>,
    value: Seq<char>,
    now: u64,
    limits: CookieLimits,
    scheme: Seq<char>,
    later_host: Seq<char>,
    later_target: Seq<char>,
    later: u64,
)
    requires
        spec_parse_set_cookie(value) is Some,
        !deletes(spec_parse_set_cookie(value)->0),
        spec_matches(stored_from(spec_parse_set_cookie(value)->0, host, target, now), scheme, later_host, later_target, later),
    ensures
        ({
            let c = spec_parse_set_cookie(value)->0;
            let sent = matching_pairs(learn_one(es, host, target, value, now, limits), scheme, later_host, later_target, later);
            sent.len() > 0 && sent.last() == (c.name, c.value)
        }),
{
    let c = spec_parse_set_cookie(value)->0;
    let s = stored_from(c, host, target, now);
    let es3 = spec_evict(unexpired(without_key(es, s.name, s.domain, s.path), now), s.domain, limits);
    let r = es3.push(s);
    assert(learn_one(es, host, target, value, now, limits) == r);
    assert(r.drop_last() == es3);
    assert(r.last() == s);
}

/// A host-only cookie goes to one host alone: it matches a request only when
/// the request's host, lowercased, is exactly the cookie's domain, so never
/// a subdomain of it.
pub proof fn law_host_only_cookie_matches_its_host_alone(
    c: StoredView,
    scheme: Seq<char>,
    host: Seq<char>,
    target: Seq<char>,
    now: u64,
)
    ensures
        c.host_only && lower_seq(host) != c.domain ==> !spec_matches(c, scheme, host, target, now),
{
}

/// A cookie that is not host-only matches a request only when the request's
/// host, lowercased, is its domain or a subdomain of it: the host ends with a
/// dot and then the domain, so `notexample.com` never gets a cookie of
/// `example.com`.
pub proof fn law_domain_cookie_matches_subdomains_only(
    c: StoredView,
    scheme: Seq<char>,
    host: Seq<char>,
    target: Seq<char>,
    now: u64,
)
    ensures
        ({
            let h = lower_seq(host);
            let n = c.domain.len() as int;
            !c.host_only && spec_matches(c, scheme, host, target, now) ==> h == c.domain || (h.len() > n
                && h[h.len() - n - 1] == '.' && h.skip(h.len() - n) == c.domain)
        }),
{
    let h = lower_seq(host);
    let n = c.domain.len() as int;
    let dotted = seq!['.'] + c.domain;
    if !c.host_only && spec_matches(c, scheme, host, target, now) && h != c.domain {
        assert(is_suffix(dotted, h));
        let tail = h.skip(h.len() - n - 1);
        assert(tail == dotted);
        assert(h[h.len() - n - 1] == tail[0]);
        assert(h.skip(h.len() - n) == tail.skip(1));
        assert(dotted.skip(1) == c.domain);
    }
}

/// A cookie set without a `Domain` attribute belongs to the host that set it:
/// the jar keeps it as host-only under that host, lowercased, and sends it on
/// no request for any other host, a subdomain among them; on such a request
/// the jar sends what it would have sent without the cookie.
pub proof fn law_cookie_without_domain_stays_with_its_host(
    es: Seq<StoredView>,
    host: Seq<char>,
    target: Seq<char>,
    value: Seq<char>,
    now: u64,
    limits: CookieLimits,
    scheme: Seq<char>,
    other_host: Seq<char>,
    other_target: Seq<char>,
    later: u64,
)
    requires
        spec_parse_set_cookie(value) is Some,
        spec_parse_set_cookie(value)->0.domain is None,
        lower_seq(other_host) != lower_seq(host),
    ensures
        ({
            let c = spec_parse_set_cookie(value)->0;
            let s = stored_from(c, host, target, now);
            let learned = learn_one(es, host, target, value, now, limits);
            &&& s.host_only
            &&& s.domain == lower_seq(host)
            &&& !spec_matches(s, scheme, other_host, other_target, later)
            &&& !deletes(c) ==> learned.last() == s
                && matching_pairs(learned, scheme, other_host, other_target, later)
                == matching_pairs(learned.drop_last(), scheme, other_host, other_target, later)
        }),
{
    let c = spec_parse_set_cookie(value)->0;
    let s = stored_from(c, host, target, now);
    law_host_only_cookie_matches_its_host_alone(s, scheme, other_host, other_target, later);
    if !deletes(c) {
        let es3 = spec_evict(unexpired(without_key(es, s.name, s.domain, s.path), now), s.domain, limits);
        let r = es3.push(s);
        assert(learn_one(es, host, target, value, now, limits) == r);
        assert(r.drop_last() == es3);
        assert(r.last() == s);
    }
}

/// A `Domain` attribute is stored without its leading dots, lowercased, and
/// the cookie is then not host-only: `Domain=..Example.COM` and
/// `Domain=example.com` store the same domain.
///
/// `dots` is the number of dots the attribute opens with.
pub proof fn law_domain_attribute_drops_leading_dots(
    c: SetCookieView,
    host: Seq<char>,
    target: Seq<char>,
    now: u64,
    dots: int,
)
    requires
        c.domain is Some,
        0 <= dots <= c.domain->0.len(),
        forall|i: int| 0 <= i < dots ==> c.domain->0[i] == '.',
        dots == c.domain->0.len() || c.domain->0[dots] != '.',
    ensures
        stored_from(c, host, target, now).domain == lower_seq(c.domain->0.skip(dots)),
        !stored_from(c, host, target, now).host_only,
{
    let d = c.domain->0;
    lemma_trim_char_start_skip(d, '.', dots);
    let rest = d.skip(dots);
    if rest.len() > 0 {
        assert(rest[0] == d[dots]);
    }
    assert(trim_char_start(rest, '.') == rest);
}

/// A cookie a host sets for a domain it falls under is sent back to that
/// host: when the host, lowercased, is the domain the `Domain` attribute
/// names (leading dots dropped, lowercased) or ends with a dot and that
/// domain, the cookie's pair is the last one the jar sends on the next
/// request to the host.
///
/// Stated for a cookie that does not delete, is either not `Secure` or is
/// sent over a secure scheme, and either sets no `Path`, for a target that
/// starts with `/`, or sets a path the target falls under. `dots` is the
/// number of dots the attribute opens with.
pub proof fn law_domain_cookie_is_sent_back_to_its_host(
    es: Seq<StoredView>,
    scheme: Seq<char>,
    host: Seq<char>,
    target: Seq<char>,
    value: Seq<char>,
    now: u64,
    limits: CookieLimits,
    dots: int,
)
    requires
        spec_parse_set_cookie(value) is Some,
        !deletes(spec_parse_set_cookie(value)->0),
        spec_parse_set_cookie(value)->0.domain is Some,
        ({
            let d = spec_parse_set_cookie(value)->0.domain->0;
            &&& 0 <= dots <= d.len()
            &&& forall|i: int| 0 <= i < dots ==> d[i] == '.'
            &&& dots == d.len() || d[dots] != '.'
            &&& lower_seq(host) == lower_seq(d.skip(dots))
                || is_suffix(seq!['.'] + lower_seq(d.skip(dots)), lower_seq(host))
        }),
        spec_parse_set_cookie(value)->0.secure ==> secure_scheme(scheme),
        match spec_parse_set_cookie(value)->0.path {
            None => target.len() > 0 && target[0] == '/',
            Some(p) => spec_path_matches(target, p),
        },
    ensures
        ({
            let c = spec_parse_set_cookie(value)->0;
            let sent = matching_pairs(learn_one(es, host, target, value, now, limits), scheme, host, target, now);
            sent.len() > 0 && sent.last() == (c.name, c.value)
        }),
{
    let c = spec_parse_set_cookie(value)->0;
    let s = stored_from(c, host, target, now);
    law_domain_attribute_drops_leading_dots(c, host, target, now, dots);
    if c.path is None {
        lemma_default_path_matches(target);
    }
    assert(!expired(s, now));
    assert(domain_matches(s, lower_seq(host)));
    assert(spec_matches(s, scheme, host, target, now));
    law_learned_cookie_is_sent_where_it_matches(es, host, target, value, now, limits, scheme, host, target, now);
}

} // verus!
