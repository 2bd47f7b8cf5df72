//! Field-level rules that sit above a single field section: whether a
//! connection persists, and the cookie vocabulary.

use vstd::prelude::*;

pub use crate::cookies::{Cookie, SameSite, SetCookie, StoredCookie};
use crate::cookies::{separator, spec_default_path, spec_path_matches};
use crate::models::{Headers, Version};
use crate::text::{chars_of, lower_seq, lowercase, same, split, split_at_char, trim, trim_ws};

verus! {

/// The name of the `Connection` field.
pub open spec fn connection_name() -> Seq<char> {
    seq!['c', 'o', 'n', 'n', 'e', 'c', 't', 'i', 'o', 'n']
}

/// Whether one of the comma-separated tokens of `values`, trimmed, is `word`
/// ignoring ASCII case (`word` being lower case).
pub open spec fn has_token(values: Seq<Seq<char>>, word: Seq<char>) -> bool {
    exists|i: int, j: int|
        0 <= i < values.len() && #[trigger] token_is(values, i, j, word)
}

/// Whether token `k` of `values[a]`, trimmed, is `word` ignoring ASCII case.
pub open spec fn token_is(values: Seq<Seq<char>>, a: int, k: int, word: Seq<char>) -> bool {
    0 <= k < split(values[a], ',').len() && lower_seq(trim(split(values[a], ',')[k])) == word
}

/// The `Connection` values of a field section, none when there is none.
pub open spec fn connection_values(headers: Option<Headers>) -> Seq<Seq<char>> {
    match headers {
        Some(h) => crate::models::values_of(h@, connection_name()),
        None => Seq::empty(),
    }
}

/// Whether a connection persists after a message with these fields.
///
/// A `close` token ends it whatever else is said; otherwise HTTP/1.0 keeps
/// it only on a `keep-alive` token, and later versions keep it by default.
pub open spec fn spec_keep_alive(headers: Option<Headers>, version: Version) -> bool {
    let values = connection_values(headers);
    if has_token(values, seq!['c', 'l', 'o', 's', 'e']) {
        false
    } else {
        match version {
            Version::V1_0 => has_token(values, seq!['k', 'e', 'e', 'p', '-', 'a', 'l', 'i', 'v', 'e']),
            _ => true,
        }
    }
}

/// Extends a search for `word` over the tokens of `values[..i]` by the tokens
/// of `values[i]`.
proof fn lemma_token_step(values: Seq<Seq<char>>, i: int, word: Seq<char>, found: bool)
    requires
        0 <= i < values.len(),
        found == ((exists|a: int, k: int| 0 <= a < i && #[trigger] token_is(values, a, k, word))
            || (exists|k: int| #[trigger] token_is(values, i, k, word))),
    ensures
        found == exists|a: int, k: int| 0 <= a < i + 1 && #[trigger] token_is(values, a, k, word),
{
    let before = exists|a: int, k: int| 0 <= a < i && #[trigger] token_is(values, a, k, word);
    let here = exists|k: int| #[trigger] token_is(values, i, k, word);
    let after = exists|a: int, k: int| 0 <= a < i + 1 && #[trigger] token_is(values, a, k, word);
    assert(before ==> after) by {
        if before {
            let (a, k) = choose|a: int, k: int| 0 <= a < i && #[trigger] token_is(values, a, k, word);
            assert(0 <= a < i + 1 && token_is(values, a, k, word));
        }
    }
    assert(here ==> after) by {
        if here {
            let k = choose|k: int| #[trigger] token_is(values, i, k, word);
            assert(0 <= i < i + 1 && token_is(values, i, k, word));
        }
    }
    assert(after ==> before || here) by {
        if after {
            let (a, k) = choose|a: int, k: int| 0 <= a < i + 1 && #[trigger] token_is(values, a, k, word);
            if a == i {
                assert(token_is(values, i, k, word));
            } else {
                assert(0 <= a < i && token_is(values, a, k, word));
            }
        }
    }
}

/// Whether the connection persists after a message with these fields, of
/// this version.
pub fn keep_alive(headers: Option<&Headers>, version: Version) -> (b: bool)
    ensures
        b == spec_keep_alive(match headers { Some(h) => Some(*h), None => None }, version),
{
    let ghost values = connection_values(match headers { Some(h) => Some(*h), None => None });
    let close_word = ['c', 'l', 'o', 's', 'e'];
    let keep_word = ['k', 'e', 'e', 'p', '-', 'a', 'l', 'i', 'v', 'e'];
    let mut close = false;
    let mut keep = false;
    match headers {
        Some(headers) => {
            proof {
                reveal_strlit("connection");
                assert(lower_seq("connection"@) == connection_name());
            }
            let all = headers.get_all("connection");
            assert(crate::text::views(all@) == values);
            let mut i: usize = 0;
            while i < all.len()
                invariant
                    i <= all.len(),
                    crate::text::views(all@) == values,
                    close_word@ == seq!['c', 'l', 'o', 's', 'e'],
                    keep_word@ == seq!['k', 'e', 'e', 'p', '-', 'a', 'l', 'i', 'v', 'e'],
                    close == exists|a: int, j: int|
                        0 <= a < i && #[trigger] token_is(values, a, j, close_word@),
                    keep == exists|a: int, j: int|
                        0 <= a < i && #[trigger] token_is(values, a, j, keep_word@),
                decreases all.len() - i,
            {
                let tokens = split_at_char(&all[i], ',');
                assert(all@[i as int]@ == values[i as int]);
                let mut j: usize = 0;
                while j < tokens.len()
                    invariant
                        i < all.len(),
                        j <= tokens.len(),
                        crate::text::views(all@) == values,
                        crate::text::views(tokens@) == split(values[i as int], ','),
                        close_word@ == seq!['c', 'l', 'o', 's', 'e'],
                        keep_word@ == seq!['k', 'e', 'e', 'p', '-', 'a', 'l', 'i', 'v', 'e'],
                        close == ((exists|a: int, k: int|
                            0 <= a < i && #[trigger] token_is(values, a, k, close_word@))
                            || (exists|k: int| k < j && #[trigger] token_is(values, i as int, k, close_word@))),
                        keep == ((exists|a: int, k: int|
                            0 <= a < i && #[trigger] token_is(values, a, k, keep_word@))
                            || (exists|k: int| k < j && #[trigger] token_is(values, i as int, k, keep_word@))),
                    decreases tokens.len() - j,
                {
                    let token = lowercase(&trim_ws(&tokens[j]));
                    assert(tokens@[j as int]@ == split(values[i as int], ',')[j as int]);
                    assert(token_is(values, i as int, j as int, close_word@) == (token@ == close_word@));
                    assert(token_is(values, i as int, j as int, keep_word@) == (token@ == keep_word@));
                    if same(&token, &close_word) {
                        close = true;
                    } else if same(&token, &keep_word) {
                        keep = true;
                    }
                    j = j + 1;
                }
                proof {
                    lemma_token_step(values, i as int, close_word@, close);
                    lemma_token_step(values, i as int, keep_word@, keep);
                }
                i = i + 1;
            }
        },
        None => {},
    }
    if close {
        return false;
    }
    match version {
        Version::V1_0 => keep,
        _ => true,
    }
}

/// Whether an octet is a separator, and so cannot appear in a token.
pub fn is_separator(byte: u8) -> (b: bool)
    ensures
        b == separator(byte),
{
    Cookie::is_separator(byte)
}

/// Whether a request target falls under a cookie's path.
pub fn path_matches(target: &str, cookie_path: &str) -> (b: bool)
    ensures
        b == spec_path_matches(target@, cookie_path@),
{
    StoredCookie::path_matches(target, cookie_path)
}

/// The path a cookie takes when the server sets no `Path` attribute.
pub fn default_path(target: &str) -> (out: String)
    ensures
        out@ == spec_default_path(target@),
{
    StoredCookie::default_path(target)
}

} // verus!
