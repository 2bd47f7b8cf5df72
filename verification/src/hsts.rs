//! HTTP Strict Transport Security: the policy a server announces in its
//! `Strict-Transport-Security` field.

use vstd::prelude::*;
use crate::text::{push_all, push_signed_decimal, signed_decimal};

verus! {

/// One `Strict-Transport-Security` policy.
#[derive(Debug, Clone, Copy, PartialEq, Eq)]
pub struct HSTSPolicy {
    /// How many seconds the policy holds for. Zero withdraws it.
    pub max_age: i64,
    /// Whether the policy covers subdomains as well as the host itself.
    pub include_subdomains: bool,
    /// Whether the host asks to be added to browser preload lists.
    pub preload: bool,
}

/// The field value announcing `policy`: `max-age=N`, then the flags it sets.
pub open spec fn policy_text(policy: HSTSPolicy) -> Seq<char> {
    seq!['m', 'a', 'x', '-', 'a', 'g', 'e', '=']
        + signed_decimal(policy.max_age as int)
        + (if policy.include_subdomains {
            seq![';', ' ', 'i', 'n', 'c', 'l', 'u', 'd', 'e', 'S', 'u', 'b', 'D', 'o', 'm', 'a', 'i', 'n', 's']
        } else {
            Seq::empty()
        })
        + (if policy.preload { seq![';', ' ', 'p', 'r', 'e', 'l', 'o', 'a', 'd'] } else { Seq::empty() })
}

impl HSTSPolicy {
    /// The field value announcing this policy.
    pub fn build(&self) -> (out: String)
        ensures
            out@ == policy_text(*self),
    {
        let mut out = String::new();
        push_all(&mut out, &['m', 'a', 'x', '-', 'a', 'g', 'e', '=']);
        push_signed_decimal(&mut out, self.max_age);
        if self.include_subdomains {
            push_all(&mut out, &[';', ' ', 'i', 'n', 'c', 'l', 'u', 'd', 'e', 'S', 'u', 'b', 'D', 'o', 'm', 'a', 'i', 'n', 's']);
        }
        if self.preload {
            push_all(&mut out, &[';', ' ', 'p', 'r', 'e', 'l', 'o', 'a', 'd']);
        }
        out
    }
}

} // verus!
