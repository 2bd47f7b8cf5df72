//! HTTP Strict Transport Security across the boundary.

use vstd::prelude::*;

verus! {

/// One `Strict-Transport-Security` policy, crossing by value since it is
/// three plain fields: the C half of [`crate::hsts::HSTSPolicy`], field for
/// field.
#[derive(Debug, Clone, Copy, PartialEq, Eq)]
pub struct HSTSPolicy {
    /// How many seconds the policy holds for. Zero withdraws it.
    pub max_age: i64,
    /// Whether the policy covers subdomains as well as the host itself.
    pub include_subdomains: bool,
    /// Whether the host asks to be added to browser preload lists.
    pub preload: bool,
}

impl HSTSPolicy {
    /// The policy this stands for.
    pub fn parse(&self) -> (policy: crate::hsts::HSTSPolicy)
        ensures
            policy.max_age == self.max_age,
            policy.include_subdomains == self.include_subdomains,
            policy.preload == self.preload,
    {
        crate::hsts::HSTSPolicy { max_age: self.max_age, include_subdomains: self.include_subdomains, preload: self.preload }
    }

    /// The C half of `policy`.
    pub fn build(policy: &crate::hsts::HSTSPolicy) -> (out: HSTSPolicy)
        ensures
            out.max_age == policy.max_age,
            out.include_subdomains == policy.include_subdomains,
            out.preload == policy.preload,
    {
        HSTSPolicy { max_age: policy.max_age, include_subdomains: policy.include_subdomains, preload: policy.preload }
    }
}

} // verus!
