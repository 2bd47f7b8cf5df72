//! Client configuration across the boundary.

use vstd::prelude::*;

use crate::ffi::Slice;
use crate::ffi::models::role_number;
use crate::models::Role;

verus! {

/// One host's ECH configuration list, as a client is configured with it. A
/// host of `*` applies wherever no exact entry matches.
#[derive(Clone, Copy)]
pub struct EchEntry<'a> {
    /// The host the list applies to.
    pub host: Slice<'a>,
    /// The `ECHConfigList`, as the key holder publishes it.
    pub config_list: Slice<'a>,
}

/// The number a role crosses as.
///
/// The two enums are kept in the same order, so a caller can still tell a
/// proxy from a user agent, and a tunnel from either.
pub fn role(of: Role) -> (n: u32)
    ensures
        n == role_number(of),
{
    match of {
        Role::UserAgent => 0,
        Role::Origin => 1,
        Role::Proxy => 2,
        Role::Gateway => 3,
        Role::Tunnel => 4,
    }
}

} // verus!
