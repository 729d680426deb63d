//! Bootstrap node management.
//!
//! Local network discovery (mDNS) is used for now; bootstrap nodes for wide
//! area discovery are a hardcoded list, empty for the moment.

use vstd::prelude::*;

verus! {

/// Get the list of bootstrap peer addresses (none are configured).
pub fn bootstrap_addrs() -> (addrs: Vec<String>)
    ensures
        addrs@.len() == 0,
{
    Vec::new()
}

} // verus!
