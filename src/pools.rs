//! Round-robin assignment of shared resources (URLs, HTTP clients, local
//! addresses) to workers.

use vstd::prelude::*;

verus! {

/// The number of HTTP clients to build: the explicit override if one was
/// given, else one per configured local address, and never fewer than one.
pub open spec fn spec_client_pool_size(clients: Option<usize>, local_address_count: usize) -> int {
    let wanted = match clients {
        Some(c) => c as int,
        None => local_address_count as int,
    };
    if wanted < 1 { 1 } else { wanted }
}

pub fn client_pool_size(clients: Option<usize>, local_address_count: usize) -> (r: usize)
    ensures
        r == spec_client_pool_size(clients, local_address_count),
        r >= 1,
{
    let wanted = match clients {
        Some(c) => c,
        None => local_address_count,
    };
    if wanted < 1 { 1 } else { wanted }
}

/// The slot of a pool of `pool_len` entries that item `index` is given.
pub fn pool_slot(index: usize, pool_len: usize) -> (r: usize)
    requires
        pool_len > 0,
    ensures
        r == index % pool_len,
        r < pool_len,
{
    index % pool_len
}

/// Round-robin assignment of `count` consumers over a pool of `pool_len`
/// entries: consumer `i` gets slot `i mod pool_len`.
pub fn round_robin(count: usize, pool_len: usize) -> (r: Vec<usize>)
    requires
        pool_len > 0,
    ensures
        r@.len() == count,
        forall|i: int| 0 <= i < count ==> #[trigger] r@[i] == i % (pool_len as int),
{
    let mut r: Vec<usize> = Vec::new();
    let mut i: usize = 0;
    while i < count
        invariant
            pool_len > 0,
            i <= count,
            r@.len() == i,
            forall|j: int| 0 <= j < i ==> #[trigger] r@[j] == j % (pool_len as int),
        decreases count - i,
    {
        r.push(pool_slot(i, pool_len));
        i = i + 1;
    }
    r
}

} // verus!
