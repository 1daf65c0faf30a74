//! From the route function's answer to the index of a worker.
//!
//! Which shard a key belongs to is decided by a route function outside this
//! crate: given a key and a shard count it names a shard, or fails. This
//! module says with what shard count that function is to be asked for a pool
//! of a given size, and turns its answer into the index of a worker.

use vstd::prelude::*;

verus! {

/// The largest shard count that the route function can be asked for.
pub const MAX_ROUTE_SHARDS: u8 = 255;

/// The shard count to ask the route function with, for a pool of this size.
///
/// A pool of at most one worker needs no routing. A pool of more than
/// `MAX_ROUTE_SHARDS` workers is routed over its first `MAX_ROUTE_SHARDS`
/// workers only.
pub open spec fn spec_route_shards(pool_size: usize) -> Option<u8> {
    if pool_size <= 1 {
        None
    } else if pool_size <= MAX_ROUTE_SHARDS {
        Some(pool_size as u8)
    } else {
        Some(MAX_ROUTE_SHARDS)
    }
}

/// The worker index for an answer of the route function: the index it gave
/// if the pool has more than one worker and the index names one of them,
/// otherwise zero.
pub open spec fn spec_route_index(pool_size: usize, parsed: Option<u8>) -> usize {
    match parsed {
        Some(index) => if pool_size > 1 && index < pool_size {
            index as usize
        } else {
            0
        },
        None => 0,
    }
}

/// The shard count to ask the route function with, or nothing where the
/// route is zero whatever the key.
#[verifier::when_used_as_spec(spec_route_shards)]
pub fn route_shards(pool_size: usize) -> (shards: Option<u8>)
    ensures
        shards == spec_route_shards(pool_size),
        shards matches Some(count) ==> 2 <= count <= pool_size,
{
    if pool_size <= 1 {
        None
    } else if pool_size <= MAX_ROUTE_SHARDS as usize {
        Some(pool_size as u8)
    } else {
        Some(MAX_ROUTE_SHARDS)
    }
}

/// The worker index for `parsed`, the route function's answer for a key, or
/// nothing if the function was not asked or could not tell.
///
/// The index depends on the pool size and the answer alone, it names a
/// worker of any pool that has one, and it is zero for a pool of one.
#[verifier::when_used_as_spec(spec_route_index)]
pub fn route_index(pool_size: usize, parsed: Option<u8>) -> (index: usize)
    ensures
        index == spec_route_index(pool_size, parsed),
        pool_size > 0 ==> index < pool_size,
        pool_size <= 1 ==> index == 0,
{
    match parsed {
        Some(index) => if pool_size > 1 && (index as usize) < pool_size {
            index as usize
        } else {
            0
        },
        None => 0,
    }
}

} // verus!
