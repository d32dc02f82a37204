//! Deterministic placement of each request onto a pool member.
//!
//! A servicing thread is known by a stable integer identity; the context it
//! is routed to is that identity reduced modulo the fixed pool size.

use vstd::prelude::*;

verus! {

/// The index of the execution context that serves a given servicing-thread
/// identity in a pool of `pool_size` members.
pub open spec fn spec_select_context(servicing_id: nat, pool_size: nat) -> nat
    recommends
        pool_size > 0,
{
    servicing_id % pool_size
}

/// Maps the servicing thread's identity to a context index.
///
/// The result depends on the identity and the pool size alone, so one
/// thread's requests always land on the same context; distinct threads may
/// share a context, which is harmless because each request is told apart by
/// its ctx-id.
pub fn select_context(servicing_id: usize, pool_size: usize) -> (index: usize)
    requires
        pool_size > 0,
    ensures
        index == spec_select_context(servicing_id as nat, pool_size as nat),
        index < pool_size,
{
    servicing_id % pool_size
}

/// Routing stability: context selection is a pure function of the
/// servicing-thread identity and the pool size, so any two selections made
/// for the same identity and the same pool agree, and both equal
/// `servicing_id mod pool_size`.
pub proof fn lemma_routing_stable(index1: usize, index2: usize, servicing_id: usize, pool_size: usize)
    requires
        pool_size > 0,
        index1 == spec_select_context(servicing_id as nat, pool_size as nat),
        index2 == spec_select_context(servicing_id as nat, pool_size as nat),
    ensures
        index1 == index2,
        index1 == servicing_id as nat % pool_size as nat,
{
}

} // verus!
