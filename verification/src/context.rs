//! One member of the execution pool, as the gateway sees it: a ctx-id
//! allocator and a pair of slot stores, one for pending request bytes and
//! one for finished response bytes, each keyed by ctx-id.
//!
//! Running guest code is not part of this model; the surrounding program
//! takes a pending request out, computes a reply, and puts the response
//! bytes back under the same ctx-id.

use vstd::prelude::*;
use vstd::hash_map::HashMapWithView;

verus! {

broadcast use vstd::std_specs::hash::group_hash_axioms;

/// The number of distinct ctx-ids, `2^64`.
pub open spec fn ctx_id_space() -> nat {
    0x1_0000_0000_0000_0000
}

/// The ctx-id issued by the `count`-th allocation of a context whose
/// allocator started at `start`: the allocator hands out consecutive values
/// and wraps around only after the whole id space has been walked.
pub open spec fn spec_ctx_id_at(start: u64, count: nat) -> u64 {
    (((start as nat) + count) % ctx_id_space()) as u64
}

/// One execution context's request/response bookkeeping.
pub struct Context {
    next_ctx_id: u64,
    requests: HashMapWithView<u64, Vec<u8>>,
    responses: HashMapWithView<u64, Vec<u8>>,
}

impl Context {
    /// The next ctx-id this context will issue.
    pub closed spec fn spec_next_ctx_id(&self) -> u64 {
        self.next_ctx_id
    }

    /// The pending request bytes, keyed by ctx-id.
    pub closed spec fn spec_requests(&self) -> Map<u64, Vec<u8>> {
        self.requests@
    }

    /// The finished response bytes, keyed by ctx-id.
    pub closed spec fn spec_responses(&self) -> Map<u64, Vec<u8>> {
        self.responses@
    }

    /// A fresh context: no pending requests, no responses, ids start at 0.
    pub fn new() -> (c: Context)
        ensures
            c.spec_next_ctx_id() == 0,
            c.spec_requests() == Map::<u64, Vec<u8>>::empty(),
            c.spec_responses() == Map::<u64, Vec<u8>>::empty(),
    {
        Context {
            next_ctx_id: 0,
            requests: HashMapWithView::new(),
            responses: HashMapWithView::new(),
        }
    }

    /// Issues a fresh ctx-id, unique within this context until the id space
    /// cycles; ids are handed out monotonically, wrapping at the end of the
    /// space. The slot stores are untouched.
    pub fn gen_ctx_id(&mut self) -> (id: u64)
        ensures
            id == old(self).spec_next_ctx_id(),
            final(self).spec_next_ctx_id() == spec_ctx_id_at(old(self).spec_next_ctx_id(), 1),
            final(self).spec_requests() == old(self).spec_requests(),
            final(self).spec_responses() == old(self).spec_responses(),
    {
        let id = self.next_ctx_id;
        self.next_ctx_id = self.next_ctx_id.wrapping_add(1);
        id
    }

    /// Stores the serialized call under the given ctx-id, replacing any
    /// earlier bytes left in that slot.
    pub fn set_guest_request(&mut self, ctx_id: u64, data: Vec<u8>)
        ensures
            final(self).spec_requests() == old(self).spec_requests().insert(ctx_id, data),
            final(self).spec_next_ctx_id() == old(self).spec_next_ctx_id(),
            final(self).spec_responses() == old(self).spec_responses(),
    {
        self.requests.insert(ctx_id, data);
    }

    /// Takes the pending request bytes for the given ctx-id out of the
    /// request slot, or returns `None` when that slot is empty.
    pub fn take_guest_request(&mut self, ctx_id: u64) -> (r: Option<Vec<u8>>)
        ensures
            match r {
                Some(data) => old(self).spec_requests().contains_key(ctx_id)
                    && data == old(self).spec_requests()[ctx_id]
                    && final(self).spec_requests() == old(self).spec_requests().remove(ctx_id),
                None => !old(self).spec_requests().contains_key(ctx_id)
                    && final(self).spec_requests() == old(self).spec_requests(),
            },
            final(self).spec_next_ctx_id() == old(self).spec_next_ctx_id(),
            final(self).spec_responses() == old(self).spec_responses(),
    {
        self.requests.remove(&ctx_id)
    }

    /// Stores the serialized reply under the given ctx-id, replacing any
    /// earlier bytes left in that slot.
    pub fn set_guest_response(&mut self, ctx_id: u64, data: Vec<u8>)
        ensures
            final(self).spec_responses() == old(self).spec_responses().insert(ctx_id, data),
            final(self).spec_next_ctx_id() == old(self).spec_next_ctx_id(),
            final(self).spec_requests() == old(self).spec_requests(),
    {
        self.responses.insert(ctx_id, data);
    }

    /// Takes the response bytes for the given ctx-id out of the response
    /// slot, or returns `None` when no response is stored under it.
    pub fn get_guest_response(&mut self, ctx_id: u64) -> (r: Option<Vec<u8>>)
        ensures
            match r {
                Some(data) => old(self).spec_responses().contains_key(ctx_id)
                    && data == old(self).spec_responses()[ctx_id]
                    && final(self).spec_responses() == old(self).spec_responses().remove(ctx_id),
                None => !old(self).spec_responses().contains_key(ctx_id)
                    && final(self).spec_responses() == old(self).spec_responses(),
            },
            final(self).spec_next_ctx_id() == old(self).spec_next_ctx_id(),
            final(self).spec_requests() == old(self).spec_requests(),
    {
        self.responses.remove(&ctx_id)
    }
}

/// Ctx-id uniqueness: two allocations made by one context are given distinct
/// ids as long as fewer than `2^64` allocations lie between them, so no two
/// concurrently outstanding requests of a context ever share a ctx-id.
pub proof fn lemma_ctx_id_unique(start: u64, count1: nat, count2: nat)
    requires
        count1 < count2,
        count2 - count1 < ctx_id_space(),
    ensures
        spec_ctx_id_at(start, count1) != spec_ctx_id_at(start, count2),
{
    let m = ctx_id_space() as int;
    let a = start as int + count1;
    let b = start as int + count2;
    vstd::arithmetic::div_mod::lemma_fundamental_div_mod(a, m);
    vstd::arithmetic::div_mod::lemma_fundamental_div_mod(b, m);
    if a % m == b % m {
        let d = b / m - a / m;
        assert(b - a == m * d);
        assert(false) by (nonlinear_arith)
            requires
                0 < b - a < m,
                b - a == m * d,
        ;
    }
}

/// The ids a context issues follow the allocator stream: after the `count`-th
/// allocation the next id is the `count + 1`-st element of the stream.
pub proof fn lemma_ctx_id_stream(start: u64, count: nat)
    ensures
        spec_ctx_id_at(spec_ctx_id_at(start, count), 1) == spec_ctx_id_at(start, count + 1),
{
    let m = ctx_id_space() as int;
    let a = start as int + count;
    vstd::arithmetic::div_mod::lemma_add_mod_noop(a, 1, m);
    assert((a % m + 1int % m) % m == (a + 1) % m);
    vstd::arithmetic::div_mod::lemma_small_mod(1, m as nat);
}

} // verus!
