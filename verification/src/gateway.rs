//! The dispatch gateway: orchestration of one request lifecycle.
//!
//! A request arrives as plain values, becomes a call message, is framed and
//! stored into the context selected for the servicing thread, and — once
//! the pool has run the handler and left response bytes in the same slot —
//! is completed by unframing the reply and deriving the HTTP response.
//! Invoking the guest handler itself is the pool's work and happens between
//! the two halves, outside this crate.

use vstd::prelude::*;
use crate::codec::{msg_to_resp, spec_resp_of, HttpResponse};
use crate::context::{spec_ctx_id_at, Context};
use crate::msg::{Message, MessageView};
use crate::router::{select_context, spec_select_context};
use crate::wire::{
    decode_msg, encode_msg, lemma_decode_encode, spec_decode_msg, spec_encode_msg,
    spec_msg_bounded,
};

verus! {

/// The fixed pool of execution contexts, looked up by index. Its size is
/// set once at startup and never changes.
pub struct Pool {
    contexts: Vec<Context>,
}

/// What the gateway can report about one request; neither error touches any
/// other request.
#[derive(Clone, Copy, PartialEq, Eq, Structural, Debug)]
pub enum GatewayError {
    /// No response bytes were stored under the ctx-id — the pool broke its
    /// contract to answer every invoked request.
    MissingResponse,
    /// The stored response bytes are not the framing of any message.
    MalformedReply,
}

/// The members the two pools share at every index other than the given one.
pub open spec fn spec_others_same(p1: Pool, p2: Pool, index: int) -> bool {
    &&& p2.spec_len() == p1.spec_len()
    &&& forall|j: int|
        0 <= j < p1.spec_len() && j != index ==> p2.spec_contexts()[j] == p1.spec_contexts()[j]
}

impl Pool {
    /// The pool members, in index order.
    pub closed spec fn spec_contexts(&self) -> Seq<Context> {
        self.contexts@
    }

    /// The fixed pool size.
    pub open spec fn spec_len(&self) -> nat {
        self.spec_contexts().len()
    }

    /// A pool of `n` fresh contexts.
    pub fn new(n: usize) -> (p: Pool)
        requires
            n > 0,
        ensures
            p.spec_len() == n,
            forall|i: int|
                0 <= i < n ==> {
                    let c = #[trigger] p.spec_contexts()[i];
                    &&& c.spec_next_ctx_id() == 0
                    &&& c.spec_requests() == Map::<u64, Vec<u8>>::empty()
                    &&& c.spec_responses() == Map::<u64, Vec<u8>>::empty()
                },
    {
        let mut contexts: Vec<Context> = Vec::new();
        let mut i: usize = 0;
        while i < n
            invariant
                i <= n,
                contexts@.len() == i,
                forall|j: int|
                    0 <= j < i ==> {
                        let c = #[trigger] contexts@[j];
                        &&& c.spec_next_ctx_id() == 0
                        &&& c.spec_requests() == Map::<u64, Vec<u8>>::empty()
                        &&& c.spec_responses() == Map::<u64, Vec<u8>>::empty()
                    },
            decreases n - i,
        {
            contexts.push(Context::new());
            i += 1;
        }
        Pool { contexts }
    }

    /// The pool size.
    pub fn len(&self) -> (n: usize)
        ensures
            n == self.spec_len(),
    {
        self.contexts.len()
    }

    /// Issues a fresh ctx-id from the context at the given index.
    pub fn gen_ctx_id(&mut self, index: usize) -> (id: u64)
        requires
            index < old(self).spec_len(),
        ensures
            spec_others_same(*old(self), *final(self), index as int),
            ({
                let c0 = old(self).spec_contexts()[index as int];
                let c1 = final(self).spec_contexts()[index as int];
                &&& id == c0.spec_next_ctx_id()
                &&& c1.spec_next_ctx_id() == spec_ctx_id_at(id, 1)
                &&& c1.spec_requests() == c0.spec_requests()
                &&& c1.spec_responses() == c0.spec_responses()
            }),
    {
        let ghost before = self.contexts@;
        let mut c = self.contexts.remove(index);
        let id = c.gen_ctx_id();
        self.contexts.insert(index, c);
        proof {
            assert forall|j: int| 0 <= j < before.len() && j != index implies self.contexts@[j]
                == before[j] by {}
        }
        id
    }

    /// Stores pending request bytes in the context at the given index.
    pub fn set_guest_request(&mut self, index: usize, ctx_id: u64, data: Vec<u8>)
        requires
            index < old(self).spec_len(),
        ensures
            spec_others_same(*old(self), *final(self), index as int),
            ({
                let c0 = old(self).spec_contexts()[index as int];
                let c1 = final(self).spec_contexts()[index as int];
                &&& c1.spec_requests() == c0.spec_requests().insert(ctx_id, data)
                &&& c1.spec_next_ctx_id() == c0.spec_next_ctx_id()
                &&& c1.spec_responses() == c0.spec_responses()
            }),
    {
        let ghost before = self.contexts@;
        let mut c = self.contexts.remove(index);
        c.set_guest_request(ctx_id, data);
        self.contexts.insert(index, c);
        proof {
            assert forall|j: int| 0 <= j < before.len() && j != index implies self.contexts@[j]
                == before[j] by {}
        }
    }

    /// Takes pending request bytes out of the context at the given index.
    pub fn take_guest_request(&mut self, index: usize, ctx_id: u64) -> (r: Option<Vec<u8>>)
        requires
            index < old(self).spec_len(),
        ensures
            spec_others_same(*old(self), *final(self), index as int),
            ({
                let c0 = old(self).spec_contexts()[index as int];
                let c1 = final(self).spec_contexts()[index as int];
                &&& match r {
                    Some(data) => c0.spec_requests().contains_key(ctx_id) && data
                        == c0.spec_requests()[ctx_id] && c1.spec_requests()
                        == c0.spec_requests().remove(ctx_id),
                    None => !c0.spec_requests().contains_key(ctx_id) && c1.spec_requests()
                        == c0.spec_requests(),
                }
                &&& c1.spec_next_ctx_id() == c0.spec_next_ctx_id()
                &&& c1.spec_responses() == c0.spec_responses()
            }),
    {
        let ghost before = self.contexts@;
        let mut c = self.contexts.remove(index);
        let r = c.take_guest_request(ctx_id);
        self.contexts.insert(index, c);
        proof {
            assert forall|j: int| 0 <= j < before.len() && j != index implies self.contexts@[j]
                == before[j] by {}
        }
        r
    }

    /// Stores response bytes in the context at the given index.
    pub fn set_guest_response(&mut self, index: usize, ctx_id: u64, data: Vec<u8>)
        requires
            index < old(self).spec_len(),
        ensures
            spec_others_same(*old(self), *final(self), index as int),
            ({
                let c0 = old(self).spec_contexts()[index as int];
                let c1 = final(self).spec_contexts()[index as int];
                &&& c1.spec_responses() == c0.spec_responses().insert(ctx_id, data)
                &&& c1.spec_next_ctx_id() == c0.spec_next_ctx_id()
                &&& c1.spec_requests() == c0.spec_requests()
            }),
    {
        let ghost before = self.contexts@;
        let mut c = self.contexts.remove(index);
        c.set_guest_response(ctx_id, data);
        self.contexts.insert(index, c);
        proof {
            assert forall|j: int| 0 <= j < before.len() && j != index implies self.contexts@[j]
                == before[j] by {}
        }
    }

    /// Takes response bytes out of the context at the given index.
    pub fn get_guest_response(&mut self, index: usize, ctx_id: u64) -> (r: Option<Vec<u8>>)
        requires
            index < old(self).spec_len(),
        ensures
            spec_others_same(*old(self), *final(self), index as int),
            ({
                let c0 = old(self).spec_contexts()[index as int];
                let c1 = final(self).spec_contexts()[index as int];
                &&& match r {
                    Some(data) => c0.spec_responses().contains_key(ctx_id) && data
                        == c0.spec_responses()[ctx_id] && c1.spec_responses()
                        == c0.spec_responses().remove(ctx_id),
                    None => !c0.spec_responses().contains_key(ctx_id) && c1.spec_responses()
                        == c0.spec_responses(),
                }
                &&& c1.spec_next_ctx_id() == c0.spec_next_ctx_id()
                &&& c1.spec_requests() == c0.spec_requests()
            }),
    {
        let ghost before = self.contexts@;
        let mut c = self.contexts.remove(index);
        let r = c.get_guest_response(ctx_id);
        self.contexts.insert(index, c);
        proof {
            assert forall|j: int| 0 <= j < before.len() && j != index implies self.contexts@[j]
                == before[j] by {}
        }
        r
    }
}

/// The gateway itself. It holds no mutable state of its own; it exists to
/// anchor the request lifecycle.
pub struct Server {}

impl Server {
    /// A gateway, ready before the listener starts.
    pub fn new() -> Server {
        Server {  }
    }

    /// The first half of one request lifecycle: routes the call message to
    /// the context selected for the servicing thread, draws a fresh ctx-id
    /// there, and stores the framed message in that context's request slot.
    /// Returns the chosen index and ctx-id for the completion half.
    pub fn handle_submit(&self, pool: &mut Pool, servicing_id: usize, msg: Message) -> (r: (
        usize,
        u64,
    ))
        requires
            old(pool).spec_len() > 0,
        ensures
            ({
                let (index, ctx_id) = r;
                let c0 = old(pool).spec_contexts()[index as int];
                let c1 = final(pool).spec_contexts()[index as int];
                &&& index == spec_select_context(servicing_id as nat, old(pool).spec_len())
                &&& index < old(pool).spec_len()
                &&& ctx_id == c0.spec_next_ctx_id()
                &&& spec_others_same(*old(pool), *final(pool), index as int)
                &&& c1.spec_next_ctx_id() == spec_ctx_id_at(ctx_id, 1)
                &&& c1.spec_requests().contains_key(ctx_id)
                &&& c1.spec_requests()[ctx_id]@ == spec_encode_msg(msg@)
                &&& c1.spec_requests().remove(ctx_id) == c0.spec_requests().remove(ctx_id)
                &&& c1.spec_responses() == c0.spec_responses()
                &&& spec_msg_bounded(msg@)
            }),
    {
        let index = select_context(servicing_id, pool.len());
        let ctx_id = pool.gen_ctx_id(index);
        let data = encode_msg(&msg);
        pool.set_guest_request(index, ctx_id, data);
        (index, ctx_id)
    }

    /// The second half of one request lifecycle: takes the response bytes
    /// left under the ctx-id, unframes them, and derives the HTTP response.
    /// `MissingResponse` is returned exactly when no bytes wait under the
    /// ctx-id, `MalformedReply` exactly when the waiting bytes are not the
    /// framing of any message; a malformed reply still clears the slot, and
    /// no other context and no other ctx-id is touched either way.
    pub fn handle_complete(&self, pool: &mut Pool, index: usize, ctx_id: u64) -> (r: Result<
        HttpResponse,
        GatewayError,
    >)
        requires
            index < old(pool).spec_len(),
        ensures
            spec_others_same(*old(pool), *final(pool), index as int),
            ({
                let c0 = old(pool).spec_contexts()[index as int];
                let c1 = final(pool).spec_contexts()[index as int];
                &&& c1.spec_next_ctx_id() == c0.spec_next_ctx_id()
                &&& c1.spec_requests() == c0.spec_requests()
                &&& match r {
                    Ok(resp) => {
                        &&& c0.spec_responses().contains_key(ctx_id)
                        &&& spec_decode_msg(c0.spec_responses()[ctx_id]@) matches Some(mv)
                            && resp@ == spec_resp_of(mv)
                        &&& c1.spec_responses() == c0.spec_responses().remove(ctx_id)
                    },
                    Err(GatewayError::MissingResponse) => {
                        &&& !c0.spec_responses().contains_key(ctx_id)
                        &&& c1.spec_responses() == c0.spec_responses()
                    },
                    Err(GatewayError::MalformedReply) => {
                        &&& c0.spec_responses().contains_key(ctx_id)
                        &&& spec_decode_msg(c0.spec_responses()[ctx_id]@) is None
                        &&& c1.spec_responses() == c0.spec_responses().remove(ctx_id)
                    },
                }
            }),
    {
        match pool.get_guest_response(index, ctx_id) {
            Some(data) => match decode_msg(&data) {
                Some(reply) => Ok(msg_to_resp(reply)),
                None => Err(GatewayError::MalformedReply),
            },
            None => Err(GatewayError::MissingResponse),
        }
    }
}

/// Round trip of headers: the header entries an HTTP request brings into a
/// call message survive the framing to the pool unchanged, and a reply
/// carrying the same entries yields them back on the HTTP response, equal
/// in content and order.
pub proof fn lemma_header_round_trip(call: MessageView, reply: MessageView)
    requires
        spec_msg_bounded(call),
        reply.headers == call.headers,
    ensures
        spec_decode_msg(spec_encode_msg(call)) matches Some(c) && c.headers == call.headers,
        spec_resp_of(reply).headers == call.headers,
{
    lemma_decode_encode(call);
}

/// Body pass-through: the body bytes of a call message, including an empty
/// body, reach the far side of the framing unchanged.
pub proof fn lemma_body_pass_through(call: MessageView)
    requires
        spec_msg_bounded(call),
    ensures
        spec_decode_msg(spec_encode_msg(call)) matches Some(c) && c.body == call.body,
{
    lemma_decode_encode(call);
}

} // verus!
