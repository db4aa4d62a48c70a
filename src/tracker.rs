//! The table of requests that this side sent and that still wait for their
//! response, keyed by correlation id.
use crate::message::Message;
use std::collections::HashMap;
use vstd::prelude::*;

verus! {

broadcast use vstd::std_specs::hash::group_hash_axioms;

/// Pending completions by correlation id. `R` is whatever hands a response
/// back to the caller that sent the request.
pub struct RespondTrack<R> {
    pending: HashMap<u64, R>,
}

impl<R> View for RespondTrack<R> {
    type V = Map<u64, R>;

    closed spec fn view(&self) -> Map<u64, R> {
        self.pending@
    }
}

/// The table after a response with id `id` is matched: the completion it
/// fulfils, if any, and what stays pending.
pub open spec fn take<R>(m: Map<u64, R>, id: u64) -> (Option<R>, Map<u64, R>) {
    if m.contains_key(id) {
        (Some(m[id]), m.remove(id))
    } else {
        (None, m)
    }
}

impl<R> RespondTrack<R> {
    /// A table with nothing pending.
    pub fn new() -> (r: Self)
        ensures
            r@ == Map::<u64, R>::empty(),
    {
        RespondTrack { pending: HashMap::new() }
    }

    /// Records the completion of a request that is about to be sent. A
    /// completion already pending under the same id is handed back.
    pub fn register(&mut self, msg_id: u64, respond: R) -> (r: Option<R>)
        ensures
            final(self)@ == old(self)@.insert(msg_id, respond),
            r == (if old(self)@.contains_key(msg_id) {
                Some(old(self)@[msg_id])
            } else {
                None
            }),
    {
        self.pending.insert(msg_id, respond)
    }

    /// Whether a request with this id waits for its response.
    pub fn is_pending(&self, msg_id: u64) -> (r: bool)
        ensures
            r == self@.contains_key(msg_id),
    {
        self.pending.contains_key(&msg_id)
    }

    /// How many requests wait for their response.
    pub fn len(&self) -> (r: usize)
        ensures
            r == self@.len(),
    {
        self.pending.len()
    }

    /// Matches a response with the request that has its id: removes that
    /// request's completion and hands it back with the response. A response
    /// that nothing waits for is handed back as it came.
    pub fn respond(&mut self, msg: Message) -> (r: Result<(R, Message), Message>)
        ensures
            final(self)@ == take(old(self)@, msg.msg_id).1,
            match take(old(self)@, msg.msg_id).0 {
                None => r == Err::<(R, Message), Message>(msg),
                Some(c) => r == Ok::<(R, Message), Message>((c, msg)),
            },
    {
        let id = msg.msg_id;
        match self.pending.remove(&id) {
            None => Err(msg),
            Some(c) => Ok((c, msg)),
        }
    }
}

/// A registered request is fulfilled at most once: the first response with
/// its id gets the completion that was registered, and a second response with
/// the same id finds nothing.
pub proof fn lemma_fulfilled_at_most_once<R>(m: Map<u64, R>, id: u64, c: R)
    ensures
        take(m.insert(id, c), id) == (Some(c), m.remove(id)),
        take(take(m.insert(id, c), id).1, id).0.is_none(),
{
    assert(m.insert(id, c).remove(id) =~= m.remove(id));
}

/// Responses with distinct ids may arrive in either order: each gets its own
/// completion, and the table ends the same.
pub proof fn lemma_answer_order_irrelevant<R>(m: Map<u64, R>, a: u64, b: u64)
    requires
        a != b,
    ensures
        take(take(m, a).1, b).0 == take(m, b).0,
        take(take(m, b).1, a).0 == take(m, a).0,
        take(take(m, a).1, b).1 == take(take(m, b).1, a).1,
{
    assert(take(take(m, a).1, b).1 =~= take(take(m, b).1, a).1);
}
} // verus!
