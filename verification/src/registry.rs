//! The reply registry: which requests wait for a reply, and where each
//! reply is to be delivered.
//!
//! The engine enters a slot under the invoke ID before it writes the request,
//! and takes it out again if the write fails or no reply comes in time.  The
//! reader takes the slot out when the reply arrives and hands the reply to
//! it; a reply whose ID has no slot is dropped.

use crate::errors::{Error, IoError};
use std::collections::BTreeMap;
use vstd::prelude::*;

verus! {

broadcast use vstd::std_specs::btree::group_btree_axioms;

/// Taking the entry for `invoke_id` out of the pending requests `m`: what is
/// left, and the slot that was found.
pub open spec fn taken<S>(m: Map<u32, S>, invoke_id: u32) -> (Map<u32, S>, Option<S>) {
    (
        m.remove(invoke_id),
        if m.contains_key(invoke_id) {
            Some(m[invoke_id])
        } else {
            None
        },
    )
}

/// The pending requests, by invoke ID.  `S` is the caller's delivery slot.
pub struct ReplyRegistry<S> {
    slots: BTreeMap<u32, S>,
}

impl<S> View for ReplyRegistry<S> {
    type V = Map<u32, S>;

    closed spec fn view(&self) -> Map<u32, S> {
        self.slots@
    }
}

impl<S> ReplyRegistry<S> {
    /// A registry without pending requests.
    pub fn new() -> (r: Self)
        ensures
            r@ == Map::<u32, S>::empty(),
    {
        ReplyRegistry { slots: BTreeMap::new() }
    }

    /// Enters `slot` for `invoke_id`.  Returns the slot that was entered
    /// under that ID before, if there was one.
    pub fn register(&mut self, invoke_id: u32, slot: S) -> (r: Option<S>)
        ensures
            final(self)@ == old(self)@.insert(invoke_id, slot),
            r == taken(old(self)@, invoke_id).1,
    {
        self.slots.insert(invoke_id, slot)
    }

    /// Takes the slot for `invoke_id` out, for delivery or because the
    /// request was given up.  `None` if there is none: then a reply with that
    /// ID is to be dropped.
    pub fn take(&mut self, invoke_id: u32) -> (r: Option<S>)
        ensures
            (final(self)@, r) == taken(old(self)@, invoke_id),
    {
        self.slots.remove(&invoke_id)
    }

    /// Gives up the request `invoke_id`, for which no reply came in time:
    /// its entry goes, so that a reply that still arrives is dropped, and
    /// the exchange fails with the error returned.
    pub fn time_out(&mut self, invoke_id: u32) -> (r: Error)
        ensures
            final(self)@ == taken(old(self)@, invoke_id).0,
            !final(self)@.contains_key(invoke_id),
            r == Error::Io(IoError::Timeout),
    {
        self.slots.remove(&invoke_id);
        Error::Io(IoError::Timeout)
    }

    /// The number of pending requests.
    pub fn len(&self) -> (r: usize)
        ensures
            r == self@.len(),
    {
        self.slots.len()
    }

    /// Whether a request with `invoke_id` is pending.
    pub fn is_pending(&self, invoke_id: u32) -> (r: bool)
        ensures
            r == self@.contains_key(invoke_id),
    {
        self.slots.contains_key(&invoke_id)
    }
}

/// Two requests with distinct invoke IDs each get their own slot back,
/// whichever reply arrives first, and the registry ends up the same.
pub proof fn lemma_replies_in_any_order<S>(m: Map<u32, S>, a: u32, slot_a: S, b: u32, slot_b: S)
    requires
        a != b,
    ensures
        ({
            let pending = m.insert(a, slot_a).insert(b, slot_b);
            let a_first = taken(pending, a);
            let then_b = taken(a_first.0, b);
            let b_first = taken(pending, b);
            let then_a = taken(b_first.0, a);
            &&& a_first.1 == Some(slot_a)
            &&& then_b.1 == Some(slot_b)
            &&& b_first.1 == Some(slot_b)
            &&& then_a.1 == Some(slot_a)
            &&& then_b.0 == then_a.0
        }),
{
    let pending = m.insert(a, slot_a).insert(b, slot_b);
    assert(taken(taken(pending, a).0, b).0 =~= taken(taken(pending, b).0, a).0);
}

/// Once a request has been given up, the registry holds no entry for its
/// invoke ID, a reply that still arrives under that ID finds no slot, and
/// dropping it changes nothing.
pub proof fn lemma_late_reply_is_dropped<S>(m: Map<u32, S>, invoke_id: u32)
    ensures
        ({
            let given_up = taken(m, invoke_id).0;
            &&& !given_up.contains_key(invoke_id)
            &&& taken(given_up, invoke_id) == (given_up, None::<S>)
        }),
{
    let given_up = taken(m, invoke_id).0;
    assert(taken(given_up, invoke_id).0 =~= given_up);
}

/// Taking one request out leaves every other pending request as it was.
pub proof fn lemma_take_keeps_others<S>(m: Map<u32, S>, invoke_id: u32, other: u32)
    requires
        invoke_id != other,
    ensures
        taken(m, invoke_id).0.contains_key(other) == m.contains_key(other),
        m.contains_key(other) ==> taken(m, invoke_id).0[other] == m[other],
{
}

} // verus!
