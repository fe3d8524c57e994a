//! The subscription registry: a typed publish/subscribe bus decoupled
//! from the message hierarchy. Subscribers register a handler converting
//! the notified payload into a message; a notification enqueues one
//! message per currently-live subscriber, in subscription order, exactly
//! as if `send_msg` had been called at the point of the notification.
//! Releasing the handle is the only removal path, and it takes effect
//! before the next notification scan.

use vstd::prelude::*;
use crate::orders::{Effect, OrdersContainer};

verus! {

/// The living handle of one subscription: releasing it removes the
/// subscription deterministically.
pub struct SubHandle {
    pub id: u64,
}

/// The registry of live subscriptions for one payload type.
#[verifier::reject_recursive_types(T)]
#[verifier::reject_recursive_types(Ms)]
pub struct SubManager<T, Ms, F: Fn(T) -> Ms> {
    pub subs: Vec<(u64, F)>,
    pub next_id: u64,
    pub payload: core::marker::PhantomData<T>,
}

impl<T, Ms, F: Fn(T) -> Ms> SubManager<T, Ms, F> {
    /// Well-formedness: subscription identities are distinct, below the
    /// counter, and every stored handler accepts every payload.
    pub open spec fn wf(self) -> bool {
        &&& forall|p: int, q: int|
            0 <= p < q < self.subs@.len() ==> (#[trigger] self.subs@[p]).0 != (
            #[trigger] self.subs@[q]).0
        &&& forall|p: int| 0 <= p < self.subs@.len() ==> (#[trigger] self.subs@[p]).0 < self.next_id
        &&& forall|p: int, t: T|
            #![trigger call_requires(self.subs@[p].1, (t,))]
            0 <= p < self.subs@.len() ==> call_requires(self.subs@[p].1, (t,))
    }

    /// An empty registry.
    pub fn new() -> (r: SubManager<T, Ms, F>)
        ensures
            r.wf(),
            r.subs@ == Seq::<(u64, F)>::empty(),
    {
        SubManager { subs: Vec::new(), next_id: 0, payload: core::marker::PhantomData }
    }

    /// Registers a handler and returns its living handle. The handler
    /// must accept every payload, and what it returns is what a later
    /// notification will enqueue.
    pub fn subscribe(&mut self, handler: F) -> (h: SubHandle)
        requires
            old(self).wf(),
            old(self).next_id < u64::MAX,
            forall|t: T| call_requires(handler, (t,)),
        ensures
            final(self).wf(),
            h.id == old(self).next_id,
            final(self).subs@ == old(self).subs@.push((h.id, handler)),
            final(self).next_id == old(self).next_id + 1,
    {
        self.subscribe_with_handle(handler)
    }

    /// Registers a handler, handing the caller explicit ownership of the
    /// handle that keeps the subscription alive.
    pub fn subscribe_with_handle(&mut self, handler: F) -> (h: SubHandle)
        requires
            old(self).wf(),
            old(self).next_id < u64::MAX,
            forall|t: T| call_requires(handler, (t,)),
        ensures
            final(self).wf(),
            h.id == old(self).next_id,
            final(self).subs@ == old(self).subs@.push((h.id, handler)),
            final(self).next_id == old(self).next_id + 1,
    {
        let id = self.next_id;
        self.next_id = self.next_id + 1;
        self.subs.push((id, handler));
        SubHandle { id }
    }

    /// Releases a handle: its subscription, if still present, is removed
    /// before any later notification scan. Every other subscription
    /// survives in order.
    pub fn release(&mut self, handle: SubHandle)
        requires
            old(self).wf(),
        ensures
            final(self).wf(),
            final(self).next_id == old(self).next_id,
            forall|j: int|
                0 <= j < final(self).subs@.len() ==> (#[trigger] final(self).subs@[j]).0
                    != handle.id,
            (exists|i: int|
                0 <= i < old(self).subs@.len() && (#[trigger] old(self).subs@[i]).0 == handle.id
                    && final(self).subs@ == old(self).subs@.remove(i)) || ((forall|i: int|
                0 <= i < old(self).subs@.len() ==> (#[trigger] old(self).subs@[i]).0 != handle.id)
                && final(self).subs@ == old(self).subs@),
    {
        let mut i: usize = 0;
        while i < self.subs.len()
            invariant
                old(self).wf(),
                *self == *old(self),
                i <= self.subs@.len(),
                forall|j: int| 0 <= j < i ==> (#[trigger] self.subs@[j]).0 != handle.id,
            decreases self.subs@.len() - i,
        {
            if self.subs[i].0 == handle.id {
                self.subs.remove(i);
                proof {
                    assert forall|j: int|
                        0 <= j < self.subs@.len() implies (#[trigger] self.subs@[j]).0
                        != handle.id by {
                        if j < i {
                            assert(self.subs@[j] == old(self).subs@[j]);
                        } else {
                            assert(self.subs@[j] == old(self).subs@[j + 1]);
                            assert(old(self).subs@[i as int].0 == handle.id);
                        }
                    }
                }
                return;
            }
            i = i + 1;
        }
    }

    /// Delivers `value` to every live subscriber: one message per
    /// subscriber, converted through its handler, enqueued in
    /// subscription order behind whatever the queue already holds.
    /// A released subscription enqueues nothing, and the queue's render
    /// directive is untouched.
    pub fn notify<GMs>(&self, value: T, orders: &mut OrdersContainer<Ms, GMs>) -> (delivered:
        Ghost<Seq<Ms>>) where T: Copy
        requires
            self.wf(),
        ensures
            final(orders).should_render == old(orders).should_render,
            delivered@.len() == self.subs@.len(),
            final(orders).effects@.len() == old(orders).effects@.len() + self.subs@.len(),
            final(orders).effects@.subrange(0, old(orders).effects@.len() as int) == old(orders).effects@,
            forall|j: int|
                0 <= j < self.subs@.len() ==> call_ensures(
                    (#[trigger] self.subs@[j]).1,
                    (value,),
                    delivered@[j],
                ) && final(orders).effects@[old(orders).effects@.len() + j] == Effect::<Ms, GMs>::Msg(
                    delivered@[j],
                ),
    {
        let ghost mut msgs: Seq<Ms> = Seq::empty();
        let mut j: usize = 0;
        while j < self.subs.len()
            invariant
                self.wf(),
                j <= self.subs@.len(),
                msgs.len() == j,
                orders.should_render == old(orders).should_render,
                orders.effects@.len() == old(orders).effects@.len() + j,
                orders.effects@.subrange(0, old(orders).effects@.len() as int) == old(orders).effects@,
                forall|p: int|
                    0 <= p < j ==> call_ensures(
                        (#[trigger] self.subs@[p]).1,
                        (value,),
                        msgs[p],
                    ) && orders.effects@[old(orders).effects@.len() + p] == Effect::<Ms, GMs>::Msg(
                        msgs[p],
                    ),
            decreases self.subs@.len() - j,
        {
            let entry = &self.subs[j];
            let m = (entry.1)(value);
            proof {
                msgs = msgs.push(m);
            }
            orders.send_msg(m);
            proof {
                assert(orders.effects@.subrange(0, old(orders).effects@.len() as int) =~= old(orders).effects@);
            }
            j = j + 1;
        }
        proof {
            assert(msgs.len() == self.subs@.len());
            assert forall|p: int| 0 <= p < self.subs@.len() implies call_ensures(
                (#[trigger] self.subs@[p]).1,
                (value,),
                msgs[p],
            ) && orders.effects@[old(orders).effects@.len() + p] == Effect::<Ms, GMs>::Msg(
                msgs[p],
            ) by {}
        }
        Ghost(msgs)
    }
}

} // verus!
