//! The multiplexed channel: a single-consumer, multi-producer rendezvous
//! queue of tagged items. Capacity is exactly one item in flight, so no
//! forwarder can race ahead of the consumer; the consumer observes closure
//! exactly when every producer handle has been released and nothing is
//! pending.

use vstd::prelude::*;

verus! {

/// What a receive yields: the next tagged item in the order sends were
/// accepted, or closure once every producer handle has been released.
#[derive(Clone, Copy, Debug, PartialEq, Eq)]
pub enum Recv<T> {
    Item(usize, T),
    Closed,
}

/// The multiplexed channel. `accepted` and `received` record, in order, every
/// send the channel accepted and every item the consumer took out; they exist
/// only for specification.
pub struct Channel<T> {
    producers: usize,
    consumer_alive: bool,
    slot: Option<(usize, T)>,
    accepted: Ghost<Seq<(usize, T)>>,
    received: Ghost<Seq<(usize, T)>>,
}

impl<T> Channel<T> {
    /// How many producer handles are still held.
    pub closed spec fn producer_handles(self) -> nat {
        self.producers as nat
    }

    /// Whether the consumer handle is still held.
    pub closed spec fn consumer_live(self) -> bool {
        self.consumer_alive
    }

    /// The one item (if any) accepted but not yet received.
    pub closed spec fn pending(self) -> Option<(usize, T)> {
        self.slot
    }

    /// Every tagged item whose send was accepted, in acceptance order.
    pub closed spec fn accepted_log(self) -> Seq<(usize, T)> {
        self.accepted@
    }

    /// Every tagged item the consumer received, in receive order.
    pub closed spec fn received_log(self) -> Seq<(usize, T)> {
        self.received@
    }

    /// How many accepted items are in flight, awaiting the consumer.
    pub open spec fn in_flight(self) -> nat {
        if self.pending() is Some {
            1nat
        } else {
            0nat
        }
    }

    /// The channel's invariant: the consumer has received exactly the
    /// accepted items, in acceptance order, short of the at most one item
    /// still in flight.
    pub open spec fn wf(self) -> bool {
        &&& self.accepted_log().len() == self.received_log().len() + self.in_flight()
        &&& self.received_log() == self.accepted_log().take(self.received_log().len() as int)
        &&& (self.pending() matches Some(p) ==> self.accepted_log().len() > 0
            && self.accepted_log().last() == p)
    }

    /// A fresh channel: one producer handle (the creator's own), a live
    /// consumer, and nothing sent yet.
    pub fn new() -> (c: Self)
        ensures
            c.wf(),
            c.producer_handles() == 1,
            c.consumer_live(),
            c.pending() is None,
            c.accepted_log() == Seq::<(usize, T)>::empty(),
            c.received_log() == Seq::<(usize, T)>::empty(),
    {
        let c = Channel {
            producers: 1,
            consumer_alive: true,
            slot: None,
            accepted: Ghost(Seq::empty()),
            received: Ghost(Seq::empty()),
        };
        proof {
            assert(c.received_log() =~= c.accepted_log().take(0));
        }
        c
    }

    /// Clone one producer handle, as done once per forwarder at loop start.
    pub fn clone_producer(&mut self)
        requires
            old(self).producer_handles() < usize::MAX,
    ensures
            final(self).producer_handles() == old(self).producer_handles() + 1,
            final(self).consumer_live() == old(self).consumer_live(),
            final(self).pending() == old(self).pending(),
            final(self).accepted_log() == old(self).accepted_log(),
            final(self).received_log() == old(self).received_log(),
            old(self).wf() ==> final(self).wf(),
    {
        self.producers = self.producers + 1;
    }

    /// Release one producer handle. The last release is the sole signal the
    /// consumer's closure observation relies on.
    pub fn release_producer(&mut self)
        requires
            old(self).producer_handles() > 0,
        ensures
            final(self).producer_handles() == old(self).producer_handles() - 1,
            final(self).consumer_live() == old(self).consumer_live(),
            final(self).pending() == old(self).pending(),
            final(self).accepted_log() == old(self).accepted_log(),
            final(self).received_log() == old(self).received_log(),
            old(self).wf() ==> final(self).wf(),
    {
        self.producers = self.producers - 1;
    }

    /// Drop the consumer handle; every later send fails, which is the
    /// cooperative-shutdown signal for the forwarders.
    pub fn drop_consumer(&mut self)
        ensures
            final(self).producer_handles() == old(self).producer_handles(),
            !final(self).consumer_live(),
            final(self).pending() == old(self).pending(),
            final(self).accepted_log() == old(self).accepted_log(),
            final(self).received_log() == old(self).received_log(),
            old(self).wf() ==> final(self).wf(),
    {
        self.consumer_alive = false;
    }

    /// A producer's send at the rendezvous point: accepted exactly when the
    /// consumer handle is still held; a send is only attempted when nothing
    /// is in flight, which is what bounds the buffering at one item.
    pub fn offer(&mut self, tag: usize, value: T) -> (ok: bool)
        requires
            old(self).wf(),
            old(self).pending() is None,
            old(self).producer_handles() > 0,
        ensures
            final(self).wf(),
            ok == old(self).consumer_live(),
            final(self).producer_handles() == old(self).producer_handles(),
            final(self).consumer_live() == old(self).consumer_live(),
            final(self).received_log() == old(self).received_log(),
            ok ==> final(self).pending() == Some((tag, value)) && final(self).accepted_log()
                == old(self).accepted_log().push((tag, value)),
            !ok ==> final(self).pending() is None && final(self).accepted_log()
                == old(self).accepted_log(),
    {
        if self.consumer_alive {
            self.slot = Some((tag, value));
            proof {
                let rec = self.received@;
                let acc = self.accepted@;
                assert(acc.push((tag, value)).take(rec.len() as int) =~= acc.take(
                    rec.len() as int,
                ));
            }
            self.accepted = Ghost(self.accepted@.push((tag, value)));
            true
        } else {
            false
        }
    }

    /// The consumer's receive: yields the in-flight item, or closure when no
    /// item is pending and every producer handle has been released. A receive
    /// with producers still live and nothing pending would suspend, so it is
    /// excluded here.
    pub fn receive(&mut self) -> (r: Recv<T>)
        requires
            old(self).wf(),
            old(self).consumer_live(),
            old(self).pending() is Some || old(self).producer_handles() == 0,
        ensures
            final(self).wf(),
            final(self).producer_handles() == old(self).producer_handles(),
            final(self).consumer_live(),
            final(self).accepted_log() == old(self).accepted_log(),
            final(self).pending() is None,
            old(self).pending() matches Some(p) ==> r == Recv::Item(p.0, p.1)
                && final(self).received_log() == old(self).received_log().push(p),
            old(self).pending() is None ==> r == Recv::<T>::Closed && final(self).received_log()
                == old(self).received_log(),
            r is Closed <==> old(self).pending() is None,
            r is Closed ==> final(self).producer_handles() == 0,
    {
        let slot = self.slot.take();
        match slot {
            Some((tag, value)) => {
                proof {
                    let p = (tag, value);
                    let rec = self.received@;
                    let acc = self.accepted@;
                    assert(acc.take(rec.len() as int) =~= rec);
                    assert(acc.take(acc.len() as int) =~= acc);
                    assert(rec.push(p) =~= acc.take(rec.push(p).len() as int));
                }
                self.received = Ghost(self.received@.push((tag, value)));
                Recv::Item(tag, value)
            },
            None => Recv::Closed,
        }
    }
}

/// The backpressure bound and the ordering guarantee of the multiplexed
/// channel: at most one accepted item is ever unconsumed, and the consumer
/// receives items exactly in the order their sends were accepted.
pub proof fn lemma_backpressure_and_order<T>(c: Channel<T>)
    requires
        c.wf(),
    ensures
        c.accepted_log().len() <= c.received_log().len() + 1,
        c.received_log() == c.accepted_log().take(c.received_log().len() as int),
{
}

} // verus!
