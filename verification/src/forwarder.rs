//! The forwarder: the state of the concurrently-scheduled task bound to one
//! source. It pulls the source's items in order and pushes each, tagged with
//! the source's identity, into the multiplexed channel; it ends when the
//! source is exhausted (releasing its producer handle), when a send fails
//! because the consumer has gone away (the cooperative-shutdown path), or
//! when the driver loop cancels it on an early exit.

use vstd::prelude::*;

use crate::channel::Channel;

verus! {

/// The bookkeeping state of one forwarder. The items themselves are owned by
/// the engine; `sent` counts how many of the source's `total` items the
/// channel has accepted so far.
#[derive(Clone, Copy, Debug, PartialEq, Eq)]
pub struct Forwarder {
    pub tag: usize,
    pub total: usize,
    pub sent: usize,
    pub released: bool,
    pub cancelled: bool,
}

impl Forwarder {
    /// A forwarder completed naturally: its source was exhausted (or its
    /// send failed because the loop stopped consuming) and it released its
    /// producer handle without being cancelled.
    pub open spec fn completed(self) -> bool {
        self.released && !self.cancelled
    }

    /// A fresh forwarder for the source with identity `tag` producing
    /// `total` items, holding one producer handle.
    pub fn new(tag: usize, total: usize) -> (f: Self)
        ensures
            f.tag == tag,
            f.total == total,
            f.sent == 0,
            !f.released,
            !f.cancelled,
    {
        Forwarder { tag, total, sent: 0, released: false, cancelled: false }
    }

    /// One forwarding step at the rendezvous point: push the source's next
    /// item, tagged with this forwarder's identity, into the channel. If the
    /// consumer side has gone away the send fails, and the forwarder
    /// terminates at once without pulling further from its source, releasing
    /// its producer handle: that is cooperative shutdown, not an error.
    pub fn forward_step<T>(&mut self, chan: &mut Channel<T>, item: T) -> (ok: bool)
        requires
            !old(self).released,
            !old(self).cancelled,
            old(self).sent < old(self).total,
            old(chan).wf(),
            old(chan).pending() is None,
            old(chan).producer_handles() > 0,
        ensures
            final(chan).wf(),
            ok == old(chan).consumer_live(),
            final(self).tag == old(self).tag,
            final(self).total == old(self).total,
            !final(self).cancelled,
            final(chan).consumer_live() == old(chan).consumer_live(),
            final(chan).received_log() == old(chan).received_log(),
            ok ==> final(self).sent == old(self).sent + 1,
            ok ==> !final(self).released,
            ok ==> final(chan).pending() == Some((old(self).tag, item)),
            ok ==> final(chan).accepted_log() == old(chan).accepted_log().push(
                (old(self).tag, item),
            ),
            ok ==> final(chan).producer_handles() == old(chan).producer_handles(),
            !ok ==> final(self).sent == old(self).sent,
            !ok ==> final(self).released,
            !ok ==> (final(chan).pending() is None),
            !ok ==> final(chan).accepted_log() == old(chan).accepted_log(),
            !ok ==> final(chan).producer_handles() == old(chan).producer_handles() - 1,
    {
        let ok = chan.offer(self.tag, item);
        if ok {
            self.sent = self.sent + 1;
        } else {
            self.released = true;
            chan.release_producer();
        }
        ok
    }

    /// The source is exhausted: the forwarder terminates normally and
    /// releases its producer handle — the sole signal that exhaustion
    /// detection relies on.
    pub fn finish<T>(&mut self, chan: &mut Channel<T>)
        requires
            !old(self).released,
            old(self).sent == old(self).total,
            old(chan).producer_handles() > 0,
        ensures
            *final(self) == (Forwarder { released: true, ..*old(self) }),
            final(chan).producer_handles() == old(chan).producer_handles() - 1,
            final(chan).consumer_live() == old(chan).consumer_live(),
            final(chan).pending() == old(chan).pending(),
            final(chan).accepted_log() == old(chan).accepted_log(),
            final(chan).received_log() == old(chan).received_log(),
            old(chan).wf() ==> final(chan).wf(),
    {
        self.released = true;
        chan.release_producer();
    }

    /// The driver loop, on an exit path, released this forwarder's
    /// cancellable task handle: the task is aborted and its producer handle
    /// goes with it.
    pub fn cancel(&mut self)
        ensures
            *final(self) == (Forwarder { released: true, cancelled: true, ..*old(self) }),
    {
        self.released = true;
        self.cancelled = true;
    }
}

/// The number of producer handles still held by a set of forwarders.
pub open spec fn live_handles(fwds: Seq<Forwarder>) -> nat
    decreases fwds.len(),
{
    if fwds.len() == 0 {
        0nat
    } else {
        live_handles(fwds.drop_last()) + if fwds.last().released {
            0nat
        } else {
            1nat
        }
    }
}

/// The total number of items a set of forwarders has had accepted by the
/// channel.
pub open spec fn total_sent(fwds: Seq<Forwarder>) -> nat
    decreases fwds.len(),
{
    if fwds.len() == 0 {
        0nat
    } else {
        total_sent(fwds.drop_last()) + fwds.last().sent as nat
    }
}

/// The total number of items the forwarders' sources produce.
pub open spec fn total_capacity(fwds: Seq<Forwarder>) -> nat
    decreases fwds.len(),
{
    if fwds.len() == 0 {
        0nat
    } else {
        total_capacity(fwds.drop_last()) + fwds.last().total as nat
    }
}

/// Updating one forwarder shifts the handle count and the sent and capacity
/// sums by exactly that forwarder's change.
pub proof fn lemma_sums_update(fwds: Seq<Forwarder>, i: int, f: Forwarder)
    requires
        0 <= i < fwds.len(),
    ensures
        live_handles(fwds.update(i, f)) == live_handles(fwds) - (if fwds[i].released {
            0nat
        } else {
            1nat
        }) + (if f.released {
            0nat
        } else {
            1nat
        }),
        total_sent(fwds.update(i, f)) == total_sent(fwds) - fwds[i].sent + f.sent,
        total_capacity(fwds.update(i, f)) == total_capacity(fwds) - fwds[i].total + f.total,
    decreases fwds.len(),
{
    if i == fwds.len() - 1 {
        assert(fwds.update(i, f).drop_last() =~= fwds.drop_last());
    } else {
        assert(fwds.update(i, f).drop_last() =~= fwds.drop_last().update(i, f));
        lemma_sums_update(fwds.drop_last(), i, f);
    }
}

/// Appending one forwarder extends the sums by its contribution.
pub proof fn lemma_sums_push(fwds: Seq<Forwarder>, f: Forwarder)
    ensures
        live_handles(fwds.push(f)) == live_handles(fwds) + (if f.released {
            0nat
        } else {
            1nat
        }),
        total_sent(fwds.push(f)) == total_sent(fwds) + f.sent,
        total_capacity(fwds.push(f)) == total_capacity(fwds) + f.total,
{
    assert(fwds.push(f).drop_last() =~= fwds);
}

/// When every forwarder has sent all of its items, the sent total equals the
/// capacity total; and as long as each forwarder's sent count is bounded by
/// its capacity, so are the totals.
pub proof fn lemma_sent_vs_capacity(fwds: Seq<Forwarder>)
    requires
        forall|t: int| 0 <= t < fwds.len() ==> #[trigger] fwds[t].sent <= fwds[t].total,
    ensures
        total_sent(fwds) <= total_capacity(fwds),
        (forall|t: int| 0 <= t < fwds.len() ==> #[trigger] fwds[t].sent == fwds[t].total)
            ==> total_sent(fwds) == total_capacity(fwds),
    decreases fwds.len(),
{
    if fwds.len() > 0 {
        assert(forall|t: int|
            0 <= t < fwds.drop_last().len() ==> #[trigger] fwds.drop_last()[t] == fwds[t]);
        lemma_sent_vs_capacity(fwds.drop_last());
    }
}

/// When every forwarder has released its handle, no producer handle is held.
pub proof fn lemma_all_released_no_handles(fwds: Seq<Forwarder>)
    requires
        forall|t: int| 0 <= t < fwds.len() ==> #[trigger] fwds[t].released,
    ensures
        live_handles(fwds) == 0,
    decreases fwds.len(),
{
    if fwds.len() > 0 {
        assert(forall|t: int|
            0 <= t < fwds.drop_last().len() ==> #[trigger] fwds.drop_last()[t] == fwds[t]);
        lemma_all_released_no_handles(fwds.drop_last());
    }
}

} // verus!
