//! The driver loop's state machine: on each iteration it runs the
//! before-hooks in declared order, waits for the next tagged item or for
//! channel closure, dispatches the item to the handler registered for its
//! tag, and acts on the handler's signal. Closure leads into the
//! exhausted-hooks, of which only the last one's value is kept.

use vstd::prelude::*;

use crate::control::LoopCtl;
use crate::control::Termination;

verus! {

/// Where the driver stands inside one iteration. `next` counts hooks already
/// completed this iteration, so `BeforeHooks { next: 0 }` is the start of an
/// iteration and hooks run in declared order.
#[derive(Clone, Copy, Debug, PartialEq, Eq)]
pub enum Phase<V> {
    BeforeHooks { next: usize },
    Waiting,
    Dispatching { tag: usize },
    AfterHooks { next: usize },
    ExhaustedHooks { next: usize, last: Option<V> },
    Done { outcome: Termination<V> },
}

/// One observable step of the driver: a hook completed, the wait began, the
/// channel yielded an item or reported closure, or the handler returned.
pub enum DriverEvent<V> {
    BeforeHookDone,
    StartWait,
    ItemArrived { tag: usize },
    ChannelClosed,
    HandlerReturned { ctl: LoopCtl<V> },
    AfterHookDone,
    IterationDone,
    ExhaustedHookDone { value: V },
    ExhaustedDone,
}

/// The driver loop's state: the declared hook and source counts, fixed at
/// construction, and the current phase.
pub struct Driver<V> {
    pub n_before: usize,
    pub n_after: usize,
    pub n_exhausted: usize,
    pub n_sources: usize,
    pub phase: Phase<V>,
}

impl<V> Driver<V> {
    /// When an event may happen in a given state.
    pub open spec fn event_enabled(self, ev: DriverEvent<V>) -> bool {
        match ev {
            DriverEvent::BeforeHookDone => self.phase matches Phase::BeforeHooks { next }
                && next < self.n_before,
            DriverEvent::StartWait => self.phase matches Phase::BeforeHooks { next }
                && next == self.n_before,
            DriverEvent::ItemArrived { tag } => self.phase is Waiting && tag < self.n_sources,
            DriverEvent::ChannelClosed => self.phase is Waiting,
            DriverEvent::HandlerReturned { ctl } => self.phase is Dispatching && ctl.wf(
                self.n_exhausted as nat,
            ),
            DriverEvent::AfterHookDone => self.phase matches Phase::AfterHooks { next }
                && next < self.n_after,
            DriverEvent::IterationDone => self.phase matches Phase::AfterHooks { next }
                && next == self.n_after,
            DriverEvent::ExhaustedHookDone { value } => self.phase matches Phase::ExhaustedHooks {
                next,
                ..
            } && next < self.n_exhausted,
            DriverEvent::ExhaustedDone => self.phase matches Phase::ExhaustedHooks { next, .. }
                && next == self.n_exhausted,
        }
    }

    /// The state after an enabled event. The declared counts never change;
    /// only the phase moves.
    pub open spec fn next_state(self, ev: DriverEvent<V>) -> Driver<V>
        recommends
            self.event_enabled(ev),
    {
        let phase = match ev {
            DriverEvent::BeforeHookDone => {
                let next = self.phase->BeforeHooks_next;
                Phase::BeforeHooks { next: (next + 1) as usize }
            },
            DriverEvent::StartWait => Phase::Waiting,
            DriverEvent::ItemArrived { tag } => Phase::Dispatching { tag },
            DriverEvent::ChannelClosed => Phase::ExhaustedHooks { next: 0, last: None },
            DriverEvent::HandlerReturned { ctl } => match ctl {
                LoopCtl::Advance => Phase::AfterHooks { next: 0 },
                LoopCtl::Skip => Phase::BeforeHooks { next: 0 },
                LoopCtl::Terminate(v) => Phase::Done { outcome: Termination::EarlyExit(v) },
            },
            DriverEvent::AfterHookDone => {
                let next = self.phase->AfterHooks_next;
                Phase::AfterHooks { next: (next + 1) as usize }
            },
            DriverEvent::IterationDone => Phase::BeforeHooks { next: 0 },
            DriverEvent::ExhaustedHookDone { value } => {
                let next = self.phase->ExhaustedHooks_next;
                Phase::ExhaustedHooks { next: (next + 1) as usize, last: Some(value) }
            },
            DriverEvent::ExhaustedDone => {
                let last = self.phase->ExhaustedHooks_last;
                Phase::Done { outcome: Termination::Exhausted(last) }
            },
        };
        Driver { phase, ..self }
    }

    /// A fresh driver: the very first iteration starts with before-hook zero,
    /// before any wait on the channel.
    pub fn new(n_before: usize, n_after: usize, n_exhausted: usize, n_sources: usize) -> (d: Self)
        ensures
            d.n_before == n_before,
            d.n_after == n_after,
            d.n_exhausted == n_exhausted,
            d.n_sources == n_sources,
            d.phase == (Phase::<V>::BeforeHooks { next: 0 }),
    {
        Driver { n_before, n_after, n_exhausted, n_sources, phase: Phase::BeforeHooks { next: 0 } }
    }

    /// The before-hook `next` of this iteration completed.
    pub fn before_hook_done(&mut self)
        requires
            old(self).event_enabled(DriverEvent::BeforeHookDone),
        ensures
            *final(self) == old(self).next_state(DriverEvent::BeforeHookDone),
    {
        match self.phase {
            Phase::BeforeHooks { next } => {
                self.phase = Phase::BeforeHooks { next: next + 1 };
            },
            _ => {
                proof {
                    assert(false);
                }
            },
        }
    }

    /// Every before-hook of this iteration has run; the driver now waits on
    /// the channel.
    pub fn start_wait(&mut self)
        requires
            old(self).event_enabled(DriverEvent::StartWait),
        ensures
            *final(self) == old(self).next_state(DriverEvent::StartWait),
    {
        self.phase = Phase::Waiting;
    }

    /// The channel yielded an item tagged `tag`; exactly the handler
    /// registered for that tag is to be invoked.
    pub fn item_arrived(&mut self, tag: usize)
        requires
            old(self).event_enabled(DriverEvent::ItemArrived { tag }),
        ensures
            *final(self) == old(self).next_state(DriverEvent::ItemArrived { tag }),
    {
        self.phase = Phase::Dispatching { tag };
    }

    /// The channel reported closure: every source has completed, so the
    /// exhausted-hooks begin, with no value kept yet.
    pub fn channel_closed(&mut self)
        requires
            old(self).event_enabled(DriverEvent::ChannelClosed),
        ensures
            *final(self) == old(self).next_state(DriverEvent::ChannelClosed),
    {
        self.phase = Phase::ExhaustedHooks { next: 0, last: None };
    }

    /// The handler returned: advance to the after-hooks, skip straight to the
    /// next iteration, or terminate the loop early with the handler's value.
    pub fn handler_returned(&mut self, ctl: LoopCtl<V>)
        requires
            old(self).event_enabled(DriverEvent::HandlerReturned { ctl }),
        ensures
            *final(self) == old(self).next_state(DriverEvent::HandlerReturned { ctl }),
    {
        match ctl {
            LoopCtl::Advance => {
                self.phase = Phase::AfterHooks { next: 0 };
            },
            LoopCtl::Skip => {
                self.phase = Phase::BeforeHooks { next: 0 };
            },
            LoopCtl::Terminate(v) => {
                self.phase = Phase::Done { outcome: Termination::EarlyExit(v) };
            },
        }
    }

    /// The after-hook `next` of this iteration completed.
    pub fn after_hook_done(&mut self)
        requires
            old(self).event_enabled(DriverEvent::AfterHookDone),
        ensures
            *final(self) == old(self).next_state(DriverEvent::AfterHookDone),
    {
        match self.phase {
            Phase::AfterHooks { next } => {
                self.phase = Phase::AfterHooks { next: next + 1 };
            },
            _ => {
                proof {
                    assert(false);
                }
            },
        }
    }

    /// Every after-hook ran; the next iteration starts at before-hook zero.
    pub fn iteration_done(&mut self)
        requires
            old(self).event_enabled(DriverEvent::IterationDone),
        ensures
            *final(self) == old(self).next_state(DriverEvent::IterationDone),
    {
        self.phase = Phase::BeforeHooks { next: 0 };
    }

    /// The exhausted-hook `next` ran and produced `value`; earlier hooks'
    /// values are discarded, only the last one is kept.
    pub fn exhausted_hook_done(&mut self, value: V)
        requires
            old(self).event_enabled(DriverEvent::ExhaustedHookDone { value }),
        ensures
            *final(self) == old(self).next_state(DriverEvent::ExhaustedHookDone { value }),
    {
        match self.phase {
            Phase::ExhaustedHooks { next, .. } => {
                self.phase = Phase::ExhaustedHooks { next: next + 1, last: Some(value) };
            },
            _ => {
                proof {
                    assert(false);
                }
            },
        }
    }

    /// Every exhausted-hook ran: the loop ends, yielding the last hook's
    /// value, or no value when no exhausted-hook was declared.
    pub fn exhausted_done(&mut self)
        requires
            old(self).event_enabled(DriverEvent::ExhaustedDone),
        ensures
            *final(self) == old(self).next_state(DriverEvent::ExhaustedDone),
            (final(self).phase matches Phase::Done { outcome } && outcome
                == Termination::Exhausted(old(self).phase->ExhaustedHooks_last)),
    {
        let mut phase = Phase::Waiting;
        core::mem::swap(&mut phase, &mut self.phase);
        match phase {
            Phase::ExhaustedHooks { last, .. } => {
                self.phase = Phase::Done { outcome: Termination::Exhausted(last) };
            },
            _ => {
                proof {
                    assert(false);
                }
            },
        }
    }
}

/// Hook ordering, first half: the wait for an item is entered only through
/// `StartWait`, from a state in which every before-hook of the current
/// iteration has already completed — in every iteration, including the very
/// first, since a fresh driver also starts in `BeforeHooks`.
pub proof fn lemma_wait_only_after_before_hooks<V>(d: Driver<V>, ev: DriverEvent<V>)
    requires
        d.event_enabled(ev),
        (d.next_state(ev).phase is Waiting),
    ensures
        (ev is StartWait),
        d.phase == (Phase::<V>::BeforeHooks { next: d.n_before }),
{
}

/// Hook ordering, second half: the after-hooks phase is entered only by a
/// handler that returned `Advance`; a skip or a terminate signal never leads
/// into it.
pub proof fn lemma_after_hooks_only_after_advance<V>(d: Driver<V>, ev: DriverEvent<V>)
    requires
        d.event_enabled(ev),
        !(d.phase is AfterHooks),
        (d.next_state(ev).phase is AfterHooks),
    ensures
        (ev matches DriverEvent::HandlerReturned { ctl: LoopCtl::Advance }),
        d.next_state(ev).phase == (Phase::<V>::AfterHooks { next: 0 }),
{
}

/// A skip signal returns control directly to the start of the next iteration
/// and a terminate signal ends the loop at once: neither passes through the
/// after-hooks.
pub proof fn lemma_skip_and_terminate_bypass_after_hooks<V>(d: Driver<V>, ctl: LoopCtl<V>)
    requires
        d.event_enabled(DriverEvent::HandlerReturned { ctl }),
        !(ctl is Advance),
    ensures
        !(d.next_state(DriverEvent::HandlerReturned { ctl }).phase is AfterHooks),
        (ctl is Skip) ==> d.next_state(DriverEvent::HandlerReturned { ctl }).phase == (
        Phase::<V>::BeforeHooks { next: 0 }),
        (ctl matches LoopCtl::Terminate(v) ==> d.next_state(
            DriverEvent::HandlerReturned { ctl },
        ).phase == (Phase::Done { outcome: Termination::EarlyExit(v) })),
{
}

/// An iteration always begins at before-hook zero: any transition into a
/// `BeforeHooks` phase either completes one more before-hook of the same
/// iteration, in order, or opens a new iteration at hook zero.
pub proof fn lemma_iterations_start_at_hook_zero<V>(d: Driver<V>, ev: DriverEvent<V>)
    requires
        d.event_enabled(ev),
        (d.next_state(ev).phase is BeforeHooks),
    ensures
        ((ev is BeforeHookDone) ==> (d.phase is BeforeHooks)),
        ((ev is BeforeHookDone) ==> d.next_state(ev).phase == (Phase::<V>::BeforeHooks {
            next: (d.phase->BeforeHooks_next + 1) as usize,
        })),
        (!(ev is BeforeHookDone) ==> d.next_state(ev).phase == (Phase::<V>::BeforeHooks { next: 0 })
            && ((ev matches DriverEvent::HandlerReturned { ctl: LoopCtl::Skip }) || (ev
            is IterationDone))),
{
}

} // verus!
