//! Control-flow signals exchanged between the driver loop and the handlers,
//! the loop's terminal outcome, and the event trace a loop run leaves behind.

use vstd::prelude::*;

verus! {

/// The signal a handler returns to the driver loop after being dispatched an
/// item: continue normally (run the after-hooks, then start the next
/// iteration), skip the rest of this iteration, or terminate the whole loop,
/// optionally carrying the loop's result value.
#[derive(Clone, Copy, Debug, PartialEq, Eq)]
pub enum LoopCtl<V> {
    Advance,
    Skip,
    Terminate(Option<V>),
}

impl<V> LoopCtl<V> {
    /// The construction-time type constraint: when no exhausted-hook is
    /// declared the loop's result type is empty, so an explicit termination
    /// may not carry a value.
    pub open spec fn wf(self, n_exhausted: nat) -> bool {
        self matches LoopCtl::Terminate(Some(_)) ==> n_exhausted > 0
    }
}

/// How a loop run ended: an explicit early termination requested by a
/// handler, or natural exhaustion once every source had completed.
#[derive(Clone, Copy, Debug, PartialEq, Eq)]
pub enum Termination<V> {
    EarlyExit(Option<V>),
    Exhausted(Option<V>),
}

/// One observable step of a loop run: a before-hook, the dispatch of a tagged
/// item to the handler registered for that tag, an after-hook, or an
/// exhausted-hook. Hook events carry the hook's index in declaration order.
#[derive(Clone, Copy, Debug, PartialEq, Eq)]
pub enum TraceEvent<T> {
    BeforeHook(usize),
    Dispatch(usize, T),
    AfterHook(usize),
    ExhaustedHook(usize),
}

/// The tagged items dispatched over a trace, in dispatch order.
pub open spec fn dispatches_of<T>(tr: Seq<TraceEvent<T>>) -> Seq<(usize, T)>
    decreases tr.len(),
{
    if tr.len() == 0 {
        Seq::empty()
    } else {
        let rest = dispatches_of(tr.drop_last());
        match tr.last() {
            TraceEvent::Dispatch(tag, value) => rest.push((tag, value)),
            _ => rest,
        }
    }
}

/// The items dispatched to the handler of one tag, in dispatch order.
pub open spec fn dispatched_to<T>(tr: Seq<TraceEvent<T>>, tag: usize) -> Seq<T>
    decreases tr.len(),
{
    if tr.len() == 0 {
        Seq::empty()
    } else {
        let rest = dispatched_to(tr.drop_last(), tag);
        match tr.last() {
            TraceEvent::Dispatch(t, value) => if t == tag {
                rest.push(value)
            } else {
                rest
            },
            _ => rest,
        }
    }
}

/// The indices of the exhausted-hook events of a trace, in trace order.
pub open spec fn exhausted_hooks_of<T>(tr: Seq<TraceEvent<T>>) -> Seq<usize>
    decreases tr.len(),
{
    if tr.len() == 0 {
        Seq::empty()
    } else {
        let rest = exhausted_hooks_of(tr.drop_last());
        match tr.last() {
            TraceEvent::ExhaustedHook(i) => rest.push(i),
            _ => rest,
        }
    }
}

/// How many of the dispatches in `d` came from the source `tag`.
pub open spec fn tag_count<T>(d: Seq<(usize, T)>, tag: usize) -> nat
    decreases d.len(),
{
    if d.len() == 0 {
        0nat
    } else {
        tag_count(d.drop_last(), tag) + if d.last().0 == tag {
            1nat
        } else {
            0nat
        }
    }
}

/// Counting one tag among a trace's dispatches agrees with the length of
/// that tag's dispatched-item sequence.
pub proof fn lemma_tag_count_dispatched<T>(tr: Seq<TraceEvent<T>>, tag: usize)
    ensures
        tag_count(dispatches_of(tr), tag) == dispatched_to(tr, tag).len(),
    decreases tr.len(),
{
    if tr.len() > 0 {
        lemma_tag_count_dispatched(tr.drop_last(), tag);
        match tr.last() {
            TraceEvent::Dispatch(t, x) => {
                assert(dispatches_of(tr).drop_last() =~= dispatches_of(tr.drop_last()));
            },
            _ => {},
        }
    }
}

/// How many before-hook events a trace holds.
pub open spec fn count_before_events<T>(tr: Seq<TraceEvent<T>>) -> nat
    decreases tr.len(),
{
    if tr.len() == 0 {
        0nat
    } else {
        count_before_events(tr.drop_last()) + if tr.last() is BeforeHook {
            1nat
        } else {
            0nat
        }
    }
}

/// How many after-hook events a trace holds.
pub open spec fn count_after_events<T>(tr: Seq<TraceEvent<T>>) -> nat
    decreases tr.len(),
{
    if tr.len() == 0 {
        0nat
    } else {
        count_after_events(tr.drop_last()) + if tr.last() is AfterHook {
            1nat
        } else {
            0nat
        }
    }
}

/// What one appended event contributes to the items dispatched to tag `g`.
pub open spec fn dispatched_to_after<T>(
    so_far: Seq<T>,
    e: TraceEvent<T>,
    g: usize,
) -> Seq<T> {
    match e {
        TraceEvent::Dispatch(t, x) => if t == g {
            so_far.push(x)
        } else {
            so_far
        },
        _ => so_far,
    }
}

/// Appending one event to a trace extends each projection of the trace by
/// exactly that event's contribution.
pub proof fn lemma_trace_push<T>(tr: Seq<TraceEvent<T>>, e: TraceEvent<T>)
    ensures
        !(e is Dispatch) ==> dispatches_of(tr.push(e)) == dispatches_of(tr),
        e matches TraceEvent::Dispatch(t, x) ==> dispatches_of(tr.push(e))
            == dispatches_of(tr).push((t, x)),
        forall|g: usize|
            #[trigger] dispatched_to(tr.push(e), g) == dispatched_to_after(
                dispatched_to(tr, g),
                e,
                g,
            ),
        !(e is ExhaustedHook) ==> exhausted_hooks_of(tr.push(e)) == exhausted_hooks_of(tr),
        e matches TraceEvent::ExhaustedHook(i) ==> exhausted_hooks_of(tr.push(e))
            == exhausted_hooks_of(tr).push(i),
        count_before_events(tr.push(e)) == count_before_events(tr) + (if e is BeforeHook {
            1nat
        } else {
            0nat
        }),
        count_after_events(tr.push(e)) == count_after_events(tr) + (if e is AfterHook {
            1nat
        } else {
            0nat
        }),
{
    assert(tr.push(e).drop_last() =~= tr);
    assert(tr.push(e).last() == e);
}

} // verus!
