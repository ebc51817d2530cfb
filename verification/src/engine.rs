//! The whole engine: one forwarder per normalized source, all funneled
//! through the rendezvous channel into the driver loop. The run is
//! deterministic given a schedule (which ready forwarder's send the scheduler
//! accepts at each step) and the signals the handlers return; everything the
//! loop does is recorded in the trace.

use vstd::prelude::*;

use crate::channel::Channel;
use crate::channel::Recv;
use crate::config::SourceSpec;
use crate::config::normalize_source;
use crate::control::LoopCtl;
use crate::control::Termination;
use crate::control::TraceEvent;
use crate::control::count_after_events;
use crate::control::count_before_events;
use crate::control::dispatches_of;
use crate::control::dispatched_to;
use crate::control::exhausted_hooks_of;
use crate::control::lemma_tag_count_dispatched;
use crate::control::lemma_trace_push;
use crate::control::tag_count;
use crate::driver::Driver;
use crate::driver::Phase;
use crate::forwarder::Forwarder;
use crate::forwarder::lemma_all_released_no_handles;
use crate::forwarder::lemma_sent_vs_capacity;
use crate::forwarder::lemma_sums_push;
use crate::forwarder::lemma_sums_update;
use crate::forwarder::live_handles;
use crate::forwarder::total_capacity;
use crate::forwarder::total_sent;
use vstd::pervasive::VecAdditionalExecFns;

verus! {

/// What one loop run leaves behind: the full event trace, the terminal
/// outcome, and the final state of every forwarder.
pub struct RunReport<T, V> {
    pub trace: Vec<TraceEvent<T>>,
    pub outcome: Termination<V>,
    pub forwarders: Vec<Forwarder>,
}

/// The signal the handler of the `k`-th dispatched item returns; a handler
/// beyond the scripted signals continues normally.
pub open spec fn signal_at<V>(signals: Seq<LoopCtl<V>>, k: int) -> LoopCtl<V> {
    if 0 <= k < signals.len() {
        signals[k]
    } else {
        LoopCtl::Advance
    }
}

/// Every scripted signal respects the construction-time type constraint.
pub open spec fn signals_wf<V>(signals: Seq<LoopCtl<V>>, n_exhausted: nat) -> bool {
    forall|k: int| (#[trigger] signal_at(signals, k)).wf(n_exhausted)
}

/// After the dispatches in `d.take(x)`, source `g` is the lowest-numbered
/// one that still has an item to send.
pub open spec fn is_lowest_ready<T>(
    d: Seq<(usize, T)>,
    sources: Seq<SourceSpec<T>>,
    x: int,
    g: usize,
) -> bool {
    &&& g < sources.len()
    &&& tag_count(d.take(x), g) < sources[g as int].items().len()
    &&& forall|h: usize|
        h < g ==> #[trigger] tag_count(d.take(x), h) >= sources[h as int].items().len()
}

/// The scheduler's choice is honored: whenever the schedule entry for the
/// `x`-th rendezvous names a source that still had items to send, the `x`-th
/// dispatched item came from that very source; with no such entry, it came
/// from the lowest-numbered source with items left.
pub open spec fn sched_honored<T>(
    d: Seq<(usize, T)>,
    schedule: Seq<usize>,
    sources: Seq<SourceSpec<T>>,
    x: int,
) -> bool
    recommends
        0 <= x < d.len(),
{
    if (x < schedule.len() && schedule[x] < sources.len() && tag_count(d.take(x), schedule[x])
        < sources[schedule[x] as int].items().len()) {
        d[x].0 == schedule[x]
    } else {
        is_lowest_ready(d, sources, x, d[x].0)
    }
}

/// How many of the first `upto` dispatched items were answered with a plain
/// continue — the dispatches whose iterations reach the after-hooks.
pub open spec fn advance_count<V>(signals: Seq<LoopCtl<V>>, upto: int) -> nat
    decreases upto,
{
    if upto <= 0 {
        0nat
    } else {
        advance_count(signals, upto - 1) + if signal_at(signals, upto - 1) is Advance {
            1nat
        } else {
            0nat
        }
    }
}

/// The total number of items the declared sources produce.
pub open spec fn total_items<T>(sources: Seq<SourceSpec<T>>) -> nat
    decreases sources.len(),
{
    if sources.len() == 0 {
        0nat
    } else {
        total_items(sources.drop_last()) + sources.last().items().len()
    }
}

/// The value natural exhaustion yields: every exhausted-hook runs, earlier
/// values are discarded, and only the last hook's value is kept; with no
/// exhausted-hook declared, the result is empty.
pub open spec fn last_exhausted_value<V>(values: Seq<V>) -> Option<V> {
    if values.len() == 0 {
        None
    } else {
        Some(values.last())
    }
}

/// When each forwarder's capacity matches its source's item count, the
/// capacity total is the sources' item total.
proof fn lemma_capacity_matches<T>(fwds: Seq<Forwarder>, sources: Seq<SourceSpec<T>>)
    requires
        fwds.len() == sources.len(),
        forall|t: int| 0 <= t < fwds.len() ==> (#[trigger] fwds[t]).total
            == sources[t].items().len(),
    ensures
        total_capacity(fwds) == total_items(sources),
    decreases fwds.len(),
{
    if fwds.len() > 0 {
        assert(forall|t: int|
            0 <= t < fwds.drop_last().len() ==> #[trigger] fwds.drop_last()[t] == fwds[t]);
        lemma_capacity_matches(fwds.drop_last(), sources.drop_last());
    }
}

/// A forwarder that still holds its producer handle keeps the channel's
/// handle count above zero.
proof fn lemma_live_handle_present(fwds: Seq<Forwarder>, j: int)
    requires
        0 <= j < fwds.len(),
        !fwds[j].released,
    ensures
        live_handles(fwds) >= 1,
    decreases fwds.len(),
{
    if j < fwds.len() - 1 {
        assert(fwds.drop_last()[j] == fwds[j]);
        lemma_live_handle_present(fwds.drop_last(), j);
    }
}

/// Run the select loop to its terminal state.
///
/// The sources are normalized once, a forwarder is spawned per source (each
/// with its own clone of the channel's producer handle), and the driver's own
/// producer handle is released before the first receive. `schedule[k]` names
/// the forwarder whose send the scheduler accepts at the `k`-th rendezvous;
/// an absent or not-ready entry falls back to the lowest ready forwarder.
/// `signals[k]` is the signal the handler of the `k`-th dispatched item
/// returns; absent entries continue normally. `exhausted_values[j]` is the
/// value the `j`-th exhausted-hook produces.
///
/// The contract states, for every configuration: each source's items are
/// dispatched to that source's own handler in production order, and the
/// cross-source interleaving follows the schedule wherever its entry names a
/// source with items left; the loop
/// exhausts exactly when no dispatched handler terminated it, and then every
/// item of every source has been dispatched, every exhausted-hook has run
/// once in declared order, and the last hook's value is the result; an early
/// termination ends the loop at the terminating handler's signal with no
/// exhausted-hook run; on early exit exactly the forwarders whose sources had
/// not finished are cancelled, and on every exit path every producer handle
/// has been released; and with no sources at all the loop exhausts at once
/// without dispatching anything.
#[verifier::loop_isolation(false)]
pub fn run_select_loop<T: Copy, V: Copy>(
    sources: Vec<SourceSpec<T>>,
    schedule: &Vec<usize>,
    signals: &Vec<LoopCtl<V>>,
    n_before: usize,
    n_after: usize,
    exhausted_values: &Vec<V>,
) -> (r: RunReport<T, V>)
    requires
        signals_wf(signals@, exhausted_values@.len()),
        sources@.len() < usize::MAX,
        total_items(sources@) <= usize::MAX,
    ensures
        r.forwarders@.len() == sources@.len(),
        forall|t: int| 0 <= t < sources@.len() ==> (#[trigger] r.forwarders@[t]).tag == t,
        forall|t: int| 0 <= t < sources@.len() ==> (#[trigger] r.forwarders@[t]).total
            == sources@[t].items().len(),
        forall|t: int| 0 <= t < sources@.len() ==> (#[trigger] r.forwarders@[t]).sent
            <= r.forwarders@[t].total,
        forall|t: int| 0 <= t < sources@.len() ==> #[trigger] dispatched_to(r.trace@, t as usize)
            == sources@[t].items().take(r.forwarders@[t].sent as int),
        dispatches_of(r.trace@).len() == total_sent(r.forwarders@),
        (r.outcome is Exhausted) <==> (forall|j: int|
            0 <= j < dispatches_of(r.trace@).len() ==> !((#[trigger] signal_at(signals@, j))
                is Terminate)),
        (r.outcome is Exhausted) ==> forall|t: int|
            0 <= t < sources@.len() ==> (#[trigger] r.forwarders@[t]).sent
                == r.forwarders@[t].total,
        (r.outcome is Exhausted) ==> dispatches_of(r.trace@).len() == total_items(sources@),
        (r.outcome is Exhausted) ==> forall|t: int|
            0 <= t < sources@.len() ==> #[trigger] dispatched_to(r.trace@, t as usize)
                == sources@[t].items(),
        (r.outcome is Exhausted) ==> r.outcome == Termination::Exhausted(
            last_exhausted_value(exhausted_values@),
        ),
        (r.outcome is Exhausted) ==> exhausted_hooks_of(r.trace@) == Seq::new(
            exhausted_values@.len(),
            |i: int| i as usize,
        ),
        (r.outcome matches Termination::EarlyExit(v) ==> dispatches_of(r.trace@).len() > 0
            && signal_at(signals@, dispatches_of(r.trace@).len() - 1) == LoopCtl::Terminate(v)),
        (r.outcome is EarlyExit) ==> forall|j: int|
            0 <= j < dispatches_of(r.trace@).len() - 1 ==> !((#[trigger] signal_at(signals@, j))
                is Terminate),
        (r.outcome is EarlyExit) ==> exhausted_hooks_of(r.trace@) == Seq::<usize>::empty(),
        forall|t: int| 0 <= t < sources@.len() ==> ((#[trigger] r.forwarders@[t]).cancelled <==> (
        r.outcome is EarlyExit) && r.forwarders@[t].sent < r.forwarders@[t].total),
        forall|t: int| 0 <= t < sources@.len() ==> (#[trigger] r.forwarders@[t]).released,
        sources@.len() == 0 ==> (r.outcome is Exhausted) && dispatches_of(r.trace@).len() == 0,
        (forall|j: int| 0 <= j < signals@.len() ==> !((#[trigger] signals@[j]) is Terminate)) ==> (
        r.outcome is Exhausted) && dispatches_of(r.trace@).len() == total_items(sources@),
        (r.outcome is Exhausted) ==> count_before_events(r.trace@) == n_before * (dispatches_of(
            r.trace@,
        ).len() + 1),
        (r.outcome is EarlyExit) ==> count_before_events(r.trace@) == n_before * dispatches_of(
            r.trace@,
        ).len(),
        count_after_events(r.trace@) == n_after * advance_count(
            signals@,
            dispatches_of(r.trace@).len() as int,
        ),
        forall|x: int|
            0 <= x < dispatches_of(r.trace@).len() ==> #[trigger] sched_honored(
                dispatches_of(r.trace@),
                schedule@,
                sources@,
                x,
            ),
{
    let ghost src0 = sources@;
    let n = sources.len();

    // Normalization: every source becomes a plain item sequence.
    let mut pending = sources;
    let mut items: Vec<Vec<T>> = Vec::new();
    while pending.len() > 0
        invariant
            items@.len() + pending@.len() == n,
            forall|j: int| 0 <= j < items@.len() ==> (#[trigger] items@[j])@ == src0[j].items(),
            forall|j: int| 0 <= j < pending@.len() ==> #[trigger] pending@[j] == src0[items@.len()
                + j],
        decreases pending@.len(),
    {
        let s = pending.remove(0);
        items.push(normalize_source(s));
    }

    // Spawn: one forwarder per source, each holding a fresh clone of the
    // channel's producer handle; a forwarder whose source is already
    // exhausted terminates at once, releasing its handle.
    let mut chan: Channel<T> = Channel::new();
    let mut fwds: Vec<Forwarder> = Vec::new();
    let mut t: usize = 0;
    while t < n
        invariant
            t <= n,
            fwds@.len() == t,
            chan.wf(),
            chan.consumer_live(),
            (chan.pending() is None),
            chan.accepted_log() == Seq::<(usize, T)>::empty(),
            chan.producer_handles() == 1 + live_handles(fwds@),
            live_handles(fwds@) <= fwds@.len(),
            total_sent(fwds@) == 0,
            forall|j: int| 0 <= j < t ==> (#[trigger] fwds@[j]).tag == j,
            forall|j: int| 0 <= j < t ==> (#[trigger] fwds@[j]).total == items@[j]@.len(),
            forall|j: int| 0 <= j < t ==> (#[trigger] fwds@[j]).sent == 0,
            forall|j: int| 0 <= j < t ==> !(#[trigger] fwds@[j]).cancelled,
            forall|j: int| 0 <= j < t ==> ((#[trigger] fwds@[j]).released <==> fwds@[j].total
                == 0),
        decreases n - t,
    {
        chan.clone_producer();
        let count = items[t].len();
        let mut f = Forwarder::new(t, count);
        if count == 0 {
            f.finish(&mut chan);
        }
        proof {
            lemma_sums_push(fwds@, f);
        }
        fwds.push(f);
        t = t + 1;
    }

    // The driver releases its own producer handle before the first receive:
    // closure is driven solely by forwarder completion.
    chan.release_producer();

    let mut driver: Driver<V> = Driver::new(n_before, n_after, exhausted_values.len(), n);
    let mut trace: Vec<TraceEvent<T>> = Vec::new();
    let mut k: usize = 0;
    let outcome: Termination<V>;

    loop
        invariant
            fwds@.len() == n,
            forall|j: int| 0 <= j < n ==> (#[trigger] fwds@[j]).tag == j,
            forall|j: int| 0 <= j < n ==> (#[trigger] fwds@[j]).total == items@[j]@.len(),
            forall|j: int| 0 <= j < n ==> (#[trigger] fwds@[j]).sent <= fwds@[j].total,
            forall|j: int| 0 <= j < n ==> !(#[trigger] fwds@[j]).cancelled,
            forall|j: int| 0 <= j < n ==> ((#[trigger] fwds@[j]).released <==> fwds@[j].sent
                == fwds@[j].total),
            chan.wf(),
            chan.consumer_live(),
            (chan.pending() is None),
            chan.producer_handles() == live_handles(fwds@),
            chan.accepted_log() == dispatches_of(trace@),
            driver.n_before == n_before,
            driver.n_after == n_after,
            driver.n_exhausted == exhausted_values@.len(),
            driver.n_sources == n,
            driver.phase == (Phase::<V>::BeforeHooks { next: 0 }),
            forall|g: usize| g < n ==> #[trigger] dispatched_to(trace@, g)
                == src0[g as int].items().take(fwds@[g as int].sent as int),
            dispatches_of(trace@).len() == k,
            k == total_sent(fwds@),
            k <= total_items(src0),
            exhausted_hooks_of(trace@) == Seq::<usize>::empty(),
            forall|j: int| 0 <= j < k ==> !((#[trigger] signal_at(signals@, j)) is Terminate),
            count_before_events(trace@) == n_before * k,
            count_after_events(trace@) == n_after * advance_count(signals@, k as int),
            forall|x: int|
                0 <= x < k ==> #[trigger] sched_honored(dispatches_of(trace@), schedule@, src0, x),
        decreases total_items(src0) - k,
    {
        // Before-hooks, in declared order, ahead of the wait — in every
        // iteration, including the first.
        let ghost trace_iter = trace@;
        let mut b: usize = 0;
        while b < n_before
            invariant
                b <= n_before,
                driver.n_before == n_before,
                driver.n_after == n_after,
                driver.n_exhausted == exhausted_values@.len(),
                driver.n_sources == n,
                driver.phase == (Phase::<V>::BeforeHooks { next: b }),
                dispatches_of(trace@) == dispatches_of(trace_iter),
                forall|g: usize| #[trigger] dispatched_to(trace@, g) == dispatched_to(
                    trace_iter,
                    g,
                ),
                exhausted_hooks_of(trace@) == exhausted_hooks_of(trace_iter),
                count_before_events(trace@) == count_before_events(trace_iter) + b,
                count_after_events(trace@) == count_after_events(trace_iter),
            decreases n_before - b,
        {
            driver.before_hook_done();
            let ghost tpre = trace@;
            trace.push(TraceEvent::BeforeHook(b));
            proof {
                lemma_trace_push(tpre, TraceEvent::<T>::BeforeHook(b));
            }
            b = b + 1;
        }
        driver.start_wait();

        // Which forwarders could send? The scheduler accepts the scheduled
        // one if it is ready, else the lowest ready one.
        let mut ready: Option<usize> = None;
        let mut scan: usize = 0;
        while scan < n
            invariant
                scan <= n,
                (ready matches Some(p) ==> p < n && fwds@[p as int].sent < fwds@[p as int].total),
                (ready matches Some(p) ==> forall|j: int|
                    0 <= j < p ==> !((#[trigger] fwds@[j]).sent < fwds@[j].total)),
                (ready is None ==> forall|j: int|
                    0 <= j < scan ==> !((#[trigger] fwds@[j]).sent < fwds@[j].total)),
            decreases n - scan,
        {
            if ready.is_none() && fwds[scan].sent < fwds[scan].total {
                ready = Some(scan);
            }
            scan = scan + 1;
        }

        match ready {
            None => {
                // Every source is exhausted and every producer handle has
                // been released: the channel reports closure.
                proof {
                    assert forall|j: int| 0 <= j < n implies (#[trigger] fwds@[j]).released by {
                        assert(fwds@[j].sent == fwds@[j].total);
                    }
                    lemma_all_released_no_handles(fwds@);
                }
                driver.channel_closed();
                let got = chan.receive();
                match got {
                    Recv::Item(_, _) => {
                        proof {
                            assert(false);
                        }
                    },
                    Recv::Closed => {},
                }

                // Exhausted-hooks, in declared order; only the last value is
                // kept.
                let n_exh = exhausted_values.len();
                let ghost trace_closed = trace@;
                let mut j: usize = 0;
                while j < n_exh
                    invariant
                        j <= n_exh,
                        driver.n_before == n_before,
                        driver.n_after == n_after,
                        driver.n_exhausted == n_exh,
                        driver.n_sources == n,
                        driver.phase == (Phase::<V>::ExhaustedHooks {
                            next: j,
                            last: (if j == 0 {
                                None
                            } else {
                                Some(exhausted_values@[j - 1])
                            }),
                        }),
                        dispatches_of(trace@) == dispatches_of(trace_closed),
                        forall|g: usize| #[trigger] dispatched_to(trace@, g) == dispatched_to(
                            trace_closed,
                            g,
                        ),
                        exhausted_hooks_of(trace@) == Seq::new(j as nat, |i: int| i as usize),
                        count_before_events(trace@) == count_before_events(trace_closed),
                        count_after_events(trace@) == count_after_events(trace_closed),
                    decreases n_exh - j,
                {
                    let value = exhausted_values[j];
                    driver.exhausted_hook_done(value);
                    let ghost tpre = trace@;
                    trace.push(TraceEvent::ExhaustedHook(j));
                    proof {
                        lemma_trace_push(tpre, TraceEvent::<T>::ExhaustedHook(j));
                        assert(exhausted_hooks_of(trace@) =~= Seq::new(
                            (j + 1) as nat,
                            |i: int| i as usize,
                        ));
                    }
                    j = j + 1;
                }
                driver.exhausted_done();
                let oc = match driver.phase {
                    Phase::Done { outcome: oc } => oc,
                    _ => {
                        proof {
                            assert(false);
                        }
                        Termination::Exhausted(None)
                    },
                };
                proof {
                    assert((n_before as int) * ((k as int) + 1) == (n_before as int) * (k as int)
                        + (n_before as int)) by (nonlinear_arith);
                    lemma_sent_vs_capacity(fwds@);
                    lemma_capacity_matches(fwds@, src0);
                    assert forall|g: int| 0 <= g < n implies #[trigger] dispatched_to(
                        trace@,
                        g as usize,
                    ) == src0[g].items() by {
                        assert(dispatched_to(trace@, g as usize) == src0[g].items().take(
                            fwds@[g].sent as int,
                        ));
                        assert(src0[g].items().take(fwds@[g].sent as int) =~= src0[g].items());
                    }
                }
                outcome = oc;
                break ;
            },
            Some(low) => {
                // The rendezvous: the scheduled (or lowest ready) forwarder's
                // send is accepted, and the driver receives that very item.
                let mut pick = low;
                if k < schedule.len() {
                    let cand = schedule[k];
                    if cand < n && fwds[cand].sent < fwds[cand].total {
                        pick = cand;
                    }
                }
                let ghost fwds_pre = fwds@;
                let mut f = fwds[pick];
                let item = items[pick][f.sent];
                proof {
                    lemma_live_handle_present(fwds@, pick as int);
                }
                let ok = f.forward_step(&mut chan, item);
                proof {
                    // The driver loop is still consuming, so the rendezvous
                    // send is accepted.
                    assert(ok);
                }
                if f.sent == f.total {
                    // The source is exhausted: the forwarder terminates
                    // normally right after this send, releasing its handle.
                    f.finish(&mut chan);
                }
                fwds.set(pick, f);
                proof {
                    lemma_sums_update(fwds_pre, pick as int, f);
                    lemma_sent_vs_capacity(fwds@);
                    lemma_capacity_matches(fwds@, src0);
                }

                let got = chan.receive();
                match got {
                    Recv::Item(tag, value) => {
                        driver.item_arrived(tag);
                        let ghost tpre = trace@;
                        trace.push(TraceEvent::Dispatch(tag, value));
                        proof {
                            lemma_trace_push(tpre, TraceEvent::Dispatch(tag, value));
                            assert(src0[pick as int].items().take(f.sent as int) =~= src0[
                                pick as int].items().take((f.sent - 1) as int).push(item));
                            let d_old = dispatches_of(tpre);
                            let d_new = dispatches_of(trace@);
                            assert(d_new == d_old.push((tag, value)));
                            assert forall|x: int| 0 <= x < k + 1 implies #[trigger] sched_honored(
                                d_new,
                                schedule@,
                                src0,
                                x,
                            ) by {
                                if x < k {
                                    assert(d_new.take(x) =~= d_old.take(x));
                                    assert(sched_honored(d_old, schedule@, src0, x));
                                } else {
                                    assert(d_new.take(x) =~= d_old);
                                    if x < schedule@.len() && schedule@[x] < n {
                                        let cand = schedule@[x];
                                        lemma_tag_count_dispatched(tpre, cand);
                                        assert(dispatched_to(tpre, cand) == src0[
                                        cand as int].items().take(
                                            fwds_pre[cand as int].sent as int,
                                        ));
                                        assert(tag_count(d_old, cand) == fwds_pre[
                                        cand as int].sent);
                                    }
                                    if !(x < schedule@.len() && schedule@[x] < src0.len()
                                        && tag_count(d_old, schedule@[x]) < src0[
                                    schedule@[x] as int].items().len()) {
                                        // The schedule named no ready source:
                                        // the lowest ready one sent instead.
                                        lemma_tag_count_dispatched(tpre, pick);
                                        assert(tag_count(d_old, pick) == fwds_pre[
                                        pick as int].sent);
                                        assert forall|h: usize| h < pick implies #[trigger]
                                            tag_count(d_old, h) >= src0[
                                        h as int].items().len() by {
                                            lemma_tag_count_dispatched(tpre, h);
                                            assert(dispatched_to(tpre, h) == src0[
                                            h as int].items().take(fwds_pre[h as int].sent as int));
                                            assert(!(fwds_pre[h as int].sent < fwds_pre[
                                            h as int].total));
                                        }
                                        assert(is_lowest_ready(d_new, src0, x, pick));
                                    }
                                }
                            }
                        }
                        let ctl = if k < signals.len() {
                            signals[k]
                        } else {
                            LoopCtl::Advance
                        };
                        proof {
                            assert(ctl == signal_at(signals@, k as int));
                        }
                        driver.handler_returned(ctl);
                        proof {
                            let adv = advance_count(signals@, k as int) as int;
                            assert((n_before as int) * ((k as int) + 1) == (n_before as int) * (
                            k as int) + (n_before as int)) by (nonlinear_arith);
                            assert((n_after as int) * (adv + 1) == (n_after as int) * adv + (
                            n_after as int)) by (nonlinear_arith);
                            assert(advance_count(signals@, k + 1int) == advance_count(
                                signals@,
                                k as int,
                            ) + (if signal_at(signals@, k as int) is Advance {
                                1nat
                            } else {
                                0nat
                            }));
                        }
                        k = k + 1;
                        match ctl {
                            LoopCtl::Advance => {
                                // After-hooks run only on a normal handler
                                // completion.
                                let ghost trace_disp = trace@;
                                let mut a: usize = 0;
                                while a < n_after
                                    invariant
                                        a <= n_after,
                                        driver.n_before == n_before,
                                        driver.n_after == n_after,
                                        driver.n_exhausted == exhausted_values@.len(),
                                        driver.n_sources == n,
                                        driver.phase == (Phase::<V>::AfterHooks { next: a }),
                                        dispatches_of(trace@) == dispatches_of(trace_disp),
                                        forall|g: usize| #[trigger] dispatched_to(trace@, g)
                                            == dispatched_to(trace_disp, g),
                                        exhausted_hooks_of(trace@) == exhausted_hooks_of(
                                            trace_disp,
                                        ),
                                        count_before_events(trace@) == count_before_events(
                                            trace_disp,
                                        ),
                                        count_after_events(trace@) == count_after_events(
                                            trace_disp,
                                        ) + a,
                                    decreases n_after - a,
                                {
                                    driver.after_hook_done();
                                    let ghost tpre2 = trace@;
                                    trace.push(TraceEvent::AfterHook(a));
                                    proof {
                                        lemma_trace_push(tpre2, TraceEvent::<T>::AfterHook(a));
                                    }
                                    a = a + 1;
                                }
                                driver.iteration_done();
                            },
                            LoopCtl::Skip => {
                                // Straight to the next iteration: the
                                // after-hooks of this iteration are bypassed.
                            },
                            LoopCtl::Terminate(value) => {
                                // Early exit: every forwarder whose source
                                // has not finished is cancelled on the spot.
                                let ghost fwds_cancel = fwds@;
                                let mut c: usize = 0;
                                while c < n
                                    invariant
                                        c <= n,
                                        fwds@.len() == n,
                                        forall|j: int| 0 <= j < n ==> (#[trigger] fwds@[j]).tag
                                            == j,
                                        forall|j: int| 0 <= j < n ==> (#[trigger] fwds@[j]).total
                                            == items@[j]@.len(),
                                        forall|j: int| 0 <= j < n ==> (#[trigger] fwds@[j]).sent
                                            <= fwds@[j].total,
                                        forall|j: int| c <= j < n ==> !(#[trigger] fwds@[j])
                                            .cancelled,
                                        forall|j: int| c <= j < n ==> ((#[trigger] fwds@[j])
                                            .released <==> fwds@[j].sent == fwds@[j].total),
                                        forall|j: int| 0 <= j < c ==> ((#[trigger] fwds@[j])
                                            .cancelled <==> fwds@[j].sent < fwds@[j].total),
                                        forall|j: int| 0 <= j < c ==> (#[trigger] fwds@[j])
                                            .released,
                                        forall|j: int| 0 <= j < n ==> (#[trigger] fwds@[j]).sent
                                            == fwds_cancel[j].sent,
                                        total_sent(fwds@) == k,
                                    decreases n - c,
                                {
                                    let ghost fwds_step = fwds@;
                                    let mut fc = fwds[c];
                                    if fc.sent < fc.total {
                                        fc.cancel();
                                        fwds.set(c, fc);
                                        proof {
                                            lemma_sums_update(fwds_step, c as int, fc);
                                        }
                                    }
                                    c = c + 1;
                                }
                                outcome = Termination::EarlyExit(value);
                                break ;
                            },
                        }
                    },
                    Recv::Closed => {
                        proof {
                            assert(false);
                        }
                    },
                }
            },
        }
    }

    RunReport { trace, outcome, forwarders: fwds }
}

} // verus!
