use select_loop::config::SourceSpec;
use select_loop::control::LoopCtl;
use select_loop::control::Termination;
use select_loop::control::TraceEvent;
use select_loop::engine::run_select_loop;

fn dispatched_values<T: Copy, V>(
    report: &select_loop::engine::RunReport<T, V>,
) -> Vec<(usize, T)> {
    let mut log = Vec::new();
    for e in report.trace.iter() {
        if let TraceEvent::Dispatch(tag, value) = e {
            log.push((*tag, *value));
        }
    }
    log
}

#[test]
fn no_sources_exhausts_immediately() {
    // Zero sources: the loop observes closure at once, runs the
    // exhausted-hooks, and never invokes any handler.
    let sources: Vec<SourceSpec<u64>> = Vec::new();
    let report = run_select_loop::<u64, u64>(sources, &vec![], &vec![], 1, 1, &vec![42]);
    assert_eq!(report.outcome, Termination::Exhausted(Some(42)));
    assert_eq!(dispatched_values(&report), vec![]);
    // The first iteration still ran its before-hook ahead of the wait.
    assert_eq!(
        report.trace,
        vec![TraceEvent::BeforeHook(0), TraceEvent::ExhaustedHook(0)]
    );
}

#[test]
fn no_sources_no_exhausted_hook_yields_empty_value() {
    let sources: Vec<SourceSpec<u64>> = Vec::new();
    let report = run_select_loop::<u64, u64>(sources, &vec![], &vec![], 0, 0, &vec![]);
    assert_eq!(report.outcome, Termination::Exhausted(None));
    assert!(report.trace.is_empty());
}

#[test]
fn all_items_dispatched_once_then_exhausted() {
    // Two finite sources, no handler terminating: the exhausted path fires
    // exactly once, after exactly the sum of all items has been dispatched,
    // each to its own handler.
    let sources = vec![
        SourceSpec::Sequence(vec![10u64, 11, 12]),
        SourceSpec::Sequence(vec![20u64, 21]),
    ];
    let report = run_select_loop::<u64, u64>(sources, &vec![], &vec![], 0, 0, &vec![7]);
    assert_eq!(report.outcome, Termination::Exhausted(Some(7)));
    let log = dispatched_values(&report);
    assert_eq!(log.len(), 5);
    let to_a: Vec<u64> = log.iter().filter(|(t, _)| *t == 0).map(|(_, v)| *v).collect();
    let to_b: Vec<u64> = log.iter().filter(|(t, _)| *t == 1).map(|(_, v)| *v).collect();
    assert_eq!(to_a, vec![10, 11, 12]);
    assert_eq!(to_b, vec![20, 21]);
    // The exhausted-hook events appear exactly once, at the end.
    let hooks: Vec<&TraceEvent<u64>> = report
        .trace
        .iter()
        .filter(|e| matches!(e, TraceEvent::ExhaustedHook(_)))
        .collect();
    assert_eq!(hooks.len(), 1);
    assert_eq!(*report.trace.last().unwrap(), TraceEvent::ExhaustedHook(0));
}

#[test]
fn hooks_run_in_order_every_iteration() {
    // Before-hooks run ahead of the wait in every iteration, including the
    // very first; after-hooks follow a normal handler completion.
    let sources = vec![SourceSpec::Value(5u64)];
    let report = run_select_loop::<u64, u64>(sources, &vec![], &vec![], 2, 1, &vec![0]);
    assert_eq!(
        report.trace,
        vec![
            TraceEvent::BeforeHook(0),
            TraceEvent::BeforeHook(1),
            TraceEvent::Dispatch(0, 5),
            TraceEvent::AfterHook(0),
            TraceEvent::BeforeHook(0),
            TraceEvent::BeforeHook(1),
            TraceEvent::ExhaustedHook(0),
        ]
    );
}

#[test]
fn skip_bypasses_after_hooks() {
    // A skip signal returns straight to the next iteration: no after-hook
    // event follows the dispatch it answered.
    let sources = vec![SourceSpec::Sequence(vec![1u64, 2])];
    let signals = vec![LoopCtl::Skip, LoopCtl::Advance];
    let report = run_select_loop::<u64, u64>(sources, &vec![], &signals, 0, 1, &vec![9]);
    assert_eq!(
        report.trace,
        vec![
            TraceEvent::Dispatch(0, 1),
            TraceEvent::Dispatch(0, 2),
            TraceEvent::AfterHook(0),
            TraceEvent::ExhaustedHook(0),
        ]
    );
    assert_eq!(report.outcome, Termination::Exhausted(Some(9)));
}

#[test]
fn early_termination_cancels_unfinished_forwarder() {
    // One source with items left, a second whose handler terminates the
    // loop: on exit the unfinished forwarder is cancelled, the finished one
    // completed naturally.
    let sources = vec![
        SourceSpec::Sequence(vec![1u64, 2, 3, 4]),
        SourceSpec::Value(100),
    ];
    // Schedule: one item of A, then B's single value; B's handler terminates.
    let schedule = vec![0, 1];
    let signals = vec![LoopCtl::Advance, LoopCtl::Terminate(Some(77u64))];
    let report = run_select_loop::<u64, u64>(sources, &schedule, &signals, 0, 0, &vec![0]);
    assert_eq!(report.outcome, Termination::EarlyExit(Some(77)));
    assert!(report.forwarders[0].cancelled);
    assert!(report.forwarders[0].released);
    assert!(!report.forwarders[1].cancelled);
    assert!(report.forwarders[1].released);
}

#[test]
fn interleaved_sources_keep_per_source_order() {
    // Sources A = [1,2,3] and B = single value 100; B's handler terminates
    // with "done" after all of A was handled: the log holds A's and B's
    // items in send order, A's own order preserved, the loop result is
    // "done", and the exhausted-hooks are not invoked.
    let sources = vec![
        SourceSpec::Sequence(vec![1u64, 2, 3]),
        SourceSpec::Value(100),
    ];
    let schedule = vec![0, 1, 0, 0];
    let signals = vec![
        LoopCtl::Advance,
        LoopCtl::Advance,
        LoopCtl::Advance,
        LoopCtl::Terminate(Some("done")),
    ];
    let report =
        run_select_loop::<u64, &str>(sources, &schedule, &signals, 0, 0, &vec!["unused"]);
    assert_eq!(report.outcome, Termination::EarlyExit(Some("done")));
    let log = dispatched_values(&report);
    assert_eq!(log, vec![(0, 1), (1, 100), (0, 2), (0, 3)]);
    let to_a: Vec<u64> = log.iter().filter(|(t, _)| *t == 0).map(|(_, v)| *v).collect();
    assert_eq!(to_a, vec![1, 2, 3]);
    assert!(!report
        .trace
        .iter()
        .any(|e| matches!(e, TraceEvent::ExhaustedHook(_))));
}

#[test]
fn empty_sequence_source_exhausts_without_dispatch() {
    // Source A = [] and one exhausted-hook returning 42: the result is 42
    // and no handler is ever invoked.
    let sources = vec![SourceSpec::Sequence(Vec::<u64>::new())];
    let report = run_select_loop::<u64, u64>(sources, &vec![], &vec![], 0, 0, &vec![42]);
    assert_eq!(report.outcome, Termination::Exhausted(Some(42)));
    assert_eq!(dispatched_values(&report), vec![]);
    assert_eq!(report.trace, vec![TraceEvent::ExhaustedHook(0)]);
}

#[test]
fn only_last_exhausted_hook_value_is_kept() {
    // Every exhausted-hook runs, in declared order, but earlier values are
    // discarded.
    let sources: Vec<SourceSpec<u64>> = Vec::new();
    let report = run_select_loop::<u64, u64>(sources, &vec![], &vec![], 0, 0, &vec![7, 8, 42]);
    assert_eq!(report.outcome, Termination::Exhausted(Some(42)));
    assert_eq!(
        report.trace,
        vec![
            TraceEvent::ExhaustedHook(0),
            TraceEvent::ExhaustedHook(1),
            TraceEvent::ExhaustedHook(2),
        ]
    );
}

#[test]
fn schedule_out_of_range_falls_back_to_ready_source() {
    // A schedule entry naming no ready forwarder is ignored: the lowest
    // ready source sends instead, and the run still drains everything.
    let sources = vec![SourceSpec::Sequence(vec![1u64]), SourceSpec::Value(9)];
    let schedule = vec![5, 5, 5];
    let report = run_select_loop::<u64, u64>(sources, &schedule, &vec![], 0, 0, &vec![1]);
    assert_eq!(report.outcome, Termination::Exhausted(Some(1)));
    assert_eq!(dispatched_values(&report), vec![(0, 1), (1, 9)]);
}
