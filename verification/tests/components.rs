use select_loop::channel::Channel;
use select_loop::channel::Recv;
use select_loop::config::normalize_source;
use select_loop::config::split_branches;
use select_loop::config::BranchDecl;
use select_loop::config::HookKind;
use select_loop::config::SourceKind;
use select_loop::config::SourceSpec;
use select_loop::control::LoopCtl;
use select_loop::driver::Driver;
use select_loop::driver::Phase;
use select_loop::forwarder::Forwarder;

#[test]
fn channel_delivers_in_acceptance_order() {
    let mut chan: Channel<u64> = Channel::new();
    chan.clone_producer();
    // Rendezvous: each accepted send is received before the next one is
    // accepted; items come out in acceptance order, tagged.
    assert!(chan.offer(0, 10));
    assert_eq!(chan.receive(), Recv::Item(0, 10));
    assert!(chan.offer(1, 20));
    assert_eq!(chan.receive(), Recv::Item(1, 20));
    // Closure is observed exactly when every producer handle is gone.
    chan.release_producer();
    chan.release_producer();
    assert_eq!(chan.receive(), Recv::Closed);
}

#[test]
fn channel_send_fails_once_consumer_is_gone() {
    let mut chan: Channel<u64> = Channel::new();
    chan.drop_consumer();
    assert!(!chan.offer(0, 1));
}

#[test]
fn forwarder_releases_handle_on_failed_send() {
    // The cooperative-shutdown path: the consumer went away, so the
    // forwarder terminates at once and its producer handle goes with it.
    let mut chan: Channel<u64> = Channel::new();
    chan.drop_consumer();
    let mut f = Forwarder::new(0, 3);
    let ok = f.forward_step(&mut chan, 11);
    assert!(!ok);
    assert!(f.released);
    assert!(!f.cancelled);
    assert_eq!(f.sent, 0);
}

#[test]
fn forwarder_sends_then_finishes() {
    let mut chan: Channel<u64> = Channel::new();
    let mut f = Forwarder::new(0, 1);
    assert!(f.forward_step(&mut chan, 11));
    assert_eq!(chan.receive(), Recv::Item(0, 11));
    assert_eq!(f.sent, 1);
    assert!(!f.released);
    f.finish(&mut chan);
    assert!(f.released);
    assert_eq!(chan.receive(), Recv::Closed);
}

#[test]
fn driver_runs_before_hooks_then_waits() {
    let mut d: Driver<u64> = Driver::new(2, 0, 0, 1);
    assert_eq!(d.phase, Phase::BeforeHooks { next: 0 });
    d.before_hook_done();
    assert_eq!(d.phase, Phase::BeforeHooks { next: 1 });
    d.before_hook_done();
    assert_eq!(d.phase, Phase::BeforeHooks { next: 2 });
    d.start_wait();
    assert_eq!(d.phase, Phase::Waiting);
}

#[test]
fn driver_skip_returns_to_iteration_start() {
    let mut d: Driver<u64> = Driver::new(0, 2, 0, 1);
    d.start_wait();
    d.item_arrived(0);
    assert_eq!(d.phase, Phase::Dispatching { tag: 0 });
    d.handler_returned(LoopCtl::Skip);
    // Skip bypasses the after-hooks: straight to the next iteration.
    assert_eq!(d.phase, Phase::BeforeHooks { next: 0 });
}

#[test]
fn driver_advance_runs_after_hooks() {
    let mut d: Driver<u64> = Driver::new(0, 1, 0, 1);
    d.start_wait();
    d.item_arrived(0);
    d.handler_returned(LoopCtl::Advance);
    assert_eq!(d.phase, Phase::AfterHooks { next: 0 });
    d.after_hook_done();
    d.iteration_done();
    assert_eq!(d.phase, Phase::BeforeHooks { next: 0 });
}

#[test]
fn driver_terminate_ends_loop_with_value() {
    let mut d: Driver<u64> = Driver::new(0, 0, 1, 1);
    d.start_wait();
    d.item_arrived(0);
    d.handler_returned(LoopCtl::Terminate(Some(5)));
    assert_eq!(
        d.phase,
        Phase::Done {
            outcome: select_loop::Termination::EarlyExit(Some(5)),
        }
    );
}

#[test]
fn driver_keeps_last_exhausted_value() {
    let mut d: Driver<u64> = Driver::new(0, 0, 2, 0);
    d.start_wait();
    d.channel_closed();
    assert_eq!(d.phase, Phase::ExhaustedHooks { next: 0, last: None });
    d.exhausted_hook_done(7);
    d.exhausted_hook_done(42);
    assert_eq!(
        d.phase,
        Phase::ExhaustedHooks {
            next: 2,
            last: Some(42),
        }
    );
    d.exhausted_done();
    assert_eq!(
        d.phase,
        Phase::Done {
            outcome: select_loop::Termination::Exhausted(Some(42)),
        }
    );
}

#[test]
fn split_keeps_declared_order_within_each_group() {
    let decls = vec![
        BranchDecl::Hook(HookKind::Before),
        BranchDecl::Sourced(SourceKind::Value),
        BranchDecl::Hook(HookKind::After),
        BranchDecl::Hook(HookKind::Before),
        BranchDecl::Sourced(SourceKind::Sequence),
        BranchDecl::Hook(HookKind::Exhausted),
    ];
    let groups = split_branches(&decls);
    assert_eq!(groups.before, vec![0, 3]);
    assert_eq!(groups.after, vec![2]);
    assert_eq!(groups.exhausted, vec![5]);
    assert_eq!(groups.sourced, vec![1, 4]);
}

#[test]
fn adapter_normalizes_value_source_to_one_item() {
    let items = normalize_source(SourceSpec::Value(9u64));
    assert_eq!(items, vec![9]);
}

#[test]
fn adapter_passes_sequence_source_through() {
    let items = normalize_source(SourceSpec::Sequence(vec![1u64, 2, 3]));
    assert_eq!(items, vec![1, 2, 3]);
}
