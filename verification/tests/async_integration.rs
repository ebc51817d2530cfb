//! The verified driver deciding a real asynchronous loop: forwarder tasks on
//! a zero-capacity futures channel, a cooperative executor, and scope-bound
//! cancellation, exactly as the runtime glue around the library wires it up.

use std::cell::Cell;
use std::rc::Rc;

use futures::channel::mpsc;
use futures::executor::LocalPool;
use futures::task::LocalSpawnExt;
use futures::SinkExt;
use futures::StreamExt;

use select_loop::driver::Driver;
use select_loop::driver::Phase;
use select_loop::LoopCtl;
use select_loop::Termination;

/// Sets a flag when dropped: makes the cancellation of a forwarder task
/// observable, since aborting a task drops everything it owns.
struct SetOnDrop(Rc<Cell<bool>>);

impl Drop for SetOnDrop {
    fn drop(&mut self) {
        self.0.set(true);
    }
}

#[test]
fn driver_drains_two_real_sources_then_exhausts() {
    let mut pool = LocalPool::new();
    let spawner = pool.spawner();
    let (sender, mut receiver) = mpsc::channel::<(usize, u64)>(0);

    for (tag, items) in [(0usize, vec![1u64, 2, 3]), (1usize, vec![100u64])] {
        let mut sender = sender.clone();
        spawner
            .spawn_local(async move {
                for item in items {
                    if sender.send((tag, item)).await.is_err() {
                        return;
                    }
                }
            })
            .unwrap();
    }
    // The consumer keeps no producer handle of its own.
    drop(sender);

    let (driver, log) = pool.run_until(async move {
        let mut driver: Driver<u64> = Driver::new(0, 0, 1, 2);
        let mut log: Vec<(usize, u64)> = Vec::new();
        loop {
            driver.start_wait();
            match receiver.next().await {
                None => {
                    driver.channel_closed();
                    driver.exhausted_hook_done(42);
                    driver.exhausted_done();
                    break;
                }
                Some((tag, item)) => {
                    driver.item_arrived(tag);
                    log.push((tag, item));
                    driver.handler_returned(LoopCtl::Advance);
                    driver.iteration_done();
                }
            }
        }
        (driver, log)
    });

    assert_eq!(
        driver.phase,
        Phase::Done {
            outcome: Termination::Exhausted(Some(42)),
        }
    );
    assert_eq!(log.len(), 4);
    let to_a: Vec<u64> = log.iter().filter(|(t, _)| *t == 0).map(|(_, v)| *v).collect();
    let to_b: Vec<u64> = log.iter().filter(|(t, _)| *t == 1).map(|(_, v)| *v).collect();
    assert_eq!(to_a, vec![1, 2, 3]);
    assert_eq!(to_b, vec![100]);
}

#[test]
fn early_exit_cancels_never_completing_forwarder() {
    let mut pool = LocalPool::new();
    let spawner = pool.spawner();
    let (sender, mut receiver) = mpsc::channel::<(usize, u64)>(0);
    let cancelled = Rc::new(Cell::new(false));

    // Source A never produces and never completes; its forwarder holds a
    // guard whose drop is only ever caused by cancellation.
    let (abort_handle, abort_reg) = futures::future::AbortHandle::new_pair();
    {
        let guard = SetOnDrop(Rc::clone(&cancelled));
        let sender = sender.clone();
        let task = async move {
            let _guard = guard;
            let _sender = sender;
            futures::future::pending::<()>().await;
        };
        spawner
            .spawn_local(async move {
                let _ = futures::future::Abortable::new(task, abort_reg).await;
            })
            .unwrap();
    }
    // Source B produces one value; its handler terminates the loop.
    {
        let mut sender = sender.clone();
        spawner
            .spawn_local(async move {
                let _ = sender.send((1usize, 100u64)).await;
            })
            .unwrap();
    }
    drop(sender);

    let driver = pool.run_until(async move {
        let mut driver: Driver<u64> = Driver::new(0, 0, 1, 2);
        loop {
            driver.start_wait();
            match receiver.next().await {
                None => {
                    driver.channel_closed();
                    driver.exhausted_hook_done(0);
                    driver.exhausted_done();
                    break;
                }
                Some((tag, _item)) => {
                    driver.item_arrived(tag);
                    driver.handler_returned(LoopCtl::Terminate(Some(7)));
                    break;
                }
            }
        }
        driver
    });
    assert_eq!(
        driver.phase,
        Phase::Done {
            outcome: Termination::EarlyExit(Some(7)),
        }
    );

    // The loop exited early: releasing the task handle cancels the
    // still-running forwarder within one scheduling step.
    assert!(!cancelled.get());
    abort_handle.abort();
    pool.run_until_stalled();
    assert!(cancelled.get());
}
