//! The activity state machine and the shutdown coordinator, driven as the
//! runtime would drive them — including the no-data-loss shutdown sequence.

use batcher::batch::{Entry, Partition, StoreImpl};
use batcher::schedule::{step, ActivityAction, ActivityEvent, ActivityState};
use batcher::shutdown::ShutdownCoordinator;
use batcher::writer::{BatchWriter, FlushPolicy, MemoryWriter};
use batcher::Date;

#[test]
fn activity_runs_work_then_waits_then_runs_again() {
    let (s, a) = step(ActivityState::Idle, ActivityEvent::Start);
    assert_eq!((s, a), (ActivityState::Running, ActivityAction::RunWork));

    let (s, a) = step(s, ActivityEvent::WorkFinished);
    assert_eq!((s, a), (ActivityState::Waiting, ActivityAction::AwaitNext));

    let (s, a) = step(s, ActivityEvent::TimerExpired);
    assert_eq!((s, a), (ActivityState::Running, ActivityAction::RunWork));
}

#[test]
fn cancellation_at_the_wait_point_finishes_the_activity() {
    let (s, a) = step(ActivityState::Waiting, ActivityEvent::CancelSignalled);
    assert_eq!((s, a), (ActivityState::Cancelled, ActivityAction::Finish));

    let (s, a) = step(s, ActivityEvent::TimerExpired);
    assert_eq!((s, a), (ActivityState::Stopped, ActivityAction::Finish));

    let (s, a) = step(s, ActivityEvent::Start);
    assert_eq!((s, a), (ActivityState::Stopped, ActivityAction::Finish));
}

#[test]
fn unexpected_events_hold_the_state() {
    let (s, a) = step(ActivityState::Idle, ActivityEvent::TimerExpired);
    assert_eq!((s, a), (ActivityState::Idle, ActivityAction::Hold));

    let (s, a) = step(ActivityState::Running, ActivityEvent::TimerExpired);
    assert_eq!((s, a), (ActivityState::Running, ActivityAction::Hold));
}

#[test]
fn coordinator_broadcasts_cancellation_once() {
    let mut coordinator = ShutdownCoordinator::new(2);
    assert!(coordinator.on_signal());
    assert!(!coordinator.on_signal());
}

#[test]
fn coordinator_grants_the_flush_only_after_every_task_stopped() {
    let mut coordinator = ShutdownCoordinator::new(2);
    assert!(!coordinator.begin_flush());

    assert!(coordinator.on_signal());
    assert!(!coordinator.begin_flush());

    coordinator.on_task_stopped();
    assert!(!coordinator.begin_flush());

    coordinator.on_task_stopped();
    assert!(coordinator.begin_flush());
    assert!(!coordinator.begin_flush());
}

fn entry(source: &str, created: i64, payload: &str) -> Entry {
    let partition = Partition::new(source, Date::new(2024, 8, 10));
    Entry::new(partition, created, payload)
}

#[test]
fn no_pending_batch_is_lost_on_shutdown() {
    let mut store = StoreImpl::new();
    // Thresholds no batch meets: everything stays pending.
    let policy = FlushPolicy::new(100, i64::MAX);
    let mut writer = BatchWriter::new(MemoryWriter::new(), policy);

    store.add(entry("orders", 100, "a"));
    store.add(entry("payments", 150, "b"));
    store.add(entry("shipments", 175, "c"));
    let committed = writer.write(&mut store, 200);
    assert_eq!(committed.len(), 0);

    let mut coordinator = ShutdownCoordinator::new(2);
    assert!(coordinator.on_signal());
    coordinator.on_task_stopped();
    coordinator.on_task_stopped();
    assert!(coordinator.begin_flush());
    let refused = writer.flush(&mut store);
    assert_eq!(refused, 0);

    let received = writer.writer().received();
    assert_eq!(received.len(), 3);
    let mut sources: Vec<&str> = received.iter().map(|b| b.partition().source()).collect();
    sources.sort();
    assert_eq!(sources, vec!["orders", "payments", "shipments"]);
    for batch in received {
        assert_eq!(batch.record_count(), 1);
    }
    assert!(!coordinator.begin_flush());
}
