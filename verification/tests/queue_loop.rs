use mail_queue::limiter::ConcurrencyLimiter;
use mail_queue::on_hold::OnHold;
use mail_queue::queue::{DueEvent, Queue, QueueEvent, PAUSE_IDLE, QUEUE_REFRESH};

fn plain_queue(now: u64) -> Queue {
    Queue::new(Vec::new(), Vec::new(), now)
}

fn due(queue_id: u64, due: u64) -> DueEvent {
    DueEvent { queue_id, due }
}

#[test]
fn one_due_item_is_dispatched_and_cleared_by_worker_done() {
    let now = 1_000_000;
    let mut q = plain_queue(now);
    let dispatched = q.process_rescan(now, vec![due(1, now)]);
    assert_eq!(dispatched.len(), 1);
    assert_eq!(dispatched[0].queue_id, 1);
    assert!(matches!(q.on_hold.get(1), Some(OnHold::InFlight)));

    let out = q.handle_event(QueueEvent::WorkerDone(1));
    assert!(!out.stop);
    assert!(!out.rescan);
    assert!(q.on_hold.is_empty());
}

#[test]
fn future_retry_sets_exact_wake_up() {
    let now = 1_000_000;
    let mut q = plain_queue(now);
    let dispatched = q.process_rescan(now, vec![due(2, now + 300)]);
    assert!(dispatched.is_empty());
    assert_eq!(q.next_wake_up, now + 300);
    assert!(q.on_hold.is_empty());
}

#[test]
fn empty_batch_sleeps_for_the_refresh_ceiling() {
    let now = 1_000_000;
    let mut q = plain_queue(now);
    let dispatched = q.process_rescan(now, Vec::new());
    assert!(dispatched.is_empty());
    assert_eq!(q.next_wake_up, now + QUEUE_REFRESH);
}

#[test]
fn saturated_limiter_holds_item_until_worker_done() {
    let now = 1_000_000;
    let limiters = vec![ConcurrencyLimiter::new(1)];
    let mut q = Queue::new(limiters, vec![0], now);

    // The first message takes the only slot.
    let first = q.process_rescan(now, vec![due(1, now)]);
    assert_eq!(first.len(), 1);
    assert_eq!(q.limiters[0].concurrent, 1);

    // A second message to the same destination is blocked.
    let second = q.process_rescan(now, vec![due(3, now)]);
    assert!(second.is_empty());
    match q.on_hold.get(3) {
        Some(OnHold::ConcurrencyLimited { limiters, next_due }) => {
            assert_eq!(limiters.as_slice(), &[0]);
            assert!(next_due.is_none());
        }
        other => panic!("expected a concurrency hold, got {:?}", other),
    }

    // The first delivery ends: its slot comes back, its hold is cleared.
    q.release_outbound();
    assert_eq!(q.limiters[0].concurrent, 0);
    let out = q.handle_event(QueueEvent::WorkerDone(1));
    assert!(out.rescan);

    // The following rescan dispatches the held message.
    let third = q.process_rescan(now, vec![due(3, now)]);
    assert_eq!(third.len(), 1);
    assert_eq!(third[0].queue_id, 3);
    assert!(matches!(q.on_hold.get(3), Some(OnHold::InFlight)));
}

#[test]
fn pause_suppresses_dispatch_and_unpause_recovers_it() {
    let now = 1_000_000;
    let mut q = plain_queue(now);

    let paused = q.tick(Some(QueueEvent::Paused(true)), now, vec![due(4, now)]);
    assert!(!paused.stop);
    assert!(paused.dispatched.is_empty());
    assert!(q.paused);
    assert_eq!(q.next_wake_up, now + PAUSE_IDLE);

    let resumed = q.tick(Some(QueueEvent::Paused(false)), now, vec![due(4, now)]);
    assert!(!resumed.stop);
    assert_eq!(resumed.dispatched.len(), 1);
    assert_eq!(resumed.dispatched[0].queue_id, 4);
}

#[test]
fn large_batches_dispatch_each_item_exactly_once() {
    let now = 1_000_000;
    let mut q = plain_queue(now);
    let batch = vec![
        due(10, now),
        due(11, now),
        due(12, now),
        due(13, now),
        due(14, now),
        due(15, now),
    ];
    let dispatched = q.process_rescan(now, batch);
    assert_eq!(dispatched.len(), 6);
    let mut ids: Vec<u64> = dispatched.iter().map(|e| e.queue_id).collect();
    ids.sort();
    assert_eq!(ids, vec![10, 11, 12, 13, 14, 15]);
    for id in ids {
        assert!(matches!(q.on_hold.get(id), Some(OnHold::InFlight)));
    }
}

#[test]
fn time_lock_is_respected_until_it_expires() {
    let now = 1_000_000;
    let until = now + 50;
    let mut q = plain_queue(now);
    // An empty rescan parks the wake-up at the refresh ceiling.
    q.process_rescan(now, Vec::new());
    assert_eq!(q.next_wake_up, now + QUEUE_REFRESH);
    let out = q.handle_event(QueueEvent::OnHold {
        queue_id: 7,
        status: OnHold::Locked { until },
    });
    assert!(!out.stop);
    // The lock's deadline pulls the wake-up forward.
    assert_eq!(q.next_wake_up, until);

    let before = q.process_rescan(now, vec![due(7, now)]);
    assert!(before.is_empty());
    assert!(matches!(q.on_hold.get(7), Some(OnHold::Locked { until: u }) if *u == until));
    assert!(q.next_wake_up <= until);

    let after = q.process_rescan(until, vec![due(7, until)]);
    assert_eq!(after.len(), 1);
    assert_eq!(after[0].queue_id, 7);
}

#[test]
fn in_flight_item_is_never_dispatched_again() {
    let now = 1_000_000;
    let mut q = plain_queue(now);
    let first = q.process_rescan(now, vec![due(9, now)]);
    assert_eq!(first.len(), 1);
    // The store still reports the item due, but it is in flight.
    let second = q.process_rescan(now, vec![due(9, now)]);
    assert!(second.is_empty());
    assert!(matches!(q.on_hold.get(9), Some(OnHold::InFlight)));
}

#[test]
fn concurrency_hold_with_spare_limiter_is_released() {
    let now = 1_000_000;
    let limiters = vec![ConcurrencyLimiter::new(2)];
    let mut q = Queue::new(limiters, Vec::new(), now);
    q.handle_event(QueueEvent::OnHold {
        queue_id: 5,
        status: OnHold::ConcurrencyLimited { limiters: vec![0], next_due: None },
    });
    // Limiter 0 has spare capacity, so the next rescan admits the item.
    let dispatched = q.process_rescan(now, vec![due(5, now)]);
    assert_eq!(dispatched.len(), 1);
    assert_eq!(dispatched[0].queue_id, 5);
}

#[test]
fn concurrency_hold_recheck_deadline_releases_without_spare() {
    let now = 1_000_000;
    let mut limiter = ConcurrencyLimiter::new(1);
    assert!(limiter.try_admit());
    // The hold's limiter is saturated, but its recheck deadline elapsed and
    // admission itself goes through an empty outbound set.
    let mut q = Queue::new(vec![limiter], Vec::new(), now);
    q.handle_event(QueueEvent::OnHold {
        queue_id: 6,
        status: OnHold::ConcurrencyLimited { limiters: vec![0], next_due: Some(now - 1) },
    });
    let dispatched = q.process_rescan(now, vec![due(6, now)]);
    assert_eq!(dispatched.len(), 1);
}

#[test]
fn cleanup_drops_stale_holds_but_never_in_flight_ones() {
    let now = 1_000_000;
    let mut q = plain_queue(now);
    // Make item 1 in flight, record an expired lock for a vanished item.
    q.process_rescan(now, vec![due(1, now)]);
    q.handle_event(QueueEvent::OnHold {
        queue_id: 2,
        status: OnHold::Locked { until: now + 10 },
    });
    q.handle_event(QueueEvent::OnHold {
        queue_id: 3,
        status: OnHold::ConcurrencyLimited { limiters: Vec::new(), next_due: None },
    });
    // Long after all deadlines, a rescan whose cleanup pass is due runs with
    // an empty batch: the lock has expired, the concurrency hold's item no
    // longer exists, but the in-flight hold stays.
    let later = now + 700;
    let dispatched = q.process_rescan(later, Vec::new());
    assert!(dispatched.is_empty());
    assert!(matches!(q.on_hold.get(1), Some(OnHold::InFlight)));
    assert!(q.on_hold.get(2).is_none());
    assert!(q.on_hold.get(3).is_none());
    assert_eq!(q.on_hold.len(), 1);
}

#[test]
fn refresh_drops_the_named_hold() {
    let now = 1_000_000;
    let mut q = plain_queue(now);
    q.handle_event(QueueEvent::OnHold {
        queue_id: 8,
        status: OnHold::Locked { until: now + 500 },
    });
    let out = q.handle_event(QueueEvent::Refresh(Some(8)));
    assert!(out.rescan);
    assert!(q.on_hold.get(8).is_none());
}

#[test]
fn stop_terminates_the_loop_untouched() {
    let now = 1_000_000;
    let mut q = plain_queue(now);
    let r = q.tick(Some(QueueEvent::Stop), now, vec![due(1, now)]);
    assert!(r.stop);
    assert!(r.dispatched.is_empty());
    assert!(q.on_hold.is_empty());
}

#[test]
fn wait_is_clamped_to_zero_once_the_deadline_passed() {
    let now = 1_000_000;
    let q = plain_queue(now - 100);
    assert_eq!(q.wait_seconds(now), 0);
    let q2 = plain_queue(now + 100);
    assert_eq!(q2.wait_seconds(now), 100);
}

#[test]
fn limiter_admission_and_release() {
    let mut l = ConcurrencyLimiter::new(2);
    assert!(!l.is_active());
    assert!(l.try_admit());
    assert!(l.try_admit());
    assert!(!l.try_admit());
    assert!(l.is_active());
    assert_eq!(l.concurrent, 2);
    l.release();
    assert!(l.try_admit());
    l.release();
    l.release();
    assert!(!l.is_active());
}
