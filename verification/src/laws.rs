//! The temporal guarantees of the scheduler, stated and proved once over
//! every behaviour that the manager's contracts admit.

use vstd::prelude::*;

use crate::limiter::ConcurrencyLimiter;
use crate::on_hold::{OnHold, retain_hold};
use crate::queue::{
    HoldEval, Queue, QueueEvent, DueEvent, admission_outcome, batch_has_id, eval_hold,
    event_applied, limiter_spare, outbound_headroom, rescan_phase, rescan_post, surely_eligible,
    tick_post, PAUSE_IDLE, QUEUE_REFRESH,
};

verus! {

/// Law: at most one delivery attempt per queue item. An item in flight
/// when a rescan starts is never dispatched again by that rescan, and its
/// in-flight hold survives the pass — only a `WorkerDone` event clears it.
pub proof fn lemma_single_flight(
    pre: Queue,
    post: Queue,
    due: Seq<DueEvent>,
    dispatched: Seq<DueEvent>,
    now: u64,
    id: u64,
)
    requires
        rescan_post(pre, post, due, dispatched, now),
        pre.on_hold@.contains_key(id),
        pre.on_hold@[id] is InFlight,
    ensures
        !batch_has_id(dispatched, id),
        post.on_hold@.contains_key(id),
        post.on_hold@[id] is InFlight,
{
}

/// Law: no rescan dispatches the same queue item twice.
pub proof fn lemma_dispatch_once(
    pre: Queue,
    post: Queue,
    due: Seq<DueEvent>,
    dispatched: Seq<DueEvent>,
    now: u64,
    i: int,
    j: int,
)
    requires
        rescan_post(pre, post, due, dispatched, now),
        0 <= i < j < dispatched.len(),
    ensures
        dispatched[i].queue_id != dispatched[j].queue_id,
{
}

/// Law: admission monotonicity. A concurrency hold one of whose limiters
/// has a free slot is released by the hold evaluation, so its item goes
/// back through admission on the next rescan.
pub proof fn lemma_admission_monotonic(
    h: OnHold,
    now: u64,
    limiters: Seq<ConcurrencyLimiter>,
    k: int,
)
    requires
        h matches OnHold::ConcurrencyLimited { limiters: ls, next_due } && 0 <= k < ls@.len()
            && limiter_spare(limiters, ls@[k]),
    ensures
        eval_hold(h, now, limiters) == HoldEval::Release,
{
}

/// Law: lock expiry. A time-locked item is never dispatched before its
/// deadline; once the deadline has passed, a rescan that finds it due
/// takes it through admission like any eligible item.
pub proof fn lemma_lock_expiry(
    pre: Queue,
    post: Queue,
    due: Seq<DueEvent>,
    dispatched: Seq<DueEvent>,
    now: u64,
    m: int,
)
    requires
        rescan_post(pre, post, due, dispatched, now),
        0 <= m < due.len(),
        pre.on_hold@.contains_key(due[m].queue_id),
        pre.on_hold@[due[m].queue_id] is Locked,
    ensures
        now < pre.on_hold@[due[m].queue_id]->Locked_until ==> !batch_has_id(
            dispatched,
            due[m].queue_id,
        ),
        now >= pre.on_hold@[due[m].queue_id]->Locked_until && due[m].due <= now
            ==> admission_outcome(pre, post.on_hold@, dispatched, due[m]),
{
    let id = due[m].queue_id;
    let until = pre.on_hold@[id]->Locked_until;
    if now < until {
        if batch_has_id(dispatched, id) {
            let j = choose|j: int| 0 <= j < dispatched.len() && dispatched[j].queue_id == id;
            assert(due.contains(dispatched[j]));
            let m2 = choose|m2: int| 0 <= m2 < due.len() && due[m2] == dispatched[j];
            if due[m2].due <= now {
                assert(batch_has_id(dispatched, due[m2].queue_id));
            }
            assert(false);
        }
    }
}

/// Law: cleanup safety. The retention rule of the periodic cleanup pass
/// keeps an in-flight hold whatever the clock reads and whatever items are
/// currently due.
pub proof fn lemma_cleanup_safety(h: OnHold, id: u64, now: u64, active: Seq<u64>)
    requires
        h is InFlight,
    ensures
        retain_hold(h, id, now, active),
{
}

/// Law: pause correctness, first half. Any loop iteration that ends paused
/// dispatches nothing, and an iteration that receives the pause event
/// idles until the pause horizon.
pub proof fn lemma_pause_suppresses_dispatch(
    pre: Queue,
    post: Queue,
    event: Option<QueueEvent>,
    due: Seq<DueEvent>,
    dispatched: Seq<DueEvent>,
    stop: bool,
    now: u64,
)
    requires
        tick_post(pre, post, event, due, dispatched, stop, now),
        !stop,
        post.paused,
    ensures
        dispatched.len() == 0,
        event matches Some(QueueEvent::Paused(p)) ==> post.next_wake_up == now + PAUSE_IDLE,
{
    let (mid, out) = choose|mid: Queue, out: crate::queue::EventOutcome|
        #[trigger] event_applied(pre, mid, event, out) && rescan_phase(
            mid,
            post,
            due,
            dispatched,
            now,
            out,
        );
    assert(post.paused == mid.paused);
}

/// Law: pause correctness, second half. While every outbound limiter has
/// room for the whole batch, the iteration that unpauses the queue
/// dispatches every currently due eligible item — one with no hold, an
/// expired time lock, or an already releasable concurrency hold — within
/// that same iteration.
pub proof fn lemma_unpause_dispatches(
    pre: Queue,
    post: Queue,
    due: Seq<DueEvent>,
    dispatched: Seq<DueEvent>,
    stop: bool,
    now: u64,
    m: int,
)
    requires
        tick_post(pre, post, Some(QueueEvent::Paused(false)), due, dispatched, stop, now),
        outbound_headroom(pre, due.len() as int),
        0 <= m < due.len(),
        due[m].due <= now,
        surely_eligible(pre, due[m], now),
    ensures
        dispatched.contains(due[m]),
{
    let ev: Option<QueueEvent> = Some(QueueEvent::Paused(false));
    let (mid, out) = choose|mid: Queue, out: crate::queue::EventOutcome|
        #[trigger] event_applied(pre, mid, ev, out) && rescan_phase(
            mid,
            post,
            due,
            dispatched,
            now,
            out,
        );
    assert(!mid.paused);
    assert(out.rescan);
    assert(rescan_post(mid, post, due, dispatched, now));
    assert(mid.on_hold@ == pre.on_hold@);
    assert(mid.outbound@ == pre.outbound@);
    assert(mid.limiters@ == pre.limiters@);
    assert(outbound_headroom(mid, due.len() as int)) by {
        assert forall|l: usize|
            mid.outbound@.contains(l) implies (#[trigger] mid.limiters@[l as int]).concurrent
                + due.len() <= mid.limiters@[l as int].max_concurrent by {
            assert(pre.limiters@[l as int].concurrent + due.len()
                <= pre.limiters@[l as int].max_concurrent);
        }
    }
    assert(surely_eligible(mid, due[m], now));
}

/// Law: admission monotonicity across one rescan. While every outbound
/// limiter has room for the whole batch, a due item held back by a
/// concurrency hold one of whose limiters has regained a free slot is
/// dispatched by the next rescan.
pub proof fn lemma_released_hold_is_dispatched(
    pre: Queue,
    post: Queue,
    due: Seq<DueEvent>,
    dispatched: Seq<DueEvent>,
    now: u64,
    m: int,
    k: int,
)
    requires
        rescan_post(pre, post, due, dispatched, now),
        outbound_headroom(pre, due.len() as int),
        0 <= m < due.len(),
        due[m].due <= now,
        pre.on_hold@.contains_key(due[m].queue_id),
        pre.on_hold@[due[m].queue_id] matches OnHold::ConcurrencyLimited { limiters: ls, .. }
            && 0 <= k < ls@.len() && limiter_spare(pre.limiters@, ls@[k]),
    ensures
        dispatched.contains(due[m]),
{
    assert(surely_eligible(pre, due[m], now));
}

/// Law: wake precision. When exactly one item is pending, with its one
/// deadline `t` in the future and within the refresh ceiling, and nothing
/// is on hold, the rescan schedules the next wake-up at `t` exactly: never
/// earlier, never later.
pub proof fn lemma_wake_precision(
    pre: Queue,
    post: Queue,
    due: Seq<DueEvent>,
    dispatched: Seq<DueEvent>,
    now: u64,
    t: u64,
)
    requires
        rescan_post(pre, post, due, dispatched, now),
        due.len() == 1,
        due[0].due == t,
        now < t <= now + QUEUE_REFRESH,
        pre.on_hold@ == Map::<u64, OnHold>::empty(),
    ensures
        post.next_wake_up == t,
{
    assert(crate::queue::scan_outcome(
        pre,
        post.on_hold@,
        dispatched,
        due[0],
        now,
        (post.next_wake_up - now) as u64,
    ));
    assert(post.next_wake_up <= t);
    let w = (post.next_wake_up - now) as u64;
    if w == QUEUE_REFRESH {
        assert(post.next_wake_up == now + QUEUE_REFRESH);
    } else if exists|j: int| 0 <= j < due.len() && (#[trigger] due[j]).due > now && w == due[j].due
        - now {
        let j = choose|j: int| 0 <= j < due.len() && (#[trigger] due[j]).due > now && w == due[j].due
            - now;
        assert(j == 0);
    } else {
        let j = choose|j: int|
            0 <= j < due.len() && (#[trigger] due[j]).due <= now && pre.on_hold@.contains_key(
                due[j].queue_id,
            ) && (pre.on_hold@[due[j].queue_id] matches OnHold::Locked { until } && until > now && w
                == until - now);
        assert(false);
    }
}

} // verus!
