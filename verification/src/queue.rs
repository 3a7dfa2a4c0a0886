//! The queue manager: the single-writer control state that merges control
//! events with a computed wake-up deadline, scans due items, applies
//! admission checks, selects items for dispatch, and periodically
//! garbage-collects stale holds.
//!
//! The manager owns all scheduling state; delivery work itself and the
//! channel carrying control events live outside. One loop iteration is:
//! wait until `next_wake_up` or the next control event, apply the event,
//! and, when a rescan is called for and the queue is not paused, process
//! the currently due items.

use vstd::prelude::*;

use crate::limiter::ConcurrencyLimiter;
use crate::on_hold::{OnHold, OnHoldRegistry, retain_hold};

use rand::seq::SliceRandom;

verus! {

/// Ceiling on how long the loop sleeps when nothing earlier is scheduled,
/// in seconds; store-level changes are observed within this bound.
pub const QUEUE_REFRESH: u64 = 3600;

/// Interval between two cleanup passes over the on-hold registry, in
/// seconds.
pub const CLEANUP_INTERVAL: u64 = 600;

/// Idle horizon while the queue is paused, in seconds.
pub const PAUSE_IDLE: u64 = 86400;

/// Batches larger than this are shuffled before processing, so that one
/// backlog cannot deterministically starve the others.
pub const SHUFFLE_THRESHOLD: usize = 5;

/// One currently due queue item as the store enumerates it: the item's
/// identifier and its earliest deadline, in absolute epoch seconds.
#[derive(Clone, Copy, PartialEq, Eq, Structural, Debug)]
pub struct DueEvent {
    pub queue_id: u64,
    pub due: u64,
}

/// A control event received by the manager's loop.
pub enum QueueEvent {
    /// Rescan; with an identifier, first drop that item's hold.
    Refresh(Option<u64>),
    /// A delivery attempt for the item finished; its hold is cleared.
    WorkerDone(u64),
    /// Record, or overwrite, a hold for the item.
    OnHold { queue_id: u64, status: OnHold },
    /// Suppress dispatch until unpaused.
    Paused(bool),
    /// Terminate the loop.
    Stop,
}

/// What one control event asks of the loop.
#[derive(Clone, Copy, PartialEq, Eq, Structural, Debug)]
pub struct EventOutcome {
    /// Whether the due items should be rescanned now.
    pub rescan: bool,
    /// Whether the loop should terminate.
    pub stop: bool,
}

/// How a recorded hold is to be treated for one due item.
#[derive(Clone, Copy, PartialEq, Eq, Structural, Debug)]
pub enum HoldEval {
    /// Skip the item; the hold stands.
    Blocked,
    /// Skip the item; recheck once the deadline passes.
    BlockedUntil(u64),
    /// Drop the hold and attempt admission.
    Release,
}

/// Whether limiter index `l` currently has a spare slot in `limiters`.
pub open spec fn limiter_spare(limiters: Seq<ConcurrencyLimiter>, l: usize) -> bool {
    l < limiters.len() && limiters[l as int].has_spare()
}

/// How the rescan treats a recorded hold: an in-flight item is always
/// skipped; a time lock is skipped while its deadline is in the future and
/// released once it passes; a concurrency hold is released when at least
/// one of its limiters has spare capacity or its recheck deadline has
/// elapsed, and skipped otherwise.
pub open spec fn eval_hold(h: OnHold, now: u64, limiters: Seq<ConcurrencyLimiter>) -> HoldEval {
    match h {
        OnHold::InFlight => HoldEval::Blocked,
        OnHold::Locked { until } => if until > now {
            HoldEval::BlockedUntil(until)
        } else {
            HoldEval::Release
        },
        OnHold::ConcurrencyLimited { limiters: ls, next_due } => {
            if (exists|k: int| 0 <= k < ls@.len() && limiter_spare(limiters, #[trigger] ls@[k]))
                || (next_due matches Some(d) && d <= now) {
                HoldEval::Release
            } else {
                HoldEval::Blocked
            }
        },
    }
}

/// Evaluates a hold against the clock and the current limiter table.
fn evaluate_hold(h: &OnHold, now: u64, limiters: &Vec<ConcurrencyLimiter>) -> (r: HoldEval)
    ensures
        r == eval_hold(*h, now, limiters@),
{
    match h {
        OnHold::InFlight => HoldEval::Blocked,
        OnHold::Locked { until } => if *until > now {
            HoldEval::BlockedUntil(*until)
        } else {
            HoldEval::Release
        },
        OnHold::ConcurrencyLimited { limiters: ls, next_due } => {
            let mut spare = false;
            let mut k: usize = 0;
            while k < ls.len()
                invariant
                    0 <= k <= ls@.len(),
                    spare <==> exists|i: int|
                        0 <= i < k && limiter_spare(limiters@, #[trigger] ls@[i]),
                decreases ls@.len() - k,
            {
                let l = ls[k];
                if l < limiters.len() && limiters[l].concurrent < limiters[l].max_concurrent {
                    spare = true;
                }
                k = k + 1;
            }
            let recheck_due = match next_due {
                Some(d) => *d <= now,
                None => false,
            };
            if spare || recheck_due {
                HoldEval::Release
            } else {
                HoldEval::Blocked
            }
        },
    }
}

/// Whether no limiter index occurs twice.
pub open spec fn distinct_indices(s: Seq<usize>) -> bool {
    forall|i: int, j: int| 0 <= i < j < s.len() ==> s[i] != s[j]
}

/// Whether every index of `s` points into a table of `n` limiters.
pub open spec fn indices_within(s: Seq<usize>, n: int) -> bool {
    forall|i: int| 0 <= i < s.len() ==> #[trigger] s[i] < n
}

/// Attempts admission against every limiter named by `outbound`: succeeds
/// and takes one slot of each exactly when all of them have spare
/// capacity; otherwise reports a saturated limiter and changes nothing.
fn admit_all(limiters: &mut Vec<ConcurrencyLimiter>, outbound: &Vec<usize>) -> (r: Option<usize>)
    requires
        forall|l: usize|
            l < old(limiters)@.len() ==> (#[trigger] old(limiters)@[l as int]).wf(),
        indices_within(outbound@, old(limiters)@.len() as int),
        distinct_indices(outbound@),
    ensures
        final(limiters)@.len() == old(limiters)@.len(),
        forall|l: usize|
            l < old(limiters)@.len() ==> (#[trigger] final(limiters)@[l as int]).wf()
                && final(limiters)@[l as int].max_concurrent
                    == old(limiters)@[l as int].max_concurrent
                && final(limiters)@[l as int].concurrent >= old(limiters)@[l as int].concurrent,
        r is None <==> forall|i: int|
            0 <= i < outbound@.len()
                ==> limiter_spare(old(limiters)@, #[trigger] outbound@[i]),
        r is None ==> forall|l: usize|
            l < old(limiters)@.len() ==> (#[trigger] final(limiters)@[l as int]).concurrent
                == old(limiters)@[l as int].concurrent
                    + (if outbound@.contains(l) { 1int } else { 0int }),
        r matches Some(l) ==> final(limiters)@ == old(limiters)@ && outbound@.contains(l)
            && !limiter_spare(old(limiters)@, l),
    {
    let ghost l0 = old(limiters)@;
    let mut k: usize = 0;
    while k < outbound.len()
        invariant
            limiters@ == l0,
            forall|l: usize| l < l0.len() ==> (#[trigger] l0[l as int]).wf(),
            indices_within(outbound@, l0.len() as int),
            0 <= k <= outbound@.len(),
            forall|i: int| 0 <= i < k ==> limiter_spare(l0, #[trigger] outbound@[i]),
        decreases outbound@.len() - k,
    {
        let l = outbound[k];
        if !(limiters[l].concurrent < limiters[l].max_concurrent) {
            proof {
                assert forall|m: usize| m < l0.len() implies (#[trigger] limiters@[m as int]).wf()
                    && limiters@[m as int].max_concurrent == l0[m as int].max_concurrent
                    && limiters@[m as int].concurrent >= l0[m as int].concurrent by {
                    assert(limiters@[m as int] == l0[m as int]);
                }
            }
            return Some(l);
        }
        k = k + 1;
    }
    k = 0;
    while k < outbound.len()
        invariant
            forall|l: usize| l < l0.len() ==> (#[trigger] l0[l as int]).wf(),
            indices_within(outbound@, l0.len() as int),
            distinct_indices(outbound@),
            forall|i: int| 0 <= i < outbound@.len() ==> limiter_spare(l0, #[trigger] outbound@[i]),
            0 <= k <= outbound@.len(),
            limiters@.len() == l0.len(),
            forall|l: usize|
                l < l0.len() ==> (#[trigger] limiters@[l as int]).max_concurrent
                    == l0[l as int].max_concurrent,
            forall|l: usize|
                l < l0.len() ==> (#[trigger] limiters@[l as int]).concurrent
                    == l0[l as int].concurrent
                        + (if (exists|i: int| 0 <= i < k && outbound@[i] == l) {
                            1int
                        } else {
                            0int
                        }),
        decreases outbound@.len() - k,
    {
        let ghost lims_before = limiters@;
        let l = outbound[k];
        proof {
            assert(limiter_spare(l0, outbound@[k as int]));
            if exists|i: int| 0 <= i < k && outbound@[i] == l {
                let i = choose|i: int| 0 <= i < k && outbound@[i] == l;
                assert(outbound@[i] == outbound@[k as int]);
                assert(false);
            }
            assert(limiters@[l as int].concurrent == l0[l as int].concurrent);
        }
        let slot = &mut limiters[l];
        slot.concurrent = slot.concurrent + 1;
        proof {
            assert forall|m: usize| m < l0.len() implies (#[trigger] limiters@[m as int]).concurrent
                == l0[m as int].concurrent
                    + (if (exists|i: int| 0 <= i < k + 1 && outbound@[i] == m) {
                        1int
                    } else {
                        0int
                    }) by {
                if m == l {
                    assert(outbound@[k as int] == m);
                } else {
                    assert(limiters@[m as int] == lims_before[m as int]);
                    if exists|i: int| 0 <= i < k + 1 && outbound@[i] == m {
                        let i = choose|i: int| 0 <= i < k + 1 && outbound@[i] == m;
                        if i == k {
                            assert(outbound@[i] == l);
                            assert(false);
                        }
                        assert(0 <= i < k);
                    }
                }
            }
            assert forall|m: usize| m < l0.len()
                implies (#[trigger] limiters@[m as int]).max_concurrent
                    == l0[m as int].max_concurrent by {
                if m != l {
                    assert(limiters@[m as int] == lims_before[m as int]);
                }
            }
        }
        k = k + 1;
    }
    proof {
        assert forall|l: usize| l < l0.len() implies (#[trigger] limiters@[l as int]).wf()
            && limiters@[l as int].concurrent >= l0[l as int].concurrent
            && limiters@[l as int].concurrent == l0[l as int].concurrent
                + (if outbound@.contains(l) { 1int } else { 0int }) by {
            if outbound@.contains(l) {
                let i = choose|i: int| 0 <= i < outbound@.len() && outbound@[i] == l;
                assert(limiter_spare(l0, outbound@[i]));
            }
        }
    }
    None
}

/// The queue manager's scheduling state. Owned by one control loop; all
/// other parties communicate with it through control events only.
pub struct Queue {
    /// Why each currently blocked item is ineligible.
    pub on_hold: OnHoldRegistry,
    /// The admission limiter table; holds and `outbound` name entries by
    /// index.
    pub limiters: Vec<ConcurrencyLimiter>,
    /// Indices of the limiters consulted for global outbound admission.
    pub outbound: Vec<usize>,
    /// Absolute epoch second at which the loop next wakes by itself.
    pub next_wake_up: u64,
    /// Whether dispatch is currently suppressed.
    pub paused: bool,
    /// Absolute epoch second of the next registry cleanup pass.
    pub next_cleanup: u64,
}

impl Queue {
    /// The registry keys are unique, every limiter is within its bound, and
    /// the outbound admission set names distinct, existing limiters.
    pub open spec fn wf(&self) -> bool {
        &&& self.on_hold.wf()
        &&& forall|l: usize|
            l < self.limiters@.len() ==> (#[trigger] self.limiters@[l as int]).wf()
        &&& indices_within(self.outbound@, self.limiters@.len() as int)
        &&& distinct_indices(self.outbound@)
    }

    /// A fresh manager: nothing on hold, not paused, due for an immediate
    /// rescan and an immediate first cleanup.
    pub fn new(limiters: Vec<ConcurrencyLimiter>, outbound: Vec<usize>, now: u64) -> (r: Queue)
        requires
            forall|l: usize| l < limiters@.len() ==> (#[trigger] limiters@[l as int]).wf(),
            indices_within(outbound@, limiters@.len() as int),
            distinct_indices(outbound@),
        ensures
            r.wf(),
            r.on_hold@ == Map::<u64, OnHold>::empty(),
            r.limiters@ == limiters@,
            r.outbound@ == outbound@,
            r.next_wake_up == now,
            !r.paused,
            r.next_cleanup == now,
    {
        Queue {
            on_hold: OnHoldRegistry::new(),
            limiters,
            outbound,
            next_wake_up: now,
            paused: false,
            next_cleanup: now,
        }
    }

    /// How long the loop may wait before its wake-up deadline: the distance
    /// to `next_wake_up`, clamped to zero once it has elapsed.
    pub fn wait_seconds(&self, now: u64) -> (r: u64)
        ensures
            r == if self.next_wake_up > now { self.next_wake_up - now } else { 0 },
    {
        if self.next_wake_up > now {
            self.next_wake_up - now
        } else {
            0
        }
    }

    /// Gives back the outbound admission slots taken for one dispatched
    /// item; called once per delivery attempt that has ended. A limiter
    /// whose counter already reads zero is left alone.
    pub fn release_outbound(&mut self)
        requires
            old(self).wf(),
        ensures
            final(self).wf(),
            final(self).on_hold == old(self).on_hold,
            final(self).outbound == old(self).outbound,
            final(self).next_wake_up == old(self).next_wake_up,
            final(self).paused == old(self).paused,
            final(self).next_cleanup == old(self).next_cleanup,
            final(self).limiters@.len() == old(self).limiters@.len(),
            forall|l: usize|
                l < old(self).limiters@.len()
                    ==> (#[trigger] final(self).limiters@[l as int]).max_concurrent
                        == old(self).limiters@[l as int].max_concurrent,
            forall|l: usize|
                l < old(self).limiters@.len() && old(self).outbound@.contains(l)
                    && old(self).limiters@[l as int].concurrent > 0
                    ==> (#[trigger] final(self).limiters@[l as int]).concurrent
                        == old(self).limiters@[l as int].concurrent - 1,
            forall|l: usize|
                l < old(self).limiters@.len() && !old(self).outbound@.contains(l)
                    ==> (#[trigger] final(self).limiters@[l as int]).concurrent
                        == old(self).limiters@[l as int].concurrent,
    {
        let ghost l0 = self.limiters@;
        let ghost pre = *old(self);
        let mut k: usize = 0;
        while k < self.outbound.len()
            invariant
                self.on_hold == pre.on_hold,
                self.outbound == pre.outbound,
                self.next_wake_up == pre.next_wake_up,
                self.paused == pre.paused,
                self.next_cleanup == pre.next_cleanup,
                l0 == pre.limiters@,
                indices_within(pre.outbound@, l0.len() as int),
                distinct_indices(pre.outbound@),
                forall|l: usize| l < l0.len() ==> (#[trigger] l0[l as int]).wf(),
                0 <= k <= pre.outbound@.len(),
                self.limiters@.len() == l0.len(),
                forall|l: usize|
                    l < l0.len() ==> (#[trigger] self.limiters@[l as int]).max_concurrent
                        == l0[l as int].max_concurrent,
                forall|l: usize|
                    l < l0.len()
                        && (exists|i: int| 0 <= i < k && pre.outbound@[i] == l)
                        && l0[l as int].concurrent > 0
                        ==> (#[trigger] self.limiters@[l as int]).concurrent
                            == l0[l as int].concurrent - 1,
                forall|l: usize|
                    l < l0.len()
                        && !((exists|i: int| 0 <= i < k && pre.outbound@[i] == l)
                            && l0[l as int].concurrent > 0)
                        ==> (#[trigger] self.limiters@[l as int]).concurrent
                            == l0[l as int].concurrent,
            decreases pre.outbound@.len() - k,
        {
            let ghost lims_before = self.limiters@;
            let l = self.outbound[k];
            proof {
                if exists|i: int| 0 <= i < k && pre.outbound@[i] == l {
                    let i = choose|i: int| 0 <= i < k && pre.outbound@[i] == l;
                    assert(pre.outbound@[i] == pre.outbound@[k as int]);
                    assert(false);
                }
                assert forall|m: usize|
                    m < l0.len()
                        && !((exists|i: int| 0 <= i < k && pre.outbound@[i] == m)
                            && l0[m as int].concurrent > 0)
                    implies (#[trigger] lims_before[m as int]).concurrent
                        == l0[m as int].concurrent by {
                    assert(self.limiters@[m as int].concurrent == l0[m as int].concurrent);
                }
                assert forall|m: usize|
                    m < l0.len()
                        && (exists|i: int| 0 <= i < k && pre.outbound@[i] == m)
                        && l0[m as int].concurrent > 0
                    implies (#[trigger] lims_before[m as int]).concurrent
                        == l0[m as int].concurrent - 1 by {
                    assert(self.limiters@[m as int].concurrent == l0[m as int].concurrent - 1);
                }
                assert forall|m: usize| m < l0.len()
                    implies (#[trigger] lims_before[m as int]).max_concurrent
                        == l0[m as int].max_concurrent by {
                    assert(self.limiters@[m as int].max_concurrent == l0[m as int].max_concurrent);
                }
            }
            let taken = self.limiters[l].concurrent > 0;
            if taken {
                let slot = &mut self.limiters[l];
                slot.concurrent = slot.concurrent - 1;
            }
            proof {
                if !taken {
                    assert(self.limiters@ =~= lims_before);
                }
                assert forall|m: usize|
                    m < l0.len()
                        && (exists|i: int| 0 <= i < k + 1 && pre.outbound@[i] == m)
                        && l0[m as int].concurrent > 0
                    implies (#[trigger] self.limiters@[m as int]).concurrent
                        == l0[m as int].concurrent - 1 by {
                    if m != l {
                        assert(self.limiters@[m as int] == lims_before[m as int]);
                        let i = choose|i: int|
                            0 <= i < k + 1 && pre.outbound@[i] == m;
                        if i == k {
                            assert(pre.outbound@[i] == l);
                            assert(false);
                        }
                        assert(0 <= i < k);
                    }
                }
                assert forall|m: usize|
                    m < l0.len()
                        && !((exists|i: int| 0 <= i < k + 1 && pre.outbound@[i] == m)
                            && l0[m as int].concurrent > 0)
                    implies (#[trigger] self.limiters@[m as int]).concurrent
                        == l0[m as int].concurrent by {
                    if m == l {
                        assert(pre.outbound@[k as int] == m);
                        assert(lims_before[m as int].concurrent == l0[m as int].concurrent);
                        assert(!taken);
                        assert(self.limiters@[m as int] == lims_before[m as int]);
                    } else {
                        assert(self.limiters@[m as int] == lims_before[m as int]);
                        if l0[m as int].concurrent > 0 {
                            assert(!(exists|i: int|
                                0 <= i < k + 1 && pre.outbound@[i] == m));
                            if exists|i: int| 0 <= i < k && pre.outbound@[i] == m {
                                let i = choose|i: int| 0 <= i < k && pre.outbound@[i] == m;
                                assert(0 <= i < k + 1 && pre.outbound@[i] == m);
                                assert(false);
                            }
                            assert(!((exists|i: int| 0 <= i < k && pre.outbound@[i] == m)
                                && l0[m as int].concurrent > 0));
                            assert(lims_before[m as int].concurrent == l0[m as int].concurrent);
                        } else {
                            assert(!((exists|i: int| 0 <= i < k && pre.outbound@[i] == m)
                                && l0[m as int].concurrent > 0));
                            assert(lims_before[m as int].concurrent == l0[m as int].concurrent);
                        }
                    }
                }
            }
            k = k + 1;
        }
        proof {
            assert forall|l: usize| l < l0.len()
                implies (#[trigger] self.limiters@[l as int]).wf() by {
                assert(l0[l as int].wf());
            }
        }
    }
}

/// Exactly what one control event does to the manager's state and what it
/// asks of the loop. `Refresh` drops the named hold, if any, and asks for a
/// rescan. `WorkerDone` drops the finished item's hold and asks for a
/// rescan while anything is still on hold. `OnHold` records the hold and,
/// for a time lock earlier than the current wake-up deadline, pulls the
/// deadline forward; it asks for a rescan while other items are on hold.
/// `Paused` flips the pause flag; unpausing forces an immediate rescan.
/// `Stop` asks the loop to terminate.
pub open spec fn event_post(pre: Queue, post: Queue, event: QueueEvent, r: EventOutcome) -> bool {
    &&& post.limiters@ == pre.limiters@
    &&& post.outbound@ == pre.outbound@
    &&& post.next_cleanup == pre.next_cleanup
    &&& match event {
        QueueEvent::Refresh(id_opt) => {
            &&& post.on_hold@ == (match id_opt {
                Some(id) => pre.on_hold@.remove(id),
                None => pre.on_hold@,
            })
            &&& post.next_wake_up == pre.next_wake_up
            &&& post.paused == pre.paused
            &&& r == (EventOutcome { rescan: true, stop: false })
        },
        QueueEvent::WorkerDone(id) => {
            &&& post.on_hold@ == pre.on_hold@.remove(id)
            &&& post.next_wake_up == pre.next_wake_up
            &&& post.paused == pre.paused
            &&& r.stop == false
            &&& (r.rescan <==> post.on_hold@ != Map::<u64, OnHold>::empty())
        },
        QueueEvent::OnHold { queue_id, status } => {
            &&& post.on_hold@ == pre.on_hold@.insert(queue_id, status)
            &&& post.next_wake_up == (match status {
                OnHold::Locked { until } => if until < pre.next_wake_up {
                    until
                } else {
                    pre.next_wake_up
                },
                _ => pre.next_wake_up,
            })
            &&& post.paused == pre.paused
            &&& r.stop == false
            &&& (r.rescan <==> post.on_hold@.len() > 1)
        },
        QueueEvent::Paused(p) => {
            &&& post.on_hold@ == pre.on_hold@
            &&& post.next_wake_up == pre.next_wake_up
            &&& post.paused == p
            &&& r == (EventOutcome { rescan: !p, stop: false })
        },
        QueueEvent::Stop => {
            &&& post == pre
            &&& r == (EventOutcome { rescan: false, stop: true })
        },
    }
}

impl Queue {
    /// Applies one control event to the scheduling state; see `event_post`
    /// for the exact effect of each event kind.
    pub fn handle_event(&mut self, event: QueueEvent) -> (r: EventOutcome)
        requires
            old(self).wf(),
        ensures
            final(self).wf(),
            event_post(*old(self), *final(self), event, r),
    {
        match event {
            QueueEvent::Refresh(id_opt) => {
                if let Some(id) = id_opt {
                    self.on_hold.remove(id);
                }
                EventOutcome { rescan: true, stop: false }
            },
            QueueEvent::WorkerDone(id) => {
                self.on_hold.remove(id);
                let rescan = !self.on_hold.is_empty();
                EventOutcome { rescan, stop: false }
            },
            QueueEvent::OnHold { queue_id, status } => {
                if let OnHold::Locked { until } = &status {
                    if *until < self.next_wake_up {
                        self.next_wake_up = *until;
                    }
                }
                self.on_hold.insert(queue_id, status);
                let rescan = self.on_hold.len() > 1;
                EventOutcome { rescan, stop: false }
            },
            QueueEvent::Paused(p) => {
                self.paused = p;
                EventOutcome { rescan: !p, stop: false }
            },
            QueueEvent::Stop => EventOutcome { rescan: false, stop: true },
        }
    }
}

/// Whether some entry of `s` concerns queue item `id`.
pub open spec fn batch_has_id(s: Seq<DueEvent>, id: u64) -> bool {
    exists|i: int| 0 <= i < s.len() && s[i].queue_id == id
}

/// Whether no two entries of `s` concern the same queue item.
pub open spec fn distinct_queue_ids(s: Seq<DueEvent>) -> bool {
    forall|i: int, j: int| 0 <= i < j < s.len() ==> s[i].queue_id != s[j].queue_id
}

/// What the cleanup pass, had it run this rescan, keeps of a hold: an
/// in-flight hold always, a time lock while still in the future, a
/// concurrency hold only for an item still among the due ones.
pub open spec fn retained_in_batch(h: OnHold, id: u64, now: u64, due: Seq<DueEvent>) -> bool {
    match h {
        OnHold::InFlight => true,
        OnHold::Locked { until } => until > now,
        OnHold::ConcurrencyLimited { .. } => batch_has_id(due, id),
    }
}

/// How the rescan leaves the hold of an item it did not admit or evaluate:
/// untouched, except that a cleanup pass that came due may drop it by the
/// retention rule.
pub open spec fn kept_through_cleanup(
    pre: Queue,
    post: Queue,
    id: u64,
    due: Seq<DueEvent>,
    now: u64,
) -> bool {
    &&& (post.on_hold@.contains_key(id) <==> pre.on_hold@.contains_key(id) && (pre.next_cleanup
        <= now ==> retained_in_batch(pre.on_hold@[id], id, now, due)))
    &&& (post.on_hold@.contains_key(id) ==> post.on_hold@[id] == pre.on_hold@[id])
}

/// Whether a recorded concurrency hold merits release against the limiter
/// table `lims`: one of its limiters has spare capacity, or its recheck
/// deadline has elapsed.
pub open spec fn concurrency_releasable(
    ls: Seq<usize>,
    next_due: Option<u64>,
    now: u64,
    lims: Seq<ConcurrencyLimiter>,
) -> bool {
    ||| exists|k: int| 0 <= k < ls.len() && limiter_spare(lims, #[trigger] ls[k])
    ||| (next_due matches Some(d) && d <= now)
}

/// What holds of an item for which admission was attempted: either it was
/// dispatched and is now in flight, or global admission refused it and it
/// is now held back by the one saturated outbound limiter. With no
/// outbound limiter configured, admission always succeeds.
pub open spec fn admission_outcome(
    pre: Queue,
    hold: Map<u64, OnHold>,
    dispatched: Seq<DueEvent>,
    item: DueEvent,
) -> bool {
    let id = item.queue_id;
    &&& if batch_has_id(dispatched, id) {
        &&& dispatched.contains(item)
        &&& hold.contains_key(id)
        &&& hold[id] is InFlight
    } else {
        &&& hold.contains_key(id)
        &&& (hold[id] matches OnHold::ConcurrencyLimited { limiters: ls, next_due } && ls@.len()
            == 1 && pre.outbound@.contains(ls@[0]) && next_due is None)
        &&& pre.outbound@.len() > 0
    }
    &&& (pre.outbound@.len() == 0 ==> batch_has_id(dispatched, id))
}

/// The per-item rules of one rescan, stated against the registry `hold` as
/// the scan leaves it and the wake-up slack `next_wake` it accumulates.
/// An item not yet due only bounds the wake-up slack. A due item is
/// skipped while in flight, skipped while time-locked with the lock
/// bounding the slack, skipped while concurrency-held without spare
/// capacity or an elapsed recheck deadline, and otherwise taken through
/// admission.
pub open spec fn scan_outcome(
    pre: Queue,
    hold: Map<u64, OnHold>,
    dispatched: Seq<DueEvent>,
    item: DueEvent,
    now: u64,
    next_wake: u64,
) -> bool {
    let id = item.queue_id;
    if item.due > now {
        &&& !batch_has_id(dispatched, id)
        &&& next_wake <= item.due - now
    } else if !pre.on_hold@.contains_key(id) {
        admission_outcome(pre, hold, dispatched, item)
    } else {
        match pre.on_hold@[id] {
            OnHold::InFlight => true,
            OnHold::Locked { until } => if until > now {
                &&& hold.contains_key(id)
                &&& hold[id] == pre.on_hold@[id]
                &&& !batch_has_id(dispatched, id)
                &&& next_wake <= until - now
            } else {
                admission_outcome(pre, hold, dispatched, item)
            },
            OnHold::ConcurrencyLimited { limiters: ls, next_due } => {
                let releasable = concurrency_releasable(ls@, next_due, now, pre.limiters@);
                let recheck = next_due matches Some(d) && d <= now;
                &&& (!releasable ==> hold.contains_key(id) && hold[id] == pre.on_hold@[id]
                    && !batch_has_id(dispatched, id))
                &&& (recheck ==> admission_outcome(pre, hold, dispatched, item))
                &&& (!batch_has_id(dispatched, id) ==> hold.contains_key(id)
                    && hold[id] is ConcurrencyLimited)
                &&& (pre.outbound@.len() == 0 && releasable ==> dispatched.contains(item))
            },
        }
    }
}

/// The accumulated wake-up slack is no invention: it is the refresh
/// ceiling, or the distance to some processed item's future deadline, or
/// the distance to some processed item's time lock.
pub open spec fn wake_slack_supported(
    pre: Queue,
    s: Seq<DueEvent>,
    k: int,
    next_wake: u64,
    now: u64,
) -> bool {
    ||| next_wake == QUEUE_REFRESH
    ||| exists|j: int| 0 <= j < k && (#[trigger] s[j]).due > now && next_wake == s[j].due - now
    ||| exists|j: int|
        0 <= j < k && (#[trigger] s[j]).due <= now && pre.on_hold@.contains_key(s[j].queue_id)
            && (pre.on_hold@[s[j].queue_id] matches OnHold::Locked { until } && until > now
            && next_wake == until - now)
}

/// Whether every outbound limiter could admit `n` more deliveries.
pub open spec fn outbound_headroom(pre: Queue, n: int) -> bool {
    forall|l: usize|
        pre.outbound@.contains(l) ==> (#[trigger] pre.limiters@[l as int]).concurrent + n
            <= pre.limiters@[l as int].max_concurrent
}

/// Whether an item passes the hold gate no matter in what order the batch
/// is processed: it carries no hold, or an expired time lock, or a
/// concurrency hold already releasable against the incoming limiter table.
pub open spec fn surely_eligible(pre: Queue, item: DueEvent, now: u64) -> bool {
    let id = item.queue_id;
    if !pre.on_hold@.contains_key(id) {
        true
    } else {
        match pre.on_hold@[id] {
            OnHold::InFlight => false,
            OnHold::Locked { until } => until <= now,
            OnHold::ConcurrencyLimited { limiters: ls, next_due } => concurrency_releasable(
                ls@,
                next_due,
                now,
                pre.limiters@,
            ),
        }
    }
}

/// Everything one rescan pass promises: the pause flag and outbound set
/// stand; limiter bounds stand and counters only grow (and stand still with
/// no outbound limiter configured); the cleanup clock advances exactly when
/// it was due; dispatched items come from the batch, are due, concern
/// distinct items, and are recorded in flight; an item in flight on entry
/// stays in flight and is not dispatched again; items outside the batch are
/// kept, subject only to a cleanup pass that came due; every batch item
/// follows the per-item rules; when every outbound limiter has room for
/// the whole batch, every due item that surely passes the hold gate is
/// dispatched; limiters outside the outbound set stand still; and the
/// wake-up deadline lies past `now`, at most one refresh ceiling away, at
/// or before every future deadline of the batch, and is itself one of the
/// deadlines it accounts for.
pub open spec fn rescan_post(
    pre: Queue,
    post: Queue,
    due: Seq<DueEvent>,
    dispatched: Seq<DueEvent>,
    now: u64,
) -> bool {
    &&& post.paused == pre.paused
    &&& post.outbound@ == pre.outbound@
    &&& post.next_cleanup == if pre.next_cleanup <= now {
        now + CLEANUP_INTERVAL
    } else {
        pre.next_cleanup as int
    }
    &&& post.limiters@.len() == pre.limiters@.len()
    &&& forall|l: usize|
        l < pre.limiters@.len() ==> (#[trigger] post.limiters@[l as int]).max_concurrent
            == pre.limiters@[l as int].max_concurrent && post.limiters@[l as int].concurrent
            >= pre.limiters@[l as int].concurrent
    &&& (pre.outbound@.len() == 0 ==> post.limiters@ == pre.limiters@)
    &&& forall|j: int|
        0 <= j < dispatched.len() ==> due.contains(#[trigger] dispatched[j]) && dispatched[j].due
            <= now
    &&& distinct_queue_ids(dispatched)
    &&& forall|j: int|
        0 <= j < dispatched.len() ==> post.on_hold@.contains_key(
            (#[trigger] dispatched[j]).queue_id,
        ) && post.on_hold@[dispatched[j].queue_id] is InFlight
    &&& forall|id: u64|
        pre.on_hold@.contains_key(id) && (#[trigger] pre.on_hold@[id]) is InFlight
            ==> post.on_hold@.contains_key(id) && post.on_hold@[id] is InFlight && !batch_has_id(
            dispatched,
            id,
        )
    &&& forall|id: u64|
        !#[trigger] batch_has_id(due, id) ==> kept_through_cleanup(pre, post, id, due, now)
    &&& forall|m: int|
        0 <= m < due.len() ==> scan_outcome(
            pre,
            post.on_hold@,
            dispatched,
            #[trigger] due[m],
            now,
            (post.next_wake_up - now) as u64,
        )
    &&& forall|l: usize|
        l < pre.limiters@.len() && !pre.outbound@.contains(l)
            ==> (#[trigger] post.limiters@[l as int]).concurrent
                == pre.limiters@[l as int].concurrent
    &&& (outbound_headroom(pre, due.len() as int) ==> forall|m: int|
        0 <= m < due.len() && (#[trigger] due[m]).due <= now && surely_eligible(pre, due[m], now)
            ==> dispatched.contains(due[m]))
    &&& now < post.next_wake_up <= now + QUEUE_REFRESH
    &&& wake_slack_supported(pre, due, due.len() as int, (post.next_wake_up - now) as u64, now)
}

/// Relies on rand::seq::SliceRandom::shuffle: an in-place permutation of
/// the batch; which order comes out is left open.
#[verifier::external_body]
fn shuffle_events(v: &mut Vec<DueEvent>)
    ensures
        final(v)@.len() == old(v)@.len(),
        final(v)@.to_multiset() == old(v)@.to_multiset(),
{
    v.shuffle(&mut rand::thread_rng());
}

/// A permutation of a batch of distinct items holds the same items, again
/// distinct.
proof fn lemma_batch_permutation(a: Seq<DueEvent>, b: Seq<DueEvent>)
    requires
        a.to_multiset() == b.to_multiset(),
        distinct_queue_ids(a),
    ensures
        a.len() == b.len(),
        forall|x: DueEvent| a.contains(x) <==> b.contains(x),
        distinct_queue_ids(b),
        forall|id: u64| batch_has_id(a, id) <==> batch_has_id(b, id),
{
    broadcast use vstd::seq_lib::group_to_multiset_ensures;

    assert(a.len() == a.to_multiset().len());
    assert(b.len() == b.to_multiset().len());
    assert forall|x: DueEvent| a.contains(x) <==> b.contains(x) by {
        assert(a.contains(x) <==> a.to_multiset().count(x) > 0);
        assert(b.contains(x) <==> b.to_multiset().count(x) > 0);
    }
    assert(a.no_duplicates()) by {
        assert forall|i: int, j: int|
            0 <= i < a.len() && 0 <= j < a.len() && i != j implies a[i] != a[j] by {
            if i < j {
                assert(a[i].queue_id != a[j].queue_id);
            } else {
                assert(a[j].queue_id != a[i].queue_id);
            }
        }
    }
    a.lemma_multiset_has_no_duplicates();
    b.lemma_multiset_has_no_duplicates_conv();
    assert forall|i: int, j: int| 0 <= i < j < b.len() implies b[i].queue_id != b[j].queue_id by {
        if b[i].queue_id == b[j].queue_id {
            assert(b[i] != b[j]);
            assert(b.contains(b[i]));
            assert(b.contains(b[j]));
            assert(a.contains(b[i]));
            assert(a.contains(b[j]));
            let p = choose|p: int| 0 <= p < a.len() && a[p] == b[i];
            let q = choose|q: int| 0 <= q < a.len() && a[q] == b[j];
            assert(p != q);
            if p < q {
                assert(a[p].queue_id != a[q].queue_id);
            } else {
                assert(a[q].queue_id != a[p].queue_id);
            }
            assert(false);
        }
    }
    assert forall|id: u64| batch_has_id(a, id) <==> batch_has_id(b, id) by {
        if batch_has_id(a, id) {
            let i = choose|i: int| 0 <= i < a.len() && a[i].queue_id == id;
            assert(a.contains(a[i]));
            assert(b.contains(a[i]));
            let j = choose|j: int| 0 <= j < b.len() && b[j] == a[i];
            assert(b[j].queue_id == id);
        }
        if batch_has_id(b, id) {
            let i = choose|i: int| 0 <= i < b.len() && b[i].queue_id == id;
            assert(b.contains(b[i]));
            assert(a.contains(b[i]));
            let j = choose|j: int| 0 <= j < a.len() && a[j] == b[i];
            assert(a[j].queue_id == id);
        }
    }
}

/// A concurrency hold releasable against a table whose counters have only
/// grown was already releasable against the original table.
proof fn lemma_releasable_monotone(
    pre_l: Seq<ConcurrencyLimiter>,
    cur_l: Seq<ConcurrencyLimiter>,
    ls: Seq<usize>,
    next_due: Option<u64>,
    now: u64,
)
    requires
        cur_l.len() == pre_l.len(),
        forall|l: usize|
            l < pre_l.len() ==> (#[trigger] cur_l[l as int]).max_concurrent
                == pre_l[l as int].max_concurrent && cur_l[l as int].concurrent
                >= pre_l[l as int].concurrent,
        concurrency_releasable(ls, next_due, now, cur_l),
    ensures
        concurrency_releasable(ls, next_due, now, pre_l),
{
    if exists|k: int| 0 <= k < ls.len() && limiter_spare(cur_l, #[trigger] ls[k]) {
        let k = choose|k: int| 0 <= k < ls.len() && limiter_spare(cur_l, #[trigger] ls[k]);
        assert(cur_l[ls[k] as int].max_concurrent == pre_l[ls[k] as int].max_concurrent);
        assert(limiter_spare(pre_l, ls[k]));
    }
}

/// One scan step concerning queue item `id` leaves intact every per-item
/// fact already established about a different item: the registry agrees off
/// `id`, the dispatch list at most gains an `id` entry, and the wake-up
/// slack only shrinks.
proof fn lemma_scan_outcome_stable(
    pre: Queue,
    h0: Map<u64, OnHold>,
    h1: Map<u64, OnHold>,
    d0: Seq<DueEvent>,
    d1: Seq<DueEvent>,
    item: DueEvent,
    now: u64,
    w0: u64,
    w1: u64,
    id: u64,
)
    requires
        scan_outcome(pre, h0, d0, item, now, w0),
        item.queue_id != id,
        forall|x: u64| x != id ==> ((#[trigger] h1.contains_key(x)) <==> h0.contains_key(x)),
        forall|x: u64| x != id && h1.contains_key(x) ==> (#[trigger] h1[x]) == h0[x],
        d1 == d0 || (exists|e: DueEvent| e.queue_id == id && d1 == d0.push(e)),
        w1 <= w0,
    ensures
        scan_outcome(pre, h1, d1, item, now, w1),
{
    let jid = item.queue_id;
    assert(batch_has_id(d1, jid) <==> batch_has_id(d0, jid)) by {
        if d1 != d0 {
            let e = choose|e: DueEvent| e.queue_id == id && d1 == d0.push(e);
            if batch_has_id(d1, jid) {
                let i = choose|i: int| 0 <= i < d1.len() && d1[i].queue_id == jid;
                assert(i < d0.len());
                assert(d0[i] == d1[i]);
            }
            if batch_has_id(d0, jid) {
                let i = choose|i: int| 0 <= i < d0.len() && d0[i].queue_id == jid;
                assert(d1[i] == d0[i]);
            }
        }
    }
    assert(d0.contains(item) ==> d1.contains(item)) by {
        if d0.contains(item) && d1 != d0 {
            let i = choose|i: int| 0 <= i < d0.len() && d0[i] == item;
            let e = choose|e: DueEvent| e.queue_id == id && d1 == d0.push(e);
            assert(d1[i] == item);
        }
    }
}

/// The per-item facts of the scan survive the cleanup pass: every hold the
/// scan left for a batch item is one the retention rule keeps.
proof fn lemma_scan_outcome_after_cleanup(
    pre: Queue,
    mid_h: Map<u64, OnHold>,
    post_h: Map<u64, OnHold>,
    d: Seq<DueEvent>,
    item: DueEvent,
    now: u64,
    w: u64,
    active: Seq<u64>,
)
    requires
        scan_outcome(pre, mid_h, d, item, now, w),
        active.contains(item.queue_id),
        forall|x: u64|
            (#[trigger] post_h.contains_key(x)) <==> mid_h.contains_key(x) && retain_hold(
                mid_h[x],
                x,
                now,
                active,
            ),
        forall|x: u64| post_h.contains_key(x) ==> (#[trigger] post_h[x]) == mid_h[x],
    ensures
        scan_outcome(pre, post_h, d, item, now, w),
{
    let id = item.queue_id;
    if mid_h.contains_key(id) {
        match mid_h[id] {
            OnHold::InFlight => {
                assert(retain_hold(mid_h[id], id, now, active));
                assert(post_h.contains_key(id) && post_h[id] == mid_h[id]);
            },
            OnHold::Locked { until } => {
                if until > now {
                    assert(retain_hold(mid_h[id], id, now, active));
                    assert(post_h.contains_key(id) && post_h[id] == mid_h[id]);
                }
            },
            OnHold::ConcurrencyLimited { .. } => {
                assert(retain_hold(mid_h[id], id, now, active));
                assert(post_h.contains_key(id) && post_h[id] == mid_h[id]);
            },
        }
    }
}

impl Queue {
    /// One rescan pass over the currently due items. Batches above the
    /// shuffle threshold are processed in a randomized order as a fairness
    /// measure; each item is still treated exactly once by the per-item
    /// rules of `scan_outcome`. When the cleanup interval has elapsed, the
    /// pass ends by purging the registry of entries the retention rule no
    /// longer merits, and it always ends by scheduling the next wake-up.
    /// Returns the items to hand to the dispatcher, each now in flight.
    #[verifier::rlimit(60)]
    pub fn process_rescan(&mut self, now: u64, due: Vec<DueEvent>) -> (dispatched: Vec<DueEvent>)
        requires
            old(self).wf(),
            distinct_queue_ids(due@),
            now <= u64::MAX - QUEUE_REFRESH,
            now <= u64::MAX - CLEANUP_INTERVAL,
        ensures
            final(self).wf(),
            rescan_post(*old(self), *final(self), due@, dispatched@, now),
    {
        let ghost pre = *old(self);
        let ghost due0 = due@;
        let mut batch = due;
        if batch.len() > SHUFFLE_THRESHOLD {
            shuffle_events(&mut batch);
        }
        proof {
            lemma_batch_permutation(due0, batch@);
        }
        let ghost s = batch@;
        let mut next_wake: u64 = QUEUE_REFRESH;
        let mut dispatched: Vec<DueEvent> = Vec::new();
        let mut k: usize = 0;
        while k < batch.len()
            invariant
                batch@ == s,
                distinct_queue_ids(s),
                0 <= k <= s.len(),
                pre.wf(),
                now <= u64::MAX - QUEUE_REFRESH,
                self.on_hold.wf(),
                self.paused == pre.paused,
                self.outbound == pre.outbound,
                self.next_cleanup == pre.next_cleanup,
                self.next_wake_up == pre.next_wake_up,
                self.limiters@.len() == pre.limiters@.len(),
                forall|l: usize|
                    l < pre.limiters@.len() ==> (#[trigger] self.limiters@[l as int]).wf()
                        && self.limiters@[l as int].max_concurrent
                            == pre.limiters@[l as int].max_concurrent
                        && self.limiters@[l as int].concurrent
                            >= pre.limiters@[l as int].concurrent,
                pre.outbound@.len() == 0 ==> self.limiters@ == pre.limiters@,
                forall|j: int|
                    0 <= j < dispatched@.len() ==> s.take(k as int).contains(
                        #[trigger] dispatched@[j],
                    ) && dispatched@[j].due <= now,
                distinct_queue_ids(dispatched@),
                forall|j: int|
                    0 <= j < dispatched@.len() ==> self.on_hold@.contains_key(
                        (#[trigger] dispatched@[j]).queue_id,
                    ) && self.on_hold@[dispatched@[j].queue_id] is InFlight,
                forall|id: u64|
                    pre.on_hold@.contains_key(id) && (#[trigger] pre.on_hold@[id]) is InFlight
                        ==> self.on_hold@.contains_key(id) && self.on_hold@[id] is InFlight
                        && !batch_has_id(dispatched@, id),
                forall|id: u64|
                    !#[trigger] batch_has_id(s.take(k as int), id) ==> (
                    self.on_hold@.contains_key(id) <==> pre.on_hold@.contains_key(id)) && (
                    self.on_hold@.contains_key(id) ==> self.on_hold@[id] == pre.on_hold@[id]),
                forall|j: int|
                    0 <= j < k ==> scan_outcome(
                        pre,
                        self.on_hold@,
                        dispatched@,
                        #[trigger] s[j],
                        now,
                        next_wake,
                    ),
                0 < next_wake <= QUEUE_REFRESH,
                wake_slack_supported(pre, s, k as int, next_wake, now),
                forall|l: usize|
                    l < pre.limiters@.len() && !pre.outbound@.contains(l)
                        ==> (#[trigger] self.limiters@[l as int]).concurrent
                            == pre.limiters@[l as int].concurrent,
                forall|l: usize|
                    pre.outbound@.contains(l) ==> (#[trigger] self.limiters@[l as int]).concurrent
                        <= pre.limiters@[l as int].concurrent + dispatched@.len(),
                dispatched@.len() <= k,
                forall|j: int|
                    0 <= j < k && outbound_headroom(pre, s.len() as int) && (
                    #[trigger] s[j]).due <= now && surely_eligible(pre, s[j], now)
                        ==> dispatched@.contains(s[j]),
            decreases s.len() - k,
        {
            let ghost h0 = self.on_hold@;
            let ghost d0 = dispatched@;
            let ghost w0 = next_wake;
            let ghost lims0 = self.limiters@;
            let ghost mut took_slots = false;
            let item = batch[k];
            let id = item.queue_id;
            proof {
                assert(!batch_has_id(s.take(k as int), id)) by {
                    if batch_has_id(s.take(k as int), id) {
                        let i = choose|i: int|
                            0 <= i < s.take(k as int).len() && s.take(k as int)[i].queue_id == id;
                        assert(s[i].queue_id == s[k as int].queue_id);
                        assert(false);
                    }
                }
                assert(!batch_has_id(d0, id)) by {
                    if batch_has_id(d0, id) {
                        let j = choose|j: int| 0 <= j < d0.len() && d0[j].queue_id == id;
                        assert(s.take(k as int).contains(d0[j]));
                        let i = choose|i: int|
                            0 <= i < s.take(k as int).len() && s.take(k as int)[i] == d0[j];
                        assert(s.take(k as int)[i].queue_id == id);
                        assert(batch_has_id(s.take(k as int), id));
                        assert(false);
                    }
                }
                assert(h0.contains_key(id) <==> pre.on_hold@.contains_key(id));
                assert(h0.contains_key(id) ==> h0[id] == pre.on_hold@[id]);
            }
            if item.due <= now {
                let eval_opt: Option<HoldEval> = match self.on_hold.get(id) {
                    Some(h) => Some(evaluate_hold(h, now, &self.limiters)),
                    None => None,
                };
                match eval_opt {
                    Some(HoldEval::Blocked) => {
                        proof {
                            assert(eval_hold(pre.on_hold@[id], now, lims0) == HoldEval::Blocked);
                            assert(scan_outcome(pre, h0, d0, item, now, w0)) by {
                                match pre.on_hold@[id] {
                                    OnHold::InFlight => {},
                                    OnHold::Locked { until } => {
                                        assert(false);
                                    },
                                    OnHold::ConcurrencyLimited { limiters: ls, next_due } => {
                                        assert(!concurrency_releasable(
                                            ls@,
                                            next_due,
                                            now,
                                            lims0,
                                        ));
                                        if pre.outbound@.len() == 0 {
                                            assert(lims0 == pre.limiters@);
                                            assert(!concurrency_releasable(
                                                ls@,
                                                next_due,
                                                now,
                                                pre.limiters@,
                                            ));
                                        }
                                    },
                                }
                            }
                            // With headroom for the whole batch, a hold this
                            // rescan must release cannot be found blocked.
                            assert(!(outbound_headroom(pre, s.len() as int) && surely_eligible(
                                pre,
                                item,
                                now,
                            ))) by {
                            if outbound_headroom(pre, s.len() as int) && surely_eligible(
                                pre,
                                item,
                                now,
                            ) {
                                match pre.on_hold@[id] {
                                    OnHold::InFlight => {},
                                    OnHold::Locked { until } => {},
                                    OnHold::ConcurrencyLimited { limiters: ls, next_due } => {
                                        if next_due matches Some(d) && d <= now {
                                            assert(false);
                                        } else {
                                            let m = choose|m: int|
                                                0 <= m < ls@.len() && limiter_spare(
                                                    pre.limiters@,
                                                    #[trigger] ls@[m],
                                                );
                                            let lm = ls@[m];
                                            if pre.outbound@.contains(lm) {
                                                assert(lims0[lm as int].concurrent
                                                    <= pre.limiters@[lm as int].concurrent
                                                        + d0.len());
                                                assert(limiter_spare(lims0, lm));
                                            } else {
                                                assert(lims0[lm as int].concurrent
                                                    == pre.limiters@[lm as int].concurrent);
                                                assert(lims0[lm as int].max_concurrent
                                                    == pre.limiters@[lm as int].max_concurrent);
                                                assert(limiter_spare(lims0, lm));
                                            }
                                            assert(eval_hold(pre.on_hold@[id], now, lims0)
                                                == HoldEval::Release);
                                            assert(false);
                                        }
                                    },
                                }
                            }
                            }
                        }
                    },
                    Some(HoldEval::BlockedUntil(until)) => {
                        proof {
                            assert(eval_hold(pre.on_hold@[id], now, lims0)
                                == HoldEval::BlockedUntil(until));
                            assert(pre.on_hold@[id] == (OnHold::Locked { until }) && until > now);
                        }
                        let due_in = until - now;
                        if due_in < next_wake {
                            next_wake = due_in;
                        }
                        proof {
                            assert(scan_outcome(pre, h0, d0, item, now, next_wake));
                            assert(wake_slack_supported(pre, s, k as int + 1, next_wake, now)) by {
                                if next_wake == due_in {
                                    assert(s[k as int].due <= now
                                        && pre.on_hold@.contains_key(s[k as int].queue_id));
                                } else {
                                    assert(next_wake == w0);
                                }
                            }
                        }
                    },
                    _ => {
                        proof {
                            match eval_opt {
                                Some(e) => {
                                    assert(e == HoldEval::Release);
                                    assert(eval_hold(pre.on_hold@[id], now, lims0)
                                        == HoldEval::Release);
                                },
                                None => {
                                    assert(!pre.on_hold@.contains_key(id));
                                },
                            }
                        }
                        self.on_hold.remove(id);
                        let admitted: bool;
                        match admit_all(&mut self.limiters, &self.outbound) {
                            None => {
                                proof {
                                    took_slots = true;
                                }
                                self.on_hold.insert(id, OnHold::InFlight);
                                dispatched.push(item);
                                admitted = true;
                            },
                            Some(l) => {
                                proof {
                                    // Enough headroom would have admitted.
                                    if outbound_headroom(pre, s.len() as int) {
                                        assert(pre.outbound@.contains(l));
                                        assert(lims0[l as int].concurrent
                                            <= pre.limiters@[l as int].concurrent + d0.len());
                                        assert(pre.limiters@[l as int].concurrent + s.len()
                                            <= pre.limiters@[l as int].max_concurrent);
                                        assert(d0.len() <= k);
                                        assert(limiter_spare(lims0, l));
                                        assert(false);
                                    }
                                }
                                let mut ls: Vec<usize> = Vec::new();
                                ls.push(l);
                                self.on_hold.insert(
                                    id,
                                    OnHold::ConcurrencyLimited { limiters: ls, next_due: None },
                                );
                                admitted = false;
                            },
                        }
                        proof {
                            let h1 = self.on_hold@;
                            let d1 = dispatched@;
                            assert(h1 == h0.remove(id).insert(
                                id,
                                if admitted {
                                    OnHold::InFlight
                                } else {
                                    h1[id]
                                },
                            ));
                            if admitted {
                                assert(d1 == d0.push(item));
                                assert(batch_has_id(d1, id)) by {
                                    assert(d1[d1.len() - 1].queue_id == id);
                                }
                                assert(d1.contains(item)) by {
                                    assert(d1[d1.len() - 1] == item);
                                }
                            } else {
                                assert(h1[id] matches OnHold::ConcurrencyLimited {
                                    limiters: ls2,
                                    next_due: nd2,
                                } && ls2@.len() == 1 && pre.outbound@.contains(ls2@[0])
                                    && nd2 is None);
                                assert(pre.outbound@.len() > 0);
                            }
                            if pre.outbound@.len() == 0 {
                                assert(admitted);
                                assert(lims0 == pre.limiters@);
                                vstd::std_specs::vec::axiom_spec_len(&self.limiters);
                                assert forall|l: int| 0 <= l < pre.limiters@.len()
                                    implies self.limiters@[l] == pre.limiters@[l] by {
                                    let u = l as usize;
                                    assert(!pre.outbound@.contains(u));
                                    assert(self.limiters@[u as int].concurrent
                                        == lims0[u as int].concurrent);
                                    assert(self.limiters@[u as int].max_concurrent
                                        == lims0[u as int].max_concurrent);
                                }
                                assert(self.limiters@ =~= pre.limiters@);
                            }
                            assert(admission_outcome(pre, h1, d1, item));
                            assert(scan_outcome(pre, h1, d1, item, now, next_wake)) by {
                                if pre.on_hold@.contains_key(id) {
                                    match pre.on_hold@[id] {
                                        OnHold::InFlight => {
                                            assert(eval_hold(pre.on_hold@[id], now, lims0)
                                                == HoldEval::Blocked);
                                            assert(false);
                                        },
                                        OnHold::Locked { until } => {},
                                        OnHold::ConcurrencyLimited { limiters: ls, next_due } => {
                                            assert(concurrency_releasable(
                                                ls@,
                                                next_due,
                                                now,
                                                lims0,
                                            ));
                                            lemma_releasable_monotone(
                                                pre.limiters@,
                                                lims0,
                                                ls@,
                                                next_due,
                                                now,
                                            );
                                        },
                                    }
                                }
                            }
                        }
                    },
                }
            } else {
                let due_in = item.due - now;
                if due_in < next_wake {
                    next_wake = due_in;
                }
                proof {
                    assert(scan_outcome(pre, h0, d0, item, now, next_wake));
                    assert(wake_slack_supported(pre, s, k as int + 1, next_wake, now)) by {
                        if next_wake == due_in {
                            assert(s[k as int].due > now && next_wake == s[k as int].due - now);
                        } else {
                            assert(next_wake == w0);
                        }
                    }
                }
            }
            proof {
                let h1 = self.on_hold@;
                let d1 = dispatched@;
                assert forall|x: u64| x != id implies ((#[trigger] h1.contains_key(x))
                    <==> h0.contains_key(x)) by {}
                assert forall|x: u64| x != id && h1.contains_key(x) implies (#[trigger] h1[x])
                    == h0[x] by {}
                assert(d1 == d0 || (exists|e: DueEvent| e.queue_id == id && d1 == d0.push(e)))
                    by {
                    if d1 != d0 {
                        assert(item.queue_id == id && d1 == d0.push(item));
                    }
                }
                assert forall|j: int| 0 <= j < k implies scan_outcome(
                    pre,
                    h1,
                    d1,
                    #[trigger] s[j],
                    now,
                    next_wake,
                ) by {
                    assert(s[j].queue_id != id);
                    lemma_scan_outcome_stable(
                        pre,
                        h0,
                        h1,
                        d0,
                        d1,
                        s[j],
                        now,
                        w0,
                        next_wake,
                        id,
                    );
                }
                assert forall|id2: u64| !#[trigger] batch_has_id(s.take(k as int + 1), id2)
                    implies (h1.contains_key(id2) <==> pre.on_hold@.contains_key(id2)) && (
                h1.contains_key(id2) ==> h1[id2] == pre.on_hold@[id2]) by {
                    assert(id2 != id) by {
                        if id2 == id {
                            assert(s.take(k as int + 1)[k as int].queue_id == id);
                            assert(batch_has_id(s.take(k as int + 1), id2));
                        }
                    }
                    assert(!batch_has_id(s.take(k as int), id2)) by {
                        if batch_has_id(s.take(k as int), id2) {
                            let i = choose|i: int|
                                0 <= i < s.take(k as int).len() && s.take(k as int)[i].queue_id
                                    == id2;
                            assert(s.take(k as int + 1)[i].queue_id == id2);
                            assert(batch_has_id(s.take(k as int + 1), id2));
                        }
                    }
                }
                assert forall|id2: u64|
                    pre.on_hold@.contains_key(id2) && (#[trigger] pre.on_hold@[id2]) is InFlight
                    implies h1.contains_key(id2) && h1[id2] is InFlight && !batch_has_id(d1, id2)
                    by {
                    if id2 == id {
                        assert(h0.contains_key(id) && h0[id] == pre.on_hold@[id]);
                        assert(h1 == h0);
                        assert(d1 == d0);
                        assert(!batch_has_id(d0, id));
                    } else {
                        if batch_has_id(d1, id2) && !batch_has_id(d0, id2) {
                            let j = choose|j: int| 0 <= j < d1.len() && d1[j].queue_id == id2;
                            assert(j == d1.len() - 1);
                            assert(d1[j].queue_id == id);
                        }
                    }
                }
                assert forall|j: int| 0 <= j < d1.len() implies s.take(k as int + 1).contains(
                    #[trigger] d1[j],
                ) && d1[j].due <= now by {
                    if j < d0.len() {
                        assert(s.take(k as int).contains(d0[j]));
                        let i = choose|i: int|
                            0 <= i < s.take(k as int).len() && s.take(k as int)[i] == d0[j];
                        assert(s.take(k as int + 1)[i] == s[i]);
                        assert(s.take(k as int + 1).contains(d1[j]));
                    } else {
                        assert(d1[j] == item);
                        assert(s.take(k as int + 1)[k as int] == item);
                        assert(s.take(k as int + 1).contains(d1[j]));
                    }
                }
                assert(distinct_queue_ids(d1)) by {
                    if d1 != d0 {
                        assert forall|i: int, j: int| 0 <= i < j < d1.len() implies d1[i].queue_id
                            != d1[j].queue_id by {
                            if j == d1.len() - 1 {
                                assert(d1[i] == d0[i]);
                                assert(!batch_has_id(d0, id));
                            }
                        }
                    }
                }
                assert forall|l: usize| l < pre.limiters@.len() && !pre.outbound@.contains(l)
                    implies (#[trigger] self.limiters@[l as int]).concurrent
                        == pre.limiters@[l as int].concurrent by {
                    if took_slots {
                        assert(self.limiters@[l as int].concurrent
                            == lims0[l as int].concurrent);
                    } else {
                        assert(self.limiters@[l as int].concurrent
                            == lims0[l as int].concurrent);
                    }
                    assert(lims0[l as int].concurrent == pre.limiters@[l as int].concurrent);
                }
                assert forall|l: usize| pre.outbound@.contains(l)
                    implies (#[trigger] self.limiters@[l as int]).concurrent
                        <= pre.limiters@[l as int].concurrent + d1.len() by {
                    assert(l < pre.limiters@.len());
                    assert(lims0[l as int].concurrent
                        <= pre.limiters@[l as int].concurrent + d0.len());
                    if took_slots {
                        assert(self.limiters@[l as int].concurrent
                            == lims0[l as int].concurrent + 1);
                        assert(d1.len() == d0.len() + 1);
                    } else {
                        assert(self.limiters@[l as int].concurrent
                            == lims0[l as int].concurrent);
                        assert(d1 == d0);
                    }
                }
                assert forall|j: int|
                    0 <= j < k + 1 && outbound_headroom(pre, s.len() as int) && (
                    #[trigger] s[j]).due <= now && surely_eligible(pre, s[j], now)
                    implies d1.contains(s[j]) by {
                    if j < k {
                        assert(d0.contains(s[j]));
                        if d1 != d0 {
                            let i = choose|i: int| 0 <= i < d0.len() && d0[i] == s[j];
                            assert(d1[i] == s[j]);
                        }
                    } else {
                        assert(s[j] == item);
                        assert(took_slots);
                        assert(d1.last() == item);
                    }
                }
            }
            k = k + 1;
        }
        proof {
            assert(s.take(s.len() as int) =~= s);
        }
        let ghost midh = self.on_hold@;
        let mut active: Vec<u64> = Vec::new();
        let mut i: usize = 0;
        while i < batch.len()
            invariant
                batch@ == s,
                0 <= i <= s.len(),
                active@.len() == i as int,
                forall|j: int| 0 <= j < i ==> active@[j] == s[j].queue_id,
            decreases s.len() - i,
        {
            let e = batch[i];
            active.push(e.queue_id);
            i = i + 1;
        }
        proof {
            assert forall|id: u64| active@.contains(id) <==> batch_has_id(s, id) by {
                if active@.contains(id) {
                    let j = choose|j: int| 0 <= j < active@.len() && active@[j] == id;
                    assert(s[j].queue_id == id);
                }
                if batch_has_id(s, id) {
                    let j = choose|j: int| 0 <= j < s.len() && s[j].queue_id == id;
                    assert(active@[j] == id);
                }
            }
        }
        let ghost dfin = dispatched@;
        let run_cleanup = self.next_cleanup <= now;
        if run_cleanup {
            self.on_hold.cleanup(now, &active);
        }
        proof {
            if run_cleanup {
                assert forall|x: u64| (#[trigger] self.on_hold@.contains_key(x)) <==> (
                midh.contains_key(x) && retain_hold(midh[x], x, now, active@)) by {}
                assert forall|x: u64| self.on_hold@.contains_key(x) implies (
                #[trigger] self.on_hold@[x]) == midh[x] by {}
            } else {
                assert(self.on_hold@ == midh);
            }
        }
        let ghost finh = self.on_hold@;
        if run_cleanup {
            self.next_cleanup = now + CLEANUP_INTERVAL;
        }
        self.next_wake_up = now + next_wake;
        proof {
            let fin = *self;
            let cleaned = pre.next_cleanup <= now;
            assert(cleaned == run_cleanup);
            assert(fin.on_hold@ == finh);
            assert((fin.next_wake_up - now) as u64 == next_wake);
            // per-item outcomes over the input batch
            assert forall|m: int| 0 <= m < due0.len() implies scan_outcome(
                pre,
                finh,
                dfin,
                #[trigger] due0[m],
                now,
                next_wake,
            ) by {
                assert(due0.contains(due0[m]));
                assert(s.contains(due0[m]));
                let j = choose|j: int| 0 <= j < s.len() && s[j] == due0[m];
                assert(scan_outcome(pre, midh, dfin, s[j], now, next_wake));
                if cleaned {
                    assert(active@.contains(due0[m].queue_id)) by {
                        assert(batch_has_id(s, s[j].queue_id));
                    }
                    lemma_scan_outcome_after_cleanup(
                        pre,
                        midh,
                        finh,
                        dfin,
                        due0[m],
                        now,
                        next_wake,
                        active@,
                    );
                }
            }
            // holds outside the batch
            assert forall|id: u64| !#[trigger] batch_has_id(due0, id) implies kept_through_cleanup(
                pre,
                fin,
                id,
                due0,
                now,
            ) by {
                assert(!batch_has_id(s, id));
                assert(midh.contains_key(id) <==> pre.on_hold@.contains_key(id));
                assert(midh.contains_key(id) ==> midh[id] == pre.on_hold@[id]);
                if cleaned {
                    if finh.contains_key(id) {
                        assert(finh[id] == midh[id]);
                    }
                    assert(!active@.contains(id));
                    if midh.contains_key(id) {
                        assert(retain_hold(midh[id], id, now, active@)
                            == retained_in_batch(pre.on_hold@[id], id, now, due0));
                    }
                }
            }
            // dispatched items stay in flight
            assert forall|j: int| 0 <= j < dfin.len() implies finh.contains_key(
                (#[trigger] dfin[j]).queue_id,
            ) && finh[dfin[j].queue_id] is InFlight by {
                assert(midh.contains_key(dfin[j].queue_id)
                    && midh[dfin[j].queue_id] is InFlight);
                if cleaned {
                    assert(retain_hold(
                        midh[dfin[j].queue_id],
                        dfin[j].queue_id,
                        now,
                        active@,
                    ));
                }
            }
            // items in flight on entry stay so
            assert forall|id: u64|
                pre.on_hold@.contains_key(id) && (#[trigger] pre.on_hold@[id]) is InFlight
                implies finh.contains_key(id) && finh[id] is InFlight
                    && !batch_has_id(dfin, id) by {
                assert(midh.contains_key(id) && midh[id] is InFlight);
                if cleaned {
                    assert(retain_hold(midh[id], id, now, active@));
                }
            }
            // dispatched items come from the input batch
            assert forall|j: int| 0 <= j < dfin.len() implies due0.contains(#[trigger] dfin[j])
                && dfin[j].due <= now by {
                assert(s.take(s.len() as int).contains(dfin[j]));
                assert(s.contains(dfin[j]));
                assert(due0.contains(dfin[j]));
            }
            // limiters outside the outbound set stood still
            assert forall|l: usize| l < pre.limiters@.len() && !pre.outbound@.contains(l)
                implies (#[trigger] fin.limiters@[l as int]).concurrent
                    == pre.limiters@[l as int].concurrent by {
                assert(self.limiters@[l as int].concurrent
                    == pre.limiters@[l as int].concurrent);
            }
            // with headroom for the whole batch, every surely eligible due
            // item went out
            if outbound_headroom(pre, due0.len() as int) {
                assert forall|m: int|
                    0 <= m < due0.len() && (#[trigger] due0[m]).due <= now && surely_eligible(
                        pre,
                        due0[m],
                        now,
                    ) implies dfin.contains(due0[m]) by {
                    assert(due0.contains(due0[m]));
                    assert(s.contains(due0[m]));
                    let j = choose|j: int| 0 <= j < s.len() && s[j] == due0[m];
                    assert(s.len() == due0.len());
                    assert(outbound_headroom(pre, s.len() as int));
                    assert(dfin.contains(s[j]));
                }
            }
            // the wake-up deadline is supported
            assert(wake_slack_supported(pre, due0, due0.len() as int, next_wake, now)) by {
                if next_wake != QUEUE_REFRESH {
                    if exists|j: int|
                        0 <= j < s.len() && (#[trigger] s[j]).due > now && next_wake == s[j].due
                            - now {
                        let j = choose|j: int|
                            0 <= j < s.len() && (#[trigger] s[j]).due > now && next_wake == s[j].due
                                - now;
                        assert(s.contains(s[j]));
                        assert(due0.contains(s[j]));
                        let m = choose|m: int| 0 <= m < due0.len() && due0[m] == s[j];
                        assert(due0[m].due > now && next_wake == due0[m].due - now);
                    } else {
                        let j = choose|j: int|
                            0 <= j < s.len() && (#[trigger] s[j]).due <= now
                                && pre.on_hold@.contains_key(s[j].queue_id) && (
                            pre.on_hold@[s[j].queue_id] matches OnHold::Locked { until } && until
                                > now && next_wake == until - now);
                        assert(s.contains(s[j]));
                        assert(due0.contains(s[j]));
                        let m = choose|m: int| 0 <= m < due0.len() && due0[m] == s[j];
                        assert(due0[m].due <= now && pre.on_hold@.contains_key(due0[m].queue_id)
                            && (pre.on_hold@[due0[m].queue_id] matches OnHold::Locked { until }
                            && until > now && next_wake == until - now));
                    }
                }
            }
        }
        dispatched
    }
}

/// What one full loop iteration returned.
pub struct TickOutcome {
    /// The items handed to the dispatcher this iteration.
    pub dispatched: Vec<DueEvent>,
    /// Whether the loop is to terminate.
    pub stop: bool,
}

/// The state change of the event phase: the received control event is
/// applied, and a timeout with no event asks for a rescan.
pub open spec fn event_applied(
    pre: Queue,
    mid: Queue,
    event: Option<QueueEvent>,
    out: EventOutcome,
) -> bool {
    match event {
        Some(ev) => event_post(pre, mid, ev, out),
        None => mid == pre && out == (EventOutcome { rescan: true, stop: false }),
    }
}

/// The state change of the scan phase. While paused, nothing is dispatched
/// and the loop idles for the pause horizon. Otherwise, when the event
/// asked for a rescan or the wake-up deadline has elapsed, one rescan pass
/// runs; else nothing happens.
pub open spec fn rescan_phase(
    mid: Queue,
    post: Queue,
    due: Seq<DueEvent>,
    dispatched: Seq<DueEvent>,
    now: u64,
    out: EventOutcome,
) -> bool {
    if mid.paused {
        &&& dispatched.len() == 0
        &&& post.on_hold@ == mid.on_hold@
        &&& post.paused == mid.paused
        &&& post.limiters@ == mid.limiters@
        &&& post.outbound@ == mid.outbound@
        &&& post.next_cleanup == mid.next_cleanup
        &&& post.next_wake_up == now + PAUSE_IDLE
    } else if out.rescan || mid.next_wake_up <= now {
        rescan_post(mid, post, due, dispatched, now)
    } else {
        &&& post == mid
        &&& dispatched.len() == 0
    }
}

/// One loop iteration: a `Stop` event terminates the loop untouched; any
/// other iteration applies the event phase and then the scan phase.
pub open spec fn tick_post(
    pre: Queue,
    post: Queue,
    event: Option<QueueEvent>,
    due: Seq<DueEvent>,
    dispatched: Seq<DueEvent>,
    stop: bool,
    now: u64,
) -> bool {
    if event matches Some(QueueEvent::Stop) {
        &&& post == pre
        &&& stop
        &&& dispatched.len() == 0
    } else {
        &&& !stop
        &&& exists|mid: Queue, out: EventOutcome|
            #[trigger] event_applied(pre, mid, event, out) && rescan_phase(
                mid,
                post,
                due,
                dispatched,
                now,
                out,
            )
    }
}

impl Queue {
    /// One iteration of the control loop: apply the received event (`None`
    /// stands for the wake-up timeout), then, unless paused, rescan the due
    /// items when called for; while paused, idle until the pause horizon.
    pub fn tick(&mut self, event: Option<QueueEvent>, now: u64, due: Vec<DueEvent>) -> (r:
        TickOutcome)
        requires
            old(self).wf(),
            distinct_queue_ids(due@),
            now <= u64::MAX - PAUSE_IDLE,
        ensures
            final(self).wf(),
            tick_post(*old(self), *final(self), event, due@, r.dispatched@, r.stop, now),
    {
        let ghost pre = *old(self);
        let is_stop = match &event {
            Some(QueueEvent::Stop) => true,
            _ => false,
        };
        if is_stop {
            return TickOutcome { dispatched: Vec::new(), stop: true };
        }
        let out = match event {
            Some(ev) => self.handle_event(ev),
            None => EventOutcome { rescan: true, stop: false },
        };
        let ghost mid = *self;
        let ghost evs = event;
        proof {
            assert(event_applied(pre, mid, evs, out));
        }
        if !self.paused {
            if out.rescan || self.next_wake_up <= now {
                let dispatched = self.process_rescan(now, due);
                proof {
                    assert(rescan_phase(mid, *self, due@, dispatched@, now, out));
                }
                return TickOutcome { dispatched, stop: false };
            } else {
                proof {
                    assert(rescan_phase(mid, *self, due@, Seq::<DueEvent>::empty(), now, out));
                }
                return TickOutcome { dispatched: Vec::new(), stop: false };
            }
        } else {
            self.next_wake_up = now + PAUSE_IDLE;
            proof {
                assert(rescan_phase(mid, *self, due@, Seq::<DueEvent>::empty(), now, out));
            }
            return TickOutcome { dispatched: Vec::new(), stop: false };
        }
    }
}

/// Implemented by the control-channel receiver a queue manager loop is
/// spawned from.
pub trait SpawnQueue {
    fn spawn(self, queue: Queue);
}

} // verus!
