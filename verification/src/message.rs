//! Per-message delivery state and the pure deadline queries over it.
//!
//! A message carries one `Domain` entry per distinct destination domain.
//! Only domains in `Scheduled` or `TemporaryFailure` status take part in
//! scheduling; each such domain has a next-attempt deadline (`retry`), a
//! delay-notification deadline (`notify`) and an expiry deadline, all in
//! absolute epoch seconds.

use vstd::prelude::*;

use crate::clock::now_seconds;

verus! {

/// Delivery status of one destination domain of one message.
#[derive(Clone, Copy, PartialEq, Eq, Structural, Debug)]
pub enum Status {
    Scheduled,
    TemporaryFailure,
    PermanentFailure,
    Completed,
}

/// A deadline carrier: the absolute epoch second at which the event is due.
#[derive(Clone, Copy, PartialEq, Eq, Structural, Debug)]
pub struct Schedule {
    pub due: u64,
}

/// Scheduling state of one destination domain of one message.
#[derive(Clone, Copy, PartialEq, Eq, Structural, Debug)]
pub struct Domain {
    pub status: Status,
    /// Next delivery attempt deadline.
    pub retry: Schedule,
    /// Next delay-notification deadline.
    pub notify: Schedule,
    /// Deadline after which delivery is abandoned.
    pub expires: u64,
}

/// A queued message: its identifier and its destination domains.
pub struct Message {
    pub id: u64,
    pub domains: Vec<Domain>,
}

/// Whether a domain still takes part in scheduling.
pub open spec fn is_pending(s: Status) -> bool {
    s is Scheduled || s is TemporaryFailure
}

/// Whether `m` is one of the three deadlines of domain `d`.
pub open spec fn is_deadline_of(m: u64, d: Domain) -> bool {
    m == d.retry.due || m == d.notify.due || m == d.expires
}

/// Whether `m` lower-bounds every deadline of domain `d`.
pub open spec fn at_most_deadlines_of(m: u64, d: Domain) -> bool {
    m <= d.retry.due && m <= d.notify.due && m <= d.expires
}

impl Message {
    /// Whether some domain of `self` still takes part in scheduling.
    pub open spec fn has_pending(&self) -> bool {
        exists|i: int| 0 <= i < self.domains@.len() && is_pending(#[trigger] self.domains@[i].status)
    }

    /// The earliest of every pending domain's retry, notify and expiry
    /// deadlines, or `None` when no domain is pending.
    pub fn next_event(&self) -> (r: Option<u64>)
        ensures
            r is Some <==> self.has_pending(),
            r matches Some(m) ==> {
                &&& exists|i: int|
                    0 <= i < self.domains@.len() && is_pending(#[trigger] self.domains@[i].status)
                        && is_deadline_of(m, self.domains@[i])
                &&& forall|i: int|
                    0 <= i < self.domains@.len() && is_pending(#[trigger] self.domains@[i].status)
                        ==> at_most_deadlines_of(m, self.domains@[i])
            },
    {
        let mut next_event: u64 = 0;
        let mut has_events = false;

        let mut k: usize = 0;
        while k < self.domains.len()
            invariant
                0 <= k <= self.domains@.len(),
                has_events <==> exists|i: int|
                    0 <= i < k && is_pending(#[trigger] self.domains@[i].status),
                has_events ==> exists|i: int|
                    0 <= i < k && is_pending(#[trigger] self.domains@[i].status)
                        && is_deadline_of(next_event, self.domains@[i]),
                has_events ==> forall|i: int|
                    0 <= i < k && is_pending(#[trigger] self.domains@[i].status)
                        ==> at_most_deadlines_of(next_event, self.domains@[i]),
            decreases self.domains@.len() - k,
        {
            let domain = &self.domains[k];
            if matches!(domain.status, Status::Scheduled | Status::TemporaryFailure) {
                if !has_events || domain.retry.due < next_event {
                    next_event = domain.retry.due;
                    has_events = true;
                }
                if domain.notify.due < next_event {
                    next_event = domain.notify.due;
                }
                if domain.expires < next_event {
                    next_event = domain.expires;
                }
            }
            k = k + 1;
        }

        if has_events {
            Some(next_event)
        } else {
            None
        }
    }

    /// The earliest pending retry deadline; the current time when no domain
    /// is pending.
    pub fn next_delivery_event(&self) -> (r: u64)
        ensures
            self.has_pending() ==> {
                &&& exists|i: int|
                    0 <= i < self.domains@.len() && is_pending(#[trigger] self.domains@[i].status)
                        && r == self.domains@[i].retry.due
                &&& forall|i: int|
                    0 <= i < self.domains@.len() && is_pending(#[trigger] self.domains@[i].status)
                        ==> r <= self.domains@[i].retry.due
            },
    {
        let mut next_delivery: u64 = now_seconds();
        let mut has_events = false;

        let mut k: usize = 0;
        while k < self.domains.len()
            invariant
                0 <= k <= self.domains@.len(),
                has_events <==> exists|i: int|
                    0 <= i < k && is_pending(#[trigger] self.domains@[i].status),
                has_events ==> exists|i: int|
                    0 <= i < k && is_pending(#[trigger] self.domains@[i].status)
                        && next_delivery == self.domains@[i].retry.due,
                has_events ==> forall|i: int|
                    0 <= i < k && is_pending(#[trigger] self.domains@[i].status)
                        ==> next_delivery <= self.domains@[i].retry.due,
            decreases self.domains@.len() - k,
        {
            let domain = &self.domains[k];
            if matches!(domain.status, Status::Scheduled | Status::TemporaryFailure) {
                if !has_events || domain.retry.due < next_delivery {
                    next_delivery = domain.retry.due;
                    has_events = true;
                }
            }
            k = k + 1;
        }

        next_delivery
    }

    /// The earliest pending delay-notification deadline; the current time
    /// when no domain is pending.
    pub fn next_dsn(&self) -> (r: u64)
        ensures
            self.has_pending() ==> {
                &&& exists|i: int|
                    0 <= i < self.domains@.len() && is_pending(#[trigger] self.domains@[i].status)
                        && r == self.domains@[i].notify.due
                &&& forall|i: int|
                    0 <= i < self.domains@.len() && is_pending(#[trigger] self.domains@[i].status)
                        ==> r <= self.domains@[i].notify.due
            },
    {
        let mut next_dsn: u64 = now_seconds();
        let mut has_events = false;

        let mut k: usize = 0;
        while k < self.domains.len()
            invariant
                0 <= k <= self.domains@.len(),
                has_events <==> exists|i: int|
                    0 <= i < k && is_pending(#[trigger] self.domains@[i].status),
                has_events ==> exists|i: int|
                    0 <= i < k && is_pending(#[trigger] self.domains@[i].status)
                        && next_dsn == self.domains@[i].notify.due,
                has_events ==> forall|i: int|
                    0 <= i < k && is_pending(#[trigger] self.domains@[i].status)
                        ==> next_dsn <= self.domains@[i].notify.due,
            decreases self.domains@.len() - k,
        {
            let domain = &self.domains[k];
            if matches!(domain.status, Status::Scheduled | Status::TemporaryFailure) {
                if !has_events || domain.notify.due < next_dsn {
                    next_dsn = domain.notify.due;
                    has_events = true;
                }
            }
            k = k + 1;
        }

        next_dsn
    }

    /// The earliest pending expiry deadline; the current time when no domain
    /// is pending.
    pub fn expires(&self) -> (r: u64)
        ensures
            self.has_pending() ==> {
                &&& exists|i: int|
                    0 <= i < self.domains@.len() && is_pending(#[trigger] self.domains@[i].status)
                        && r == self.domains@[i].expires
                &&& forall|i: int|
                    0 <= i < self.domains@.len() && is_pending(#[trigger] self.domains@[i].status)
                        ==> r <= self.domains@[i].expires
            },
    {
        let mut expires: u64 = now_seconds();
        let mut has_events = false;

        let mut k: usize = 0;
        while k < self.domains.len()
            invariant
                0 <= k <= self.domains@.len(),
                has_events <==> exists|i: int|
                    0 <= i < k && is_pending(#[trigger] self.domains@[i].status),
                has_events ==> exists|i: int|
                    0 <= i < k && is_pending(#[trigger] self.domains@[i].status)
                        && expires == self.domains@[i].expires,
                has_events ==> forall|i: int|
                    0 <= i < k && is_pending(#[trigger] self.domains@[i].status)
                        ==> expires <= self.domains@[i].expires,
            decreases self.domains@.len() - k,
        {
            let domain = &self.domains[k];
            if matches!(domain.status, Status::Scheduled | Status::TemporaryFailure) {
                if !has_events || domain.expires < expires {
                    expires = domain.expires;
                    has_events = true;
                }
            }
            k = k + 1;
        }

        expires
    }

    /// Whether some pending domain of `self` has a deadline strictly after
    /// `instant`.
    pub open spec fn has_event_after(&self, instant: u64) -> bool {
        exists|i: int|
            0 <= i < self.domains@.len() && is_pending(#[trigger] self.domains@[i].status)
                && domain_deadline_after(self.domains@[i], instant)
    }

    /// The earliest deadline of a pending domain that lies strictly after
    /// `instant`; `None` when every pending deadline is at or before it.
    /// Used to skip an already-handled deadline without reprocessing it.
    pub fn next_event_after(&self, instant: u64) -> (r: Option<u64>)
        ensures
            r is Some <==> self.has_event_after(instant),
            r matches Some(m) ==> {
                &&& m > instant
                &&& exists|i: int|
                    0 <= i < self.domains@.len() && is_pending(#[trigger] self.domains@[i].status)
                        && is_deadline_of(m, self.domains@[i])
                &&& forall|i: int|
                    0 <= i < self.domains@.len() && is_pending(#[trigger] self.domains@[i].status)
                        ==> at_most_deadlines_after(m, self.domains@[i], instant)
            },
    {
        let mut next_event: Option<u64> = None;

        let mut k: usize = 0;
        while k < self.domains.len()
            invariant
                0 <= k <= self.domains@.len(),
                next_event is Some <==> exists|i: int|
                    0 <= i < k && is_pending(#[trigger] self.domains@[i].status)
                        && domain_deadline_after(self.domains@[i], instant),
                next_event matches Some(m) ==> {
                    &&& m > instant
                    &&& exists|i: int|
                        0 <= i < k && is_pending(#[trigger] self.domains@[i].status)
                            && is_deadline_of(m, self.domains@[i])
                    &&& forall|i: int|
                        0 <= i < k && is_pending(#[trigger] self.domains@[i].status)
                            ==> at_most_deadlines_after(m, self.domains@[i], instant)
                },
            decreases self.domains@.len() - k,
        {
            let domain = &self.domains[k];
            if matches!(domain.status, Status::Scheduled | Status::TemporaryFailure) {
                if domain.retry.due > instant
                    && match next_event {
                        Some(ne) => domain.retry.due < ne,
                        None => true,
                    }
                {
                    next_event = Some(domain.retry.due);
                }
                if domain.notify.due > instant
                    && match next_event {
                        Some(ne) => domain.notify.due < ne,
                        None => true,
                    }
                {
                    next_event = Some(domain.notify.due);
                }
                if domain.expires > instant
                    && match next_event {
                        Some(ne) => domain.expires < ne,
                        None => true,
                    }
                {
                    next_event = Some(domain.expires);
                }
            }
            k = k + 1;
        }

        next_event
    }
}

/// Whether some deadline of domain `d` lies strictly after `instant`.
pub open spec fn domain_deadline_after(d: Domain, instant: u64) -> bool {
    d.retry.due > instant || d.notify.due > instant || d.expires > instant
}

/// Whether `m` lower-bounds every deadline of `d` that lies strictly after
/// `instant`.
pub open spec fn at_most_deadlines_after(m: u64, d: Domain, instant: u64) -> bool {
    &&& (d.retry.due > instant ==> m <= d.retry.due)
    &&& (d.notify.due > instant ==> m <= d.notify.due)
    &&& (d.expires > instant ==> m <= d.expires)
}

} // verus!
