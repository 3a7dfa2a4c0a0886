//! The periodic-maintenance side of the server: a deadline-ordered queue
//! of recurring actions, the background indexer's start/done bookkeeping,
//! and the reclamation pass over shared session and limiter state.

use vstd::prelude::*;

use crate::limiter::ConcurrencyLimiter;

verus! {

/// A recurring maintenance action.
pub enum ActionClass {
    /// Purge the session caches.
    Session,
    /// Run the purge schedule with this index.
    Store(usize),
    /// Renew the certificates of the named provider.
    Acme(String),
}

/// One scheduled maintenance action and when it is due, in absolute epoch
/// seconds.
pub struct Action {
    pub due: u64,
    pub event: ActionClass,
}

/// The maintenance schedule: actions due earliest are handed out first.
pub struct ActionQueue {
    actions: Vec<Action>,
}

impl View for ActionQueue {
    type V = Seq<Action>;

    closed spec fn view(&self) -> Seq<Action> {
        self.actions@
    }
}

impl ActionQueue {
    pub fn new() -> (r: ActionQueue)
        ensures
            r@ == Seq::<Action>::empty(),
    {
        ActionQueue { actions: Vec::new() }
    }

    /// Schedules one more action.
    pub fn push(&mut self, action: Action)
        ensures
            final(self)@ == old(self)@.push(action),
    {
        self.actions.push(action);
    }

    /// The earliest deadline of any scheduled action; `None` when nothing
    /// is scheduled. Drives the loop's wait duration.
    pub fn next_due(&self) -> (r: Option<u64>)
        ensures
            r is Some <==> self@.len() > 0,
            r matches Some(m) ==> {
                &&& exists|i: int| 0 <= i < self@.len() && (#[trigger] self@[i]).due == m
                &&& forall|i: int| 0 <= i < self@.len() ==> m <= (#[trigger] self@[i]).due
            },
    {
        let mut best: u64 = 0;
        let mut found = false;
        let mut k: usize = 0;
        while k < self.actions.len()
            invariant
                0 <= k <= self@.len(),
                found <==> k > 0,
                found ==> exists|i: int| 0 <= i < k && (#[trigger] self@[i]).due == best,
                found ==> forall|i: int| 0 <= i < k ==> best <= (#[trigger] self@[i]).due,
            decreases self@.len() - k,
        {
            let due = self.actions[k].due;
            if !found || due < best {
                best = due;
                found = true;
            }
            k = k + 1;
        }
        if found {
            Some(best)
        } else {
            None
        }
    }

    /// Hands out an action whose deadline has arrived, earliest first;
    /// `None`, and no change, while nothing is due.
    pub fn pop_due(&mut self, now: u64) -> (r: Option<Action>)
        ensures
            r is None ==> final(self)@ == old(self)@ && forall|i: int|
                0 <= i < old(self)@.len() ==> (#[trigger] old(self)@[i]).due > now,
            r matches Some(a) ==> {
                &&& a.due <= now
                &&& forall|i: int| 0 <= i < old(self)@.len() ==> a.due <= (#[trigger] old(self)@[i]).due
                &&& exists|i: int|
                    0 <= i < old(self)@.len() && old(self)@[i] == a && final(self)@ == old(
                        self,
                    )@.remove(i)
            },
    {
        let mut best: usize = 0;
        let mut found = false;
        let mut k: usize = 0;
        while k < self.actions.len()
            invariant
                self@ == old(self)@,
                0 <= k <= self@.len(),
                found <==> k > 0,
                found ==> 0 <= best < k,
                found ==> forall|i: int|
                    0 <= i < k ==> self@[best as int].due <= (#[trigger] self@[i]).due,
            decreases self@.len() - k,
        {
            if !found || self.actions[k].due < self.actions[best].due {
                best = k;
                found = true;
            }
            k = k + 1;
        }
        if found {
            if self.actions[best].due <= now {
                let a = self.actions.remove(best);
                return Some(a);
            }
            proof {
                assert forall|i: int| 0 <= i < old(self)@.len() implies (
                #[trigger] old(self)@[i]).due > now by {
                    assert(self@[best as int].due <= self@[i].due);
                }
            }
        }
        None
    }
}

/// The background indexer's bookkeeping: at most one indexing task runs at
/// a time; a request that arrives while one runs is remembered and served
/// by one follow-up run.
pub struct IndexerState {
    /// Whether an indexing task is currently running.
    pub busy: bool,
    /// Whether a request arrived while one was running.
    pub pending: bool,
}

impl IndexerState {
    /// A fresh bookkeeping record with one task already started.
    pub fn new() -> (r: IndexerState)
        ensures
            r.busy,
            !r.pending,
    {
        IndexerState { busy: true, pending: false }
    }

    /// An indexing request arrived: start a task now iff none is running,
    /// else remember the request.
    pub fn on_start(&mut self) -> (spawn: bool)
        ensures
            spawn == !old(self).busy,
            final(self).busy,
            final(self).pending == (old(self).busy || old(self).pending),
    {
        if !self.busy {
            self.busy = true;
            true
        } else {
            self.pending = true;
            false
        }
    }

    /// The running task finished: start a follow-up task iff a request
    /// arrived meanwhile, else fall idle.
    pub fn on_done(&mut self) -> (spawn: bool)
        ensures
            spawn == old(self).pending,
            !final(self).pending,
            final(self).busy == old(self).pending,
    {
        if self.pending {
            self.pending = false;
            self.busy = true;
            true
        } else {
            self.busy = false;
            false
        }
    }
}

/// One entry of a session-style cache: an identifier and when it expires,
/// in absolute epoch seconds.
#[derive(Clone, Copy, PartialEq, Eq, Structural, Debug)]
pub struct TtlEntry {
    pub id: u64,
    pub expires: u64,
}

/// Whether a cache entry is still live at `now`.
pub open spec fn ttl_live(now: u64) -> spec_fn(TtlEntry) -> bool {
    |e: TtlEntry| e.expires > now
}

/// A cache of expiring entries.
pub struct TtlCache {
    entries: Vec<TtlEntry>,
}

impl View for TtlCache {
    type V = Seq<TtlEntry>;

    closed spec fn view(&self) -> Seq<TtlEntry> {
        self.entries@
    }
}

impl TtlCache {
    pub fn new() -> (r: TtlCache)
        ensures
            r@ == Seq::<TtlEntry>::empty(),
    {
        TtlCache { entries: Vec::new() }
    }

    pub fn insert(&mut self, entry: TtlEntry)
        ensures
            final(self)@ == old(self)@.push(entry),
    {
        self.entries.push(entry);
    }

    pub fn len(&self) -> (r: usize)
        ensures
            r == self@.len(),
    {
        self.entries.len()
    }

    /// Drops every entry whose lifetime has ended; keeps the rest in
    /// order.
    pub fn cleanup(&mut self, now: u64)
        ensures
            final(self)@ == old(self)@.filter(ttl_live(now)),
    {
        let ghost s0 = self.entries@;
        proof {
            reveal(Seq::filter);
            assert(s0.take(0).filter(ttl_live(now)) =~= Seq::<TtlEntry>::empty());
        }
        let mut kept: Vec<TtlEntry> = Vec::new();
        let mut k: usize = 0;
        while k < self.entries.len()
            invariant
                self.entries@ == s0,
                0 <= k <= s0.len(),
                kept@ == s0.take(k as int).filter(ttl_live(now)),
            decreases s0.len() - k,
        {
            let e = self.entries[k];
            proof {
                reveal(Seq::filter);
                assert(s0.take(k as int + 1).drop_last() =~= s0.take(k as int));
                assert(s0.take(k as int + 1).last() == e);
            }
            if e.expires > now {
                kept.push(e);
            }
            k = k + 1;
        }
        proof {
            reveal(Seq::filter);
            assert(s0.take(s0.len() as int) =~= s0);
        }
        self.entries = kept;
    }
}

/// Whether a keyed limiter still has an admission outstanding.
pub open spec fn limiter_active() -> spec_fn((u64, ConcurrencyLimiter)) -> bool {
    |p: (u64, ConcurrencyLimiter)| p.1.concurrent > 0
}

/// The shared state that the periodic purge pass reclaims: session-style
/// caches and the table of keyed concurrency limiters.
pub struct Inner {
    pub sessions: TtlCache,
    pub access_tokens: TtlCache,
    pub oauth_codes: TtlCache,
    pub concurrency_limiter: Vec<(u64, ConcurrencyLimiter)>,
}

impl Inner {
    /// The periodic purge pass: expired sessions, access tokens and
    /// authorization codes are dropped, and a keyed limiter is forgotten
    /// exactly when it has no admission outstanding.
    pub fn purge(&mut self, now: u64)
        ensures
            final(self).sessions@ == old(self).sessions@.filter(ttl_live(now)),
            final(self).access_tokens@ == old(self).access_tokens@.filter(ttl_live(now)),
            final(self).oauth_codes@ == old(self).oauth_codes@.filter(ttl_live(now)),
            final(self).concurrency_limiter@ == old(self).concurrency_limiter@.filter(
                limiter_active(),
            ),
    {
        self.sessions.cleanup(now);
        self.access_tokens.cleanup(now);
        self.oauth_codes.cleanup(now);
        let ghost s0 = self.concurrency_limiter@;
        proof {
            reveal(Seq::filter);
            assert(s0.take(0).filter(limiter_active()) =~= Seq::<(u64, ConcurrencyLimiter)>::empty());
        }
        let mut kept: Vec<(u64, ConcurrencyLimiter)> = Vec::new();
        let mut k: usize = 0;
        while k < self.concurrency_limiter.len()
            invariant
                self.concurrency_limiter@ == s0,
                0 <= k <= s0.len(),
                kept@ == s0.take(k as int).filter(limiter_active()),
            decreases s0.len() - k,
        {
            let entry = self.concurrency_limiter[k];
            proof {
                reveal(Seq::filter);
                assert(s0.take(k as int + 1).drop_last() =~= s0.take(k as int));
                assert(s0.take(k as int + 1).last() == entry);
            }
            if entry.1.is_active() {
                kept.push(entry);
            }
            k = k + 1;
        }
        proof {
            reveal(Seq::filter);
            assert(s0.take(s0.len() as int) =~= s0);
        }
        self.concurrency_limiter = kept;
    }
}

} // verus!
