//! The on-hold registry: why a queue item is currently ineligible.
//!
//! The registry keys each entry by queue item identifier; an item has at
//! most one entry at any time, and absence means "eligible, not yet
//! evaluated this cycle". It is a pure state container: every transition is
//! driven by the queue manager.

use vstd::prelude::*;

verus! {

/// Reason a queue item is currently blocked from dispatch.
#[derive(Debug)]
pub enum OnHold {
    /// Time-gated: ineligible before `until` (absolute epoch seconds).
    Locked { until: u64 },
    /// Blocked because at least one admission limiter was saturated.
    /// `limiters` are indices into the manager's limiter table; `next_due`
    /// optionally bounds when to recheck regardless of limiter state.
    ConcurrencyLimited { limiters: Vec<usize>, next_due: Option<u64> },
    /// A delivery attempt for this item is currently executing.
    InFlight,
}

/// Retention predicate of the periodic cleanup pass: an in-flight hold is
/// always kept, a time lock is kept while its deadline is still in the
/// future, and a concurrency hold is kept only while its item still appears
/// among the currently due items.
pub open spec fn retain_hold(h: OnHold, id: u64, now: u64, active: Seq<u64>) -> bool {
    match h {
        OnHold::InFlight => true,
        OnHold::Locked { until } => until > now,
        OnHold::ConcurrencyLimited { .. } => active.contains(id),
    }
}

/// The abstract content of a registry held as a key/value sequence.
spec fn map_of(s: Seq<(u64, OnHold)>) -> Map<u64, OnHold>
    decreases s.len(),
{
    if s.len() == 0 {
        Map::empty()
    } else {
        map_of(s.drop_last()).insert(s.last().0, s.last().1)
    }
}

/// Whether no two entries of `s` share a key.
spec fn unique_keys(s: Seq<(u64, OnHold)>) -> bool {
    forall|i: int, j: int| 0 <= i < j < s.len() ==> (#[trigger] s[i]).0 != (#[trigger] s[j]).0
}

/// A key is in the content exactly when some entry carries it.
proof fn lemma_map_of_contains(s: Seq<(u64, OnHold)>, id: u64)
    ensures
        map_of(s).contains_key(id) <==> exists|i: int| 0 <= i < s.len() && (#[trigger] s[i]).0 == id,
    decreases s.len(),
{
    if s.len() > 0 {
        lemma_map_of_contains(s.drop_last(), id);
        if s.last().0 == id {
            assert(s[s.len() - 1].0 == id);
        } else {
            if exists|i: int| 0 <= i < s.len() && (#[trigger] s[i]).0 == id {
                let i = choose|i: int| 0 <= i < s.len() && (#[trigger] s[i]).0 == id;
                if i < s.len() - 1 {
                    assert(s.drop_last()[i].0 == id);
                }
            }
        }
    }
}

/// With unique keys, each entry gives the content's value at its key.
proof fn lemma_map_of_index(s: Seq<(u64, OnHold)>, i: int)
    requires
        unique_keys(s),
        0 <= i < s.len(),
    ensures
        map_of(s).contains_key(s[i].0),
        map_of(s)[s[i].0] == s[i].1,
    decreases s.len(),
{
    if i == s.len() - 1 {
        lemma_map_of_contains(s, s[i].0);
    } else {
        lemma_map_of_index(s.drop_last(), i);
        assert(s.drop_last()[i] == s[i]);
        assert(s.last().0 != s[i].0);
    }
}

/// With unique keys, the content has one key per entry.
proof fn lemma_map_of_len(s: Seq<(u64, OnHold)>)
    requires
        unique_keys(s),
    ensures
        map_of(s).dom().finite(),
        map_of(s).len() == s.len(),
    decreases s.len(),
{
    if s.len() > 0 {
        lemma_map_of_len(s.drop_last());
        lemma_map_of_contains(s.drop_last(), s.last().0);
    }
}

/// Replacing the entry that carries `id` replaces the content at `id`.
proof fn lemma_map_of_update(s: Seq<(u64, OnHold)>, i: int, h: OnHold)
    requires
        unique_keys(s),
        0 <= i < s.len(),
    ensures
        map_of(s.update(i, (s[i].0, h))) =~= map_of(s).insert(s[i].0, h),
    decreases s.len(),
{
    let id = s[i].0;
    let t = s.update(i, (id, h));
    if i == s.len() - 1 {
        assert(t.drop_last() =~= s.drop_last());
        lemma_map_of_contains(s.drop_last(), id);
    } else {
        assert(t.drop_last() =~= s.drop_last().update(i, (id, h)));
        lemma_map_of_update(s.drop_last(), i, h);
        assert(s.last().0 != id);
    }
}

/// Removing the entry that carries `id` removes `id` from the content.
proof fn lemma_map_of_remove(s: Seq<(u64, OnHold)>, i: int)
    requires
        unique_keys(s),
        0 <= i < s.len(),
    ensures
        map_of(s.remove(i)) =~= map_of(s).remove(s[i].0),
    decreases s.len(),
{
    let id = s[i].0;
    if i == s.len() - 1 {
        assert(s.remove(i) =~= s.drop_last());
        lemma_map_of_contains(s.drop_last(), id);
        assert(!map_of(s.drop_last()).contains_key(id));
        assert(map_of(s) == map_of(s.drop_last()).insert(id, s.last().1));
    } else {
        assert(s.remove(i).drop_last() =~= s.drop_last().remove(i));
        assert(s.remove(i).last() == s.last());
        lemma_map_of_remove(s.drop_last(), i);
        assert(s.last().0 != id);
    }
}

/// Registry of the items currently on hold, keyed by queue item identifier.
pub struct OnHoldRegistry {
    entries: Vec<(u64, OnHold)>,
}

impl View for OnHoldRegistry {
    type V = Map<u64, OnHold>;

    closed spec fn view(&self) -> Map<u64, OnHold> {
        map_of(self.entries@)
    }
}

impl OnHoldRegistry {
    /// No two entries share a key.
    pub closed spec fn wf(&self) -> bool {
        unique_keys(self.entries@)
    }

    pub fn new() -> (r: OnHoldRegistry)
        ensures
            r.wf(),
            r@ == Map::<u64, OnHold>::empty(),
    {
        OnHoldRegistry { entries: Vec::new() }
    }

    /// Index of the entry carrying `id`, if any.
    fn position(&self, id: u64) -> (r: Option<usize>)
        ensures
            r matches Some(i) ==> 0 <= i < self.entries@.len() && self.entries@[i as int].0 == id,
            r is None ==> forall|i: int|
                0 <= i < self.entries@.len() ==> (#[trigger] self.entries@[i]).0 != id,
    {
        let mut k: usize = 0;
        while k < self.entries.len()
            invariant
                0 <= k <= self.entries@.len(),
                forall|i: int| 0 <= i < k ==> (#[trigger] self.entries@[i]).0 != id,
            decreases self.entries@.len() - k,
        {
            if self.entries[k].0 == id {
                return Some(k);
            }
            k = k + 1;
        }
        None
    }

    /// The hold recorded for `id`, if any.
    pub fn get(&self, id: u64) -> (r: Option<&OnHold>)
        requires
            self.wf(),
        ensures
            r is Some <==> self@.contains_key(id),
            r matches Some(h) ==> *h == self@[id],
    {
        proof {
            lemma_map_of_contains(self.entries@, id);
        }
        match self.position(id) {
            Some(i) => {
                proof {
                    lemma_map_of_index(self.entries@, i as int);
                }
                Some(&self.entries[i].1)
            }
            None => None,
        }
    }

    /// Whether `id` is on hold.
    pub fn contains(&self, id: u64) -> (r: bool)
        requires
            self.wf(),
        ensures
            r == self@.contains_key(id),
    {
        proof {
            lemma_map_of_contains(self.entries@, id);
        }
        self.position(id).is_some()
    }

    /// Records, or overwrites, the hold for `id`.
    pub fn insert(&mut self, id: u64, hold: OnHold)
        requires
            old(self).wf(),
        ensures
            final(self).wf(),
            final(self)@ == old(self)@.insert(id, hold),
    {
        proof {
            lemma_map_of_contains(self.entries@, id);
        }
        let ghost s = self.entries@;
        match self.position(id) {
            Some(i) => {
                proof {
                    lemma_map_of_remove(s, i as int);
                }
                self.entries.remove(i);
                let ghost t = self.entries@;
                self.entries.push((id, hold));
                proof {
                    assert(self.entries@.drop_last() =~= t);
                    lemma_map_of_contains(t, id);
                    assert(self@ =~= old(self)@.insert(id, hold));
                }
            }
            None => {
                self.entries.push((id, hold));
                proof {
                    assert(self.entries@.drop_last() =~= s);
                }
            }
        }
    }

    /// Drops the hold for `id`; no effect when none is recorded.
    pub fn remove(&mut self, id: u64)
        requires
            old(self).wf(),
        ensures
            final(self).wf(),
            final(self)@ == old(self)@.remove(id),
    {
        proof {
            lemma_map_of_contains(self.entries@, id);
        }
        match self.position(id) {
            Some(i) => {
                proof {
                    lemma_map_of_remove(self.entries@, i as int);
                }
                self.entries.remove(i);
            }
            None => {
                proof {
                    assert(old(self)@ =~= old(self)@.remove(id));
                }
            }
        }
    }

    /// How many items are on hold.
    pub fn len(&self) -> (r: usize)
        requires
            self.wf(),
        ensures
            r == self@.len(),
            self@.dom().finite(),
    {
        proof {
            lemma_map_of_len(self.entries@);
        }
        self.entries.len()
    }

    /// Whether no item is on hold.
    pub fn is_empty(&self) -> (r: bool)
        requires
            self.wf(),
        ensures
            r <==> self@ == Map::<u64, OnHold>::empty(),
    {
        proof {
            lemma_map_of_len(self.entries@);
            if self.entries@.len() == 0 {
                assert(self@ =~= Map::<u64, OnHold>::empty());
            } else {
                lemma_map_of_index(self.entries@, 0);
            }
        }
        self.entries.len() == 0
    }

    /// The periodic cleanup pass: keeps exactly the entries that the
    /// retention predicate merits, values untouched. An in-flight hold is
    /// never removed here.
    pub fn cleanup(&mut self, now: u64, active: &Vec<u64>)
        requires
            old(self).wf(),
        ensures
            final(self).wf(),
            forall|id: u64|
                (#[trigger] final(self)@.contains_key(id)) <==> old(self)@.contains_key(id)
                    && retain_hold(old(self)@[id], id, now, active@),
            forall|id: u64|
                final(self)@.contains_key(id) ==> (#[trigger] final(self)@[id])
                    == old(self)@[id],
    {
        let ghost s0 = self.entries@;
        let mut kept: Vec<(u64, OnHold)> = Vec::new();
        while self.entries.len() > 0
            invariant
                unique_keys(s0),
                self.entries@.len() <= s0.len(),
                self.entries@ =~= s0.take(self.entries@.len() as int),
                unique_keys(kept@),
                forall|j: int|
                    0 <= j < kept@.len() ==> exists|i: int|
                        self.entries@.len() <= i < s0.len() && #[trigger] kept@[j] == s0[i],
                forall|i: int|
                    self.entries@.len() <= i < s0.len()
                        && retain_hold((#[trigger] s0[i]).1, s0[i].0, now, active@)
                        ==> kept@.contains(s0[i]),
                forall|j: int|
                    0 <= j < kept@.len()
                        ==> retain_hold((#[trigger] kept@[j]).1, kept@[j].0, now, active@),
            decreases self.entries@.len(),
        {
            let ghost n = self.entries@.len() as int;
            let entry = match self.entries.pop() {
                Some(e) => e,
                None => {
                    proof {
                        assert(false);
                    }
                    return;
                }
            };
            proof {
                assert(entry == s0[n - 1]);
                assert(self.entries@ =~= s0.take(n - 1));
            }
            let keep = match &entry.1 {
                OnHold::InFlight => true,
                OnHold::Locked { until } => *until > now,
                OnHold::ConcurrencyLimited { .. } => contains_id(active, entry.0),
            };
            if keep {
                let ghost kept0 = kept@;
                kept.push(entry);
                proof {
                    assert(kept@.last() == s0[n - 1]);
                    assert(kept@.drop_last() =~= kept0);
                    assert forall|j: int, l: int| 0 <= j < l < kept@.len() implies (
                        #[trigger] kept@[j]).0 != (#[trigger] kept@[l]).0 by {
                        if l == kept@.len() - 1 {
                            let i = choose|i: int| n <= i < s0.len() && kept@[j] == s0[i];
                            assert(s0[i].0 != s0[n - 1].0);
                        }
                    }
                }
            }
        }
        self.entries = kept;
        proof {
            let sf = self.entries@;
            assert forall|id: u64|
                map_of(sf).contains_key(id) <==> (map_of(s0).contains_key(id)
                    && retain_hold(map_of(s0)[id], id, now, active@)) by {
                lemma_map_of_contains(sf, id);
                lemma_map_of_contains(s0, id);
                if map_of(sf).contains_key(id) {
                    let j = choose|j: int| 0 <= j < sf.len() && (#[trigger] sf[j]).0 == id;
                    lemma_map_of_index(sf, j);
                    let i = choose|i: int| 0 <= i < s0.len() && #[trigger] sf[j] == s0[i];
                    lemma_map_of_index(s0, i);
                } else {
                    if map_of(s0).contains_key(id) {
                        let i = choose|i: int| 0 <= i < s0.len() && (#[trigger] s0[i]).0 == id;
                        lemma_map_of_index(s0, i);
                        if retain_hold(s0[i].1, id, now, active@) {
                            assert(sf.contains(s0[i]));
                            let j = choose|j: int| 0 <= j < sf.len() && sf[j] == s0[i];
                            assert(sf[j].0 == id);
                        }
                    }
                }
            }
            assert forall|id: u64| map_of(sf).contains_key(id)
                implies map_of(sf)[id] == map_of(s0)[id] by {
                lemma_map_of_contains(sf, id);
                let j = choose|j: int| 0 <= j < sf.len() && (#[trigger] sf[j]).0 == id;
                lemma_map_of_index(sf, j);
                let i = choose|i: int| 0 <= i < s0.len() && #[trigger] sf[j] == s0[i];
                lemma_map_of_index(s0, i);
            }
        }
    }
}

/// Whether `ids` contains `id`.
pub fn contains_id(ids: &Vec<u64>, id: u64) -> (r: bool)
    ensures
        r == ids@.contains(id),
{
    let mut k: usize = 0;
    while k < ids.len()
        invariant
            0 <= k <= ids@.len(),
            forall|i: int| 0 <= i < k ==> ids@[i] != id,
        decreases ids@.len() - k,
    {
        if ids[k] == id {
            return true;
        }
        k = k + 1;
    }
    false
}

} // verus!
