//! Checkpoint, restore and merge of exact windows.

use super::{
    count_or_zero, holds_key, insert_key, lookup_pair, upsert_pair, ExactView,
    ExactWindow,
};
use crate::budget::Budget;
use crate::model::{
    copy_keys, copy_pairs, copy_witness, copy_witnesses, keys_view, pair_key, pairs_view,
    witnesses_view, CheckpointView, EntityId, EventKeyView, IngestError, PairCount, PairKeyView,
    RelationProfile, ScopeId, WindowCheckpoint, WitnessView, CHECKPOINT_VERSION,
};
use crate::sorted::{
    ascending_entries, ascending_keys, entry_of, entry_rank, key_insert_all, lemma_entries_fewer, lemma_entries_unique,
    lemma_entry_of, lemma_entry_of_push, lemma_key_insert, lemma_key_insert_all, lemma_key_insert_all_rebuilds,
    lemma_upsert, lemma_upsert_all_rebuilds, upsert, upsert_all,
};
use crate::order::StrictOrder;
use vstd::prelude::*;

verus! {

/// The checkpoint of an exact window: its pairs, keys and witnesses in order, and its policy.
pub open spec fn exact_checkpoint_spec(w: ExactView) -> CheckpointView {
    CheckpointView {
        version: CHECKPOINT_VERSION,
        seed: 0,
        watermark: w.watermark,
        closed: w.closed,
        width: w.budget.width,
        replicas: w.budget.replicas,
        pairs: w.counts,
        keys: w.dedup,
        witnesses: w.witnesses,
        counters: None,
        lateness: w.budget.lateness,
        max_pairs: w.budget.max_pairs,
        max_dedup: w.budget.max_dedup,
        max_witnesses: w.budget.max_witnesses,
        witnesses_truncated: w.witnesses.len() >= w.budget.max_witnesses && w.dedup.len() > w.witnesses.len(),
    }
}

/// The snapshot was written under the same lateness and registry bounds.
pub open spec fn policy_matches(b: Budget, s: CheckpointView) -> bool {
    &&& s.lateness == b.lateness
    &&& s.max_pairs == b.max_pairs
    &&& s.max_dedup == b.max_dedup
    &&& s.max_witnesses == b.max_witnesses
}

/// No pair key occurs twice.
pub open spec fn distinct_pair_keys(p: Seq<(PairKeyView, u64)>) -> bool {
    forall|i: int, j: int| #![trigger p[i], p[j]] 0 <= i < j < p.len() ==> p[i].0 != p[j].0
}

/// What restoring an exact window from a snapshot answers.
pub open spec fn exact_restore_spec(budget: Budget, s: CheckpointView) -> Result<ExactView, IngestError> {
    if s.version != CHECKPOINT_VERSION {
        Err(IngestError::Checkpoint("version"))
    } else if s.counters is Some {
        Err(IngestError::Checkpoint("exact-cannot-hold-sketch"))
    } else if !budget.valid() {
        Err(IngestError::Checkpoint("budget"))
    } else if !policy_matches(budget, s) {
        Err(IngestError::Checkpoint("policy-mismatch"))
    } else if s.pairs.len() > budget.max_pairs || s.keys.len() > budget.max_dedup
        || s.witnesses.len() > budget.max_witnesses {
        Err(IngestError::Budget("checkpoint"))
    } else if !distinct_pair_keys(s.pairs) {
        Err(IngestError::Checkpoint("duplicate-pair"))
    } else {
        Ok(ExactView {
            budget,
            watermark: s.watermark,
            closed: s.closed,
            counts: upsert_all(Seq::empty(), s.pairs),
            dedup: key_insert_all(Seq::empty(), s.keys),
            witnesses: s.witnesses,
        })
    }
}

/// The pair counts of `r` added, in order, to those of `l`, each new pair within `max_pairs`.
pub open spec fn merge_counts(
    l: Seq<(PairKeyView, u64)>,
    r: Seq<(PairKeyView, u64)>,
    max_pairs: usize,
) -> Result<Seq<(PairKeyView, u64)>, IngestError>
    decreases r.len(),
{
    if r.len() == 0 {
        Ok(l)
    } else {
        match merge_counts(l, r.drop_last(), max_pairs) {
            Err(e) => Err(e),
            Ok(n) => {
                let k = r.last().0;
                let current = count_or_zero(n, k);
                if current == 0 && n.len() >= max_pairs {
                    Err(IngestError::Budget("pairs"))
                } else if current + r.last().1 > u64::MAX {
                    Err(IngestError::Overflow)
                } else {
                    Ok(upsert(n, k, (current + r.last().1) as u64))
                }
            },
        }
    }
}

/// Once merging a prefix of the pairs fails, merging all of them fails the same way.
pub proof fn lemma_merge_counts_fails(
    l: Seq<(PairKeyView, u64)>,
    r: Seq<(PairKeyView, u64)>,
    n: int,
    max_pairs: usize,
)
    requires
        0 <= n <= r.len(),
        merge_counts(l, r.take(n), max_pairs) is Err,
    ensures
        merge_counts(l, r, max_pairs) == merge_counts(l, r.take(n), max_pairs),
    decreases r.len() - n,
{
    if n < r.len() {
        assert(r.take(n + 1).drop_last() =~= r.take(n));
        lemma_merge_counts_fails(l, r, n + 1, max_pairs);
    } else {
        assert(r.take(n) =~= r);
    }
}

/// Some identity key occurs in both windows.
pub open spec fn keys_overlap(a: Seq<EventKeyView>, b: Seq<EventKeyView>) -> bool {
    exists|i: int| 0 <= i < a.len() && b.contains(#[trigger] a[i])
}

/// The witnesses of `l`, then those of `r` while room remains.
pub open spec fn merge_witnesses(l: Seq<WitnessView>, r: Seq<WitnessView>, max: usize) -> Seq<WitnessView> {
    let room = max - l.len();
    l + r.take(if r.len() < room { r.len() as int } else { room })
}

/// What merging a disjoint pane `r` into `l` answers.
pub open spec fn exact_merge_spec(l: ExactView, r: ExactView) -> Result<ExactView, IngestError> {
    if keys_overlap(l.dedup, r.dedup) {
        Err(IngestError::Checkpoint("overlapping-event"))
    } else {
        match merge_counts(l.counts, r.counts, l.budget.max_pairs) {
            Err(e) => Err(e),
            Ok(counts) => if l.dedup.len() + r.dedup.len() > l.budget.max_dedup {
                Err(IngestError::Budget("dedup"))
            } else {
                Ok(ExactView {
                    budget: l.budget,
                    watermark: if r.watermark > l.watermark { r.watermark } else { l.watermark },
                    closed: l.closed || r.closed,
                    counts,
                    dedup: key_insert_all(l.dedup, r.dedup),
                    witnesses: merge_witnesses(l.witnesses, r.witnesses, l.budget.max_witnesses),
                })
            },
        }
    }
}

/// The pairs of a snapshot, ascending by key; `None` when a key occurs twice.
fn collect_pairs(pairs: &Vec<PairCount>) -> (r: Option<Vec<PairCount>>)
    ensures
        match r {
            Some(c) => distinct_pair_keys(pairs_view(pairs@)) && ascending_entries(pairs_view(c@))
                && pairs_view(c@) == upsert_all(Seq::empty(), pairs_view(pairs@))
                && c@.len() == pairs@.len(),
            None => !distinct_pair_keys(pairs_view(pairs@)),
        },
{
    let ghost ps = pairs_view(pairs@);
    let mut counts: Vec<PairCount> = Vec::new();
    let mut i: usize = 0;
    while i < pairs.len()
        invariant
            i <= pairs.len(),
            ps == pairs_view(pairs@),
            ascending_entries(pairs_view(counts@)),
            pairs_view(counts@) == upsert_all(Seq::empty(), ps.take(i as int)),
            counts@.len() == i,
            forall|a: int, b: int| #![trigger ps[a], ps[b]] 0 <= a < b < i ==> ps[a].0 != ps[b].0,
            forall|j: int| 0 <= j < i ==> entry_of(pairs_view(counts@), (#[trigger] ps[j]).0) is Some,
            forall|k: PairKeyView| entry_of(pairs_view(counts@), k) is Some ==> exists|j: int| 0 <= j < i && (#[trigger] ps[j]).0 == k,
        decreases pairs.len() - i,
    {
        let pair = &pairs[i];
        let ghost cur = pairs_view(counts@);
        let ghost k = ps[i as int].0;
        assert(pair@ == ps[i as int]);
        proof {
            lemma_upsert(cur, k, pair.count);
            assert(ps.take(i + 1).drop_last() =~= ps.take(i as int));
        }
        if lookup_pair(&counts, &pair.scope, &pair.relation, &pair.source, &pair.target).is_some() {
            proof {
                let j = choose|j: int| 0 <= j < i && (#[trigger] ps[j]).0 == k;
                assert(ps[j].0 == ps[i as int].0);
            }
            return None;
        }
        upsert_pair(&mut counts, &pair.scope, &pair.relation, &pair.source, &pair.target, pair.count);
        proof {
            assert forall|j: int| 0 <= j < i + 1 implies entry_of(pairs_view(counts@), (#[trigger] ps[j]).0) is Some by {
                if j < i {
                    assert(ps[j].0 != k);
                }
            }
            assert forall|k2: PairKeyView| entry_of(pairs_view(counts@), k2) is Some implies exists|j: int| 0 <= j < i + 1 && (#[trigger] ps[j]).0 == k2 by {
                if k2 != k {
                    assert(entry_of(cur, k2) is Some);
                } else {
                    assert(ps[i as int].0 == k2);
                }
            }
            assert forall|a: int, b: int| #![trigger ps[a], ps[b]] 0 <= a < b < i + 1 implies ps[a].0 != ps[b].0 by {
                if b == i {
                    assert(entry_of(cur, ps[a].0) is Some);
                }
            }
        }
        i += 1;
    }
    assert(ps.take(ps.len() as int) =~= ps);
    Some(counts)
}

/// The identity keys of a snapshot, ascending, each once.
fn collect_keys(keys: &Vec<crate::model::EventKey>) -> (r: Vec<crate::model::EventKey>)
    ensures
        ascending_keys(keys_view(r@)),
        keys_view(r@) == key_insert_all(Seq::empty(), keys_view(keys@)),
        r@.len() <= keys@.len(),
{
    let ghost ks = keys_view(keys@);
    let mut dedup: Vec<crate::model::EventKey> = Vec::new();
    let mut i: usize = 0;
    while i < keys.len()
        invariant
            i <= keys.len(),
            ks == keys_view(keys@),
            ascending_keys(keys_view(dedup@)),
            keys_view(dedup@) == key_insert_all(Seq::empty(), ks.take(i as int)),
            dedup@.len() <= i,
        decreases keys.len() - i,
    {
        proof {
            lemma_key_insert(keys_view(dedup@), ks[i as int]);
            assert(ks.take(i + 1).drop_last() =~= ks.take(i as int));
            assert(keys@[i as int]@ == ks[i as int]);
        }
        insert_key(&mut dedup, &keys[i]);
        i += 1;
    }
    assert(ks.take(ks.len() as int) =~= ks);
    dedup
}

/// The view of an exported pair tuple.
pub open spec fn exported_view(t: (ScopeId, RelationProfile, EntityId, EntityId, u64)) -> (PairKeyView, u64) {
    (pair_key(&t.0, &t.1, &t.2, &t.3), t.4)
}

impl ExactWindow {
    /// A checkpoint of the window, from which [`ExactWindow::restore`] rebuilds it.
    pub fn checkpoint(&self) -> (r: WindowCheckpoint)
        ensures
            r@ == exact_checkpoint_spec(self@),
    {
        WindowCheckpoint {
            version: CHECKPOINT_VERSION,
            seed: 0,
            watermark: self.watermark,
            closed: self.closed,
            width: self.budget.width,
            replicas: self.budget.replicas,
            pairs: copy_pairs(&self.counts),
            keys: copy_keys(&self.dedup),
            witnesses: copy_witnesses(&self.witnesses),
            counters: None,
            lateness: self.budget.lateness,
            max_pairs: self.budget.max_pairs,
            max_dedup: self.budget.max_dedup,
            max_witnesses: self.budget.max_witnesses,
            witnesses_truncated: self.witnesses.len() >= self.budget.max_witnesses
                && self.dedup.len() > self.witnesses.len(),
        }
    }

    /// Rebuilds a window from a snapshot taken under the same budget.
    pub fn restore(budget: Budget, snapshot: WindowCheckpoint) -> (r: Result<ExactWindow, IngestError>)
        ensures
            match exact_restore_spec(budget, snapshot@) {
                Ok(v) => r matches Ok(w) && w.wf() && w@ == v,
                Err(e) => r == Err::<ExactWindow, IngestError>(e),
            },
    {
        if snapshot.version != CHECKPOINT_VERSION {
            return Err(IngestError::Checkpoint("version"));
        }
        if snapshot.counters.is_some() {
            return Err(IngestError::Checkpoint("exact-cannot-hold-sketch"));
        }
        if budget.validate().is_err() {
            return Err(IngestError::Checkpoint("budget"));
        }
        if snapshot.lateness != budget.lateness || snapshot.max_pairs != budget.max_pairs
            || snapshot.max_dedup != budget.max_dedup || snapshot.max_witnesses != budget.max_witnesses {
            return Err(IngestError::Checkpoint("policy-mismatch"));
        }
        if snapshot.pairs.len() > budget.max_pairs || snapshot.keys.len() > budget.max_dedup
            || snapshot.witnesses.len() > budget.max_witnesses {
            return Err(IngestError::Budget("checkpoint"));
        }
        let counts = match collect_pairs(&snapshot.pairs) {
            Some(c) => c,
            None => {
                return Err(IngestError::Checkpoint("duplicate-pair"));
            },
        };
        let dedup = collect_keys(&snapshot.keys);
        Ok(ExactWindow {
            budget,
            watermark: snapshot.watermark,
            closed: snapshot.closed,
            counts,
            dedup,
            witnesses: copy_witnesses(&snapshot.witnesses),
        })
    }

    /// Merges a disjoint pane into this window: counts add up, identity keys and witnesses are
    /// copied, the later watermark wins. An overlap or an overflow leaves this window unchanged.
    #[verifier::loop_isolation(false)]
    pub fn try_merge(&mut self, other: &Self) -> (r: Result<(), IngestError>)
        requires
            old(self).wf(),
            other.wf(),
        ensures
            match exact_merge_spec(old(self)@, other@) {
                Ok(v) => r is Ok && final(self).wf() && final(self)@ == v,
                Err(e) => r == Err::<(), IngestError>(e) && final(self)@ == old(self)@,
            },
    {
        let ghost l = self@;
        let ghost o = other@;
        // An identity key in both panes would be counted twice.
        let mut i: usize = 0;
        while i < self.dedup.len()
            invariant
                l == self@,
                o == other@,
                other.wf(),
                i <= self.dedup.len(),
                forall|j: int| 0 <= j < i ==> !o.dedup.contains(#[trigger] l.dedup[j]),
            decreases self.dedup.len() - i,
        {
            assert(self.dedup@[i as int]@ == l.dedup[i as int]);
            if holds_key(&other.dedup, &self.dedup[i]) {
                assert(keys_overlap(l.dedup, o.dedup));
                return Err(IngestError::Checkpoint("overlapping-event"));
            }
            i += 1;
        }
        assert(!keys_overlap(l.dedup, o.dedup));
        // Every pair of the other pane, added in order.
        let mut next = copy_pairs(&self.counts);
        let mut i: usize = 0;
        while i < other.counts.len()
            invariant
                l == self@,
                o == other@,
                i <= other.counts.len(),
                ascending_entries(pairs_view(next@)),
                merge_counts(l.counts, o.counts.take(i as int), l.budget.max_pairs) == Ok::<Seq<(PairKeyView, u64)>, IngestError>(pairs_view(next@)),
                pairs_view(next@).len() <= l.budget.max_pairs,
            decreases other.counts.len() - i,
        {
            let slot = &other.counts[i];
            let ghost cur = pairs_view(next@);
            proof {
                assert(slot@ == o.counts[i as int]);
                assert(o.counts.take(i + 1).drop_last() =~= o.counts.take(i as int));
                assert(o.counts.take(i + 1).last() == o.counts[i as int]);
            }
            let found = lookup_pair(&next, &slot.scope, &slot.relation, &slot.source, &slot.target);
            let current = match found {
                Some(c) => c,
                None => 0,
            };
            if current == 0 && next.len() >= self.budget.max_pairs {
                proof {
                    lemma_merge_counts_fails(l.counts, o.counts, (i + 1) as int, l.budget.max_pairs);
                }
                return Err(IngestError::Budget("pairs"));
            }
            let total = match current.checked_add(slot.count) {
                Some(t) => t,
                None => {
                    proof {
                        lemma_merge_counts_fails(l.counts, o.counts, (i + 1) as int, l.budget.max_pairs);
                    }
                    return Err(IngestError::Overflow);
                },
            };
            proof {
                lemma_upsert(cur, slot@.0, total);
            }
            upsert_pair(&mut next, &slot.scope, &slot.relation, &slot.source, &slot.target, total);
            i += 1;
        }
        assert(o.counts.take(o.counts.len() as int) =~= o.counts);
        if other.dedup.len() > self.budget.max_dedup - self.dedup.len() {
            return Err(IngestError::Budget("dedup"));
        }
        let ghost counts = pairs_view(next@);
        let mut keys = copy_keys(&self.dedup);
        let mut i: usize = 0;
        while i < other.dedup.len()
            invariant
                o == other@,
                i <= other.dedup.len(),
                ascending_keys(keys_view(keys@)),
                keys_view(keys@) == key_insert_all(l.dedup, o.dedup.take(i as int)),
                keys_view(keys@).len() <= l.dedup.len() + i,
            decreases other.dedup.len() - i,
        {
            proof {
                lemma_key_insert(keys_view(keys@), o.dedup[i as int]);
                assert(o.dedup.take(i + 1).drop_last() =~= o.dedup.take(i as int));
                assert(other.dedup@[i as int]@ == o.dedup[i as int]);
            }
            insert_key(&mut keys, &other.dedup[i]);
            i += 1;
        }
        assert(o.dedup.take(o.dedup.len() as int) =~= o.dedup);
        let mut seen = copy_witnesses(&self.witnesses);
        let mut i: usize = 0;
        while i < other.witnesses.len()
            invariant
                o == other@,
                i <= other.witnesses.len(),
                l.witnesses.len() <= l.budget.max_witnesses,
                l.budget == self.budget,
                witnesses_view(seen@) == l.witnesses + o.witnesses.take(i as int),
                seen@.len() == l.witnesses.len() + i,
                seen@.len() <= l.budget.max_witnesses,
            decreases other.witnesses.len() - i,
        {
            if seen.len() >= self.budget.max_witnesses {
                break;
            }
            let ghost before = seen@;
            seen.push(copy_witness(&other.witnesses[i]));
            proof {
                assert(witnesses_view(seen@) =~= witnesses_view(before).push(o.witnesses[i as int]));
                assert(o.witnesses.take(i + 1) =~= o.witnesses.take(i as int).push(o.witnesses[i as int]));
            }
            i += 1;
        }
        assert(witnesses_view(seen@) =~= merge_witnesses(l.witnesses, o.witnesses, l.budget.max_witnesses));
        // Commit: nothing below can fail.
        self.counts = next;
        self.dedup = keys;
        self.witnesses = seen;
        if other.watermark > self.watermark {
            self.watermark = other.watermark;
        }
        self.closed = self.closed || other.closed;
        Ok(())
    }

    /// Every counted pair with its count, ascending by key.
    pub fn exported_pairs(&self) -> (r: Vec<(ScopeId, RelationProfile, EntityId, EntityId, u64)>)
        ensures
            r@.len() == self@.counts.len(),
            forall|i: int| 0 <= i < r@.len() ==> exported_view(#[trigger] r@[i]) == self@.counts[i],
    {
        let mut out: Vec<(ScopeId, RelationProfile, EntityId, EntityId, u64)> = Vec::new();
        let mut i: usize = 0;
        while i < self.counts.len()
            invariant
                i <= self.counts.len(),
                out@.len() == i,
                forall|j: int| 0 <= j < i ==> exported_view(#[trigger] out@[j]) == pairs_view(self.counts@)[j],
            decreases self.counts.len() - i,
        {
            let slot = &self.counts[i];
            out.push((slot.scope.clone(), slot.relation.clone(), slot.source.clone(), slot.target.clone(), slot.count));
            i += 1;
        }
        out
    }
}

} // verus!

verus! {

/// Restoring the checkpoint of a well-formed window under its own budget gives back
/// the same window, so every later ingest is decided the same way.
pub proof fn lemma_exact_restore_of_checkpoint(w: ExactView)
    requires
        w.wf(),
    ensures
        exact_restore_spec(w.budget, exact_checkpoint_spec(w)) == Ok::<ExactView, IngestError>(w),
{
    let c = w.counts;
    assert forall|a: int, b: int| #![trigger c[a], c[b]] 0 <= a < b < c.len() implies c[a].0 != c[b].0 by {
        assert(c[a].0.before(c[b].0));
        PairKeyView::lemma_order(c[a].0, c[a].0, c[a].0);
    }
    lemma_upsert_all_rebuilds(w.counts);
    lemma_key_insert_all_rebuilds(w.dedup);
}

/// The value of an optional count as an integer.
pub open spec fn opt_int(o: Option<u64>) -> Option<int> {
    match o {
        Some(v) => Some(v as int),
        None => None,
    }
}

/// The sum of two optional counts: absent only where both are.
pub open spec fn sum_entry(a: Option<u64>, b: Option<u64>) -> Option<int> {
    match (a, b) {
        (None, None) => None,
        (Some(x), None) => Some(x as int),
        (None, Some(y)) => Some(y as int),
        (Some(x), Some(y)) => Some(x + y),
    }
}

/// Merging pair counts adds them key by key, when the sums fit within the pair budget and `u64`.
pub proof fn lemma_merge_counts_adds(
    l: Seq<(PairKeyView, u64)>,
    r: Seq<(PairKeyView, u64)>,
    max_pairs: usize,
    c: Seq<(PairKeyView, u64)>,
)
    requires
        ascending_entries(l),
        ascending_entries(r),
        ascending_entries(c),
        c.len() <= max_pairs,
        forall|k: PairKeyView| #[trigger] entry_of(l, k) matches Some(a) ==> a > 0,
        forall|k: PairKeyView| opt_int(#[trigger] entry_of(c, k)) == sum_entry(entry_of(l, k), entry_of(r, k)),
    ensures
        merge_counts(l, r, max_pairs) == Ok::<Seq<(PairKeyView, u64)>, IngestError>(c),
{
    lemma_merge_counts_prefix(l, r, max_pairs, c, r.len() as int);
    assert(r.take(r.len() as int) =~= r);
    let n = merge_counts(l, r, max_pairs)->Ok_0;
    assert forall|k: PairKeyView| entry_of(n, k) == entry_of(c, k) by {
        assert(opt_int(entry_of(n, k)) == opt_int(entry_of(c, k)));
    }
    lemma_entries_unique(n, c);
}

proof fn lemma_merge_counts_prefix(
    l: Seq<(PairKeyView, u64)>,
    r: Seq<(PairKeyView, u64)>,
    max_pairs: usize,
    c: Seq<(PairKeyView, u64)>,
    m: int,
)
    requires
        ascending_entries(l),
        ascending_entries(r),
        ascending_entries(c),
        c.len() <= max_pairs,
        forall|k: PairKeyView| #[trigger] entry_of(l, k) matches Some(a) ==> a > 0,
        forall|k: PairKeyView| opt_int(#[trigger] entry_of(c, k)) == sum_entry(entry_of(l, k), entry_of(r, k)),
        0 <= m <= r.len(),
    ensures
        merge_counts(l, r.take(m), max_pairs) is Ok,
        ascending_entries(merge_counts(l, r.take(m), max_pairs)->Ok_0),
        forall|k: PairKeyView| opt_int(#[trigger] entry_of(merge_counts(l, r.take(m), max_pairs)->Ok_0, k))
            == sum_entry(entry_of(l, k), entry_of(r.take(m), k)),
    decreases m,
{
    let rm = r.take(m);
    assert forall|a: int, b: int| #![trigger rm[a], rm[b]] 0 <= a < b < rm.len() implies rm[a].0.before(rm[b].0) by {
        assert(r[a].0.before(r[b].0));
    }
    if m == 0 {
        assert(rm =~= Seq::<(PairKeyView, u64)>::empty());
        assert forall|k: PairKeyView| opt_int(#[trigger] entry_of(l, k)) == sum_entry(entry_of(l, k), entry_of(rm, k)) by {}
    } else {
        let p = r.take(m - 1);
        assert(rm.drop_last() =~= p);
        assert(rm =~= p.push(r[m - 1]));
        lemma_merge_counts_prefix(l, r, max_pairs, c, m - 1);
        let n = merge_counts(l, p, max_pairs)->Ok_0;
        let x = r[m - 1];
        let kx = x.0;
        // The new key is not among the earlier ones.
        lemma_entry_of(p, kx);
        assert forall|j: int| 0 <= j < p.len() implies (#[trigger] p[j]).0 != kx by {
            assert(r[j].0.before(r[m - 1].0));
            PairKeyView::lemma_order(kx, kx, kx);
        }
        lemma_entry_of(r, kx);
        assert(entry_of(r, kx) == Some(x.1));
        let current = count_or_zero(n, kx);
        assert(opt_int(entry_of(c, kx)) == sum_entry(entry_of(l, kx), Some(x.1)));
        if entry_of(l, kx) is None {
            // Every key merged so far is a key of `c`; `kx` is not merged yet.
            assert forall|k: PairKeyView| entry_of(n, k) is Some implies #[trigger] entry_of(c, k) is Some by {
                assert(opt_int(entry_of(n, k)) == sum_entry(entry_of(l, k), entry_of(p, k)));
                if entry_of(p, k) is Some {
                    lemma_entry_of(p, k);
                    let j = entry_rank(p, k) as int;
                    assert(r[j].0 == k);
                    lemma_entry_of(r, k);
                }
                assert(opt_int(entry_of(c, k)) == sum_entry(entry_of(l, k), entry_of(r, k)));
            }
            assert(opt_int(entry_of(n, kx)) == sum_entry(entry_of(l, kx), entry_of(p, kx)));
            lemma_entries_fewer(n, c, kx);
        }
        lemma_upsert(n, kx, (current + x.1) as u64);
        assert forall|k: PairKeyView| opt_int(#[trigger] entry_of(upsert(n, kx, (current + x.1) as u64), k))
            == sum_entry(entry_of(l, k), entry_of(rm, k)) by {
            lemma_entry_of_push(p, x, k);
            assert(opt_int(entry_of(n, k)) == sum_entry(entry_of(l, k), entry_of(p, k)));
        }
    }
}

/// Merging ascending pair counts that succeeds adds them key by key and stays within `max_pairs`.
pub proof fn lemma_merge_counts_sums(l: Seq<(PairKeyView, u64)>, r: Seq<(PairKeyView, u64)>, max_pairs: usize)
    requires
        ascending_entries(l),
        ascending_entries(r),
        l.len() <= max_pairs,
        merge_counts(l, r, max_pairs) is Ok,
    ensures
        ascending_entries(merge_counts(l, r, max_pairs)->Ok_0),
        merge_counts(l, r, max_pairs)->Ok_0.len() <= max_pairs,
        forall|k: PairKeyView| opt_int(#[trigger] entry_of(merge_counts(l, r, max_pairs)->Ok_0, k))
            == sum_entry(entry_of(l, k), entry_of(r, k)),
    decreases r.len(),
{
    if r.len() == 0 {
        assert forall|k: PairKeyView| opt_int(#[trigger] entry_of(l, k)) == sum_entry(entry_of(l, k), entry_of(r, k)) by {}
    } else {
        let p = r.drop_last();
        let x = r.last();
        let kx = x.0;
        assert forall|a: int, b: int| #![trigger p[a], p[b]] 0 <= a < b < p.len() implies p[a].0.before(p[b].0) by {
            assert(r[a].0.before(r[b].0));
        }
        lemma_merge_counts_sums(l, p, max_pairs);
        let n0 = merge_counts(l, p, max_pairs)->Ok_0;
        let current = count_or_zero(n0, kx);
        let n = upsert(n0, kx, (current + x.1) as u64);
        assert(merge_counts(l, r, max_pairs) == Ok::<Seq<(PairKeyView, u64)>, IngestError>(n));
        lemma_upsert(n0, kx, (current + x.1) as u64);
        assert(p.push(x) =~= r);
        lemma_entry_of(p, kx);
        assert forall|j: int| 0 <= j < p.len() implies (#[trigger] p[j]).0 != kx by {
            assert(r[j].0.before(r[r.len() - 1].0));
            PairKeyView::lemma_order(kx, kx, kx);
        }
        assert forall|k: PairKeyView| opt_int(#[trigger] entry_of(n, k)) == sum_entry(entry_of(l, k), entry_of(r, k)) by {
            lemma_entry_of_push(p, x, k);
            assert(opt_int(entry_of(n0, k)) == sum_entry(entry_of(l, k), entry_of(p, k)));
        }
    }
}

/// A merge that succeeds gives a well-formed window.
pub proof fn lemma_exact_merge_wf(l: ExactView, r: ExactView)
    requires
        l.wf(),
        r.wf(),
        exact_merge_spec(l, r) is Ok,
    ensures
        exact_merge_spec(l, r)->Ok_0.wf(),
{
    lemma_merge_counts_sums(l.counts, r.counts, l.budget.max_pairs);
    lemma_key_insert_all(l.dedup, r.dedup);
    let m = merge_witnesses(l.witnesses, r.witnesses, l.budget.max_witnesses);
    assert(m.len() <= l.budget.max_witnesses);
}

} // verus!
