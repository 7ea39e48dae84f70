//! The exact window: every accepted pair, counted under its full key.

use crate::budget::{budget_check, Budget, BudgetError};
use crate::model::{
    pair_key, pairs_view, keys_view, witnesses_view, EntityId, EventKey, EventKeyView, EventView,
    IngestError, InteractionEvent, PairCount, PairKeyView, RelationProfile, ScopeId, WitnessView,
};
use crate::order::{compare_text, compare_u64, Rank, StrictOrder};
use crate::sorted::{
    ascending_entries, ascending_keys, entry_of, entry_rank, key_insert, key_rank, lemma_entry_rank_is,
    lemma_entry_of, lemma_key_insert, lemma_key_present, lemma_key_rank_is, lemma_upsert, upsert,
};
use vstd::prelude::*;

pub mod store;

verus! {

/// What an exact window holds, as plain values.
pub struct ExactView {
    pub budget: Budget,
    pub watermark: u64,
    pub closed: bool,
    /// Pair counts, ascending by key.
    pub counts: Seq<(PairKeyView, u64)>,
    /// Identity keys of accepted events, ascending.
    pub dedup: Seq<EventKeyView>,
    /// Witnesses of accepted events, oldest first.
    pub witnesses: Seq<WitnessView>,
}

impl ExactView {
    /// The budget is valid, pairs and keys are ascending, and every registry is within its bound.
    pub open spec fn wf(self) -> bool {
        &&& self.budget.valid()
        &&& ascending_entries(self.counts)
        &&& ascending_keys(self.dedup)
        &&& self.counts.len() <= self.budget.max_pairs
        &&& self.dedup.len() <= self.budget.max_dedup
        &&& self.witnesses.len() <= self.budget.max_witnesses
    }
}

/// `a + b`, or `u64::MAX` where it does not fit.
pub open spec fn saturating_add_u64(a: u64, b: u64) -> u64 {
    if a + b > u64::MAX {
        u64::MAX
    } else {
        (a + b) as u64
    }
}

/// The event is older than the watermark allows.
pub open spec fn is_late(budget: Budget, watermark: u64, event_time: u64) -> bool {
    saturating_add_u64(event_time, budget.lateness) < watermark
}

/// The count stored under `k`, or 0.
pub open spec fn count_or_zero(counts: Seq<(PairKeyView, u64)>, k: PairKeyView) -> u64 {
    match entry_of(counts, k) {
        Some(c) => c,
        None => 0,
    }
}

/// Whether an event is refused, a duplicate (`Ok(None)`), or accepted with its pair's next count.
pub open spec fn admission_spec(w: ExactView, e: EventView) -> Result<Option<u64>, IngestError> {
    if w.closed {
        Err(IngestError::ClosedWindow)
    } else if e.weight == 0 {
        Err(IngestError::ZeroWeight)
    } else if is_late(w.budget, w.watermark, e.event_time) {
        Err(IngestError::Late { event_time: e.event_time, watermark: w.watermark })
    } else if w.dedup.contains(e.key) {
        Ok(None)
    } else if w.dedup.len() >= w.budget.max_dedup {
        Err(IngestError::Budget("dedup"))
    } else {
        let current = count_or_zero(w.counts, e.pair);
        if current == 0 && w.counts.len() >= w.budget.max_pairs {
            Err(IngestError::Budget("pairs"))
        } else if current + e.weight > u64::MAX {
            Err(IngestError::Overflow)
        } else {
            Ok(Some((current + e.weight) as u64))
        }
    }
}

/// The window after an accepted event: its key, its pair's count, and a witness while room remains.
pub open spec fn commit_spec(w: ExactView, e: EventView, next: u64) -> ExactView {
    ExactView {
        dedup: key_insert(w.dedup, e.key),
        counts: upsert(w.counts, e.pair, next),
        witnesses: if w.witnesses.len() < w.budget.max_witnesses {
            w.witnesses.push((e.pair.source, e.pair.target, e.evidence))
        } else {
            w.witnesses
        },
        ..w
    }
}

/// What ingesting an event answers, and the window after it.
pub open spec fn ingest_spec(w: ExactView, e: EventView) -> (Result<bool, IngestError>, ExactView) {
    match admission_spec(w, e) {
        Err(x) => (Err(x), w),
        Ok(None) => (Ok(false), w),
        Ok(Some(next)) => (Ok(true), commit_spec(w, e, next)),
    }
}

/// An accepted event keeps the window well formed.
pub proof fn lemma_commit_wf(w: ExactView, e: EventView, next: u64)
    requires
        w.wf(),
        admission_spec(w, e) == Ok::<Option<u64>, IngestError>(Some(next)),
    ensures
        commit_spec(w, e, next).wf(),
        commit_spec(w, e, next).dedup.contains(e.key),
        entry_of(commit_spec(w, e, next).counts, e.pair) == Some(next),
        forall|k: PairKeyView| k != e.pair ==> entry_of(commit_spec(w, e, next).counts, k) == #[trigger] entry_of(w.counts, k),
{
    lemma_key_insert(w.dedup, e.key);
    lemma_upsert(w.counts, e.pair, next);
    lemma_entry_of(w.counts, e.pair);
}

/// Ingesting keeps the window well formed.
pub proof fn lemma_ingest_wf(w: ExactView, e: EventView)
    requires
        w.wf(),
    ensures
        ingest_spec(w, e).1.wf(),
{
    if let Ok(Some(next)) = admission_spec(w, e) {
        lemma_commit_wf(w, e, next);
    }
}

/// What restoring one pair count answers, and the window after it.
pub open spec fn add_restored_spec(w: ExactView, k: PairKeyView, count: u64) -> Result<ExactView, IngestError> {
    let current = count_or_zero(w.counts, k);
    if entry_of(w.counts, k) is None && w.counts.len() >= w.budget.max_pairs {
        Err(IngestError::Budget("pairs"))
    } else if current + count > u64::MAX {
        Err(IngestError::Overflow)
    } else {
        Ok(ExactView { counts: upsert(w.counts, k, (current + count) as u64), ..w })
    }
}

#[derive(Debug)]
/// A bounded window that counts every `source -> target` pair under its scope and relation,
/// accepts each event identity once, and keeps a few witnesses.
pub struct ExactWindow {
    budget: Budget,
    watermark: u64,
    closed: bool,
    counts: Vec<PairCount>,
    dedup: Vec<EventKey>,
    witnesses: Vec<(EntityId, EntityId, String)>,
}

impl View for ExactWindow {
    type V = ExactView;

    closed spec fn view(&self) -> ExactView {
        ExactView {
            budget: self.budget,
            watermark: self.watermark,
            closed: self.closed,
            counts: pairs_view(self.counts@),
            dedup: keys_view(self.dedup@),
            witnesses: witnesses_view(self.witnesses@),
        }
    }
}

pub(crate) enum Admission {
    Duplicate,
    Accept { next: u64 },
}

impl Admission {
    pub(crate) open spec fn outcome(self) -> Option<u64> {
        match self {
            Admission::Duplicate => None,
            Admission::Accept { next } => Some(next),
        }
    }
}

/// Compares a stored pair's key with the key of scope, relation, source and target.
fn compare_pair(
    slot: &PairCount,
    scope: &ScopeId,
    relation: &RelationProfile,
    source: &EntityId,
    target: &EntityId,
) -> (r: Rank)
    ensures
        (r == Rank::Before) == slot@.0.before(pair_key(scope, relation, source, target)),
        (r == Rank::Same) == (slot@.0 == pair_key(scope, relation, source, target)),
        (r == Rank::After) == pair_key(scope, relation, source, target).before(slot@.0),
{
    let r = compare_text(slot.scope.0.as_str(), scope.0.as_str());
    if r != Rank::Same {
        return r;
    }
    let r = compare_text(slot.relation.name.as_str(), relation.name.as_str());
    if r != Rank::Same {
        return r;
    }
    let r = compare_text(slot.relation.weight_unit.as_str(), relation.weight_unit.as_str());
    if r != Rank::Same {
        return r;
    }
    let r = compare_text(slot.source.0.as_str(), source.0.as_str());
    if r != Rank::Same {
        return r;
    }
    compare_text(slot.target.0.as_str(), target.0.as_str())
}

/// Compares two event keys.
fn compare_event_key(a: &EventKey, b: &EventKey) -> (r: Rank)
    ensures
        (r == Rank::Before) == a@.before(b@),
        (r == Rank::Same) == (a@ == b@),
        (r == Rank::After) == b@.before(a@),
{
    let r = compare_text(a.producer.as_str(), b.producer.as_str());
    if r != Rank::Same {
        return r;
    }
    let r = compare_u64(a.boot_epoch, b.boot_epoch);
    if r != Rank::Same {
        return r;
    }
    let r = compare_u64(a.sequence, b.sequence);
    if r != Rank::Same {
        return r;
    }
    let x: u64 = match a.phase {
        crate::model::EventPhase::Request => 0,
        crate::model::EventPhase::ReportedResult => 1,
        crate::model::EventPhase::VerifiedEffect => 2,
    };
    let y: u64 = match b.phase {
        crate::model::EventPhase::Request => 0,
        crate::model::EventPhase::ReportedResult => 1,
        crate::model::EventPhase::VerifiedEffect => 2,
    };
    compare_u64(x, y)
}

/// Where the key of scope, relation, source and target stands among ascending pairs.
fn pair_position(
    counts: &Vec<PairCount>,
    scope: &ScopeId,
    relation: &RelationProfile,
    source: &EntityId,
    target: &EntityId,
) -> (i: usize)
    ensures
        i == entry_rank(pairs_view(counts@), pair_key(scope, relation, source, target)),
        i <= counts@.len(),
{
    let ghost k = pair_key(scope, relation, source, target);
    let ghost s = pairs_view(counts@);
    let mut i: usize = 0;
    while i < counts.len()
        invariant
            i <= counts.len(),
            s == pairs_view(counts@),
            k == pair_key(scope, relation, source, target),
            forall|j: int| 0 <= j < i ==> (#[trigger] s[j]).0.before(k),
        decreases counts.len() - i,
    {
        assert(s[i as int] == counts@[i as int]@);
        if compare_pair(&counts[i], scope, relation, source, target) != Rank::Before {
            proof {
                lemma_entry_rank_is(s, k, i as int);
            }
            return i;
        }
        i += 1;
    }
    proof {
        lemma_entry_rank_is(s, k, i as int);
    }
    i
}

/// Where `key` stands among ascending identity keys.
fn key_position(dedup: &Vec<EventKey>, key: &EventKey) -> (i: usize)
    ensures
        i == key_rank(keys_view(dedup@), key@),
        i <= dedup@.len(),
{
    let ghost s = keys_view(dedup@);
    let mut i: usize = 0;
    while i < dedup.len()
        invariant
            i <= dedup.len(),
            s == keys_view(dedup@),
            forall|j: int| 0 <= j < i ==> (#[trigger] s[j]).before(key@),
        decreases dedup.len() - i,
    {
        assert(s[i as int] == dedup@[i as int]@);
        if compare_event_key(&dedup[i], key) != Rank::Before {
            proof {
                lemma_key_rank_is(s, key@, i as int);
            }
            return i;
        }
        i += 1;
    }
    proof {
        lemma_key_rank_is(s, key@, i as int);
    }
    i
}

/// Whether ascending identity keys hold `key`.
fn holds_key(dedup: &Vec<EventKey>, key: &EventKey) -> (r: bool)
    requires
        ascending_keys(keys_view(dedup@)),
    ensures
        r == keys_view(dedup@).contains(key@),
{
    let i = key_position(dedup, key);
    proof {
        lemma_key_present(keys_view(dedup@), key@);
    }
    i < dedup.len() && compare_event_key(&dedup[i], key) == Rank::Same
}

/// The count stored under a key among ascending pairs, if any.
fn lookup_pair(
    counts: &Vec<PairCount>,
    scope: &ScopeId,
    relation: &RelationProfile,
    source: &EntityId,
    target: &EntityId,
) -> (r: Option<u64>)
    ensures
        r == entry_of(pairs_view(counts@), pair_key(scope, relation, source, target)),
{
    let i = pair_position(counts, scope, relation, source, target);
    if i < counts.len() && compare_pair(&counts[i], scope, relation, source, target) == Rank::Same {
        Some(counts[i].count)
    } else {
        None
    }
}

/// Stores `count` under a key among ascending pairs, keeping them ascending.
fn upsert_pair(
    counts: &mut Vec<PairCount>,
    scope: &ScopeId,
    relation: &RelationProfile,
    source: &EntityId,
    target: &EntityId,
    count: u64,
)
    requires
        ascending_entries(pairs_view(old(counts)@)),
    ensures
        pairs_view(final(counts)@) == upsert(pairs_view(old(counts)@), pair_key(scope, relation, source, target), count),
        ascending_entries(pairs_view(final(counts)@)),
{
    let ghost k = pair_key(scope, relation, source, target);
    let ghost s = pairs_view(counts@);
    proof {
        lemma_upsert(s, k, count);
    }
    let i = pair_position(counts, scope, relation, source, target);
    let slot = PairCount {
        scope: scope.clone(),
        relation: relation.clone(),
        source: source.clone(),
        target: target.clone(),
        count,
    };
    if i < counts.len() && compare_pair(&counts[i], scope, relation, source, target) == Rank::Same {
        counts[i] = slot;
        assert(pairs_view(counts@) =~= s.update(i as int, (k, count)));
    } else {
        counts.insert(i, slot);
        assert(pairs_view(counts@) =~= s.insert(i as int, (k, count)));
    }
}

/// Adds `key` among ascending identity keys, keeping them ascending.
fn insert_key(dedup: &mut Vec<EventKey>, key: &EventKey)
    requires
        ascending_keys(keys_view(old(dedup)@)),
    ensures
        keys_view(final(dedup)@) == key_insert(keys_view(old(dedup)@), key@),
        ascending_keys(keys_view(final(dedup)@)),
{
    let ghost s = keys_view(dedup@);
    proof {
        lemma_key_insert(s, key@);
    }
    let i = key_position(dedup, key);
    if i < dedup.len() && compare_event_key(&dedup[i], key) == Rank::Same {
    } else {
        dedup.insert(i, key.clone());
        assert(keys_view(dedup@) =~= s.insert(i as int, key@));
    }
}

impl Clone for ExactWindow {
    fn clone(&self) -> (r: Self)
        ensures
            r@ == self@,
    {
        ExactWindow {
            budget: self.budget,
            watermark: self.watermark,
            closed: self.closed,
            counts: crate::model::copy_pairs(&self.counts),
            dedup: crate::model::copy_keys(&self.dedup),
            witnesses: crate::model::copy_witnesses(&self.witnesses),
        }
    }
}

impl ExactWindow {
    /// The window is well formed (see [`ExactView::wf`]).
    pub open spec fn wf(&self) -> bool {
        self@.wf()
    }

    /// An empty window under a valid budget.
    pub fn new(budget: Budget) -> (r: Result<Self, BudgetError>)
        ensures
            match r {
                Ok(w) => budget_check(budget) == Ok::<Budget, BudgetError>(budget) && w.wf() && w@ == ExactView {
                    budget,
                    watermark: 0,
                    closed: false,
                    counts: Seq::empty(),
                    dedup: Seq::empty(),
                    witnesses: Seq::empty(),
                },
                Err(e) => budget_check(budget) == Err::<Budget, BudgetError>(e),
            },
    {
        let budget = budget.validate()?;
        let w = ExactWindow {
            budget,
            watermark: 0,
            closed: false,
            counts: Vec::new(),
            dedup: Vec::new(),
            witnesses: Vec::new(),
        };
        assert(w@.counts =~= Seq::empty());
        assert(w@.dedup =~= Seq::empty());
        assert(w@.witnesses =~= Seq::empty());
        Ok(w)
    }

    /// Moves the watermark forward; it never moves back.
    pub fn advance_watermark(&mut self, watermark: u64)
        ensures
            final(self)@ == (ExactView {
                watermark: if watermark > old(self)@.watermark { watermark } else { old(self)@.watermark },
                ..old(self)@
            }),
    {
        if watermark > self.watermark {
            self.watermark = watermark;
        }
    }

    /// Closes the window to further events.
    pub fn close(&mut self)
        ensures
            final(self)@ == (ExactView { closed: true, ..old(self)@ }),
    {
        self.closed = true;
    }

    /// Counts an event once. Answers `Ok(true)` when it was counted, `Ok(false)` when its
    /// identity was already counted, and an error, with the window unchanged, when it is refused.
    pub fn ingest(&mut self, event: &InteractionEvent) -> (r: Result<bool, IngestError>)
        requires
            old(self).wf(),
        ensures
            final(self).wf(),
            (r, final(self)@) == ingest_spec(old(self)@, event@),
    {
        match self.admission(event) {
            Err(e) => Err(e),
            Ok(Admission::Duplicate) => Ok(false),
            Ok(Admission::Accept { next }) => {
                self.commit(event, next);
                Ok(true)
            },
        }
    }

    pub(crate) fn admission(&self, event: &InteractionEvent) -> (r: Result<Admission, IngestError>)
        requires
            self.wf(),
        ensures
            match r {
                Ok(a) => admission_spec(self@, event@) == Ok::<Option<u64>, IngestError>(a.outcome()),
                Err(e) => admission_spec(self@, event@) == Err::<Option<u64>, IngestError>(e),
            },
    {
        if self.closed {
            return Err(IngestError::ClosedWindow);
        }
        if event.weight == 0 {
            return Err(IngestError::ZeroWeight);
        }
        if event.event_time.saturating_add(self.budget.lateness) < self.watermark {
            return Err(IngestError::Late { event_time: event.event_time, watermark: self.watermark });
        }
        if holds_key(&self.dedup, &event.event_key) {
            return Ok(Admission::Duplicate);
        }
        if self.dedup.len() >= self.budget.max_dedup {
            return Err(IngestError::Budget("dedup"));
        }
        let current = match lookup_pair(&self.counts, &event.scope, &event.relation, &event.source, &event.target) {
            Some(c) => c,
            None => 0,
        };
        if current == 0 && self.counts.len() >= self.budget.max_pairs {
            return Err(IngestError::Budget("pairs"));
        }
        match current.checked_add(event.weight) {
            Some(next) => Ok(Admission::Accept { next }),
            None => Err(IngestError::Overflow),
        }
    }

    pub(crate) fn commit(&mut self, event: &InteractionEvent, next: u64)
        requires
            old(self).wf(),
            admission_spec(old(self)@, event@) == Ok::<Option<u64>, IngestError>(Some(next)),
        ensures
            final(self).wf(),
            final(self)@ == commit_spec(old(self)@, event@, next),
    {
        proof {
            lemma_commit_wf(self@, event@, next);
        }
        insert_key(&mut self.dedup, &event.event_key);
        upsert_pair(&mut self.counts, &event.scope, &event.relation, &event.source, &event.target, next);
        if self.witnesses.len() < self.budget.max_witnesses {
            let ghost before = self.witnesses@;
            self.witnesses.push((event.source.clone(), event.target.clone(), event.evidence.clone()));
            assert(witnesses_view(self.witnesses@) =~= witnesses_view(before).push(
                (event@.pair.source, event@.pair.target, event@.evidence),
            ));
        }
    }

    /// The exact count of a pair, or `None` when the pair was never counted.
    pub fn count(
        &self,
        scope: &ScopeId,
        relation: &RelationProfile,
        source: &EntityId,
        target: &EntityId,
    ) -> (r: Option<u64>)
        requires
            self.wf(),
        ensures
            r == entry_of(self@.counts, pair_key(scope, relation, source, target)),
    {
        lookup_pair(&self.counts, scope, relation, source, target)
    }

    /// How many distinct pairs are counted.
    pub fn pairs(&self) -> (r: usize)
        ensures
            r == self@.counts.len(),
    {
        self.counts.len()
    }

    /// Restores one pair count, adding it to any count already held for the pair.
    pub fn add_restored(
        &mut self,
        scope: ScopeId,
        relation: RelationProfile,
        source: EntityId,
        target: EntityId,
        count: u64,
    ) -> (r: Result<(), IngestError>)
        requires
            old(self).wf(),
        ensures
            final(self).wf(),
            match add_restored_spec(old(self)@, pair_key(&scope, &relation, &source, &target), count) {
                Ok(w) => r is Ok && final(self)@ == w,
                Err(e) => r == Err::<(), IngestError>(e) && final(self)@ == old(self)@,
            },
    {
        let ghost k = pair_key(&scope, &relation, &source, &target);
        proof {
            lemma_upsert(self@.counts, k, 0);
        }
        let found = lookup_pair(&self.counts, &scope, &relation, &source, &target);
        if found.is_none() && self.counts.len() >= self.budget.max_pairs {
            return Err(IngestError::Budget("pairs"));
        }
        let current = match found {
            Some(c) => c,
            None => 0,
        };
        let total = match current.checked_add(count) {
            Some(t) => t,
            None => {
                return Err(IngestError::Overflow);
            },
        };
        proof {
            lemma_upsert(self@.counts, k, total);
        }
        upsert_pair(&mut self.counts, &scope, &relation, &source, &target, total);
        Ok(())
    }

    /// The witnesses kept so far, oldest first.
    pub fn witnesses(&self) -> (r: &[(EntityId, EntityId, String)])
        ensures
            witnesses_view(r@) == self@.witnesses,
    {
        self.witnesses.as_slice()
    }

    /// The current watermark.
    pub fn watermark(&self) -> (r: u64)
        ensures
            r == self@.watermark,
    {
        self.watermark
    }

    /// Whether the window is closed.
    pub fn is_closed(&self) -> (r: bool)
        ensures
            r == self@.closed,
    {
        self.closed
    }
}

} // verus!
