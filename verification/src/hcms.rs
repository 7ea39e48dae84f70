//! The H-CMS sketch: a count-min matrix per replica, indexed by full-key hashes.

use crate::budget::{budget_check, Budget, BudgetError};
use crate::exact::is_late;
use crate::hash::{bucket, bucket_spec, encode_fields, encoded_fields, field_texts, mix, mix_spec};
use crate::model::{CheckpointView, EventView, IngestError, InteractionEvent, WindowCheckpoint, CHECKPOINT_VERSION};
use vstd::prelude::*;

verus! {

/// What a sketch holds, as plain values.
pub struct HcmsView {
    pub budget: Budget,
    pub watermark: u64,
    pub closed: bool,
    pub seed: u64,
    /// `replicas` matrices of `width * width` counters, one after the other, row by row.
    pub counters: Seq<u64>,
}

/// Cells per replica.
pub open spec fn span(b: Budget) -> int {
    b.width as int * b.width as int
}

impl HcmsView {
    /// The budget is valid and the counters fill every replica's matrix.
    pub open spec fn wf(self) -> bool {
        &&& self.budget.valid()
        &&& self.counters.len() == self.budget.replicas as int * span(self.budget)
    }
}

/// The fields hashed for the source side of an event.
pub open spec fn source_bytes(e: EventView) -> Seq<u8> {
    encoded_fields(seq![e.pair.scope, e.pair.name, e.pair.unit, e.pair.source])
}

/// The fields hashed for the target side of an event.
pub open spec fn target_bytes(e: EventView) -> Seq<u8> {
    encoded_fields(seq![e.pair.scope, e.pair.name, e.pair.unit, e.pair.target])
}

/// The seed that separates target hashes from source hashes.
pub open spec fn target_salt() -> u64 {
    0xD1B5_4A32_D192_ED03
}

/// The cell an event lands in within replica `r`: the source picks the row, the target the column.
pub open spec fn cell_of(v: HcmsView, e: EventView, r: int) -> int {
    let w = v.budget.width;
    let row = bucket_spec(mix_spec(v.seed ^ (r as u64), source_bytes(e)), w);
    let col = bucket_spec(mix_spec(v.seed ^ (r as u64) ^ target_salt(), target_bytes(e)), w);
    r * span(v.budget) + row * w + col
}

/// Some replica's cell would pass `u64::MAX`.
pub open spec fn sketch_overflows(v: HcmsView, e: EventView) -> bool {
    exists|r: int| 0 <= r < v.budget.replicas && v.counters[#[trigger] cell_of(v, e, r)] + e.weight > u64::MAX
}

/// The counters with the event's weight added to its cell in every replica.
pub open spec fn bumped(v: HcmsView, e: EventView) -> Seq<u64> {
    Seq::new(
        v.counters.len(),
        |i: int|
            if exists|r: int| 0 <= r < v.budget.replicas && #[trigger] cell_of(v, e, r) == i {
                (v.counters[i] + e.weight) as u64
            } else {
                v.counters[i]
            },
    )
}

/// What ingesting an event into a sketch answers, and the sketch after it.
pub open spec fn hcms_ingest_spec(v: HcmsView, e: EventView) -> (Result<(), IngestError>, HcmsView) {
    if v.closed {
        (Err(IngestError::ClosedWindow), v)
    } else if e.weight == 0 {
        (Err(IngestError::ZeroWeight), v)
    } else if is_late(v.budget, v.watermark, e.event_time) {
        (Err(IngestError::Late { event_time: e.event_time, watermark: v.watermark }), v)
    } else if sketch_overflows(v, e) {
        (Err(IngestError::Overflow), v)
    } else {
        (Ok(()), HcmsView { counters: bumped(v, e), ..v })
    }
}

/// Ingesting keeps a sketch well formed.
pub proof fn lemma_hcms_ingest_wf(v: HcmsView, e: EventView)
    requires
        v.wf(),
    ensures
        hcms_ingest_spec(v, e).1.wf(),
{
}

/// Two sketches share seed and shape, so their counters can be added.
pub open spec fn hcms_compatible(l: HcmsView, r: HcmsView) -> bool {
    &&& l.seed == r.seed
    &&& l.budget.width == r.budget.width
    &&& l.budget.replicas == r.budget.replicas
    &&& l.counters.len() == r.counters.len()
}

/// What merging sketch `r` into `l` answers.
pub open spec fn hcms_merge_spec(l: HcmsView, r: HcmsView) -> Result<HcmsView, IngestError> {
    if !hcms_compatible(l, r) {
        Err(IngestError::Checkpoint("incompatible-merge"))
    } else if exists|i: int| 0 <= i < l.counters.len() && #[trigger] l.counters[i] + r.counters[i] > u64::MAX {
        Err(IngestError::Overflow)
    } else {
        Ok(HcmsView {
            counters: Seq::new(l.counters.len(), |i: int| (l.counters[i] + r.counters[i]) as u64),
            watermark: if r.watermark > l.watermark { r.watermark } else { l.watermark },
            closed: l.closed || r.closed,
            ..l
        })
    }
}

/// The checkpoint of a sketch: its seed, shape, policy and counters.
pub open spec fn hcms_checkpoint_spec(v: HcmsView) -> CheckpointView {
    CheckpointView {
        version: CHECKPOINT_VERSION,
        seed: v.seed,
        watermark: v.watermark,
        closed: v.closed,
        width: v.budget.width,
        replicas: v.budget.replicas,
        pairs: Seq::empty(),
        keys: Seq::empty(),
        witnesses: Seq::empty(),
        counters: Some(v.counters),
        lateness: v.budget.lateness,
        max_pairs: v.budget.max_pairs,
        max_dedup: v.budget.max_dedup,
        max_witnesses: v.budget.max_witnesses,
        witnesses_truncated: false,
    }
}

/// `a * b`, or `usize::MAX` where it does not fit.
pub open spec fn saturating_mul_usize(a: usize, b: usize) -> usize {
    if a * b > usize::MAX {
        usize::MAX
    } else {
        (a * b) as usize
    }
}

fn saturating_mul(a: usize, b: usize) -> (r: usize)
    ensures
        r == saturating_mul_usize(a, b),
{
    match a.checked_mul(b) {
        Some(p) => p,
        None => usize::MAX,
    }
}

/// What restoring a sketch from a snapshot answers.
pub open spec fn hcms_restore_spec(budget: Budget, seed: u64, s: CheckpointView) -> Result<HcmsView, IngestError> {
    if s.version != CHECKPOINT_VERSION {
        Err(IngestError::Checkpoint("version"))
    } else if s.seed != seed || s.width != budget.width || s.replicas != budget.replicas {
        Err(IngestError::Checkpoint("incompatible-restore"))
    } else if s.counters is None {
        Err(IngestError::Checkpoint("missing-counters"))
    } else if s.counters.unwrap().len() != saturating_mul_usize(
        saturating_mul_usize(budget.replicas, budget.width),
        budget.width,
    ) {
        Err(IngestError::Checkpoint("counter-shape"))
    } else if s.lateness != budget.lateness || s.max_pairs != budget.max_pairs
        || s.max_dedup != budget.max_dedup || s.max_witnesses != budget.max_witnesses {
        Err(IngestError::Checkpoint("policy-mismatch"))
    } else if !budget.valid() {
        Err(IngestError::Checkpoint("budget"))
    } else {
        Ok(HcmsView {
            budget,
            watermark: s.watermark,
            closed: s.closed,
            seed,
            counters: s.counters.unwrap(),
        })
    }
}

/// A valid budget's sketch is small: at most 16 replicas of 512 by 512 cells.
pub proof fn lemma_valid_shape(b: Budget)
    requires
        b.valid(),
    ensures
        1 <= b.replicas <= 16,
        2 <= b.width <= 512,
        span(b) <= 262144,
        b.replicas as int * span(b) <= 4194304,
{
    assert(b.width as int * b.width as int <= 262144) by (nonlinear_arith)
        requires
            b.width <= 512,
    ;
    assert(b.replicas as int * span(b) <= 4194304) by (nonlinear_arith)
        requires
            b.replicas <= 16,
            span(b) <= 262144,
    ;
}

/// Each replica's cell lies in that replica's own matrix.
pub proof fn lemma_cell_in_replica(v: HcmsView, e: EventView, r: int)
    requires
        v.wf(),
        0 <= r < v.budget.replicas,
    ensures
        r * span(v.budget) <= cell_of(v, e, r) < (r + 1) * span(v.budget),
        0 <= cell_of(v, e, r) < v.counters.len(),
{
    let w = v.budget.width as int;
    let row = bucket_spec(mix_spec(v.seed ^ (r as u64), source_bytes(e)), v.budget.width);
    let col = bucket_spec(mix_spec(v.seed ^ (r as u64) ^ target_salt(), target_bytes(e)), v.budget.width);
    lemma_valid_shape(v.budget);
    assert(0 <= row < w && 0 <= col < w) by (nonlinear_arith)
        requires
            w >= 1,
            row == (mix_spec(v.seed ^ (r as u64), source_bytes(e)) as int * w) / 0x1_0000_0000_0000_0000int,
            col == (mix_spec(v.seed ^ (r as u64) ^ target_salt(), target_bytes(e)) as int * w) / 0x1_0000_0000_0000_0000int,
            mix_spec(v.seed ^ (r as u64), source_bytes(e)) < 0x1_0000_0000_0000_0000int,
            mix_spec(v.seed ^ (r as u64) ^ target_salt(), target_bytes(e)) < 0x1_0000_0000_0000_0000int,
    ;
    assert(0 <= row * w + col < w * w) by (nonlinear_arith)
        requires
            0 <= row < w,
            0 <= col < w,
    ;
    assert((r + 1) * span(v.budget) <= v.budget.replicas as int * span(v.budget)) by (nonlinear_arith)
        requires
            r + 1 <= v.budget.replicas,
            span(v.budget) >= 0,
    ;
    assert(r * span(v.budget) + span(v.budget) == (r + 1) * span(v.budget)) by (nonlinear_arith);
    assert(0 <= r * span(v.budget)) by (nonlinear_arith)
        requires
            r >= 0,
            span(v.budget) >= 0,
    ;
}

/// Different replicas land in different cells.
proof fn lemma_cells_distinct(v: HcmsView, e: EventView, a: int, b: int)
    requires
        v.wf(),
        0 <= a < v.budget.replicas,
        0 <= b < v.budget.replicas,
        a != b,
    ensures
        cell_of(v, e, a) != cell_of(v, e, b),
{
    lemma_cell_in_replica(v, e, a);
    lemma_cell_in_replica(v, e, b);
    if a < b {
        assert((a + 1) * span(v.budget) <= b * span(v.budget)) by (nonlinear_arith)
            requires
                a + 1 <= b,
                span(v.budget) >= 0,
        ;
    } else {
        assert((b + 1) * span(v.budget) <= a * span(v.budget)) by (nonlinear_arith)
            requires
                b + 1 <= a,
                span(v.budget) >= 0,
        ;
    }
}

/// A copy of a list of counters.
fn copy_counters(c: &Vec<u64>) -> (r: Vec<u64>)
    ensures
        r@ == c@,
{
    let mut out: Vec<u64> = Vec::new();
    let mut i: usize = 0;
    while i < c.len()
        invariant
            i <= c.len(),
            out@ == c@.take(i as int),
        decreases c.len() - i,
    {
        out.push(c[i]);
        i += 1;
        assert(out@ =~= c@.take(i as int));
    }
    assert(c@.take(c.len() as int) =~= c@);
    out
}

/// A count-min sketch over `(source, target)` cells, `replicas` times with independent hashes.
#[derive(Debug)]
pub struct HcmsWindow {
    budget: Budget,
    watermark: u64,
    closed: bool,
    seed: u64,
    counters: Vec<u64>,
}

impl View for HcmsWindow {
    type V = HcmsView;

    closed spec fn view(&self) -> HcmsView {
        HcmsView {
            budget: self.budget,
            watermark: self.watermark,
            closed: self.closed,
            seed: self.seed,
            counters: self.counters@,
        }
    }
}

impl Clone for HcmsWindow {
    fn clone(&self) -> (r: Self)
        ensures
            r@ == self@,
    {
        HcmsWindow {
            budget: self.budget,
            watermark: self.watermark,
            closed: self.closed,
            seed: self.seed,
            counters: copy_counters(&self.counters),
        }
    }
}

impl HcmsWindow {
    /// The sketch is well formed (see [`HcmsView::wf`]).
    pub open spec fn wf(&self) -> bool {
        self@.wf()
    }

    /// An all-zero sketch under a valid budget.
    pub fn new(budget: Budget, seed: u64) -> (r: Result<Self, BudgetError>)
        ensures
            match r {
                Ok(w) => budget_check(budget) == Ok::<Budget, BudgetError>(budget) && w.wf() && w@ == HcmsView {
                    budget,
                    watermark: 0,
                    closed: false,
                    seed,
                    counters: Seq::new((budget.replicas as int * span(budget)) as nat, |i: int| 0u64),
                },
                Err(e) => budget_check(budget) == Err::<Budget, BudgetError>(e),
            },
    {
        let budget = budget.validate()?;
        proof {
            lemma_valid_shape(budget);
        }
        let cells = saturating_mul(saturating_mul(budget.replicas, budget.width), budget.width);
        assert(cells == budget.replicas as int * span(budget)) by (nonlinear_arith)
            requires
                cells == saturating_mul_usize(saturating_mul_usize(budget.replicas, budget.width), budget.width),
                budget.replicas <= 16,
                budget.width <= 512,
        ;
        let counters: Vec<u64> = vec![0; cells];
        let w = HcmsWindow { budget, watermark: 0, closed: false, seed, counters };
        assert(w@.counters =~= Seq::new((budget.replicas as int * span(budget)) as nat, |i: int| 0u64));
        Ok(w)
    }

    /// Moves the watermark forward; it never moves back.
    pub fn advance_watermark(&mut self, watermark: u64)
        ensures
            final(self)@ == (HcmsView {
                watermark: if watermark > old(self)@.watermark { watermark } else { old(self)@.watermark },
                ..old(self)@
            }),
    {
        if watermark > self.watermark {
            self.watermark = watermark;
        }
    }

    /// Closes the sketch to further events.
    pub fn close(&mut self)
        ensures
            final(self)@ == (HcmsView { closed: true, ..old(self)@ }),
    {
        self.closed = true;
    }

    /// Adds an event's weight to its cell in every replica, or refuses it with nothing changed.
    pub fn ingest(&mut self, event: &InteractionEvent) -> (r: Result<(), IngestError>)
        requires
            old(self).wf(),
        ensures
            final(self).wf(),
            (r, final(self)@) == hcms_ingest_spec(old(self)@, event@),
    {
        if self.closed {
            return Err(IngestError::ClosedWindow);
        }
        if event.weight == 0 {
            return Err(IngestError::ZeroWeight);
        }
        if event.event_time.saturating_add(self.budget.lateness) < self.watermark {
            return Err(IngestError::Late { event_time: event.event_time, watermark: self.watermark });
        }
        let updates = self.planned_increments(event)?;
        self.apply(event, &updates);
        Ok(())
    }

    /// The cell of an event in replica `replica` of this sketch.
    fn cell(&self, event: &InteractionEvent, replica: usize) -> (r: usize)
        requires
            self.wf(),
            replica < self@.budget.replicas,
        ensures
            r == cell_of(self@, event@, replica as int),
            r < self@.counters.len(),
    {
        proof {
            lemma_valid_shape(self.budget);
            lemma_cell_in_replica(self@, event@, replica as int);
        }
        let source_parts: [&str; 4] = [
            event.scope.0.as_str(),
            event.relation.name.as_str(),
            event.relation.weight_unit.as_str(),
            event.source.0.as_str(),
        ];
        let target_parts: [&str; 4] = [
            event.scope.0.as_str(),
            event.relation.name.as_str(),
            event.relation.weight_unit.as_str(),
            event.target.0.as_str(),
        ];
        let source = encode_fields(&source_parts);
        let target = encode_fields(&target_parts);
        assert(field_texts(source_parts@) =~= seq![event@.pair.scope, event@.pair.name, event@.pair.unit, event@.pair.source]);
        assert(field_texts(target_parts@) =~= seq![event@.pair.scope, event@.pair.name, event@.pair.unit, event@.pair.target]);
        let replica_seed = replica as u64;
        let width = self.budget.width;
        let row = bucket(mix(self.seed ^ replica_seed, source.as_slice()), width);
        let col = bucket(mix(self.seed ^ replica_seed ^ 0xD1B5_4A32_D192_ED03, target.as_slice()), width);
        let span = width * width;
        replica * span + row * width + col
    }

    fn planned_increments(&self, event: &InteractionEvent) -> (r: Result<Vec<(usize, u64)>, IngestError>)
        requires
            self.wf(),
        ensures
            match r {
                Ok(u) => !sketch_overflows(self@, event@) && u@.len() == self@.budget.replicas
                    && forall|j: int| 0 <= j < u@.len() ==> (#[trigger] u@[j]).0 == cell_of(self@, event@, j)
                        && u@[j].1 == self@.counters[cell_of(self@, event@, j)] + event@.weight,
                Err(e) => e == IngestError::Overflow && sketch_overflows(self@, event@),
            },
    {
        let mut updates: Vec<(usize, u64)> = Vec::new();
        let mut replica: usize = 0;
        while replica < self.budget.replicas
            invariant
                self.wf(),
                replica <= self@.budget.replicas,
                updates@.len() == replica,
                forall|j: int| 0 <= j < replica ==> (#[trigger] updates@[j]).0 == cell_of(self@, event@, j)
                    && updates@[j].1 == self@.counters[cell_of(self@, event@, j)] + event@.weight,
            decreases self@.budget.replicas - replica,
        {
            let index = self.cell(event, replica);
            let current = self.counters[index];
            let next = match current.checked_add(event.weight) {
                Some(n) => n,
                None => {
                    return Err(IngestError::Overflow);
                },
            };
            updates.push((index, next));
            replica += 1;
        }
        assert forall|r: int| 0 <= r < self@.budget.replicas implies !(self@.counters[#[trigger] cell_of(self@, event@, r)] + event@.weight > u64::MAX) by {
            assert(updates@[r].0 == cell_of(self@, event@, r));
        }
        Ok(updates)
    }

    fn apply(&mut self, event: &InteractionEvent, updates: &Vec<(usize, u64)>)
        requires
            old(self).wf(),
            !sketch_overflows(old(self)@, event@),
            updates@.len() == old(self)@.budget.replicas,
            forall|j: int| 0 <= j < updates@.len() ==> (#[trigger] updates@[j]).0 == cell_of(old(self)@, event@, j)
                && updates@[j].1 == old(self)@.counters[cell_of(old(self)@, event@, j)] + event@.weight,
        ensures
            final(self)@ == (HcmsView { counters: bumped(old(self)@, event@), ..old(self)@ }),
            final(self).wf(),
    {
        let ghost v = self@;
        let mut k: usize = 0;
        while k < updates.len()
            invariant
                v.wf(),
                k <= updates@.len(),
                updates@.len() == v.budget.replicas,
                forall|j: int| 0 <= j < updates@.len() ==> (#[trigger] updates@[j]).0 == cell_of(v, event@, j)
                    && updates@[j].1 == v.counters[cell_of(v, event@, j)] + event@.weight,
                self@ == (HcmsView { counters: self@.counters, ..v }),
                self@.counters.len() == v.counters.len(),
                forall|i: int| 0 <= i < v.counters.len() ==> #[trigger] self@.counters[i] == if exists|r: int| 0 <= r < k && #[trigger] cell_of(v, event@, r) == i {
                    (v.counters[i] + event@.weight) as u64
                } else {
                    v.counters[i]
                },
            decreases updates@.len() - k,
        {
            let (index, next) = updates[k];
            proof {
                lemma_cell_in_replica(v, event@, k as int);
            }
            let ghost before = self@.counters;
            self.counters.set(index, next);
            proof {
                assert forall|i: int| 0 <= i < v.counters.len() implies #[trigger] self@.counters[i] == if exists|r: int| 0 <= r < k + 1 && #[trigger] cell_of(v, event@, r) == i {
                    (v.counters[i] + event@.weight) as u64
                } else {
                    v.counters[i]
                } by {
                    if i == index {
                        assert(cell_of(v, event@, k as int) == i);
                        assert forall|r: int| 0 <= r < k implies #[trigger] cell_of(v, event@, r) != i by {
                            lemma_cells_distinct(v, event@, r, k as int);
                        }
                    } else {
                        if exists|r: int| 0 <= r < k + 1 && #[trigger] cell_of(v, event@, r) == i {
                            let r = choose|r: int| 0 <= r < k + 1 && #[trigger] cell_of(v, event@, r) == i;
                            assert(r != k);
                        }
                    }
                }
            }
            k += 1;
        }
        assert(self@.counters =~= bumped(v, event@));
    }

    /// The counters of replica `replica`, or `None` past the last replica.
    pub fn replica(&self, replica: usize) -> (r: Option<&[u64]>)
        requires
            self.wf(),
        ensures
            replica < self@.budget.replicas ==> (r matches Some(m) && m@ == self@.counters.subrange(
                replica as int * span(self@.budget),
                (replica as int + 1) * span(self@.budget),
            )),
            replica >= self@.budget.replicas ==> r is None,
    {
        proof {
            lemma_valid_shape(self.budget);
        }
        let span = self.budget.width * self.budget.width;
        if replica >= self.budget.replicas {
            return None;
        }
        assert((replica as int + 1) * span <= self@.budget.replicas as int * span) by (nonlinear_arith)
            requires
                replica as int + 1 <= self@.budget.replicas,
                span >= 0,
        ;
        assert(replica as int * span + span == (replica as int + 1) * span) by (nonlinear_arith);
        let start = replica * span;
        Some(vstd::slice::slice_subrange(self.counters.as_slice(), start, start + span))
    }

    /// Cells per row and rows per replica.
    pub fn width(&self) -> (r: usize)
        ensures
            r == self@.budget.width,
    {
        self.budget.width
    }

    /// The seed of the hashes.
    pub fn seed(&self) -> (r: u64)
        ensures
            r == self@.seed,
    {
        self.seed
    }

    /// The current watermark.
    pub fn watermark(&self) -> (r: u64)
        ensures
            r == self@.watermark,
    {
        self.watermark
    }

    /// Adds another pane's counters to this sketch; seeds and shapes must match.
    /// A refused merge leaves this sketch unchanged.
    pub fn try_merge(&mut self, other: &Self) -> (r: Result<(), IngestError>)
        requires
            old(self).wf(),
            other.wf(),
        ensures
            match hcms_merge_spec(old(self)@, other@) {
                Ok(v) => r is Ok && final(self).wf() && final(self)@ == v,
                Err(e) => r == Err::<(), IngestError>(e) && final(self)@ == old(self)@,
            },
    {
        if self.seed != other.seed || self.budget.width != other.budget.width
            || self.budget.replicas != other.budget.replicas || self.counters.len() != other.counters.len() {
            return Err(IngestError::Checkpoint("incompatible-merge"));
        }
        let ghost l = self@;
        let ghost o = other@;
        let mut next: Vec<u64> = Vec::new();
        let mut i: usize = 0;
        while i < self.counters.len()
            invariant
                l == self@,
                o == other@,
                l.counters.len() == o.counters.len(),
                hcms_compatible(l, o),
                l.wf(),
                i <= l.counters.len(),
                next@.len() == i,
                forall|j: int| 0 <= j < i ==> #[trigger] next@[j] == l.counters[j] + o.counters[j],
            decreases l.counters.len() - i,
        {
            let sum = match self.counters[i].checked_add(other.counters[i]) {
                Some(s) => s,
                None => {
                    assert(l.counters[i as int] + o.counters[i as int] > u64::MAX);
                    return Err(IngestError::Overflow);
                },
            };
            next.push(sum);
            i += 1;
        }
        assert forall|j: int| 0 <= j < l.counters.len() implies !(#[trigger] l.counters[j] + o.counters[j] > u64::MAX) by {
            assert(next@[j] == l.counters[j] + o.counters[j]);
        }
        assert(next@ =~= Seq::new(l.counters.len(), |j: int| (l.counters[j] + o.counters[j]) as u64));
        self.counters = next;
        if other.watermark > self.watermark {
            self.watermark = other.watermark;
        }
        self.closed = self.closed || other.closed;
        Ok(())
    }

    /// A checkpoint of the sketch: seed, shape, policy and counters.
    pub fn checkpoint(&self) -> (r: WindowCheckpoint)
        ensures
            r@ == hcms_checkpoint_spec(self@),
    {
        let counters = copy_counters(&self.counters);
        let r = WindowCheckpoint {
            version: CHECKPOINT_VERSION,
            seed: self.seed,
            watermark: self.watermark,
            closed: self.closed,
            width: self.budget.width,
            replicas: self.budget.replicas,
            pairs: Vec::new(),
            keys: Vec::new(),
            witnesses: Vec::new(),
            counters: Some(counters),
            lateness: self.budget.lateness,
            max_pairs: self.budget.max_pairs,
            max_dedup: self.budget.max_dedup,
            max_witnesses: self.budget.max_witnesses,
            witnesses_truncated: false,
        };
        assert(r@.pairs =~= Seq::empty());
        assert(r@.keys =~= Seq::empty());
        assert(r@.witnesses =~= Seq::empty());
        r
    }

    /// Rebuilds a sketch from a snapshot taken with the same budget and seed.
    pub fn restore(budget: Budget, seed: u64, snapshot: WindowCheckpoint) -> (r: Result<Self, IngestError>)
        ensures
            match hcms_restore_spec(budget, seed, snapshot@) {
                Ok(v) => r matches Ok(w) && w.wf() && w@ == v,
                Err(e) => r == Err::<Self, IngestError>(e),
            },
    {
        if snapshot.version != CHECKPOINT_VERSION {
            return Err(IngestError::Checkpoint("version"));
        }
        if snapshot.seed != seed || snapshot.width != budget.width || snapshot.replicas != budget.replicas {
            return Err(IngestError::Checkpoint("incompatible-restore"));
        }
        let counters = match snapshot.counters {
            Some(c) => c,
            None => {
                return Err(IngestError::Checkpoint("missing-counters"));
            },
        };
        let expected = saturating_mul(saturating_mul(budget.replicas, budget.width), budget.width);
        if counters.len() != expected {
            return Err(IngestError::Checkpoint("counter-shape"));
        }
        if snapshot.lateness != budget.lateness || snapshot.max_pairs != budget.max_pairs
            || snapshot.max_dedup != budget.max_dedup || snapshot.max_witnesses != budget.max_witnesses {
            return Err(IngestError::Checkpoint("policy-mismatch"));
        }
        if budget.validate().is_err() {
            return Err(IngestError::Checkpoint("budget"));
        }
        proof {
            lemma_valid_shape(budget);
        }
        assert(expected == budget.replicas as int * span(budget)) by (nonlinear_arith)
            requires
                expected == saturating_mul_usize(saturating_mul_usize(budget.replicas, budget.width), budget.width),
                budget.replicas <= 16,
                budget.width <= 512,
        ;
        Ok(HcmsWindow { budget, watermark: snapshot.watermark, closed: snapshot.closed, seed, counters })
    }
}

} // verus!
