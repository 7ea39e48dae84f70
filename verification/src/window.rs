//! One entry point over the exact window alone, or the exact window beside a sketch.

use crate::budget::{budget_check, Budget, BudgetError};
use crate::exact::store::{exact_checkpoint_spec, exact_merge_spec, exact_restore_spec};
use crate::exact::{admission_spec, commit_spec, ingest_spec, Admission, ExactView, ExactWindow};
use crate::hcms::{
    hcms_ingest_spec, hcms_merge_spec, hcms_restore_spec, span, HcmsView, HcmsWindow,
};
use crate::model::{
    pair_key, CheckpointView, EntityId, IngestError, InteractionEvent, EventView, RelationProfile,
    ScopeId, WindowCheckpoint,
};
use crate::score::{heuristic_density, heuristic_density_spec, DensityScore};
use crate::sorted::entry_of;
use vstd::prelude::*;

verus! {

/// Which backend a window runs.
#[derive(Debug, Clone, Copy, PartialEq, Eq, Structural)]
pub enum BackendKind {
    Exact,
    Hcms,
}

/// A window as plain values.
pub enum StreamView {
    Exact(ExactView),
    Hcms(ExactView, HcmsView),
}

impl StreamView {
    /// Each part is well formed.
    pub open spec fn wf(self) -> bool {
        match self {
            StreamView::Exact(x) => x.wf(),
            StreamView::Hcms(x, k) => x.wf() && k.wf(),
        }
    }

    /// Exact window and sketch share budget, watermark and closure, as every window built
    /// by this crate's constructors and restores does, and every operation keeps.
    pub open spec fn panes_agree(self) -> bool {
        match self {
            StreamView::Exact(_) => true,
            StreamView::Hcms(x, k) => {
                &&& x.budget == k.budget
                &&& x.watermark == k.watermark
                &&& x.closed == k.closed
            },
        }
    }

    /// The exact window inside.
    pub open spec fn exact_part(self) -> ExactView {
        match self {
            StreamView::Exact(x) => x,
            StreamView::Hcms(x, _) => x,
        }
    }
}

/// What ingesting an event into a window answers, and the window after it.
pub open spec fn stream_ingest_spec(s: StreamView, e: EventView) -> (Result<bool, IngestError>, StreamView) {
    match s {
        StreamView::Exact(x) => (ingest_spec(x, e).0, StreamView::Exact(ingest_spec(x, e).1)),
        StreamView::Hcms(x, k) => match admission_spec(x, e) {
            Err(err) => (Err(err), s),
            Ok(None) => (Ok(false), s),
            Ok(Some(next)) => match hcms_ingest_spec(k, e) {
                (Err(err), _) => (Err(err), s),
                (Ok(()), k2) => (Ok(true), StreamView::Hcms(commit_spec(x, e, next), k2)),
            },
        },
    }
}

/// The checkpoint of a window.
pub open spec fn stream_checkpoint_spec(s: StreamView) -> CheckpointView {
    match s {
        StreamView::Exact(x) => exact_checkpoint_spec(x),
        StreamView::Hcms(x, k) => CheckpointView {
            seed: k.seed,
            counters: Some(k.counters),
            ..exact_checkpoint_spec(x)
        },
    }
}

/// What restoring a sketch-backed window answers.
pub open spec fn stream_restore_hcms_spec(budget: Budget, seed: u64, s: CheckpointView) -> Result<StreamView, IngestError> {
    match hcms_restore_spec(budget, seed, s) {
        Err(e) => Err(e),
        Ok(k) => match exact_restore_spec(budget, CheckpointView { counters: None, ..s }) {
            Err(e) => Err(e),
            Ok(x) => Ok(StreamView::Hcms(x, k)),
        },
    }
}

/// What merging window `r` into window `l` answers.
pub open spec fn stream_merge_spec(l: StreamView, r: StreamView) -> Result<StreamView, IngestError> {
    match (l, r) {
        (StreamView::Hcms(lx, lk), StreamView::Hcms(rx, rk)) => match hcms_merge_spec(lk, rk) {
            Err(e) => Err(e),
            Ok(k) => match exact_merge_spec(lx, rx) {
                Err(e) => Err(e),
                Ok(x) => Ok(StreamView::Hcms(x, k)),
            },
        },
        _ => Err(IngestError::Checkpoint("merge-backend")),
    }
}

/// The score of a window: none for the exact backend, the peak of replica 0 for the sketch.
pub open spec fn stream_score_spec(s: StreamView) -> Option<DensityScore> {
    match s {
        StreamView::Exact(_) => None,
        StreamView::Hcms(_, k) => Some(
            heuristic_density_spec(k.counters.subrange(0, span(k.budget)), k.budget.width),
        ),
    }
}

/// A window over typed interactions: exact counts, optionally beside an H-CMS sketch.
#[derive(Debug)]
pub enum StreamWindow {
    Exact(ExactWindow),
    Hcms { exact: ExactWindow, sketch: HcmsWindow },
}

impl View for StreamWindow {
    type V = StreamView;

    open spec fn view(&self) -> StreamView {
        match self {
            StreamWindow::Exact(x) => StreamView::Exact(x@),
            StreamWindow::Hcms { exact, sketch } => StreamView::Hcms(exact@, sketch@),
        }
    }
}

impl Clone for StreamWindow {
    fn clone(&self) -> (r: Self)
        ensures
            r@ == self@,
    {
        match self {
            StreamWindow::Exact(x) => StreamWindow::Exact(x.clone()),
            StreamWindow::Hcms { exact, sketch } => StreamWindow::Hcms { exact: exact.clone(), sketch: sketch.clone() },
        }
    }
}

impl StreamWindow {
    /// The window is well formed (see [`StreamView::wf`]).
    pub open spec fn wf(&self) -> bool {
        self@.wf()
    }

    /// An empty exact window.
    pub fn exact(budget: Budget) -> (r: Result<Self, BudgetError>)
        ensures
            match r {
                Ok(w) => budget_check(budget) is Ok && w.wf() && w@ == StreamView::Exact(ExactView {
                    budget,
                    watermark: 0,
                    closed: false,
                    counts: Seq::empty(),
                    dedup: Seq::empty(),
                    witnesses: Seq::empty(),
                }),
                Err(e) => budget_check(budget) == Err::<Budget, BudgetError>(e),
            },
    {
        Ok(StreamWindow::Exact(ExactWindow::new(budget)?))
    }

    /// An empty exact window beside an all-zero sketch seeded with `seed`.
    pub fn hcms(budget: Budget, seed: u64) -> (r: Result<Self, BudgetError>)
        ensures
            match r {
                Ok(w) => budget_check(budget) is Ok && w.wf() && w@.panes_agree() && w@ == StreamView::Hcms(
                    ExactView {
                        budget,
                        watermark: 0,
                        closed: false,
                        counts: Seq::empty(),
                        dedup: Seq::empty(),
                        witnesses: Seq::empty(),
                    },
                    HcmsView {
                        budget,
                        watermark: 0,
                        closed: false,
                        seed,
                        counters: Seq::new((budget.replicas as int * span(budget)) as nat, |i: int| 0u64),
                    },
                ),
                Err(e) => budget_check(budget) == Err::<Budget, BudgetError>(e),
            },
    {
        let exact = ExactWindow::new(budget)?;
        let sketch = HcmsWindow::new(budget, seed)?;
        Ok(StreamWindow::Hcms { exact, sketch })
    }

    /// Moves the watermark forward; it never moves back.
    pub fn advance_watermark(&mut self, watermark: u64)
        requires
            old(self).wf(),
        ensures
            final(self).wf(),
            old(self)@.panes_agree() ==> final(self)@.panes_agree(),
            final(self)@ == match old(self)@ {
                StreamView::Exact(x) => StreamView::Exact(ExactView {
                    watermark: if watermark > x.watermark { watermark } else { x.watermark },
                    ..x
                }),
                StreamView::Hcms(x, k) => StreamView::Hcms(
                    ExactView { watermark: if watermark > x.watermark { watermark } else { x.watermark }, ..x },
                    HcmsView { watermark: if watermark > k.watermark { watermark } else { k.watermark }, ..k },
                ),
            },
    {
        match self {
            StreamWindow::Exact(exact) => exact.advance_watermark(watermark),
            StreamWindow::Hcms { exact, sketch } => {
                exact.advance_watermark(watermark);
                sketch.advance_watermark(watermark);
            },
        }
    }

    /// Counts an event once. Answers `Ok(true)` when it was counted, `Ok(false)` for an
    /// identity already counted, and an error, with the window unchanged, when it is refused.
    pub fn ingest(&mut self, event: &InteractionEvent) -> (r: Result<bool, IngestError>)
        requires
            old(self).wf(),
        ensures
            final(self).wf(),
            old(self)@.panes_agree() ==> final(self)@.panes_agree(),
            (r, final(self)@) == stream_ingest_spec(old(self)@, event@),
    {
        match self {
            StreamWindow::Exact(exact) => exact.ingest(event),
            StreamWindow::Hcms { exact, sketch } => {
                match exact.admission(event) {
                    Err(e) => Err(e),
                    Ok(Admission::Duplicate) => Ok(false),
                    Ok(Admission::Accept { next }) => {
                        sketch.ingest(event)?;
                        exact.commit(event, next);
                        Ok(true)
                    },
                }
            },
        }
    }

    /// The exact count of a pair, or `None` when it was never counted.
    pub fn exact_count(
        &self,
        scope: &ScopeId,
        relation: &RelationProfile,
        source: &EntityId,
        target: &EntityId,
    ) -> (r: Option<u64>)
        requires
            self.wf(),
        ensures
            r == entry_of(self@.exact_part().counts, pair_key(scope, relation, source, target)),
    {
        match self {
            StreamWindow::Exact(exact) => exact.count(scope, relation, source, target),
            StreamWindow::Hcms { exact, .. } => exact.count(scope, relation, source, target),
        }
    }

    /// Which backend this window runs.
    pub fn kind(&self) -> (r: BackendKind)
        ensures
            r == (match self@ {
                StreamView::Exact(_) => BackendKind::Exact,
                StreamView::Hcms(..) => BackendKind::Hcms,
            }),
    {
        match self {
            StreamWindow::Exact(_) => BackendKind::Exact,
            StreamWindow::Hcms { .. } => BackendKind::Hcms,
        }
    }

    /// Closes the window to further events.
    pub fn close(&mut self)
        requires
            old(self).wf(),
        ensures
            final(self).wf(),
            old(self)@.panes_agree() ==> final(self)@.panes_agree(),
            final(self)@ == match old(self)@ {
                StreamView::Exact(x) => StreamView::Exact(ExactView { closed: true, ..x }),
                StreamView::Hcms(x, k) => StreamView::Hcms(ExactView { closed: true, ..x }, HcmsView { closed: true, ..k }),
            },
    {
        match self {
            StreamWindow::Exact(exact) => exact.close(),
            StreamWindow::Hcms { exact, sketch } => {
                exact.close();
                sketch.close();
            },
        }
    }

    /// A checkpoint of the whole window; the sketch adds its seed and counters.
    pub fn checkpoint(&self) -> (r: WindowCheckpoint)
        ensures
            r@ == stream_checkpoint_spec(self@),
    {
        match self {
            StreamWindow::Exact(exact) => exact.checkpoint(),
            StreamWindow::Hcms { exact, sketch } => {
                let mut snap = exact.checkpoint();
                let sketch_snap = sketch.checkpoint();
                snap.seed = sketch_snap.seed;
                snap.counters = sketch_snap.counters;
                snap
            },
        }
    }

    /// Rebuilds an exact window from a snapshot.
    pub fn restore_exact(budget: Budget, snapshot: WindowCheckpoint) -> (r: Result<Self, IngestError>)
        ensures
            match exact_restore_spec(budget, snapshot@) {
                Ok(v) => r matches Ok(w) && w.wf() && w@ == StreamView::Exact(v),
                Err(e) => r == Err::<Self, IngestError>(e),
            },
    {
        Ok(StreamWindow::Exact(ExactWindow::restore(budget, snapshot)?))
    }

    /// Rebuilds a sketch-backed window from a snapshot taken with the same budget and seed.
    pub fn restore_hcms(budget: Budget, seed: u64, snapshot: WindowCheckpoint) -> (r: Result<Self, IngestError>)
        ensures
            match stream_restore_hcms_spec(budget, seed, snapshot@) {
                Ok(v) => r matches Ok(w) && w.wf() && w@.panes_agree() && w@ == v,
                Err(e) => r == Err::<Self, IngestError>(e),
            },
    {
        let sketch = HcmsWindow::restore(budget, seed, snapshot.clone())?;
        let mut exact_snap = snapshot;
        exact_snap.counters = None;
        assert(exact_snap@ == CheckpointView { counters: None, ..snapshot@ });
        let exact = ExactWindow::restore(budget, exact_snap)?;
        Ok(StreamWindow::Hcms { exact, sketch })
    }

    /// Merges a disjoint sketch-backed pane into this one. Both the sketch and the exact counts
    /// merge, or neither does.
    pub fn try_merge(&mut self, other: &Self) -> (r: Result<(), IngestError>)
        requires
            old(self).wf(),
            other.wf(),
        ensures
            match stream_merge_spec(old(self)@, other@) {
                Ok(v) => r is Ok && final(self).wf() && final(self)@ == v,
                Err(e) => r == Err::<(), IngestError>(e) && final(self)@ == old(self)@,
            },
            old(self)@.panes_agree() && other@.panes_agree() ==> final(self)@.panes_agree(),
    {
        match (self, other) {
            (
                StreamWindow::Hcms { exact: left_exact, sketch: left },
                StreamWindow::Hcms { exact: right_exact, sketch: right },
            ) => {
                let mut sketch_next = left.clone();
                sketch_next.try_merge(right)?;
                let mut exact_next = left_exact.clone();
                exact_next.try_merge(right_exact)?;
                *left = sketch_next;
                *left_exact = exact_next;
                Ok(())
            },
            _ => Err(IngestError::Checkpoint("merge-backend")),
        }
    }

    /// A heuristic density score of the sketch's first replica; `None` for the exact backend.
    pub fn score(&self) -> (r: Option<DensityScore>)
        requires
            self.wf(),
        ensures
            r == stream_score_spec(self@),
    {
        match self {
            StreamWindow::Exact(_) => None,
            StreamWindow::Hcms { sketch, .. } => match sketch.replica(0) {
                Some(matrix) => {
                    proof {
                        crate::hcms::lemma_valid_shape(sketch@.budget);
                        assert(0int * span(sketch@.budget) == 0);
                        assert((0int + 1) * span(sketch@.budget) == span(sketch@.budget));
                        assert(sketch@.budget.replicas as int * span(sketch@.budget) >= span(sketch@.budget)) by (nonlinear_arith)
                            requires
                                sketch@.budget.replicas >= 1,
                                span(sketch@.budget) >= 0,
                        ;
                    }
                    assert(matrix@.len() == span(sketch@.budget));
                    Some(heuristic_density(matrix, sketch.width()))
                },
                None => None,
            },
        }
    }
}

} // verus!
