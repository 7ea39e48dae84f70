//! What the library promises across calls, stated over the views its functions' contracts use.

use crate::adapters::radiochron::{radio_event_spec, RadioObservation};
use crate::exact::store::{exact_checkpoint_spec, keys_overlap, exact_restore_spec, lemma_exact_restore_of_checkpoint};
use crate::exact::{admission_spec, lemma_commit_wf, lemma_ingest_wf, ExactView};
use crate::hcms::{hcms_restore_spec, lemma_valid_shape, saturating_mul_usize, span, HcmsView};
use crate::model::{CheckpointView, EventKeyView, EventView, IngestError, PairKeyView};
use crate::score::{
    block_total, floor_sqrt, group_density_spec, heuristic_density_spec, lemma_totals_nonnegative, saturating_u64,
    saturating_usize, scan_block_row, scan_blocks,
};
use crate::sorted::{entry_of, lemma_entries_count_keys, lemma_key_insert_all};
use crate::window::{stream_checkpoint_spec, stream_ingest_spec, stream_merge_spec, stream_restore_hcms_spec, StreamView};
use vstd::prelude::*;

pub mod history;
pub mod exact_replay;
pub mod replay;
pub mod sketch;
pub mod operations;

verus! {

/// Ingesting keeps a window well formed.
pub proof fn lemma_stream_ingest_wf(s: StreamView, e: EventView)
    requires
        s.wf(),
    ensures
        stream_ingest_spec(s, e).1.wf(),
{
    match s {
        StreamView::Exact(x) => lemma_ingest_wf(x, e),
        StreamView::Hcms(x, k) => {
            crate::hcms::lemma_hcms_ingest_wf(k, e);
            if let Ok(Some(next)) = admission_spec(x, e) {
                lemma_commit_wf(x, e, next);
            }
        },
    }
}

/// A refused event leaves the window exactly as it was, and so does a duplicate identity.
pub proof fn law_refused_event_changes_nothing(s: StreamView, e: EventView)
    requires
        s.wf(),
    ensures
        stream_ingest_spec(s, e).0 is Err ==> stream_ingest_spec(s, e).1 == s,
        stream_ingest_spec(s, e).0 == Ok::<bool, IngestError>(false) ==> stream_ingest_spec(s, e).1 == s,
{
}

/// An event identity counts once: ingesting the same event again, right after it was counted
/// or found a duplicate, answers `Ok(false)` and changes nothing.
pub proof fn law_identity_counts_once(s: StreamView, e: EventView)
    requires
        s.wf(),
        stream_ingest_spec(s, e).0 is Ok,
    ensures
        stream_ingest_spec(stream_ingest_spec(s, e).1, e) == (Ok::<bool, IngestError>(false), stream_ingest_spec(s, e).1),
{
    let x = s.exact_part();
    if let Ok(Some(next)) = admission_spec(x, e) {
        lemma_commit_wf(x, e, next);
    }
}

/// Counting an event changes only its own pair's count: a pair in another scope, relation,
/// source or target keeps its count, and the event's own pair gains the event's weight.
pub proof fn law_event_touches_only_its_pair(s: StreamView, e: EventView, k: PairKeyView)
    requires
        s.wf(),
    ensures
        k != e.pair ==> entry_of(stream_ingest_spec(s, e).1.exact_part().counts, k) == entry_of(s.exact_part().counts, k),
        stream_ingest_spec(s, e).0 == Ok::<bool, IngestError>(true) ==> entry_of(
            stream_ingest_spec(s, e).1.exact_part().counts,
            e.pair,
        ) == Some(
            (match entry_of(s.exact_part().counts, e.pair) {
                Some(c) => c,
                None => 0u64,
            } + e.weight) as u64,
        ),
{
    let x = s.exact_part();
    if let Ok(Some(next)) = admission_spec(x, e) {
        lemma_commit_wf(x, e, next);
    }
}

/// The window a checkpoint restores into: the exact window, or the exact window beside the sketch.
pub open spec fn restored_from_checkpoint(s: StreamView) -> Result<StreamView, IngestError> {
    match s {
        StreamView::Exact(x) => match exact_restore_spec(x.budget, stream_checkpoint_spec(s)) {
            Ok(v) => Ok(StreamView::Exact(v)),
            Err(e) => Err(e),
        },
        StreamView::Hcms(x, k) => stream_restore_hcms_spec(k.budget, k.seed, stream_checkpoint_spec(s)),
    }
}

/// Restoring the checkpoint of a window, under its own budget and seed, gives back the same
/// window, so every later event gets the same late, duplicate or accept decision.
pub proof fn law_restore_of_checkpoint_decides_alike(s: StreamView, e: EventView)
    requires
        s.wf(),
        s.panes_agree(),
    ensures
        restored_from_checkpoint(s) == Ok::<StreamView, IngestError>(s),
        stream_ingest_spec(s, e) == stream_ingest_spec(restored_from_checkpoint(s)->Ok_0, e),
{
    match s {
        StreamView::Exact(x) => {
            lemma_exact_restore_of_checkpoint(x);
        },
        StreamView::Hcms(x, k) => {
            lemma_exact_restore_of_checkpoint(x);
            lemma_valid_shape(k.budget);
            let c = stream_checkpoint_spec(s);
            assert(saturating_mul_usize(saturating_mul_usize(k.budget.replicas, k.budget.width), k.budget.width)
                == k.budget.replicas as int * span(k.budget)) by (nonlinear_arith)
                requires
                    k.budget.replicas <= 16,
                    k.budget.width <= 512,
            ;
            assert(hcms_restore_spec(k.budget, k.seed, c) == Ok::<HcmsView, IngestError>(k));
            assert(CheckpointView { counters: None, ..c } == CheckpointView { seed: k.seed, ..exact_checkpoint_spec(x) });
            assert(exact_restore_spec(k.budget, CheckpointView { counters: None, ..c }) == Ok::<ExactView, IngestError>(x));
        },
    }
}

/// After a merge, every event the other pane counted is a duplicate: it is never counted again.
pub proof fn law_merged_events_are_not_counted_again(l: StreamView, r: StreamView, e: EventView)
    requires
        l.wf(),
        r.wf(),
        stream_merge_spec(l, r) is Ok,
        r.exact_part().dedup.contains(e.key),
    ensures
        stream_ingest_spec(stream_merge_spec(l, r)->Ok_0, e).0 != Ok::<bool, IngestError>(true),
{
    lemma_key_insert_all(l.exact_part().dedup, r.exact_part().dedup);
}

/// Panes that share an event identity never merge: the merge is refused.
pub proof fn law_overlapping_panes_never_merge(l: StreamView, r: StreamView, e: EventKeyView)
    requires
        l.exact_part().dedup.contains(e),
        r.exact_part().dedup.contains(e),
    ensures
        stream_merge_spec(l, r) is Err,
{
    let i = choose|i: int| 0 <= i < l.exact_part().dedup.len() && l.exact_part().dedup[i] == e;
    assert(keys_overlap(l.exact_part().dedup, r.exact_part().dedup));
}

/// The group score never falls below the peak-cell score it starts from.
pub proof fn law_group_score_at_least_peak(matrix: Seq<u64>, width: usize)
    ensures
        group_density_spec(matrix, width).milli >= heuristic_density_spec(matrix, width).milli,
{
    let peak = heuristic_density_spec(matrix, width);
    if width >= 2 {
        lemma_scan_blocks_grows(matrix, width, (width - 1) as nat, (peak.milli, peak.rows, peak.cols));
    }
}

proof fn lemma_scan_row_grows(matrix: Seq<u64>, width: usize, row: usize, ncols: nat, best: (u64, usize, usize))
    ensures
        scan_block_row(matrix, width, row, ncols, best).0 >= best.0,
    decreases ncols,
{
    if ncols > 0 {
        lemma_scan_row_grows(matrix, width, row, (ncols - 1) as nat, best);
        let col = (ncols - 1) as usize;
        let rows = seq![row, (row + 1) as usize];
        let cols = seq![col, (col + 1) as usize];
        lemma_totals_nonnegative(matrix, width, rows, cols, row);
        let total = saturating_u64(block_total(matrix, width, rows, cols));
        let root = floor_sqrt(saturating_u64(saturating_usize(rows.len() as int * cols.len() as int) * 1_000_000));
        let divisor = if root < 1 { 1 } else { root };
        assert(0 <= total * 1_000_000);
        assert(saturating_u64(total * 1_000_000) / divisor <= saturating_u64(total * 1_000_000)) by (nonlinear_arith)
            requires
                divisor >= 1,
                saturating_u64(total * 1_000_000) >= 0,
        ;
    }
}

proof fn lemma_scan_blocks_grows(matrix: Seq<u64>, width: usize, nrows: nat, best: (u64, usize, usize))
    ensures
        scan_blocks(matrix, width, nrows, best).0 >= best.0,
    decreases nrows,
{
    if nrows > 0 {
        lemma_scan_blocks_grows(matrix, width, (nrows - 1) as nat, best);
        lemma_scan_row_grows(
            matrix,
            width,
            (nrows - 1) as usize,
            (width - 1) as nat,
            scan_blocks(matrix, width, (nrows - 1) as nat, best),
        );
    }
}

/// A radio capture with gaps, a changed scan policy or a weak identity forbids any
/// "nothing happened" claim on the event it becomes.
pub proof fn law_incomplete_capture_forbids_absence(o: RadioObservation)
    requires
        !o.capture_complete || o.scan_policy_changed || o.identity_confidence < 80,
    ensures
        radio_event_spec(o).quality.spec_forbids_strong_absence(),
{
}

/// The pair count of a well-formed exact window is the number of pairs that have a count, and
/// every registry stays within its budget.
pub proof fn law_pairs_are_counted_keys(w: ExactView)
    requires
        w.wf(),
    ensures
        Set::new(|k: PairKeyView| entry_of(w.counts, k) is Some).finite(),
        w.counts.len() == Set::new(|k: PairKeyView| entry_of(w.counts, k) is Some).len(),
        w.counts.len() <= w.budget.max_pairs,
        w.dedup.len() <= w.budget.max_dedup,
        w.witnesses.len() <= w.budget.max_witnesses,
{
    lemma_entries_count_keys(w.counts);
}

} // verus!
