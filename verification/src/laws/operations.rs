//! What single operations answer, stated over their inputs: identities, budgets, sketch cells,
//! scores and host adapters.

use crate::adapters::radiochron::{radio_event_spec, relation_name_spec, RadioKind, RadioObservation};
use crate::adapters::weavatrix::{host_event_spec, relation_for_spec, HostObservation, ObservationResult};
use crate::budget::{budget_check, is_power_of_two, Budget, BudgetError};
use crate::exact::store::exact_merge_spec;
use crate::exact::{ingest_spec, ExactView};
use crate::hash::{bucket_spec, encoded_fields, mix_spec};
use crate::hcms::{cell_of, hcms_ingest_spec, hcms_merge_spec, lemma_cell_in_replica, HcmsView};
use crate::model::{EventKeyView, EventPhase, EventView, IngestError};
use crate::score::{
    block_density, block_total, density_milli_spec, floor_sqrt, group_density_spec, heuristic_density_spec,
    lemma_floor_sqrt_unique, lemma_totals_nonnegative, saturating_u64, saturating_usize, scan_block_row, scan_blocks,
    scan_peak, submatrix_density_spec,
};
use crate::sorted::{entry_of, lemma_key_insert, lemma_upsert};
use crate::window::{stream_ingest_spec, StreamView};
use vstd::prelude::*;

verus! {

// ---------------------------------------------------------------------------
// Identities
// ---------------------------------------------------------------------------

/// The window takes events: it is open, the event has weight, and the event is not older than
/// the watermark allows.
pub open spec fn takes_events(x: ExactView, e: EventView) -> bool {
    !x.closed && e.weight > 0 && e.event_time + x.budget.lateness >= x.watermark
}

/// The count held for the event's pair, or 0.
pub open spec fn held_count(x: ExactView, e: EventView) -> int {
    match entry_of(x.counts, e.pair) {
        Some(c) => c as int,
        None => 0,
    }
}

/// An event is a duplicate exactly when the window takes events and already holds its full
/// identity (producer, boot epoch, sequence and phase); a duplicate changes nothing. This holds
/// of both backends.
pub proof fn law_duplicate_exactly_when_identity_held(s: StreamView, e: EventView)
    ensures
        stream_ingest_spec(s, e).0 == Ok::<bool, IngestError>(false) <==> (takes_events(s.exact_part(), e)
            && s.exact_part().dedup.contains(e.key)),
        stream_ingest_spec(s, e).0 == Ok::<bool, IngestError>(false) ==> stream_ingest_spec(s, e).1 == s,
        stream_ingest_spec(s, e).0 == Ok::<bool, IngestError>(true) ==> takes_events(s.exact_part(), e)
            && !s.exact_part().dedup.contains(e.key),
{
}

/// An exact window counts every event it takes whose identity it does not hold yet, while its
/// identity and pair budgets have room and the count stays within `u64`.
pub proof fn law_fresh_identity_is_counted(x: ExactView, e: EventView)
    requires
        takes_events(x, e),
        !x.dedup.contains(e.key),
        x.dedup.len() < x.budget.max_dedup,
        held_count(x, e) > 0 || x.counts.len() < x.budget.max_pairs,
        held_count(x, e) + e.weight <= u64::MAX,
    ensures
        ingest_spec(x, e).0 == Ok::<bool, IngestError>(true),
        stream_ingest_spec(StreamView::Exact(x), e).0 == Ok::<bool, IngestError>(true),
{
}

/// A counted event adds its identity and nothing else to the keys, adds its weight to its own
/// pair's count, and leaves every other pair's count alone.
pub proof fn law_counted_event_adds_its_weight(x: ExactView, e: EventView)
    requires
        x.wf(),
        ingest_spec(x, e).0 == Ok::<bool, IngestError>(true),
    ensures
        forall|k: EventKeyView| #[trigger] ingest_spec(x, e).1.dedup.contains(k) <==> (x.dedup.contains(k) || k == e.key),
        entry_of(ingest_spec(x, e).1.counts, e.pair) == Some((held_count(x, e) + e.weight) as u64),
        forall|p| p != e.pair ==> #[trigger] entry_of(ingest_spec(x, e).1.counts, p) == entry_of(x.counts, p),
{
    lemma_key_insert(x.dedup, e.key);
    lemma_upsert(x.counts, e.pair, (held_count(x, e) + e.weight) as u64);
}

/// Each refusal of an exact window names its cause, in order: a closed window, a weightless
/// event, a late event; and a refusal leaves the window unchanged.
pub proof fn law_refusals_name_their_cause(x: ExactView, e: EventView)
    ensures
        x.closed ==> ingest_spec(x, e).0 == Err::<bool, IngestError>(IngestError::ClosedWindow),
        !x.closed && e.weight == 0 ==> ingest_spec(x, e).0 == Err::<bool, IngestError>(IngestError::ZeroWeight),
        !x.closed && e.weight > 0 && e.event_time + x.budget.lateness < x.watermark ==> ingest_spec(x, e).0
            == Err::<bool, IngestError>(IngestError::Late { event_time: e.event_time, watermark: x.watermark }),
        takes_events(x, e) && !x.dedup.contains(e.key) && x.dedup.len() >= x.budget.max_dedup ==> ingest_spec(x, e).0
            == Err::<bool, IngestError>(IngestError::Budget("dedup")),
        ingest_spec(x, e).0 is Err ==> ingest_spec(x, e).1 == x,
{
}

// ---------------------------------------------------------------------------
// Budgets
// ---------------------------------------------------------------------------

/// The powers of two up to 512 are exactly 1, 2, 4, ..., 512.
proof fn lemma_small_powers_of_two(n: nat)
    requires
        n <= 512,
    ensures
        is_power_of_two(n) <==> (n == 1 || n == 2 || n == 4 || n == 8 || n == 16 || n == 32 || n == 64 || n == 128
            || n == 256 || n == 512),
    decreases n,
{
    if n > 1 {
        lemma_small_powers_of_two(n / 2);
    }
}

/// A budget is accepted, unchanged, exactly when it has 1 to 16 replicas, a width among
/// 2, 4, ..., 512, and room for at least one pair and one identity; otherwise the first bound
/// broken, in that order, is named.
pub proof fn law_budget_bounds(b: Budget)
    ensures
        budget_check(b) is Ok <==> (1 <= b.replicas <= 16 && (b.width == 2 || b.width == 4 || b.width == 8
            || b.width == 16 || b.width == 32 || b.width == 64 || b.width == 128 || b.width == 256 || b.width == 512)
            && b.max_pairs > 0 && b.max_dedup > 0),
        budget_check(b) is Ok ==> budget_check(b) == Ok::<Budget, BudgetError>(b),
        budget_check(b) == Err::<Budget, BudgetError>(BudgetError::Replicas) <==> (b.replicas == 0 || b.replicas > 16),
        budget_check(b) == Err::<Budget, BudgetError>(BudgetError::Width) <==> (1 <= b.replicas <= 16 && !(b.width == 2
            || b.width == 4 || b.width == 8 || b.width == 16 || b.width == 32 || b.width == 64 || b.width == 128
            || b.width == 256 || b.width == 512)),
{
    if b.width <= 512 {
        lemma_small_powers_of_two(b.width as nat);
    }
}

// ---------------------------------------------------------------------------
// Sketch cells
// ---------------------------------------------------------------------------

/// In replica `r` an event lands in the row its source hashes to and the column its target
/// hashes to: the source and target fields (scope, relation name, unit, then the entity) are
/// length-prefixed and mixed under the seed xor the replica, the target side also xor a fixed
/// salt, and each hash is scaled onto the width.
pub proof fn law_cell_is_source_row_and_target_column(v: HcmsView, e: EventView, r: int)
    ensures
        cell_of(v, e, r) == r * (v.budget.width as int * v.budget.width as int) + bucket_spec(
            mix_spec(v.seed ^ (r as u64), encoded_fields(seq![e.pair.scope, e.pair.name, e.pair.unit, e.pair.source])),
            v.budget.width,
        ) * v.budget.width as int + bucket_spec(
            mix_spec(
                v.seed ^ (r as u64) ^ 0xD1B5_4A32_D192_ED03u64,
                encoded_fields(seq![e.pair.scope, e.pair.name, e.pair.unit, e.pair.target]),
            ),
            v.budget.width,
        ),
{
}

/// Two events of one source whose targets hash to different columns land in different cells.
pub proof fn law_targets_in_other_columns_get_other_cells(v: HcmsView, e: EventView, f: EventView, r: int)
    requires
        e.pair.scope == f.pair.scope,
        e.pair.name == f.pair.name,
        e.pair.unit == f.pair.unit,
        e.pair.source == f.pair.source,
        bucket_spec(
            mix_spec(
                v.seed ^ (r as u64) ^ 0xD1B5_4A32_D192_ED03u64,
                encoded_fields(seq![e.pair.scope, e.pair.name, e.pair.unit, e.pair.target]),
            ),
            v.budget.width,
        ) != bucket_spec(
            mix_spec(
                v.seed ^ (r as u64) ^ 0xD1B5_4A32_D192_ED03u64,
                encoded_fields(seq![f.pair.scope, f.pair.name, f.pair.unit, f.pair.target]),
            ),
            v.budget.width,
        ),
    ensures
        cell_of(v, e, r) != cell_of(v, f, r),
{
    law_cell_is_source_row_and_target_column(v, e, r);
    law_cell_is_source_row_and_target_column(v, f, r);
    assert(seq![e.pair.scope, e.pair.name, e.pair.unit, e.pair.source] =~= seq![f.pair.scope, f.pair.name, f.pair.unit, f.pair.source]);
}

// ---------------------------------------------------------------------------
// Host adapters
// ---------------------------------------------------------------------------

/// A radio capture becomes an event with the capture's own identity (producer, boot epoch,
/// sequence, request phase), a count of one from the device to the access point in the
/// capture's scope, at the capture's time, with its evidence.
pub proof fn law_radio_event_carries_the_capture(o: RadioObservation)
    ensures
        radio_event_spec(o).key == (EventKeyView {
            producer: o.producer@,
            boot_epoch: o.boot_epoch,
            sequence: o.sequence,
            phase: EventPhase::Request,
        }),
        radio_event_spec(o).pair.scope == o.scope@,
        radio_event_spec(o).pair.source == o.device@,
        radio_event_spec(o).pair.target == o.access_point@,
        radio_event_spec(o).event_time == o.event_time,
        radio_event_spec(o).weight == 1,
        radio_event_spec(o).evidence == o.evidence@,
{
}

/// Captures that differ in producer, boot epoch or sequence become events of different identities.
pub proof fn law_radio_identities_follow_the_capture(a: RadioObservation, b: RadioObservation)
    requires
        a.producer@ != b.producer@ || a.boot_epoch != b.boot_epoch || a.sequence != b.sequence,
    ensures
        radio_event_spec(a).key != radio_event_spec(b).key,
{
}

/// Each radio kind is counted under a relation of its own.
pub proof fn law_radio_kinds_keep_their_own_relation(a: RadioKind, b: RadioKind)
    requires
        a != b,
    ensures
        relation_name_spec(a)@ != relation_name_spec(b)@,
{
    reveal_strlit("radio.association");
    reveal_strlit("radio.auth_failure");
    reveal_strlit("radio.roam");
    reveal_strlit("radio.visibility");
    assert("radio.association"@.len() == 17);
    assert("radio.auth_failure"@.len() == 18);
    assert("radio.roam"@.len() == 10);
    assert("radio.visibility"@.len() == 16);
    if relation_name_spec(a)@ == relation_name_spec(b)@ {
        assert(relation_name_spec(a)@.len() == relation_name_spec(b)@.len());
    }
}

/// A host observation becomes an event with the observation's own identity (producer, boot
/// epoch, sequence, phase), pair, time, weight and evidence.
pub proof fn law_host_event_carries_the_observation(o: HostObservation)
    ensures
        host_event_spec(o).key == (EventKeyView {
            producer: o.producer@,
            boot_epoch: o.boot_epoch,
            sequence: o.sequence,
            phase: o.phase,
        }),
        host_event_spec(o).pair.scope == o.scope@,
        host_event_spec(o).pair.source == o.source@,
        host_event_spec(o).pair.target == o.target@,
        host_event_spec(o).event_time == o.event_time,
        host_event_spec(o).weight == o.weight,
        host_event_spec(o).evidence == o.evidence@,
{
}

/// Requests, results by outcome and effects are counted under relations of their own.
pub proof fn law_host_relations_keep_phases_and_outcomes_apart(
    p: EventPhase,
    r: ObservationResult,
    q: EventPhase,
    s: ObservationResult,
)
    requires
        p != q || (p == EventPhase::ReportedResult && r != s),
    ensures
        relation_for_spec(p, r)@ != relation_for_spec(q, s)@,
{
    reveal_strlit("mcp.invocation");
    reveal_strlit("mcp.result.success");
    reveal_strlit("mcp.result.failure");
    reveal_strlit("mcp.result");
    reveal_strlit("mcp.effect");
    assert("mcp.invocation"@.len() == 14);
    assert("mcp.result.success"@.len() == 18);
    assert("mcp.result.failure"@.len() == 18);
    assert("mcp.result"@.len() == 10);
    assert("mcp.effect"@.len() == 10);
    assert("mcp.result.success"@[11] != "mcp.result.failure"@[11]);
    assert("mcp.result"@[4] != "mcp.effect"@[4]);
    if relation_for_spec(p, r)@ == relation_for_spec(q, s)@ {
        let x = relation_for_spec(p, r)@;
        let y = relation_for_spec(q, s)@;
        assert(x.len() == y.len());
        assert(x.len() > 11 ==> x[11] == y[11]);
        assert(x[4] == y[4]);
    }
}

// ---------------------------------------------------------------------------
// Group density
// ---------------------------------------------------------------------------

/// A 2-by-2 block's density fits in `u64`.
proof fn lemma_block_density_fits(matrix: Seq<u64>, width: usize, row: usize, col: usize)
    ensures
        0 <= block_density(matrix, width, row, col) <= u64::MAX,
{
    let rows = seq![row, (row + 1) as usize];
    let cols = seq![col, (col + 1) as usize];
    lemma_totals_nonnegative(matrix, width, rows, cols, row);
    let total = saturating_u64(block_total(matrix, width, rows, cols));
    let root = floor_sqrt(saturating_u64(saturating_usize(rows.len() as int * cols.len() as int) * 1_000_000));
    let divisor = if root < 1 { 1 } else { root };
    assert(0 <= total * 1_000_000);
    assert(0 <= saturating_u64(total * 1_000_000) / divisor <= saturating_u64(total * 1_000_000)) by (nonlinear_arith)
        requires
            divisor >= 1,
            saturating_u64(total * 1_000_000) >= 0,
    ;
}

proof fn lemma_row_scan_covers(matrix: Seq<u64>, width: usize, row: usize, ncols: nat, best: (u64, usize, usize))
    ensures
        scan_block_row(matrix, width, row, ncols, best).0 >= best.0,
        forall|c: usize| c < ncols ==> scan_block_row(matrix, width, row, ncols, best).0 >= #[trigger] block_density(matrix, width, row, c),
        scan_block_row(matrix, width, row, ncols, best) == best || exists|c: usize| c < ncols
            && scan_block_row(matrix, width, row, ncols, best) == (block_density(matrix, width, row, c) as u64, row, c),
    decreases ncols,
{
    if ncols > 0 {
        lemma_row_scan_covers(matrix, width, row, (ncols - 1) as nat, best);
        let last = (ncols - 1) as usize;
        lemma_block_density_fits(matrix, width, row, last);
        let prev = scan_block_row(matrix, width, row, (ncols - 1) as nat, best);
        if prev != best {
            let c = choose|c: usize| c < ncols - 1 && prev == (block_density(matrix, width, row, c) as u64, row, c);
            assert(c < ncols);
        }
    }
}

proof fn lemma_blocks_scan_covers(matrix: Seq<u64>, width: usize, nrows: nat, best: (u64, usize, usize))
    requires
        width >= 2,
    ensures
        scan_blocks(matrix, width, nrows, best).0 >= best.0,
        forall|r: usize, c: usize| r < nrows && c < width - 1 ==> scan_blocks(matrix, width, nrows, best).0
            >= #[trigger] block_density(matrix, width, r, c),
        scan_blocks(matrix, width, nrows, best) == best || exists|r: usize, c: usize| r < nrows && c < width - 1
            && scan_blocks(matrix, width, nrows, best) == (block_density(matrix, width, r, c) as u64, r, c),
    decreases nrows,
{
    if nrows > 0 {
        lemma_blocks_scan_covers(matrix, width, (nrows - 1) as nat, best);
        let before = scan_blocks(matrix, width, (nrows - 1) as nat, best);
        let last = (nrows - 1) as usize;
        lemma_row_scan_covers(matrix, width, last, (width - 1) as nat, before);
        let after = scan_blocks(matrix, width, nrows, best);
        assert forall|r: usize, c: usize| r < nrows && c < width - 1 implies after.0 >= #[trigger] block_density(matrix, width, r, c) by {
            if r < nrows - 1 {
                assert(before.0 >= block_density(matrix, width, r, c));
            } else {
                assert(r == last);
            }
        }
        if after != before {
            let c = choose|c: usize| c < width - 1 && after == (block_density(matrix, width, last, c) as u64, last, c);
            assert(last < nrows && c < width - 1);
        } else if before != best {
            let (r, c) = choose|r: usize, c: usize| r < nrows - 1 && c < width - 1
                && before == (block_density(matrix, width, r, c) as u64, r, c);
            assert(r < nrows && c < width - 1);
        }
    }
}

/// The group score is at least the density of every 2-by-2 block of the matrix, and it is either
/// the peak-cell score or the density of the block it names.
pub proof fn law_group_score_covers_every_block(matrix: Seq<u64>, width: usize)
    requires
        width >= 2,
    ensures
        forall|row: usize, col: usize| row < width - 1 && col < width - 1 ==> group_density_spec(matrix, width).milli
            >= #[trigger] submatrix_density_spec(matrix, width, Seq::<usize>::empty().push(row).push((row + 1) as usize), Seq::<usize>::empty().push(col).push((col + 1) as usize)),
        ({
            let g = group_density_spec(matrix, width);
            let p = heuristic_density_spec(matrix, width);
            ||| (g.milli == p.milli && g.rows == p.rows && g.cols == p.cols)
            ||| (g.rows < width - 1 && g.cols < width - 1 && g.milli == submatrix_density_spec(
                matrix,
                width,
                seq![g.rows, (g.rows + 1) as usize],
                seq![g.cols, (g.cols + 1) as usize],
            ))
        }),
{
    let p = heuristic_density_spec(matrix, width);
    let start = (p.milli, p.rows, p.cols);
    lemma_blocks_scan_covers(matrix, width, (width - 1) as nat, start);
    let best = scan_blocks(matrix, width, (width - 1) as nat, start);
    assert forall|row: usize, col: usize| row < width - 1 && col < width - 1 implies group_density_spec(matrix, width).milli
        >= #[trigger] submatrix_density_spec(matrix, width, Seq::<usize>::empty().push(row).push((row + 1) as usize), Seq::<usize>::empty().push(col).push((col + 1) as usize)) by {
        assert(best.0 >= block_density(matrix, width, row, col));
        assert(Seq::<usize>::empty().push(row).push((row + 1) as usize) =~= seq![row, (row + 1) as usize]);
        assert(Seq::<usize>::empty().push(col).push((col + 1) as usize) =~= seq![col, (col + 1) as usize]);
    }
    if best != start {
        let (r, c) = choose|r: usize, c: usize| r < width - 1 && c < width - 1
            && best == (block_density(matrix, width, r, c) as u64, r, c);
        lemma_block_density_fits(matrix, width, r, c);
    }
}

// ---------------------------------------------------------------------------
// Densities and the peak cell
// ---------------------------------------------------------------------------

/// A density fits in `u64`.
proof fn lemma_density_fits(sum: int, area: int)
    requires
        sum >= 0,
    ensures
        0 <= density_milli_spec(sum, area) <= u64::MAX,
{
    let root = floor_sqrt(saturating_u64(area * 1_000_000));
    let divisor = if root < 1 { 1 } else { root };
    assert(0 <= sum * 1_000_000);
    assert(0 <= saturating_u64(sum * 1_000_000) / divisor <= saturating_u64(sum * 1_000_000)) by (nonlinear_arith)
        requires
            divisor >= 1,
            saturating_u64(sum * 1_000_000) >= 0,
    ;
}

/// Density is mass over the square root of area, in thousandths: a single cell scores a thousand
/// times its mass and a 2-by-2 block five hundred times its mass, while nothing saturates.
pub proof fn law_density_is_mass_over_side(sum: int)
    requires
        0 <= sum,
        sum * 1_000_000 <= u64::MAX,
    ensures
        density_milli_spec(sum, 1) == sum * 1000,
        density_milli_spec(sum, 4) == sum * 500,
{
    lemma_floor_sqrt_unique(1000, 1_000_000);
    lemma_floor_sqrt_unique(2000, 4_000_000);
    assert((sum * 1_000_000) / 1000 == sum * 1000) by (nonlinear_arith);
    assert((sum * 1_000_000) / 2000 == sum * 500) by (nonlinear_arith);
}

proof fn lemma_scan_peak_is_max(s: Seq<u64>)
    ensures
        forall|j: int| 0 <= j < s.len() ==> s[j] <= scan_peak(s).0,
        s.len() > 0 ==> 0 <= scan_peak(s).1 < s.len() && s[scan_peak(s).1] == scan_peak(s).0,
    decreases s.len(),
{
    if s.len() > 0 {
        let p = s.drop_last();
        lemma_scan_peak_is_max(p);
        assert forall|j: int| 0 <= j < s.len() implies s[j] <= scan_peak(s).0 by {
            if j < p.len() {
                assert(s[j] == p[j]);
            }
        }
        if p.len() > 0 && scan_peak(s) == scan_peak(p) {
            assert(s[scan_peak(p).1] == p[scan_peak(p).1]);
        }
    }
}

/// The peak-cell score names a cell of the `width * width` matrix that holds its largest value,
/// and scores that value over the square root of `width`.
pub proof fn law_heuristic_names_the_peak_cell(matrix: Seq<u64>, width: usize)
    requires
        width >= 1,
        width as int * width as int <= matrix.len() <= isize::MAX,
    ensures
        ({
            let h = heuristic_density_spec(matrix, width);
            &&& h.rows < width
            &&& h.cols < width
            &&& forall|i: int| 0 <= i < width as int * width as int ==> #[trigger] matrix[i] <= matrix[h.rows * width + h.cols]
            &&& h.milli == density_milli_spec(matrix[h.rows * width + h.cols] as int, width as int)
        }),
{
    let n = width as int * width as int;
    let t = matrix.take(n);
    lemma_scan_peak_is_max(t);
    let peak = scan_peak(t);
    let at = peak.1;
    let wi = width as int;
    assert(wi * wi >= 1) by (nonlinear_arith)
        requires
            wi >= 1,
    ;
    vstd::arithmetic::div_mod::lemma_fundamental_div_mod(at, wi);
    assert(0 <= at / wi < wi) by (nonlinear_arith)
        requires
            0 <= at < wi * wi,
            wi >= 1,
    ;
    assert(0 <= at % wi < wi) by (nonlinear_arith)
        requires
            0 <= at,
            wi >= 1,
    ;
    assert((at / wi) * wi + at % wi == at) by (nonlinear_arith)
        requires
            at == wi * (at / wi) + at % wi,
    ;
    assert(saturating_usize(width * width) == n);
    assert forall|i: int| 0 <= i < n implies matrix[i] <= matrix[at] by {
        assert(t[i] == matrix[i]);
    }
    assert(t[at] == matrix[at]);
    lemma_density_fits(peak.0 as int, width as int);
}

/// The mass of a 2-by-2 block inside the matrix is the sum of its four cells.
pub proof fn law_block_total_adds_its_four_cells(matrix: Seq<u64>, width: usize, row: usize, col: usize)
    requires
        width >= 1,
        (row + 1) * width + col + 1 < matrix.len(),
        matrix.len() <= usize::MAX,
    ensures
        block_total(matrix, width, seq![row, (row + 1) as usize], seq![col, (col + 1) as usize]) == matrix[row * width + col]
            + matrix[row * width + col + 1] + matrix[(row + 1) * width + col] + matrix[(row + 1) * width + col + 1],
{
    let rows = seq![row, (row + 1) as usize];
    let cols = seq![col, (col + 1) as usize];
    let wi = width as int;
    assert(row * wi <= (row + 1) * wi && (row + 1) * wi == row * wi + wi && row + 1 <= (row + 1) * wi) by (nonlinear_arith)
        requires
            row >= 0,
            wi >= 1,
    ;
    assert(crate::score::cell_at(matrix, width, row, col) == matrix[row * width + col]);
    assert(crate::score::cell_at(matrix, width, row, (col + 1) as usize) == matrix[row * width + col + 1]);
    assert(crate::score::cell_at(matrix, width, (row + 1) as usize, col) == matrix[(row + 1) * width + col]);
    assert(crate::score::cell_at(matrix, width, (row + 1) as usize, (col + 1) as usize) == matrix[(row + 1) * width + col + 1]);
    assert(rows.drop_last() =~= seq![row]);
    assert(seq![row].drop_last() =~= Seq::<usize>::empty());
    assert(cols.drop_last() =~= seq![col]);
    assert(seq![col].drop_last() =~= Seq::<usize>::empty());
    assert(crate::score::row_total(matrix, width, row, Seq::<usize>::empty()) == 0);
    assert(crate::score::row_total(matrix, width, (row + 1) as usize, Seq::<usize>::empty()) == 0);
    assert(seq![col].last() == col);
    assert(cols.last() == (col + 1) as usize);
    let r0 = crate::score::row_total(matrix, width, row, cols);
    let r1 = crate::score::row_total(matrix, width, (row + 1) as usize, cols);
    assert(crate::score::row_total(matrix, width, row, seq![col]) == crate::score::cell_at(matrix, width, row, col));
    assert(r0 == matrix[row * width + col] + matrix[row * width + col + 1]);
    assert(crate::score::row_total(matrix, width, (row + 1) as usize, seq![col]) == crate::score::cell_at(matrix, width, (row + 1) as usize, col));
    assert(r1 == matrix[(row + 1) * width + col] + matrix[(row + 1) * width + col + 1]);
    assert(block_total(matrix, width, Seq::<usize>::empty(), cols) == 0);
    assert(seq![row].last() == row);
    assert(rows.last() == (row + 1) as usize);
    assert(block_total(matrix, width, seq![row], cols) == r0);
}

// ---------------------------------------------------------------------------
// Sketch ingest and buckets
// ---------------------------------------------------------------------------

/// A sketch that takes an event adds its weight to the event's cell in every replica and leaves
/// every other counter, and its seed, shape and watermark, as they were.
pub proof fn law_sketch_ingest_adds_weight_in_each_replica(v: HcmsView, e: EventView)
    requires
        v.wf(),
        hcms_ingest_spec(v, e).0 is Ok,
    ensures
        ({
            let k = hcms_ingest_spec(v, e).1;
            &&& k.counters.len() == v.counters.len()
            &&& k.seed == v.seed && k.budget == v.budget && k.watermark == v.watermark && k.closed == v.closed
            &&& forall|r: int| 0 <= r < v.budget.replicas ==> #[trigger] k.counters[cell_of(v, e, r)]
                == v.counters[cell_of(v, e, r)] + e.weight
            &&& forall|i: int| 0 <= i < v.counters.len() && (forall|r: int| 0 <= r < v.budget.replicas ==> #[trigger] cell_of(v, e, r) != i)
                ==> k.counters[i] == v.counters[i]
        }),
{
    let k = hcms_ingest_spec(v, e).1;
    assert forall|r: int| 0 <= r < v.budget.replicas implies #[trigger] k.counters[cell_of(v, e, r)]
        == v.counters[cell_of(v, e, r)] + e.weight by {
        lemma_cell_in_replica(v, e, r);
    }
}

/// A sketch refuses a closed window, a weightless or late event, and an event that would push
/// some replica's cell past `u64::MAX`, and a refusal leaves the sketch unchanged.
pub proof fn law_sketch_refusals_name_their_cause(v: HcmsView, e: EventView)
    ensures
        v.closed ==> hcms_ingest_spec(v, e).0 == Err::<(), IngestError>(IngestError::ClosedWindow),
        !v.closed && e.weight == 0 ==> hcms_ingest_spec(v, e).0 == Err::<(), IngestError>(IngestError::ZeroWeight),
        !v.closed && e.weight > 0 && e.event_time + v.budget.lateness < v.watermark ==> hcms_ingest_spec(v, e).0
            == Err::<(), IngestError>(IngestError::Late { event_time: e.event_time, watermark: v.watermark }),
        !v.closed && e.weight > 0 && e.event_time + v.budget.lateness >= v.watermark && (exists|r: int|
            0 <= r < v.budget.replicas && v.counters[#[trigger] cell_of(v, e, r)] + e.weight > u64::MAX)
            ==> hcms_ingest_spec(v, e).0 == Err::<(), IngestError>(IngestError::Overflow),
        hcms_ingest_spec(v, e).0 is Err ==> hcms_ingest_spec(v, e).1 == v,
{
}

/// A bucket lies among the `width` buckets, grows with the hash, and the smallest and largest
/// hashes fall in the first and last bucket.
pub proof fn law_bucket_scales_the_hash(h1: u64, h2: u64, width: usize)
    requires
        width >= 1,
    ensures
        0 <= bucket_spec(h1, width) < width,
        h1 <= h2 ==> bucket_spec(h1, width) <= bucket_spec(h2, width),
        bucket_spec(0, width) == 0,
        bucket_spec(0xFFFF_FFFF_FFFF_FFFFu64, width) == width - 1,
{
    let w = width as int;
    let m = 0x1_0000_0000_0000_0000int;
    assert(0 <= (h1 as int * w) / m < w) by (nonlinear_arith)
        requires
            0 <= h1 < m,
            w >= 1,
    ;
    if h1 <= h2 {
        assert((h1 as int * w) / m <= (h2 as int * w) / m) by (nonlinear_arith)
            requires
                0 <= h1 <= h2,
                w >= 1,
                m > 0,
        ;
    }
    assert(((m - 1) * w) / m == w - 1) by (nonlinear_arith)
        requires
            1 <= w < m,
            m == 0x1_0000_0000_0000_0000int,
    ;
}

// ---------------------------------------------------------------------------
// Merges
// ---------------------------------------------------------------------------

/// A merge keeps the receiving window's budget, takes the later of the two watermarks, and is
/// closed when either pane was; for exact windows and sketches alike.
pub proof fn law_merge_takes_later_watermark(l: ExactView, r: ExactView, a: HcmsView, b: HcmsView)
    ensures
        exact_merge_spec(l, r) matches Ok(v) ==> v.budget == l.budget && v.watermark >= l.watermark
            && v.watermark >= r.watermark && (v.watermark == l.watermark || v.watermark == r.watermark)
            && v.closed == (l.closed || r.closed),
        hcms_merge_spec(a, b) matches Ok(k) ==> k.budget == a.budget && k.seed == a.seed && k.watermark >= a.watermark
            && k.watermark >= b.watermark && (k.watermark == a.watermark || k.watermark == b.watermark)
            && k.closed == (a.closed || b.closed),
{
}

} // verus!
