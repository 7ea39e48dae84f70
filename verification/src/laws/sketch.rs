//! Replays of events into a sketch alone, and what merging two sketches gives.

use crate::budget::Budget;
use crate::hcms::{bumped, cell_of, hcms_compatible, hcms_ingest_spec, hcms_merge_spec, sketch_overflows, span, HcmsView};
use crate::laws::replay::{cell_load, geometry, lemma_cell_load_concat, lemma_cell_load_nonnegative};
use crate::model::{EventView, IngestError};
use vstd::prelude::*;

verus! {

/// An empty sketch.
pub open spec fn fresh_sketch(b: Budget, seed: u64) -> HcmsView {
    HcmsView {
        budget: b,
        watermark: 0,
        closed: false,
        seed,
        counters: Seq::new((b.replicas as int * span(b)) as nat, |i: int| 0u64),
    }
}

/// A sketch after ingesting `events` in order, whatever each one answered.
#[verifier::opaque]
pub open spec fn sketch_replay(k: HcmsView, events: Seq<EventView>) -> HcmsView
    decreases events.len(),
{
    if events.len() == 0 {
        k
    } else {
        hcms_ingest_spec(sketch_replay(k, events.drop_last()), events.last()).1
    }
}

/// Every event of the replay was taken.
pub open spec fn all_taken(k: HcmsView, events: Seq<EventView>) -> bool {
    forall|n: int| 0 <= n < events.len() ==> (#[trigger] hcms_ingest_spec(sketch_replay(k, events.take(n)), events[n])).0 is Ok
}

/// What a sketch holds after taking every one of `events` from empty: each cell is the weight
/// the events put on it.
#[verifier::opaque]
pub open spec fn taken_shape(b: Budget, seed: u64, events: Seq<EventView>, k: HcmsView) -> bool {
    &&& k.wf()
    &&& k.budget == b
    &&& k.seed == seed
    &&& k.watermark == 0
    &&& !k.closed
    &&& k.counters.len() == b.replicas as int * span(b)
    &&& forall|i: int| 0 <= i < k.counters.len() ==> #[trigger] k.counters[i] == cell_load(geometry(b, seed), events, i)
}

pub(crate) proof fn lemma_taken_step(b: Budget, seed: u64, events: Seq<EventView>, k: HcmsView, e: EventView)
    requires
        taken_shape(b, seed, events, k),
        hcms_ingest_spec(k, e).0 is Ok,
    ensures
        taken_shape(b, seed, events.push(e), hcms_ingest_spec(k, e).1),
{
    reveal(taken_shape);
    let es = events.push(e);
    let k2 = hcms_ingest_spec(k, e).1;
    assert(es.drop_last() =~= events);
    assert(!sketch_overflows(k, e));
    assert(k2.counters == bumped(k, e));
    assert forall|i: int| 0 <= i < k2.counters.len() implies #[trigger] k2.counters[i] == cell_load(geometry(b, seed), es, i) by {
        assert(k.counters[i] == cell_load(geometry(b, seed), events, i));
        if exists|r: int| 0 <= r < k.budget.replicas && #[trigger] cell_of(k, e, r) == i {
            let r = choose|r: int| 0 <= r < k.budget.replicas && #[trigger] cell_of(k, e, r) == i;
            assert(cell_of(geometry(b, seed), e, r) == i);
            assert(!(k.counters[cell_of(k, e, r)] + e.weight > u64::MAX));
        } else {
            assert forall|r: int| 0 <= r < b.replicas implies #[trigger] cell_of(geometry(b, seed), e, r) != i by {
                assert(cell_of(k, e, r) != i);
            }
        }
    }
}

proof fn lemma_all_taken_prefix(k: HcmsView, events: Seq<EventView>, m: int)
    requires
        all_taken(k, events),
        0 <= m <= events.len(),
    ensures
        all_taken(k, events.take(m)),
{
    let p = events.take(m);
    assert forall|n: int| 0 <= n < p.len() implies (#[trigger] hcms_ingest_spec(sketch_replay(k, p.take(n)), p[n])).0 is Ok by {
        assert(p.take(n) =~= events.take(n));
        assert(hcms_ingest_spec(sketch_replay(k, events.take(n)), events[n]).0 is Ok);
    }
}

proof fn lemma_taken_replay(b: Budget, seed: u64, events: Seq<EventView>)
    requires
        b.valid(),
        all_taken(fresh_sketch(b, seed), events),
    ensures
        taken_shape(b, seed, events, sketch_replay(fresh_sketch(b, seed), events)),
    decreases events.len(),
{
    let f = fresh_sketch(b, seed);
    reveal(sketch_replay);
    if events.len() == 0 {
        reveal(taken_shape);
    } else {
        let p = events.drop_last();
        let n = p.len() as int;
        assert(events.take(n) =~= p);
        lemma_all_taken_prefix(f, events, n);
        lemma_taken_replay(b, seed, p);
        assert(hcms_ingest_spec(sketch_replay(f, events.take(n)), events[n]).0 is Ok);
        lemma_taken_step(b, seed, p, sketch_replay(f, p), events.last());
        assert(p.push(events.last()) =~= events);
    }
}

/// An event taken after two panes' events is taken after the second pane's alone.
pub(crate) proof fn lemma_right_taken(b: Budget, seed: u64, left: Seq<EventView>, p: Seq<EventView>, e: EventView, rk: HcmsView, ck: HcmsView)
    requires
        taken_shape(b, seed, p, rk),
        taken_shape(b, seed, left + p, ck),
        hcms_ingest_spec(ck, e).0 is Ok,
    ensures
        hcms_ingest_spec(rk, e).0 is Ok,
{
    reveal(taken_shape);
    assert forall|r: int| 0 <= r < rk.budget.replicas implies !(rk.counters[#[trigger] cell_of(rk, e, r)] + e.weight > u64::MAX) by {
        let c = cell_of(rk, e, r);
        crate::hcms::lemma_cell_in_replica(rk, e, r);
        assert(cell_of(ck, e, r) == c);
        assert(!(ck.counters[cell_of(ck, e, r)] + e.weight > u64::MAX));
        lemma_cell_load_concat(geometry(b, seed), left, p, c);
        lemma_cell_load_nonnegative(geometry(b, seed), left, c);
    }
    assert(!sketch_overflows(rk, e));
}

proof fn lemma_right_all_taken(b: Budget, seed: u64, left: Seq<EventView>, right: Seq<EventView>, j: int)
    requires
        b.valid(),
        all_taken(fresh_sketch(b, seed), left + right),
        0 <= j <= right.len(),
    ensures
        all_taken(fresh_sketch(b, seed), right.take(j)),
    decreases j,
{
    let f = fresh_sketch(b, seed);
    let both = left + right;
    if j > 0 {
        lemma_right_all_taken(b, seed, left, right, j - 1);
        let p = right.take(j - 1);
        let e = right[j - 1];
        let n = left.len() + j - 1;
        lemma_taken_replay(b, seed, p);
        lemma_all_taken_prefix(f, both, n);
        assert(both.take(n) =~= left + p);
        lemma_taken_replay(b, seed, both.take(n));
        assert(both[n] == e);
        assert(hcms_ingest_spec(sketch_replay(f, both.take(n)), both[n]).0 is Ok);
        lemma_right_taken(b, seed, left, p, e, sketch_replay(f, p), sketch_replay(f, both.take(n)));
        let t = right.take(j);
        assert forall|m: int| 0 <= m < t.len() implies (#[trigger] hcms_ingest_spec(sketch_replay(f, t.take(m)), t[m])).0 is Ok by {
            if m < j - 1 {
                assert(t.take(m) =~= p.take(m));
                assert(t[m] == p[m]);
            } else {
                assert(t.take(m) =~= p);
            }
        }
    }
}

/// Merging two sketches, each fed from empty with one pane of events, gives exactly the sketch
/// fed all the events in one replay, when that replay took every event.
pub proof fn law_sketch_merge_matches_single_replay(b: Budget, seed: u64, left: Seq<EventView>, right: Seq<EventView>)
    requires
        b.valid(),
        all_taken(fresh_sketch(b, seed), left + right),
    ensures
        hcms_merge_spec(sketch_replay(fresh_sketch(b, seed), left), sketch_replay(fresh_sketch(b, seed), right))
            == Ok::<HcmsView, IngestError>(sketch_replay(fresh_sketch(b, seed), left + right)),
{
    reveal(taken_shape);
    let f = fresh_sketch(b, seed);
    let both = left + right;
    assert(both.take(left.len() as int) =~= left);
    lemma_all_taken_prefix(f, both, left.len() as int);
    lemma_right_all_taken(b, seed, left, right, right.len() as int);
    assert(right.take(right.len() as int) =~= right);
    lemma_taken_replay(b, seed, left);
    lemma_taken_replay(b, seed, right);
    lemma_taken_replay(b, seed, both);
    let lk = sketch_replay(f, left);
    let rk = sketch_replay(f, right);
    let ck = sketch_replay(f, both);
    assert forall|i: int| 0 <= i < lk.counters.len() implies #[trigger] lk.counters[i] + rk.counters[i] == ck.counters[i] by {
        lemma_cell_load_concat(geometry(b, seed), left, right, i);
    }
    assert(hcms_compatible(lk, rk));
    assert(ck.counters =~= Seq::new(lk.counters.len(), |i: int| (lk.counters[i] + rk.counters[i]) as u64));
}

/// Merging sketches commutes: either order is refused alike, and where both are taken they hold
/// the same counters, seed, watermark and closed flag; under one budget, the same sketch.
pub proof fn law_sketch_merge_commutes(a: HcmsView, b: HcmsView)
    ensures
        hcms_merge_spec(a, b) is Ok <==> hcms_merge_spec(b, a) is Ok,
        hcms_merge_spec(a, b) matches Err(x) ==> hcms_merge_spec(b, a) == Err::<HcmsView, IngestError>(x),
        hcms_merge_spec(a, b) is Ok ==> ({
            let ab = hcms_merge_spec(a, b)->Ok_0;
            let ba = hcms_merge_spec(b, a)->Ok_0;
            &&& ab.counters == ba.counters
            &&& ab.seed == ba.seed
            &&& ab.watermark == ba.watermark
            &&& ab.closed == ba.closed
            &&& ab.budget.width == ba.budget.width
            &&& ab.budget.replicas == ba.budget.replicas
        }),
        a.budget == b.budget ==> hcms_merge_spec(a, b) == hcms_merge_spec(b, a),
{
    if hcms_compatible(a, b) {
        if exists|i: int| 0 <= i < a.counters.len() && #[trigger] a.counters[i] + b.counters[i] > u64::MAX {
            let i = choose|i: int| 0 <= i < a.counters.len() && #[trigger] a.counters[i] + b.counters[i] > u64::MAX;
            assert(b.counters[i] + a.counters[i] > u64::MAX);
        } else {
            assert(!exists|i: int| 0 <= i < b.counters.len() && #[trigger] b.counters[i] + a.counters[i] > u64::MAX);
            let ab = hcms_merge_spec(a, b)->Ok_0;
            let ba = hcms_merge_spec(b, a)->Ok_0;
            assert(ab.counters =~= ba.counters);
        }
    }
}

} // verus!
