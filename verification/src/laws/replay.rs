//! Replays of event sequences, and what merging two disjoint panes gives.

use crate::budget::Budget;
use crate::exact::store::keys_overlap;
use crate::exact::{admission_spec, ingest_spec};
use crate::hcms::{cell_of, hcms_ingest_spec, hcms_merge_spec, span, HcmsView};
use crate::laws::exact_replay::{
    exact_counted_shape, lemma_counted_panes_merge, lemma_exact_counted_step, lemma_exact_fresh_shape, lemma_exact_right_step,
};
use crate::laws::sketch::{lemma_right_taken, lemma_taken_step, taken_shape};
use crate::laws::history::empty_window;
use crate::laws::lemma_stream_ingest_wf;
use crate::model::{EventKeyView, EventView, IngestError, PairKeyView, WitnessView};
use crate::sorted::entry_of;
use crate::window::{stream_ingest_spec, stream_merge_spec, StreamView};
use vstd::prelude::*;

verus! {

/// One ingest: what it answers and the window after it.
#[verifier::opaque]
pub open spec fn ingest_step(s: StreamView, e: EventView) -> (Result<bool, IngestError>, StreamView) {
    stream_ingest_spec(s, e)
}

/// A window after ingesting `events` in order, whatever each one answered.
pub open spec fn replay(s: StreamView, events: Seq<EventView>) -> StreamView
    decreases events.len(),
{
    if events.len() == 0 {
        s
    } else {
        ingest_step(replay(s, events.drop_last()), events.last()).1
    }
}

/// Every event of the replay was counted.
pub open spec fn all_counted(s: StreamView, events: Seq<EventView>) -> bool {
    forall|n: int| 0 <= n < events.len() ==> #[trigger] ingest_step(replay(s, events.take(n)), events[n]).0
        == Ok::<bool, IngestError>(true)
}

/// An empty sketch-backed window.
pub open spec fn fresh_window(b: Budget, seed: u64) -> StreamView {
    StreamView::Hcms(
        empty_window(b),
        HcmsView {
            budget: b,
            watermark: 0,
            closed: false,
            seed,
            counters: Seq::new((b.replicas as int * span(b)) as nat, |i: int| 0u64),
        },
    )
}

/// The total weight of the events on pair `k`.
pub open spec fn pair_total(events: Seq<EventView>, k: PairKeyView) -> int
    decreases events.len(),
{
    if events.len() == 0 {
        0
    } else {
        pair_total(events.drop_last(), k) + (if events.last().pair == k { events.last().weight as int } else { 0 })
    }
}

/// The sketch geometry of a budget and seed.
pub open spec fn geometry(b: Budget, seed: u64) -> HcmsView {
    HcmsView { budget: b, watermark: 0, closed: false, seed, counters: Seq::empty() }
}

/// The weight an event adds to cell `i`.
pub open spec fn cell_weight(g: HcmsView, e: EventView, i: int) -> int {
    if exists|r: int| 0 <= r < g.budget.replicas && #[trigger] cell_of(g, e, r) == i {
        e.weight as int
    } else {
        0
    }
}

/// The total weight the events add to cell `i`.
pub open spec fn cell_load(g: HcmsView, events: Seq<EventView>, i: int) -> int
    decreases events.len(),
{
    if events.len() == 0 {
        0
    } else {
        cell_load(g, events.drop_last(), i) + cell_weight(g, events.last(), i)
    }
}

/// The witness an event leaves.
pub open spec fn witness_of(e: EventView) -> WitnessView {
    (e.pair.source, e.pair.target, e.evidence)
}

/// The witnesses of the events, in order.
pub open spec fn event_witnesses(events: Seq<EventView>) -> Seq<WitnessView> {
    events.map_values(|e: EventView| witness_of(e))
}

/// The identities of the events, in order.
pub open spec fn event_keys(events: Seq<EventView>) -> Seq<EventKeyView> {
    events.map_values(|e: EventView| e.key)
}

/// What a window holds after counting every one of `events` from empty.
#[verifier::opaque]
pub open spec fn counted_shape(b: Budget, seed: u64, events: Seq<EventView>, s: StreamView) -> bool {
    match s {
        StreamView::Exact(_) => false,
        StreamView::Hcms(x, k) => {
            &&& s.wf()
            &&& s.panes_agree()
            &&& exact_counted_shape(b, events, x)
            &&& taken_shape(b, seed, events, k)
        },
    }
}

proof fn lemma_fresh_shape(b: Budget, seed: u64)
    requires
        b.valid(),
    ensures
        counted_shape(b, seed, Seq::empty(), fresh_window(b, seed)),
{
    reveal(counted_shape);
    reveal(taken_shape);
    lemma_exact_fresh_shape(b);
}

/// Counting one more event keeps the shape of a counted replay.
proof fn lemma_counted_step(b: Budget, seed: u64, events: Seq<EventView>, s: StreamView, e: EventView)
    requires
        counted_shape(b, seed, events, s),
        ingest_step(s, e).0 == Ok::<bool, IngestError>(true),
    ensures
        counted_shape(b, seed, events.push(e), ingest_step(s, e).1),
{
    reveal(counted_shape);
    reveal(ingest_step);
    lemma_stream_ingest_wf(s, e);
    if let StreamView::Hcms(x, k) = s {
        let next = admission_spec(x, e)->Ok_0->Some_0;
        assert(hcms_ingest_spec(k, e).0 is Ok);
        lemma_exact_counted_step(b, events, x, e, next);
        lemma_taken_step(b, seed, events, k, e);
    }
}

/// A prefix of a fully counted replay is fully counted.
proof fn lemma_all_counted_prefix(s: StreamView, events: Seq<EventView>, m: int)
    requires
        all_counted(s, events),
        0 <= m <= events.len(),
    ensures
        all_counted(s, events.take(m)),
{
    let p = events.take(m);
    assert forall|n: int| 0 <= n < p.len() implies #[trigger] ingest_step(replay(s, p.take(n)), p[n]).0
        == Ok::<bool, IngestError>(true) by {
        assert(p.take(n) =~= events.take(n));
        assert(ingest_step(replay(s, events.take(n)), events[n]).0 == Ok::<bool, IngestError>(true));
    }
}

/// A fully counted replay from empty has the counted shape.
proof fn lemma_counted_replay(b: Budget, seed: u64, events: Seq<EventView>)
    requires
        b.valid(),
        all_counted(fresh_window(b, seed), events),
    ensures
        counted_shape(b, seed, events, replay(fresh_window(b, seed), events)),
    decreases events.len(),
{
    if events.len() == 0 {
        lemma_fresh_shape(b, seed);
        assert(events =~= Seq::<EventView>::empty());
    } else {
        let p = events.drop_last();
        let n = p.len() as int;
        assert(events.take(n) =~= p);
        lemma_all_counted_prefix(fresh_window(b, seed), events, n);
        lemma_counted_replay(b, seed, p);
        assert(ingest_step(replay(fresh_window(b, seed), events.take(n)), events[n]).0 == Ok::<bool, IngestError>(true));
        lemma_counted_step(b, seed, p, replay(fresh_window(b, seed), p), events.last());
        assert(p.push(events.last()) =~= events);
    }
}

pub(crate) proof fn lemma_pair_total_concat(a: Seq<EventView>, c: Seq<EventView>, k: PairKeyView)
    ensures
        pair_total(a + c, k) == pair_total(a, k) + pair_total(c, k),
    decreases c.len(),
{
    if c.len() == 0 {
        assert(a + c =~= a);
    } else {
        lemma_pair_total_concat(a, c.drop_last(), k);
        assert((a + c).drop_last() =~= a + c.drop_last());
    }
}

pub(crate) proof fn lemma_cell_load_concat(g: HcmsView, a: Seq<EventView>, c: Seq<EventView>, i: int)
    ensures
        cell_load(g, a + c, i) == cell_load(g, a, i) + cell_load(g, c, i),
    decreases c.len(),
{
    if c.len() == 0 {
        assert(a + c =~= a);
    } else {
        lemma_cell_load_concat(g, a, c.drop_last(), i);
        assert((a + c).drop_last() =~= a + c.drop_last());
    }
}

pub(crate) proof fn lemma_pair_total_nonnegative(events: Seq<EventView>, k: PairKeyView)
    ensures
        pair_total(events, k) >= 0,
    decreases events.len(),
{
    if events.len() > 0 {
        lemma_pair_total_nonnegative(events.drop_last(), k);
    }
}

pub(crate) proof fn lemma_cell_load_nonnegative(g: HcmsView, events: Seq<EventView>, i: int)
    ensures
        cell_load(g, events, i) >= 0,
    decreases events.len(),
{
    if events.len() > 0 {
        lemma_cell_load_nonnegative(g, events.drop_last(), i);
    }
}

/// An event counted after two panes is counted after the second pane alone.
proof fn lemma_right_step(b: Budget, seed: u64, left: Seq<EventView>, p: Seq<EventView>, e: EventView)
    requires
        b.valid(),
        counted_shape(b, seed, p, replay(fresh_window(b, seed), p)),
        counted_shape(b, seed, left + p, replay(fresh_window(b, seed), left + p)),
        ingest_step(replay(fresh_window(b, seed), left + p), e).0 == Ok::<bool, IngestError>(true),
    ensures
        ingest_step(replay(fresh_window(b, seed), p), e).0 == Ok::<bool, IngestError>(true),
{
    let f = fresh_window(b, seed);
    let sr = replay(f, p);
    let sc = replay(f, left + p);
    reveal(counted_shape);
    reveal(ingest_step);
    if let (StreamView::Hcms(rx, rk), StreamView::Hcms(cx, ck)) = (sr, sc) {
        assert(ingest_spec(cx, e).0 == Ok::<bool, IngestError>(true));
        lemma_exact_right_step(b, left, p, e, rx, cx);
        assert(hcms_ingest_spec(ck, e).0 is Ok);
        lemma_right_taken(b, seed, left, p, e, rk, ck);
    }
}

/// When a window counts all of `left` then all of `right`, a window that starts empty counts
/// every event of `right` too.
proof fn lemma_right_pane_counted(b: Budget, seed: u64, left: Seq<EventView>, right: Seq<EventView>, j: int)
    requires
        b.valid(),
        all_counted(fresh_window(b, seed), left + right),
        0 <= j <= right.len(),
    ensures
        all_counted(fresh_window(b, seed), right.take(j)),
    decreases j,
{
    let f = fresh_window(b, seed);
    let both = left + right;
    if j > 0 {
        lemma_right_pane_counted(b, seed, left, right, j - 1);
        let p = right.take(j - 1);
        let e = right[j - 1];
        let n = left.len() + j - 1;
        lemma_counted_replay(b, seed, p);
        lemma_all_counted_prefix(f, both, n);
        assert(both.take(n) =~= left + p);
        lemma_counted_replay(b, seed, both.take(n));
        assert(both[n] == e);
        assert(ingest_step(replay(f, both.take(n)), both[n]).0 == Ok::<bool, IngestError>(true));
        lemma_right_step(b, seed, left, p, e);
        let t = right.take(j);
        assert forall|m: int| 0 <= m < t.len() implies #[trigger] ingest_step(replay(f, t.take(m)), t[m]).0
            == Ok::<bool, IngestError>(true) by {
            if m < j - 1 {
                assert(t.take(m) =~= p.take(m));
                assert(t[m] == p[m]);
            } else {
                assert(t.take(m) =~= p);
            }
        }
    }
}

/// Merging two disjoint panes, each counted in full from an empty window, gives exactly the
/// window that counts all of their events in one replay.
pub proof fn law_merge_of_disjoint_panes_matches_single_replay(
    b: Budget,
    seed: u64,
    left: Seq<EventView>,
    right: Seq<EventView>,
)
    requires
        b.valid(),
        all_counted(fresh_window(b, seed), left + right),
    ensures
        stream_merge_spec(replay(fresh_window(b, seed), left), replay(fresh_window(b, seed), right))
            == Ok::<StreamView, IngestError>(replay(fresh_window(b, seed), left + right)),
{
    reveal(counted_shape);
    reveal(exact_counted_shape);
    reveal(taken_shape);
    let f = fresh_window(b, seed);
    let both = left + right;
    assert(both.take(left.len() as int) =~= left);
    lemma_all_counted_prefix(f, both, left.len() as int);
    lemma_right_pane_counted(b, seed, left, right, right.len() as int);
    assert(right.take(right.len() as int) =~= right);
    lemma_counted_replay(b, seed, left);
    lemma_counted_replay(b, seed, right);
    lemma_counted_replay(b, seed, both);
    let sl = replay(f, left);
    let sr = replay(f, right);
    let sc = replay(f, both);
    let g = geometry(b, seed);
    if let (StreamView::Hcms(lx, lk), StreamView::Hcms(rx, rk), StreamView::Hcms(cx, ck)) = (sl, sr, sc) {
        // The sketches add cell by cell.
        assert forall|i: int| 0 <= i < lk.counters.len() implies #[trigger] lk.counters[i] + rk.counters[i] == ck.counters[i] by {
            lemma_cell_load_concat(g, left, right, i);
        }
        assert(hcms_merge_spec(lk, rk) == Ok::<HcmsView, IngestError>(ck)) by {
            assert(ck.counters =~= Seq::new(lk.counters.len(), |i: int| (lk.counters[i] + rk.counters[i]) as u64));
        }
        // No identity occurs in both panes.
        assert forall|j: int| 0 <= j < lx.dedup.len() implies !rx.dedup.contains(#[trigger] lx.dedup[j]) by {
            let key = lx.dedup[j];
            assert(lx.dedup.contains(key));
            if rx.dedup.contains(key) {
                assert(event_keys(right).contains(key));
                let q = choose|q: int| 0 <= q < event_keys(right).len() && event_keys(right)[q] == key;
                let n = left.len() + q;
                lemma_all_counted_prefix(f, both, n);
                lemma_counted_replay(b, seed, both.take(n));
                assert(both[n] == right[q]);
                assert(ingest_step(replay(f, both.take(n)), both[n]).0 == Ok::<bool, IngestError>(true));
                reveal(ingest_step);
                let j2 = choose|j2: int| 0 <= j2 < event_keys(left).len() && event_keys(left)[j2] == key;
                assert(event_keys(both.take(n))[j2] == key);
            }
        }
        assert(!keys_overlap(lx.dedup, rx.dedup));
        lemma_counted_panes_merge(b, left, right, lx, rx, cx);
    }
}

} // verus!

verus! {

/// A window stays well formed through any replay.
pub proof fn lemma_replay_wf(s: StreamView, events: Seq<EventView>)
    requires
        s.wf(),
    ensures
        replay(s, events).wf(),
    decreases events.len(),
{
    if events.len() > 0 {
        lemma_replay_wf(s, events.drop_last());
        reveal(ingest_step);
        lemma_stream_ingest_wf(replay(s, events.drop_last()), events.last());
    }
}

/// A pair that no event carries never appears among the exact counts, whatever the events answered.
pub proof fn law_unseen_pair_never_appears(s: StreamView, events: Seq<EventView>, k: PairKeyView)
    requires
        s.wf(),
        entry_of(s.exact_part().counts, k) is None,
        forall|j: int| 0 <= j < events.len() ==> (#[trigger] events[j]).pair != k,
    ensures
        entry_of(replay(s, events).exact_part().counts, k) is None,
    decreases events.len(),
{
    if events.len() > 0 {
        let p = events.drop_last();
        assert forall|j: int| 0 <= j < p.len() implies (#[trigger] p[j]).pair != k by {
            assert(p[j] == events[j]);
        }
        law_unseen_pair_never_appears(s, p, k);
        lemma_replay_wf(s, p);
        reveal(ingest_step);
        assert(events.last() == events[events.len() - 1]);
        crate::laws::law_event_touches_only_its_pair(replay(s, p), events.last(), k);
    }
}

} // verus!
