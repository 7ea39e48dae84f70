//! Replays of events into an exact window alone, and what merging two exact panes gives.

use crate::budget::Budget;
use crate::exact::store::{exact_merge_spec, keys_overlap, lemma_merge_counts_adds, merge_witnesses, opt_int, sum_entry};
use crate::exact::{admission_spec, count_or_zero, ingest_spec, lemma_commit_wf, ExactView};
use crate::sorted::{lemma_entries_at_most, lemma_entries_fewer};
use crate::laws::history::empty_window;
use crate::laws::replay::{
    event_keys, event_witnesses, lemma_pair_total_concat, lemma_pair_total_nonnegative, pair_total, witness_of,
};
use crate::model::{EventKeyView, EventView, IngestError, PairKeyView};
use crate::sorted::{entry_of, key_insert_all, lemma_key_insert, lemma_key_insert_all, lemma_keys_unique};
use vstd::prelude::*;

verus! {

/// An exact window after ingesting `events` in order, whatever each one answered.
#[verifier::opaque]
pub open spec fn exact_replay(w: ExactView, events: Seq<EventView>) -> ExactView
    decreases events.len(),
{
    if events.len() == 0 {
        w
    } else {
        ingest_spec(exact_replay(w, events.drop_last()), events.last()).1
    }
}

/// Every event of the replay was counted.
pub open spec fn exact_all_counted(w: ExactView, events: Seq<EventView>) -> bool {
    forall|n: int| 0 <= n < events.len() ==> (#[trigger] ingest_spec(exact_replay(w, events.take(n)), events[n])).0
        == Ok::<bool, IngestError>(true)
}

/// What an exact window holds after counting every one of `events` from empty.
#[verifier::opaque]
pub open spec fn exact_counted_shape(b: Budget, events: Seq<EventView>, x: ExactView) -> bool {
    &&& x.wf()
    &&& x.budget == b
    &&& x.watermark == 0
    &&& !x.closed
    &&& x.dedup.len() == events.len()
    &&& forall|key: EventKeyView| #[trigger] x.dedup.contains(key) <==> event_keys(events).contains(key)
    &&& forall|p: PairKeyView| 0 <= #[trigger] pair_total(events, p) <= u64::MAX
    &&& forall|p: PairKeyView| #[trigger] entry_of(x.counts, p) == (if pair_total(events, p) > 0 {
        Some(pair_total(events, p) as u64)
    } else {
        None
    })
    &&& x.witnesses == event_witnesses(events).take(
        if events.len() < b.max_witnesses { events.len() as int } else { b.max_witnesses as int },
    )
}

/// Counting one more event keeps the shape of a counted replay.
pub(crate) proof fn lemma_exact_counted_step(b: Budget, events: Seq<EventView>, x: ExactView, e: EventView, next: u64)
    requires
        exact_counted_shape(b, events, x),
        admission_spec(x, e) == Ok::<Option<u64>, IngestError>(Some(next)),
    ensures
        exact_counted_shape(b, events.push(e), ingest_spec(x, e).1),
{
    reveal(exact_counted_shape);
    let x2 = ingest_spec(x, e).1;
    let es = events.push(e);
    assert(es.drop_last() =~= events);
    lemma_commit_wf(x, e, next);
    lemma_key_insert(x.dedup, e.key);
    assert(event_keys(es) =~= event_keys(events).push(e.key));
    assert forall|key: EventKeyView| #[trigger] x2.dedup.contains(key) <==> event_keys(es).contains(key) by {
        if event_keys(es).contains(key) && key != e.key {
            let j = choose|j: int| 0 <= j < event_keys(es).len() && event_keys(es)[j] == key;
            assert(j < events.len());
            assert(event_keys(events)[j] == key);
        }
        if event_keys(events).contains(key) {
            let j = choose|j: int| 0 <= j < event_keys(events).len() && event_keys(events)[j] == key;
            assert(event_keys(es)[j] == key);
        }
        if key == e.key {
            assert(event_keys(es)[events.len() as int] == key);
        }
    }
    assert forall|p: PairKeyView| 0 <= #[trigger] pair_total(es, p) <= u64::MAX by {
        assert(pair_total(events, p) <= u64::MAX);
        if p == e.pair {
            assert(count_or_zero(x.counts, p) == pair_total(events, p));
        }
    }
    assert forall|p: PairKeyView| #[trigger] entry_of(x2.counts, p) == (if pair_total(es, p) > 0 {
        Some(pair_total(es, p) as u64)
    } else {
        None
    }) by {
        assert(entry_of(x.counts, p) == (if pair_total(events, p) > 0 {
            Some(pair_total(events, p) as u64)
        } else {
            None
        }));
        assert(0 <= pair_total(events, p) <= u64::MAX);
    }
    assert(event_witnesses(es) =~= event_witnesses(events).push(witness_of(e)));
    if events.len() < b.max_witnesses {
        assert(event_witnesses(es).take(es.len() as int) =~= event_witnesses(events).take(events.len() as int).push(witness_of(e)));
    } else {
        assert(event_witnesses(es).take(b.max_witnesses as int) =~= event_witnesses(events).take(b.max_witnesses as int));
    }
}

/// An empty window has the shape of counting nothing.
pub(crate) proof fn lemma_exact_fresh_shape(b: Budget)
    requires
        b.valid(),
    ensures
        exact_counted_shape(b, Seq::empty(), empty_window(b)),
{
    reveal(exact_counted_shape);
    let f = empty_window(b);
    let none = Seq::<EventView>::empty();
    assert forall|key: EventKeyView| #[trigger] f.dedup.contains(key) <==> event_keys(none).contains(key) by {
        assert(event_keys(none) =~= Seq::<EventKeyView>::empty());
    }
    assert(f.witnesses =~= event_witnesses(none).take(0));
}

proof fn lemma_exact_all_counted_prefix(w: ExactView, events: Seq<EventView>, m: int)
    requires
        exact_all_counted(w, events),
        0 <= m <= events.len(),
    ensures
        exact_all_counted(w, events.take(m)),
{
    let p = events.take(m);
    assert forall|n: int| 0 <= n < p.len() implies (#[trigger] ingest_spec(exact_replay(w, p.take(n)), p[n])).0
        == Ok::<bool, IngestError>(true) by {
        assert(p.take(n) =~= events.take(n));
        assert(ingest_spec(exact_replay(w, events.take(n)), events[n]).0 == Ok::<bool, IngestError>(true));
    }
}

/// A fully counted replay from empty has the counted shape.
proof fn lemma_exact_counted_replay(b: Budget, events: Seq<EventView>)
    requires
        b.valid(),
        exact_all_counted(empty_window(b), events),
    ensures
        exact_counted_shape(b, events, exact_replay(empty_window(b), events)),
    decreases events.len(),
{
    let f = empty_window(b);
    reveal(exact_replay);
    if events.len() == 0 {
        lemma_exact_fresh_shape(b);
        assert(events =~= Seq::<EventView>::empty());
    } else {
        let p = events.drop_last();
        let n = p.len() as int;
        assert(events.take(n) =~= p);
        lemma_exact_all_counted_prefix(f, events, n);
        lemma_exact_counted_replay(b, p);
        let x = exact_replay(f, p);
        assert(ingest_spec(x, events[n]).0 == Ok::<bool, IngestError>(true));
        let next = admission_spec(x, events.last())->Ok_0->Some_0;
        lemma_exact_counted_step(b, p, x, events.last(), next);
        assert(p.push(events.last()) =~= events);
    }
}

/// An event counted after two panes' events is counted after the second pane's alone.
pub(crate) proof fn lemma_exact_right_step(b: Budget, left: Seq<EventView>, p: Seq<EventView>, e: EventView, rx: ExactView, cx: ExactView)
    requires
        exact_counted_shape(b, p, rx),
        exact_counted_shape(b, left + p, cx),
        ingest_spec(cx, e).0 == Ok::<bool, IngestError>(true),
    ensures
        ingest_spec(rx, e).0 == Ok::<bool, IngestError>(true),
{
    reveal(exact_counted_shape);
    let q = e.pair;
    lemma_pair_total_concat(left, p, q);
    lemma_pair_total_nonnegative(left, q);
    assert(0 <= pair_total(left + p, q) <= u64::MAX);
    assert(0 <= pair_total(p, q) <= u64::MAX);
    assert(event_keys(left + p) =~= event_keys(left) + event_keys(p));
    if rx.dedup.contains(e.key) {
        let i = choose|i: int| 0 <= i < event_keys(p).len() && event_keys(p)[i] == e.key;
        assert(event_keys(left + p)[left.len() + i] == e.key);
    }
    assert forall|k: PairKeyView| entry_of(rx.counts, k) is Some implies #[trigger] entry_of(cx.counts, k) is Some by {
        lemma_pair_total_concat(left, p, k);
        lemma_pair_total_nonnegative(left, k);
        assert(0 <= pair_total(left + p, k) <= u64::MAX);
        assert(0 <= pair_total(p, k) <= u64::MAX);
    }
    lemma_entries_at_most(rx.counts, cx.counts);
    if count_or_zero(rx.counts, q) == 0 && count_or_zero(cx.counts, q) != 0 {
        lemma_entries_fewer(rx.counts, cx.counts, q);
    }
    assert(admission_spec(rx, e) is Ok);
    assert(admission_spec(rx, e) != Ok::<Option<u64>, IngestError>(None));
}

/// When a window counts all of `left` then all of `right`, a window that starts empty counts
/// every event of `right` too.
proof fn lemma_exact_right_counted(b: Budget, left: Seq<EventView>, right: Seq<EventView>, j: int)
    requires
        b.valid(),
        exact_all_counted(empty_window(b), left + right),
        0 <= j <= right.len(),
    ensures
        exact_all_counted(empty_window(b), right.take(j)),
    decreases j,
{
    let f = empty_window(b);
    let both = left + right;
    if j > 0 {
        lemma_exact_right_counted(b, left, right, j - 1);
        let p = right.take(j - 1);
        let e = right[j - 1];
        let n = left.len() + j - 1;
        lemma_exact_counted_replay(b, p);
        lemma_exact_all_counted_prefix(f, both, n);
        assert(both.take(n) =~= left + p);
        lemma_exact_counted_replay(b, both.take(n));
        assert(both[n] == e);
        assert(ingest_spec(exact_replay(f, both.take(n)), both[n]).0 == Ok::<bool, IngestError>(true));
        lemma_exact_right_step(b, left, p, e, exact_replay(f, p), exact_replay(f, both.take(n)));
        let t = right.take(j);
        assert forall|m: int| 0 <= m < t.len() implies (#[trigger] ingest_spec(exact_replay(f, t.take(m)), t[m])).0
            == Ok::<bool, IngestError>(true) by {
            if m < j - 1 {
                assert(t.take(m) =~= p.take(m));
                assert(t[m] == p[m]);
            } else {
                assert(t.take(m) =~= p);
            }
        }
    }
}

/// Three counted shapes whose panes share no identity merge into the shape of both.
pub(crate) proof fn lemma_counted_panes_merge(
    b: Budget,
    left: Seq<EventView>,
    right: Seq<EventView>,
    lx: ExactView,
    rx: ExactView,
    cx: ExactView,
)
    requires
        exact_counted_shape(b, left, lx),
        exact_counted_shape(b, right, rx),
        exact_counted_shape(b, left + right, cx),
        !keys_overlap(lx.dedup, rx.dedup),
    ensures
        exact_merge_spec(lx, rx) == Ok::<ExactView, IngestError>(cx),
{
    reveal(exact_counted_shape);
    let both = left + right;
    assert forall|k: PairKeyView| opt_int(#[trigger] entry_of(cx.counts, k)) == sum_entry(entry_of(lx.counts, k), entry_of(rx.counts, k)) by {
        lemma_pair_total_concat(left, right, k);
        assert(0 <= pair_total(left, k) <= u64::MAX);
        assert(0 <= pair_total(right, k) <= u64::MAX);
        assert(0 <= pair_total(both, k) <= u64::MAX);
    }
    assert forall|k: PairKeyView| #[trigger] entry_of(lx.counts, k) matches Some(a) ==> a > 0 by {
        assert(0 <= pair_total(left, k) <= u64::MAX);
    }
    lemma_merge_counts_adds(lx.counts, rx.counts, b.max_pairs, cx.counts);
    lemma_key_insert_all(lx.dedup, rx.dedup);
    assert(event_keys(both) =~= event_keys(left) + event_keys(right));
    assert forall|key: EventKeyView| key_insert_all(lx.dedup, rx.dedup).contains(key) <==> cx.dedup.contains(key) by {
        if event_keys(both).contains(key) {
            let j = choose|j: int| 0 <= j < event_keys(both).len() && event_keys(both)[j] == key;
            if j < left.len() {
                assert(event_keys(left)[j] == key);
            } else {
                assert(event_keys(right)[j - left.len()] == key);
            }
        }
        if event_keys(left).contains(key) {
            let j = choose|j: int| 0 <= j < event_keys(left).len() && event_keys(left)[j] == key;
            assert(event_keys(both)[j] == key);
        }
        if event_keys(right).contains(key) {
            let j = choose|j: int| 0 <= j < event_keys(right).len() && event_keys(right)[j] == key;
            assert(event_keys(both)[left.len() + j] == key);
        }
    }
    lemma_keys_unique(key_insert_all(lx.dedup, rx.dedup), cx.dedup);
    assert(event_witnesses(both) =~= event_witnesses(left) + event_witnesses(right));
    assert(merge_witnesses(lx.witnesses, rx.witnesses, b.max_witnesses) =~= cx.witnesses);
}

/// Merging two exact panes, each fed one part of the events from an empty window, gives exactly
/// the window that counts all of the events in one replay, when that replay counts them all:
/// same pairs, keys and witnesses, so every later ingest is answered alike.
pub proof fn law_exact_merge_of_disjoint_panes_matches_single_replay(
    b: Budget,
    left: Seq<EventView>,
    right: Seq<EventView>,
)
    requires
        b.valid(),
        exact_all_counted(empty_window(b), left + right),
    ensures
        exact_merge_spec(exact_replay(empty_window(b), left), exact_replay(empty_window(b), right))
            == Ok::<ExactView, IngestError>(exact_replay(empty_window(b), left + right)),
        forall|e: EventView| #[trigger] ingest_spec(
            exact_merge_spec(exact_replay(empty_window(b), left), exact_replay(empty_window(b), right))->Ok_0,
            e,
        ) == ingest_spec(exact_replay(empty_window(b), left + right), e),
{
    let f = empty_window(b);
    let both = left + right;
    assert(both.take(left.len() as int) =~= left);
    lemma_exact_all_counted_prefix(f, both, left.len() as int);
    lemma_exact_right_counted(b, left, right, right.len() as int);
    assert(right.take(right.len() as int) =~= right);
    lemma_exact_counted_replay(b, left);
    lemma_exact_counted_replay(b, right);
    lemma_exact_counted_replay(b, both);
    let lx = exact_replay(f, left);
    let rx = exact_replay(f, right);
    reveal(exact_counted_shape);
    assert forall|j: int| 0 <= j < lx.dedup.len() implies !rx.dedup.contains(#[trigger] lx.dedup[j]) by {
        let key = lx.dedup[j];
        assert(lx.dedup.contains(key));
        if rx.dedup.contains(key) {
            assert(event_keys(right).contains(key));
            let q = choose|q: int| 0 <= q < event_keys(right).len() && event_keys(right)[q] == key;
            let n = left.len() + q;
            lemma_exact_all_counted_prefix(f, both, n);
            lemma_exact_counted_replay(b, both.take(n));
            assert(both[n] == right[q]);
            assert(ingest_spec(exact_replay(f, both.take(n)), both[n]).0 == Ok::<bool, IngestError>(true));
            let j2 = choose|j2: int| 0 <= j2 < event_keys(left).len() && event_keys(left)[j2] == key;
            assert(event_keys(both.take(n))[j2] == key);
        }
    }
    assert(!keys_overlap(lx.dedup, rx.dedup));
    lemma_counted_panes_merge(b, left, right, lx, rx, exact_replay(f, both));
}

} // verus!
