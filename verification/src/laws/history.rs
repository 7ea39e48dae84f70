//! Exact windows built by any sequence of operations, and what their keys and counts add up to.

use crate::budget::Budget;
use crate::exact::store::{
    exact_checkpoint_spec, exact_merge_spec, exact_restore_spec, lemma_exact_merge_wf, lemma_merge_counts_sums, opt_int,
    sum_entry,
};
use crate::exact::{add_restored_spec, admission_spec, count_or_zero, ingest_spec, is_late, lemma_commit_wf, ExactView};
use crate::laws::replay::{event_keys, lemma_pair_total_concat, lemma_pair_total_nonnegative, pair_total};
use crate::model::{EventKeyView, EventView, IngestError, PairKeyView};
use crate::sorted::{entry_of, lemma_key_insert_all, lemma_key_insert_all_rebuilds, lemma_upsert, lemma_upsert_all_rebuilds};
use vstd::prelude::*;

verus! {

/// A sequence of operations on exact windows, each applied to the window the earlier ones built.
pub enum Trace {
    /// `ExactWindow::new` under a budget.
    New(Budget),
    /// `ingest` of one event, whatever it answered.
    Ingest(Box<Trace>, EventView),
    /// `try_merge` of the second window into the first, whatever it answered.
    Merge(Box<Trace>, Box<Trace>),
    /// `add_restored` of one pair count, whatever it answered.
    AddRestored(Box<Trace>, PairKeyView, u64),
    /// `advance_watermark`.
    AdvanceWatermark(Box<Trace>, u64),
    /// `close`.
    Close(Box<Trace>),
    /// `restore` under a budget of the window's `checkpoint`.
    Restore(Box<Trace>, Budget),
}

/// A new, empty window.
pub open spec fn empty_window(b: Budget) -> ExactView {
    ExactView { budget: b, watermark: 0, closed: false, counts: Seq::empty(), dedup: Seq::empty(), witnesses: Seq::empty() }
}

/// The window a trace builds, or `None` where it builds none (a refused budget or restore).
pub open spec fn built(t: Trace) -> Option<ExactView>
    decreases t,
{
    match t {
        Trace::New(b) => if b.valid() { Some(empty_window(b)) } else { None },
        Trace::Ingest(p, e) => match built(*p) {
            Some(w) => Some(ingest_spec(w, e).1),
            None => None,
        },
        Trace::Merge(l, r) => match (built(*l), built(*r)) {
            (Some(a), Some(b)) => match exact_merge_spec(a, b) {
                Ok(v) => Some(v),
                Err(_) => Some(a),
            },
            _ => None,
        },
        Trace::AddRestored(p, k, c) => match built(*p) {
            Some(w) => match add_restored_spec(w, k, c) {
                Ok(v) => Some(v),
                Err(_) => Some(w),
            },
            None => None,
        },
        Trace::AdvanceWatermark(p, m) => match built(*p) {
            Some(w) => Some(ExactView { watermark: if m > w.watermark { m } else { w.watermark }, ..w }),
            None => None,
        },
        Trace::Close(p) => match built(*p) {
            Some(w) => Some(ExactView { closed: true, ..w }),
            None => None,
        },
        Trace::Restore(p, b) => match built(*p) {
            Some(w) => match exact_restore_spec(b, exact_checkpoint_spec(w)) {
                Ok(v) => Some(v),
                Err(_) => None,
            },
            None => None,
        },
    }
}

/// The events a trace counted (`ingest` answered `Ok(true)`), here or in a merged window.
pub open spec fn accepted(t: Trace) -> Seq<EventView>
    decreases t,
{
    match t {
        Trace::New(_) => Seq::empty(),
        Trace::Ingest(p, e) => match built(*p) {
            Some(w) => if ingest_spec(w, e).0 == Ok::<bool, IngestError>(true) {
                accepted(*p).push(e)
            } else {
                accepted(*p)
            },
            None => accepted(*p),
        },
        Trace::Merge(l, r) => match (built(*l), built(*r)) {
            (Some(a), Some(b)) => if exact_merge_spec(a, b) is Ok {
                accepted(*l) + accepted(*r)
            } else {
                accepted(*l)
            },
            _ => accepted(*l),
        },
        Trace::AddRestored(p, _, _) => accepted(*p),
        Trace::AdvanceWatermark(p, _) => accepted(*p),
        Trace::Close(p) => accepted(*p),
        Trace::Restore(p, _) => accepted(*p),
    }
}

/// The pair counts a trace added with `add_restored` and that were taken, here or in a merged window.
pub open spec fn credits(t: Trace) -> Seq<(PairKeyView, u64)>
    decreases t,
{
    match t {
        Trace::New(_) => Seq::empty(),
        Trace::Ingest(p, _) => credits(*p),
        Trace::Merge(l, r) => match (built(*l), built(*r)) {
            (Some(a), Some(b)) => if exact_merge_spec(a, b) is Ok {
                credits(*l) + credits(*r)
            } else {
                credits(*l)
            },
            _ => credits(*l),
        },
        Trace::AddRestored(p, k, c) => match built(*p) {
            Some(w) => if add_restored_spec(w, k, c) is Ok {
                credits(*p).push((k, c))
            } else {
                credits(*p)
            },
            None => credits(*p),
        },
        Trace::AdvanceWatermark(p, _) => credits(*p),
        Trace::Close(p) => credits(*p),
        Trace::Restore(p, _) => credits(*p),
    }
}

/// Some event is on pair `k`.
pub open spec fn events_carry(events: Seq<EventView>, k: PairKeyView) -> bool
    decreases events.len(),
{
    events.len() > 0 && (events.last().pair == k || events_carry(events.drop_last(), k))
}

/// Some credit is for pair `k`.
pub open spec fn credits_carry(credits: Seq<(PairKeyView, u64)>, k: PairKeyView) -> bool
    decreases credits.len(),
{
    credits.len() > 0 && (credits.last().0 == k || credits_carry(credits.drop_last(), k))
}

/// The total of the credits for pair `k`.
pub open spec fn credit_total(credits: Seq<(PairKeyView, u64)>, k: PairKeyView) -> int
    decreases credits.len(),
{
    if credits.len() == 0 {
        0
    } else {
        credit_total(credits.drop_last(), k) + (if credits.last().0 == k { credits.last().1 as int } else { 0 })
    }
}

/// The weight of the events on `k` plus the credits for `k`.
pub open spec fn tally(events: Seq<EventView>, credits: Seq<(PairKeyView, u64)>, k: PairKeyView) -> int {
    pair_total(events, k) + credit_total(credits, k)
}

/// The count a window owes pair `k`: absent when no event and no credit is on it, else the tally.
pub open spec fn owed_count(events: Seq<EventView>, credits: Seq<(PairKeyView, u64)>, k: PairKeyView) -> Option<u64> {
    if events_carry(events, k) || credits_carry(credits, k) {
        Some(tally(events, credits, k) as u64)
    } else {
        None
    }
}

/// The window is well formed, holds exactly the identity keys of `events`, and counts each
/// pair as the weights of `events` on it plus its `credits`.
pub open spec fn accounts_for(w: ExactView, events: Seq<EventView>, credits: Seq<(PairKeyView, u64)>) -> bool {
    &&& w.wf()
    &&& forall|key: EventKeyView| #[trigger] w.dedup.contains(key) <==> event_keys(events).contains(key)
    &&& forall|k: PairKeyView| #[trigger] tally(events, credits, k) <= u64::MAX
    &&& forall|k: PairKeyView| #[trigger] entry_of(w.counts, k) == owed_count(events, credits, k)
}

/// Events that do not carry `k` add nothing to it.
proof fn lemma_uncarried_events(events: Seq<EventView>, k: PairKeyView)
    ensures
        !events_carry(events, k) ==> pair_total(events, k) == 0,
        pair_total(events, k) >= 0,
    decreases events.len(),
{
    lemma_pair_total_nonnegative(events, k);
    if events.len() > 0 {
        lemma_uncarried_events(events.drop_last(), k);
    }
}

/// Credits that do not carry `k` add nothing to it.
proof fn lemma_uncarried_credits(credits: Seq<(PairKeyView, u64)>, k: PairKeyView)
    ensures
        !credits_carry(credits, k) ==> credit_total(credits, k) == 0,
        credit_total(credits, k) >= 0,
    decreases credits.len(),
{
    if credits.len() > 0 {
        lemma_uncarried_credits(credits.drop_last(), k);
    }
}

proof fn lemma_events_carry_concat(a: Seq<EventView>, c: Seq<EventView>, k: PairKeyView)
    ensures
        events_carry(a + c, k) == (events_carry(a, k) || events_carry(c, k)),
    decreases c.len(),
{
    if c.len() == 0 {
        assert(a + c =~= a);
    } else {
        lemma_events_carry_concat(a, c.drop_last(), k);
        assert((a + c).drop_last() =~= a + c.drop_last());
    }
}

proof fn lemma_credits_concat(a: Seq<(PairKeyView, u64)>, c: Seq<(PairKeyView, u64)>, k: PairKeyView)
    ensures
        credits_carry(a + c, k) == (credits_carry(a, k) || credits_carry(c, k)),
        credit_total(a + c, k) == credit_total(a, k) + credit_total(c, k),
    decreases c.len(),
{
    if c.len() == 0 {
        assert(a + c =~= a);
    } else {
        lemma_credits_concat(a, c.drop_last(), k);
        assert((a + c).drop_last() =~= a + c.drop_last());
    }
}

/// The count stored under `k` is the tally the window owes it.
proof fn lemma_stored_is_tally(w: ExactView, events: Seq<EventView>, credits: Seq<(PairKeyView, u64)>, k: PairKeyView)
    requires
        accounts_for(w, events, credits),
    ensures
        count_or_zero(w.counts, k) == tally(events, credits, k),
        0 <= tally(events, credits, k) <= u64::MAX,
{
    lemma_uncarried_events(events, k);
    lemma_uncarried_credits(credits, k);
    assert(entry_of(w.counts, k) == owed_count(events, credits, k));
    assert(tally(events, credits, k) <= u64::MAX);
}

proof fn lemma_ingest_accounts(w: ExactView, events: Seq<EventView>, credits: Seq<(PairKeyView, u64)>, e: EventView)
    requires
        accounts_for(w, events, credits),
    ensures
        ingest_spec(w, e).0 == Ok::<bool, IngestError>(true)
            ==> accounts_for(ingest_spec(w, e).1, events.push(e), credits),
        ingest_spec(w, e).0 != Ok::<bool, IngestError>(true) ==> ingest_spec(w, e).1 == w,
{
    if let Ok(Some(next)) = admission_spec(w, e) {
        let w2 = ingest_spec(w, e).1;
        let es = events.push(e);
        lemma_commit_wf(w, e, next);
        crate::sorted::lemma_key_insert(w.dedup, e.key);
        lemma_stored_is_tally(w, events, credits, e.pair);
        assert(es.drop_last() =~= events);
        assert(event_keys(es) =~= event_keys(events).push(e.key));
        assert forall|key: EventKeyView| #[trigger] w2.dedup.contains(key) <==> event_keys(es).contains(key) by {
            if event_keys(es).contains(key) && key != e.key {
                let j = choose|j: int| 0 <= j < event_keys(es).len() && event_keys(es)[j] == key;
                assert(event_keys(events)[j] == key);
            }
            if event_keys(events).contains(key) {
                let j = choose|j: int| 0 <= j < event_keys(events).len() && event_keys(events)[j] == key;
                assert(event_keys(es)[j] == key);
            }
            if key == e.key {
                assert(event_keys(es)[events.len() as int] == key);
            }
        }
        assert forall|k: PairKeyView| #[trigger] tally(es, credits, k) <= u64::MAX by {
            assert(tally(events, credits, k) <= u64::MAX);
        }
        assert forall|k: PairKeyView| #[trigger] entry_of(w2.counts, k) == owed_count(es, credits, k) by {
            assert(entry_of(w.counts, k) == owed_count(events, credits, k));
            assert(tally(events, credits, k) <= u64::MAX);
            lemma_uncarried_events(events, k);
            lemma_uncarried_credits(credits, k);
        }
    }
}

proof fn lemma_merge_accounts(
    a: ExactView,
    ea: Seq<EventView>,
    ca: Seq<(PairKeyView, u64)>,
    b: ExactView,
    eb: Seq<EventView>,
    cb: Seq<(PairKeyView, u64)>,
)
    requires
        accounts_for(a, ea, ca),
        accounts_for(b, eb, cb),
        exact_merge_spec(a, b) is Ok,
    ensures
        accounts_for(exact_merge_spec(a, b)->Ok_0, ea + eb, ca + cb),
{
    let v = exact_merge_spec(a, b)->Ok_0;
    let es = ea + eb;
    let cs = ca + cb;
    lemma_exact_merge_wf(a, b);
    lemma_merge_counts_sums(a.counts, b.counts, a.budget.max_pairs);
    lemma_key_insert_all(a.dedup, b.dedup);
    assert(event_keys(es) =~= event_keys(ea) + event_keys(eb));
    assert forall|key: EventKeyView| #[trigger] v.dedup.contains(key) <==> event_keys(es).contains(key) by {
        if event_keys(es).contains(key) {
            let j = choose|j: int| 0 <= j < event_keys(es).len() && event_keys(es)[j] == key;
            if j < ea.len() {
                assert(event_keys(ea)[j] == key);
            } else {
                assert(event_keys(eb)[j - ea.len()] == key);
            }
        }
        if event_keys(ea).contains(key) {
            let j = choose|j: int| 0 <= j < event_keys(ea).len() && event_keys(ea)[j] == key;
            assert(event_keys(es)[j] == key);
        }
        if event_keys(eb).contains(key) {
            let j = choose|j: int| 0 <= j < event_keys(eb).len() && event_keys(eb)[j] == key;
            assert(event_keys(es)[ea.len() + j] == key);
        }
    }
    assert forall|k: PairKeyView| #[trigger] entry_of(v.counts, k) == owed_count(es, cs, k)
        && tally(es, cs, k) <= u64::MAX by {
        lemma_pair_total_concat(ea, eb, k);
        lemma_events_carry_concat(ea, eb, k);
        lemma_credits_concat(ca, cb, k);
        lemma_uncarried_events(ea, k);
        lemma_uncarried_events(eb, k);
        lemma_uncarried_credits(ca, k);
        lemma_uncarried_credits(cb, k);
        assert(entry_of(a.counts, k) == owed_count(ea, ca, k));
        assert(entry_of(b.counts, k) == owed_count(eb, cb, k));
        assert(tally(ea, ca, k) <= u64::MAX);
        assert(tally(eb, cb, k) <= u64::MAX);
        assert(opt_int(entry_of(v.counts, k)) == sum_entry(entry_of(a.counts, k), entry_of(b.counts, k)));
    }
    assert forall|k: PairKeyView| #[trigger] tally(es, cs, k) <= u64::MAX by {
        assert(entry_of(v.counts, k) == owed_count(es, cs, k) && tally(es, cs, k) <= u64::MAX);
    }
    assert forall|k: PairKeyView| #[trigger] entry_of(v.counts, k) == owed_count(es, cs, k) by {
        assert(entry_of(v.counts, k) == owed_count(es, cs, k) && tally(es, cs, k) <= u64::MAX);
    }
}

proof fn lemma_add_restored_accounts(
    w: ExactView,
    events: Seq<EventView>,
    credits: Seq<(PairKeyView, u64)>,
    k: PairKeyView,
    c: u64,
)
    requires
        accounts_for(w, events, credits),
        add_restored_spec(w, k, c) is Ok,
    ensures
        accounts_for(add_restored_spec(w, k, c)->Ok_0, events, credits.push((k, c))),
{
    let v = add_restored_spec(w, k, c)->Ok_0;
    let cs = credits.push((k, c));
    lemma_stored_is_tally(w, events, credits, k);
    let current = count_or_zero(w.counts, k);
    lemma_upsert(w.counts, k, (current + c) as u64);
    assert(cs.drop_last() =~= credits);
    assert forall|q: PairKeyView| #[trigger] entry_of(v.counts, q) == owed_count(events, cs, q)
        && tally(events, cs, q) <= u64::MAX by {
        assert(entry_of(w.counts, q) == owed_count(events, credits, q));
        assert(tally(events, credits, q) <= u64::MAX);
        lemma_uncarried_events(events, q);
        lemma_uncarried_credits(credits, q);
    }
    assert forall|q: PairKeyView| #[trigger] tally(events, cs, q) <= u64::MAX by {
        assert(entry_of(v.counts, q) == owed_count(events, cs, q) && tally(events, cs, q) <= u64::MAX);
    }
    assert forall|q: PairKeyView| #[trigger] entry_of(v.counts, q) == owed_count(events, cs, q) by {
        assert(entry_of(v.counts, q) == owed_count(events, cs, q) && tally(events, cs, q) <= u64::MAX);
    }
    assert(v.wf());
}

proof fn lemma_restore_accounts(w: ExactView, events: Seq<EventView>, credits: Seq<(PairKeyView, u64)>, b: Budget)
    requires
        accounts_for(w, events, credits),
        exact_restore_spec(b, exact_checkpoint_spec(w)) is Ok,
    ensures
        accounts_for(exact_restore_spec(b, exact_checkpoint_spec(w))->Ok_0, events, credits),
{
    lemma_upsert_all_rebuilds(w.counts);
    lemma_key_insert_all_rebuilds(w.dedup);
}

/// Whatever operations built an exact window (ingests, merges, restored pair counts, watermark
/// moves, closes, restores of checkpoints), the window is well formed, holds exactly the identity
/// keys of the events it counted (here or in a merged window), and counts each pair as the sum of
/// the weights of those events on it plus the pair counts restored into it: absent exactly where
/// no such event and no restored count is on the pair.
pub proof fn law_every_count_is_accounted_for(t: Trace)
    ensures
        built(t) matches Some(w) ==> accounts_for(w, accepted(t), credits(t)),
    decreases t,
{
    match t {
        Trace::New(b) => {
            let w = empty_window(b);
            assert forall|key: EventKeyView| #[trigger] w.dedup.contains(key) <==> event_keys(Seq::<EventView>::empty()).contains(key) by {
                assert(event_keys(Seq::<EventView>::empty()) =~= Seq::<EventKeyView>::empty());
            }
        },
        Trace::Ingest(p, e) => {
            law_every_count_is_accounted_for(*p);
            if let Some(w) = built(*p) {
                lemma_ingest_accounts(w, accepted(*p), credits(*p), e);
            }
        },
        Trace::Merge(l, r) => {
            law_every_count_is_accounted_for(*l);
            law_every_count_is_accounted_for(*r);
            if let (Some(a), Some(b)) = (built(*l), built(*r)) {
                if exact_merge_spec(a, b) is Ok {
                    lemma_merge_accounts(a, accepted(*l), credits(*l), b, accepted(*r), credits(*r));
                }
            }
        },
        Trace::AddRestored(p, k, c) => {
            law_every_count_is_accounted_for(*p);
            if let Some(w) = built(*p) {
                if add_restored_spec(w, k, c) is Ok {
                    lemma_add_restored_accounts(w, accepted(*p), credits(*p), k, c);
                }
            }
        },
        Trace::AdvanceWatermark(p, _) => {
            law_every_count_is_accounted_for(*p);
        },
        Trace::Close(p) => {
            law_every_count_is_accounted_for(*p);
        },
        Trace::Restore(p, b) => {
            law_every_count_is_accounted_for(*p);
            if let Some(w) = built(*p) {
                if exact_restore_spec(b, exact_checkpoint_spec(w)) is Ok {
                    lemma_restore_accounts(w, accepted(*p), credits(*p), b);
                }
            }
        },
    }
}

/// Once an event is counted, its identity stays through every later operation: an event with the
/// same identity is never counted again, and while the window is open and the event is neither
/// weightless nor late, it is answered `Ok(false)` with the window unchanged, whatever its pair,
/// weight or evidence.
pub proof fn law_counted_identity_stays_a_duplicate(t: Trace, e: EventView)
    requires
        built(t) is Some,
        event_keys(accepted(t)).contains(e.key),
    ensures
        ingest_spec(built(t)->Some_0, e).0 != Ok::<bool, IngestError>(true),
        ({
            let w = built(t)->Some_0;
            !w.closed && e.weight > 0 && !is_late(w.budget, w.watermark, e.event_time)
                ==> ingest_spec(w, e) == (Ok::<bool, IngestError>(false), w)
        }),
{
    law_every_count_is_accounted_for(t);
}

} // verus!
