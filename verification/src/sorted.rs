//! Ascending sequences of keyed entries, read as maps, and of keys, read as sets.

use crate::order::StrictOrder;
use vstd::prelude::*;

verus! {

// ---------------------------------------------------------------------------
// Ascending entries: a map
// ---------------------------------------------------------------------------

/// Every key comes before every later key.
pub open spec fn ascending_entries<K: StrictOrder, V>(s: Seq<(K, V)>) -> bool {
    forall|i: int, j: int| #![trigger s[i], s[j]] 0 <= i < j < s.len() ==> s[i].0.before(s[j].0)
}

/// How many leading entries have keys before `k`: where `k` stands or would stand.
pub open spec fn entry_rank<K: StrictOrder, V>(s: Seq<(K, V)>, k: K) -> nat
    decreases s.len(),
{
    if s.len() > 0 && s[0].0.before(k) {
        1 + entry_rank(s.drop_first(), k)
    } else {
        0
    }
}

/// The value stored under `k`, if any.
pub open spec fn entry_of<K: StrictOrder, V>(s: Seq<(K, V)>, k: K) -> Option<V> {
    let i = entry_rank(s, k) as int;
    if i < s.len() && s[i].0 == k {
        Some(s[i].1)
    } else {
        None
    }
}

/// `s` with `k` mapped to `v`, the order of keys kept.
pub open spec fn upsert<K: StrictOrder, V>(s: Seq<(K, V)>, k: K, v: V) -> Seq<(K, V)> {
    let i = entry_rank(s, k) as int;
    if i < s.len() && s[i].0 == k {
        s.update(i, (k, v))
    } else {
        s.insert(i, (k, v))
    }
}

/// The entries of `s`, upserted one after the other into `into`.
pub open spec fn upsert_all<K: StrictOrder, V>(into: Seq<(K, V)>, s: Seq<(K, V)>) -> Seq<(K, V)>
    decreases s.len(),
{
    if s.len() == 0 {
        into
    } else {
        let last = s.last();
        upsert(upsert_all(into, s.drop_last()), last.0, last.1)
    }
}

pub proof fn lemma_entry_rank<K: StrictOrder, V>(s: Seq<(K, V)>, k: K)
    ensures
        entry_rank(s, k) <= s.len(),
        forall|j: int| 0 <= j < entry_rank(s, k) ==> (#[trigger] s[j]).0.before(k),
        entry_rank(s, k) < s.len() ==> !s[entry_rank(s, k) as int].0.before(k),
    decreases s.len(),
{
    if s.len() > 0 && s[0].0.before(k) {
        lemma_entry_rank(s.drop_first(), k);
        assert forall|j: int| 0 <= j < entry_rank(s, k) implies (#[trigger] s[j]).0.before(k) by {
            if j > 0 {
                assert(s[j] == s.drop_first()[j - 1]);
            }
        }
    }
}

/// An index whose prefix comes before `k`, and whose entry does not, is the rank of `k`.
pub proof fn lemma_entry_rank_is<K: StrictOrder, V>(s: Seq<(K, V)>, k: K, i: int)
    requires
        0 <= i <= s.len(),
        forall|j: int| 0 <= j < i ==> (#[trigger] s[j]).0.before(k),
        i < s.len() ==> !s[i].0.before(k),
    ensures
        entry_rank(s, k) == i,
    decreases i,
{
    if i > 0 {
        assert(s[0].0.before(k));
        assert forall|j: int| 0 <= j < i - 1 implies (#[trigger] s.drop_first()[j]).0.before(k) by {
            assert(s.drop_first()[j] == s[j + 1]);
        }
        lemma_entry_rank_is(s.drop_first(), k, i - 1);
    }
}

/// In ascending entries, the entry that holds `k` is the one `entry_of` finds.
pub proof fn lemma_entry_of<K: StrictOrder, V>(s: Seq<(K, V)>, k: K)
    requires
        ascending_entries(s),
    ensures
        forall|i: int| 0 <= i < s.len() && (#[trigger] s[i]).0 == k ==> entry_rank(s, k) == i && entry_of(s, k) == Some(s[i].1),
        entry_of(s, k) is None <==> forall|i: int| 0 <= i < s.len() ==> (#[trigger] s[i]).0 != k,
{
    lemma_entry_rank(s, k);
    assert forall|i: int| 0 <= i < s.len() && (#[trigger] s[i]).0 == k implies entry_rank(s, k) == i && entry_of(s, k) == Some(s[i].1) by {
        assert forall|j: int| 0 <= j < i implies (#[trigger] s[j]).0.before(k) by {
            assert(s[j].0.before(s[i].0));
        }
        K::lemma_order(k, k, k);
        lemma_entry_rank_is(s, k, i);
    }
}

/// Upserting keeps the entries ascending, maps `k` to `v` and keeps every other key.
pub proof fn lemma_upsert<K: StrictOrder, V>(s: Seq<(K, V)>, k: K, v: V)
    requires
        ascending_entries(s),
    ensures
        ascending_entries(upsert(s, k, v)),
        entry_of(upsert(s, k, v), k) == Some(v),
        forall|k2: K| k2 != k ==> entry_of(upsert(s, k, v), k2) == #[trigger] entry_of(s, k2),
        upsert(s, k, v).len() == s.len() + (if entry_of(s, k) is None { 1int } else { 0int }),
{
    lemma_entry_rank(s, k);
    let i = entry_rank(s, k) as int;
    let t = upsert(s, k, v);
    if i < s.len() && s[i].0 == k {
        assert(t.len() == s.len());
        assert forall|a: int, b: int| #![trigger t[a], t[b]] 0 <= a < b < t.len() implies t[a].0.before(t[b].0) by {
            assert(s[a].0.before(s[b].0));
        }
    } else {
        assert forall|a: int, b: int| #![trigger t[a], t[b]] 0 <= a < b < t.len() implies t[a].0.before(t[b].0) by {
            if b < i {
                assert(t[a] == s[a] && t[b] == s[b]);
                assert(s[a].0.before(s[b].0));
            } else if b == i {
                assert(t[a] == s[a]);
            } else if a == i {
                assert(t[b] == s[b - 1]);
                K::lemma_order(s[i].0, k, s[i].0);
                if b - 1 > i {
                    assert(s[i].0.before(s[b - 1].0));
                    K::lemma_order(k, s[i].0, s[b - 1].0);
                }
            } else if a < i {
                assert(t[a] == s[a] && t[b] == s[b - 1]);
                assert(s[a].0.before(s[b - 1].0));
            } else {
                assert(t[a] == s[a - 1] && t[b] == s[b - 1]);
                assert(s[a - 1].0.before(s[b - 1].0));
            }
        }
    }
    lemma_entry_of(t, k);
    assert(t[i].0 == k);
    assert forall|k2: K| k2 != k implies entry_of(t, k2) == #[trigger] entry_of(s, k2) by {
        lemma_entry_of(s, k2);
        lemma_entry_of(t, k2);
        if entry_of(s, k2) is Some {
            let j = entry_rank(s, k2) as int;
            if i < s.len() && s[i].0 == k {
                assert(t[j] == s[j]);
            } else if j < i {
                assert(t[j] == s[j]);
            } else {
                assert(t[j + 1] == s[j]);
            }
        } else {
            assert forall|j: int| 0 <= j < t.len() implies (#[trigger] t[j]).0 != k2 by {
                if i < s.len() && s[i].0 == k {
                    if j != i {
                        assert(t[j] == s[j]);
                    }
                } else if j < i {
                    assert(t[j] == s[j]);
                } else if j > i {
                    assert(t[j] == s[j - 1]);
                }
            }
        }
    }
    lemma_entry_of(s, k);
}

/// Upserting a key that comes after every key present appends it.
pub proof fn lemma_upsert_last<K: StrictOrder, V>(s: Seq<(K, V)>, k: K, v: V)
    requires
        forall|j: int| 0 <= j < s.len() ==> (#[trigger] s[j]).0.before(k),
    ensures
        upsert(s, k, v) == s.push((k, v)),
{
    lemma_entry_rank_is(s, k, s.len() as int);
    assert(s.insert(s.len() as int, (k, v)) =~= s.push((k, v)));
}

/// Upserting the entries of an ascending sequence, one by one, into nothing rebuilds it.
pub proof fn lemma_upsert_all_rebuilds<K: StrictOrder, V>(s: Seq<(K, V)>)
    requires
        ascending_entries(s),
    ensures
        upsert_all(Seq::empty(), s) == s,
    decreases s.len(),
{
    if s.len() > 0 {
        let p = s.drop_last();
        assert forall|i: int, j: int| #![trigger p[i], p[j]] 0 <= i < j < p.len() implies p[i].0.before(p[j].0) by {
            assert(s[i].0.before(s[j].0));
        }
        lemma_upsert_all_rebuilds(p);
        assert forall|j: int| 0 <= j < p.len() implies (#[trigger] p[j]).0.before(s.last().0) by {
            assert(s[j].0.before(s[s.len() - 1].0));
        }
        lemma_upsert_last(p, s.last().0, s.last().1);
        assert(p.push(s.last()) =~= s);
    }
}

// ---------------------------------------------------------------------------
// Ascending keys: a set
// ---------------------------------------------------------------------------

/// Every key comes before every later key.
pub open spec fn ascending_keys<K: StrictOrder>(s: Seq<K>) -> bool {
    forall|i: int, j: int| #![trigger s[i], s[j]] 0 <= i < j < s.len() ==> s[i].before(s[j])
}

/// How many leading keys come before `k`.
pub open spec fn key_rank<K: StrictOrder>(s: Seq<K>, k: K) -> nat
    decreases s.len(),
{
    if s.len() > 0 && s[0].before(k) {
        1 + key_rank(s.drop_first(), k)
    } else {
        0
    }
}

/// `s` with `k` added where it belongs, unless it is there already.
pub open spec fn key_insert<K: StrictOrder>(s: Seq<K>, k: K) -> Seq<K> {
    let i = key_rank(s, k) as int;
    if i < s.len() && s[i] == k {
        s
    } else {
        s.insert(i, k)
    }
}

/// The keys of `s`, inserted one after the other into `into`.
pub open spec fn key_insert_all<K: StrictOrder>(into: Seq<K>, s: Seq<K>) -> Seq<K>
    decreases s.len(),
{
    if s.len() == 0 {
        into
    } else {
        key_insert(key_insert_all(into, s.drop_last()), s.last())
    }
}

pub proof fn lemma_key_rank<K: StrictOrder>(s: Seq<K>, k: K)
    ensures
        key_rank(s, k) <= s.len(),
        forall|j: int| 0 <= j < key_rank(s, k) ==> (#[trigger] s[j]).before(k),
        key_rank(s, k) < s.len() ==> !s[key_rank(s, k) as int].before(k),
    decreases s.len(),
{
    if s.len() > 0 && s[0].before(k) {
        lemma_key_rank(s.drop_first(), k);
        assert forall|j: int| 0 <= j < key_rank(s, k) implies (#[trigger] s[j]).before(k) by {
            if j > 0 {
                assert(s[j] == s.drop_first()[j - 1]);
            }
        }
    }
}

pub proof fn lemma_key_rank_is<K: StrictOrder>(s: Seq<K>, k: K, i: int)
    requires
        0 <= i <= s.len(),
        forall|j: int| 0 <= j < i ==> (#[trigger] s[j]).before(k),
        i < s.len() ==> !s[i].before(k),
    ensures
        key_rank(s, k) == i,
    decreases i,
{
    if i > 0 {
        assert(s[0].before(k));
        assert forall|j: int| 0 <= j < i - 1 implies (#[trigger] s.drop_first()[j]).before(k) by {
            assert(s.drop_first()[j] == s[j + 1]);
        }
        lemma_key_rank_is(s.drop_first(), k, i - 1);
    }
}

/// In ascending keys, `k` is present exactly when it stands at its rank.
pub proof fn lemma_key_present<K: StrictOrder>(s: Seq<K>, k: K)
    requires
        ascending_keys(s),
    ensures
        s.contains(k) <==> (key_rank(s, k) < s.len() && s[key_rank(s, k) as int] == k),
{
    lemma_key_rank(s, k);
    if s.contains(k) {
        let i = choose|i: int| 0 <= i < s.len() && s[i] == k;
        assert forall|j: int| 0 <= j < i implies (#[trigger] s[j]).before(k) by {
            assert(s[j].before(s[i]));
        }
        K::lemma_order(k, k, k);
        lemma_key_rank_is(s, k, i);
    }
}

/// Inserting keeps the keys ascending, adds `k` and keeps every other key.
pub proof fn lemma_key_insert<K: StrictOrder>(s: Seq<K>, k: K)
    requires
        ascending_keys(s),
    ensures
        ascending_keys(key_insert(s, k)),
        forall|k2: K| #[trigger] key_insert(s, k).contains(k2) <==> (s.contains(k2) || k2 == k),
        key_insert(s, k).len() == s.len() + (if s.contains(k) { 0int } else { 1int }),
{
    lemma_key_rank(s, k);
    lemma_key_present(s, k);
    let i = key_rank(s, k) as int;
    let t = key_insert(s, k);
    if !(i < s.len() && s[i] == k) {
        assert forall|a: int, b: int| #![trigger t[a], t[b]] 0 <= a < b < t.len() implies t[a].before(t[b]) by {
            if b < i {
                assert(s[a].before(s[b]));
            } else if b == i {
                assert(t[a] == s[a]);
            } else if a == i {
                assert(t[b] == s[b - 1]);
                K::lemma_order(s[i], k, s[i]);
                if b - 1 > i {
                    assert(s[i].before(s[b - 1]));
                    K::lemma_order(k, s[i], s[b - 1]);
                }
            } else if a < i {
                assert(t[a] == s[a] && t[b] == s[b - 1]);
                assert(s[a].before(s[b - 1]));
            } else {
                assert(t[a] == s[a - 1] && t[b] == s[b - 1]);
                assert(s[a - 1].before(s[b - 1]));
            }
        }
        assert forall|k2: K| #[trigger] t.contains(k2) <==> (s.contains(k2) || k2 == k) by {
            if t.contains(k2) {
                let j = choose|j: int| 0 <= j < t.len() && t[j] == k2;
                if j < i {
                    assert(s[j] == k2);
                } else if j > i {
                    assert(s[j - 1] == k2);
                }
            }
            if s.contains(k2) {
                let j = choose|j: int| 0 <= j < s.len() && s[j] == k2;
                if j < i {
                    assert(t[j] == k2);
                } else {
                    assert(t[j + 1] == k2);
                }
            }
            if k2 == k {
                assert(t[i] == k);
            }
        }
    }
}

/// Inserting many keys keeps the keys ascending and holds exactly the keys of both.
pub proof fn lemma_key_insert_all<K: StrictOrder>(into: Seq<K>, s: Seq<K>)
    requires
        ascending_keys(into),
    ensures
        ascending_keys(key_insert_all(into, s)),
        forall|k: K| #[trigger] key_insert_all(into, s).contains(k) <==> (into.contains(k) || s.contains(k)),
        key_insert_all(into, s).len() <= into.len() + s.len(),
    decreases s.len(),
{
    if s.len() > 0 {
        let p = s.drop_last();
        lemma_key_insert_all(into, p);
        lemma_key_insert(key_insert_all(into, p), s.last());
        assert forall|k: K| #[trigger] key_insert_all(into, s).contains(k) <==> (into.contains(k) || s.contains(k)) by {
            if p.contains(k) {
                let j = choose|j: int| 0 <= j < p.len() && p[j] == k;
                assert(s[j] == k);
            }
            if s.contains(k) {
                let j = choose|j: int| 0 <= j < s.len() && s[j] == k;
                if j < s.len() - 1 {
                    assert(p[j] == k);
                }
            }
        }
    }
}

/// Inserting a key that comes after every key present appends it.
pub proof fn lemma_key_insert_last<K: StrictOrder>(s: Seq<K>, k: K)
    requires
        forall|j: int| 0 <= j < s.len() ==> (#[trigger] s[j]).before(k),
    ensures
        key_insert(s, k) == s.push(k),
{
    lemma_key_rank_is(s, k, s.len() as int);
    assert(s.insert(s.len() as int, k) =~= s.push(k));
}

/// Inserting the keys of an ascending sequence, one by one, into nothing rebuilds it.
pub proof fn lemma_key_insert_all_rebuilds<K: StrictOrder>(s: Seq<K>)
    requires
        ascending_keys(s),
    ensures
        key_insert_all(Seq::empty(), s) == s,
    decreases s.len(),
{
    if s.len() > 0 {
        let p = s.drop_last();
        assert forall|i: int, j: int| #![trigger p[i], p[j]] 0 <= i < j < p.len() implies p[i].before(p[j]) by {
            assert(s[i].before(s[j]));
        }
        lemma_key_insert_all_rebuilds(p);
        assert forall|j: int| 0 <= j < p.len() implies (#[trigger] p[j]).before(s.last()) by {
            assert(s[j].before(s[s.len() - 1]));
        }
        lemma_key_insert_last(p, s.last());
        assert(p.push(s.last()) =~= s);
    }
}

} // verus!

verus! {

// ---------------------------------------------------------------------------
// Uniqueness and size of ascending sequences
// ---------------------------------------------------------------------------

/// Two ascending key sequences holding the same keys are the same sequence.
pub proof fn lemma_keys_unique<K: StrictOrder>(s: Seq<K>, t: Seq<K>)
    requires
        ascending_keys(s),
        ascending_keys(t),
        forall|k: K| s.contains(k) <==> t.contains(k),
    ensures
        s == t,
    decreases s.len() + t.len(),
{
    if s.len() == 0 || t.len() == 0 {
        if s.len() > 0 {
            assert(s.contains(s[0]));
        }
        if t.len() > 0 {
            assert(t.contains(t[0]));
        }
        assert(s =~= t);
    } else {
        assert(s.contains(s[0]));
        assert(t.contains(t[0]));
        let i = choose|i: int| 0 <= i < s.len() && s[i] == t[0];
        let j = choose|j: int| 0 <= j < t.len() && t[j] == s[0];
        if s[0] != t[0] {
            assert(i > 0 && j > 0);
            assert(s[0].before(s[i]));
            assert(t[0].before(t[j]));
            K::lemma_order(s[0], t[0], s[0]);
        }
        let s1 = s.drop_first();
        let t1 = t.drop_first();
        assert forall|a: int, b: int| #![trigger s1[a], s1[b]] 0 <= a < b < s1.len() implies s1[a].before(s1[b]) by {
            assert(s[a + 1].before(s[b + 1]));
        }
        assert forall|a: int, b: int| #![trigger t1[a], t1[b]] 0 <= a < b < t1.len() implies t1[a].before(t1[b]) by {
            assert(t[a + 1].before(t[b + 1]));
        }
        assert forall|k: K| s1.contains(k) <==> t1.contains(k) by {
            if s1.contains(k) {
                let a = choose|a: int| 0 <= a < s1.len() && s1[a] == k;
                assert(s[a + 1] == k);
                assert(s[0].before(s[a + 1]));
                K::lemma_order(k, k, k);
                assert(t.contains(k));
                let b = choose|b: int| 0 <= b < t.len() && t[b] == k;
                assert(b != 0);
                assert(t1[b - 1] == k);
            }
            if t1.contains(k) {
                let a = choose|a: int| 0 <= a < t1.len() && t1[a] == k;
                assert(t[a + 1] == k);
                assert(t[0].before(t[a + 1]));
                K::lemma_order(k, k, k);
                assert(s.contains(k));
                let b = choose|b: int| 0 <= b < s.len() && s[b] == k;
                assert(b != 0);
                assert(s1[b - 1] == k);
            }
        }
        lemma_keys_unique(s1, t1);
        assert(s =~= seq![s[0]] + s1);
        assert(t =~= seq![t[0]] + t1);
    }
}

/// The keys of a sequence of entries.
pub open spec fn keys_of<K, V>(s: Seq<(K, V)>) -> Seq<K> {
    s.map_values(|p: (K, V)| p.0)
}

proof fn lemma_keys_of<K: StrictOrder, V>(s: Seq<(K, V)>)
    requires
        ascending_entries(s),
    ensures
        ascending_keys(keys_of(s)),
        forall|k: K| #[trigger] keys_of(s).contains(k) <==> entry_of(s, k) is Some,
        keys_of(s).len() == s.len(),
{
    let ks = keys_of(s);
    assert forall|a: int, b: int| #![trigger ks[a], ks[b]] 0 <= a < b < ks.len() implies ks[a].before(ks[b]) by {
        assert(s[a].0.before(s[b].0));
    }
    assert forall|k: K| #[trigger] ks.contains(k) <==> entry_of(s, k) is Some by {
        lemma_entry_of(s, k);
        if ks.contains(k) {
            let i = choose|i: int| 0 <= i < ks.len() && ks[i] == k;
            assert(s[i].0 == k);
        }
        if entry_of(s, k) is Some {
            let i = entry_rank(s, k) as int;
            assert(ks[i] == k);
        }
    }
}

/// Two ascending entry sequences that store the same value under every key are the same.
pub proof fn lemma_entries_unique<K: StrictOrder, V>(s: Seq<(K, V)>, t: Seq<(K, V)>)
    requires
        ascending_entries(s),
        ascending_entries(t),
        forall|k: K| entry_of(s, k) == entry_of(t, k),
    ensures
        s == t,
{
    lemma_keys_of(s);
    lemma_keys_of(t);
    assert forall|k: K| keys_of(s).contains(k) <==> keys_of(t).contains(k) by {
        assert(entry_of(s, k) == entry_of(t, k));
    }
    lemma_keys_unique(keys_of(s), keys_of(t));
    assert forall|i: int| 0 <= i < s.len() implies s[i] == t[i] by {
        assert(keys_of(s)[i] == keys_of(t)[i]);
        lemma_entry_of(s, s[i].0);
        lemma_entry_of(t, t[i].0);
        assert(entry_of(s, s[i].0) == entry_of(t, s[i].0));
    }
    assert(s =~= t);
}

/// Ascending entries whose keys all stand in `t`, missing one of `t`'s keys, are fewer than `t`'s.
pub proof fn lemma_entries_fewer<K: StrictOrder, V, W>(s: Seq<(K, V)>, t: Seq<(K, W)>, missing: K)
    requires
        ascending_entries(s),
        ascending_entries(t),
        forall|k: K| entry_of(s, k) is Some ==> #[trigger] entry_of(t, k) is Some,
        entry_of(s, missing) is None,
        entry_of(t, missing) is Some,
    ensures
        s.len() < t.len(),
{
    lemma_keys_of(s);
    lemma_keys_of(t);
    let a = keys_of(s);
    let b = keys_of(t);
    assert(a.no_duplicates()) by {
        assert forall|i: int, j: int| 0 <= i < a.len() && 0 <= j < a.len() && i != j implies a[i] != a[j] by {
            if i < j {
                assert(a[i].before(a[j]));
            } else {
                assert(a[j].before(a[i]));
            }
            K::lemma_order(a[i], a[i], a[i]);
            K::lemma_order(a[j], a[j], a[j]);
        }
    }
    assert(b.no_duplicates()) by {
        assert forall|i: int, j: int| 0 <= i < b.len() && 0 <= j < b.len() && i != j implies b[i] != b[j] by {
            if i < j {
                assert(b[i].before(b[j]));
            } else {
                assert(b[j].before(b[i]));
            }
            K::lemma_order(b[i], b[i], b[i]);
            K::lemma_order(b[j], b[j], b[j]);
        }
    }
    a.unique_seq_to_set();
    b.unique_seq_to_set();
    let sa = a.to_set();
    let sb = b.to_set().remove(missing);
    assert(b.contains(missing));
    assert forall|k: K| sa.contains(k) implies sb.contains(k) by {
        assert(a.contains(k));
        assert(entry_of(t, k) is Some);
        assert(b.contains(k));
    }
    vstd::set_lib::lemma_len_subset(sa, sb);
}

/// In ascending entries, appending an entry past every key adds exactly that key.
pub proof fn lemma_entry_of_push<K: StrictOrder, V>(s: Seq<(K, V)>, x: (K, V), k: K)
    requires
        ascending_entries(s.push(x)),
    ensures
        entry_of(s.push(x), k) == if k == x.0 { Some(x.1) } else { entry_of(s, k) },
{
    let t = s.push(x);
    assert forall|a: int, b: int| #![trigger s[a], s[b]] 0 <= a < b < s.len() implies s[a].0.before(s[b].0) by {
        assert(t[a] == s[a] && t[b] == s[b]);
    }
    lemma_entry_of(t, k);
    lemma_entry_of(s, k);
    if k == x.0 {
        assert(t[s.len() as int] == x);
    } else if entry_of(s, k) is Some {
        let i = entry_rank(s, k) as int;
        assert(t[i] == s[i]);
    } else {
        assert forall|i: int| 0 <= i < t.len() implies (#[trigger] t[i]).0 != k by {
            if i < s.len() {
                assert(t[i] == s[i]);
            }
        }
    }
}

} // verus!

verus! {

/// Ascending entries whose keys all stand in `t` are no more than `t`'s.
pub proof fn lemma_entries_at_most<K: StrictOrder, V, W>(s: Seq<(K, V)>, t: Seq<(K, W)>)
    requires
        ascending_entries(s),
        ascending_entries(t),
        forall|k: K| entry_of(s, k) is Some ==> #[trigger] entry_of(t, k) is Some,
    ensures
        s.len() <= t.len(),
{
    lemma_keys_of(s);
    lemma_keys_of(t);
    let a = keys_of(s);
    let b = keys_of(t);
    assert(a.no_duplicates()) by {
        assert forall|i: int, j: int| 0 <= i < a.len() && 0 <= j < a.len() && i != j implies a[i] != a[j] by {
            if i < j {
                assert(a[i].before(a[j]));
            } else {
                assert(a[j].before(a[i]));
            }
            K::lemma_order(a[i], a[i], a[i]);
            K::lemma_order(a[j], a[j], a[j]);
        }
    }
    assert(b.no_duplicates()) by {
        assert forall|i: int, j: int| 0 <= i < b.len() && 0 <= j < b.len() && i != j implies b[i] != b[j] by {
            if i < j {
                assert(b[i].before(b[j]));
            } else {
                assert(b[j].before(b[i]));
            }
            K::lemma_order(b[i], b[i], b[i]);
            K::lemma_order(b[j], b[j], b[j]);
        }
    }
    a.unique_seq_to_set();
    b.unique_seq_to_set();
    assert forall|k: K| a.to_set().contains(k) implies b.to_set().contains(k) by {
        assert(a.contains(k));
        assert(entry_of(t, k) is Some);
        assert(b.contains(k));
    }
    vstd::set_lib::lemma_len_subset(a.to_set(), b.to_set());
}

/// Ascending entries hold exactly one entry per key that has a value: as many entries as keys.
pub proof fn lemma_entries_count_keys<K: StrictOrder, V>(s: Seq<(K, V)>)
    requires
        ascending_entries(s),
    ensures
        Set::new(|k: K| entry_of(s, k) is Some).finite(),
        s.len() == Set::new(|k: K| entry_of(s, k) is Some).len(),
{
    lemma_keys_of(s);
    let a = keys_of(s);
    assert(a.no_duplicates()) by {
        assert forall|i: int, j: int| 0 <= i < a.len() && 0 <= j < a.len() && i != j implies a[i] != a[j] by {
            if i < j {
                assert(a[i].before(a[j]));
            } else {
                assert(a[j].before(a[i]));
            }
            K::lemma_order(a[i], a[i], a[i]);
            K::lemma_order(a[j], a[j], a[j]);
        }
    }
    a.unique_seq_to_set();
    assert(a.to_set() =~= Set::new(|k: K| entry_of(s, k) is Some)) by {
        assert forall|k: K| a.to_set().contains(k) <==> entry_of(s, k) is Some by {
            assert(a.to_set().contains(k) <==> a.contains(k));
        }
    }
}

} // verus!
