//! Strict orders on keys, and ascending sequences used as maps and sets.
//!
//! Exact windows keep their pairs and identity keys in ascending key order,
//! so that a checkpoint lists them the same way every time.

use crate::model::{EventKeyView, EventPhase, PairKeyView};
use vstd::prelude::*;
use vstd::utf8::*;

verus! {

// ---------------------------------------------------------------------------
// Bytes and text
// ---------------------------------------------------------------------------

/// Strict lexicographic order on byte strings (the order of `[u8]` and of `str`).
pub open spec fn bytes_before(a: Seq<u8>, b: Seq<u8>) -> bool
    decreases a.len(),
{
    if a.len() == 0 {
        b.len() > 0
    } else if b.len() == 0 {
        false
    } else if a[0] != b[0] {
        a[0] < b[0]
    } else {
        bytes_before(a.drop_first(), b.drop_first())
    }
}

pub proof fn lemma_bytes_irreflexive(a: Seq<u8>)
    ensures
        !bytes_before(a, a),
    decreases a.len(),
{
    if a.len() > 0 {
        lemma_bytes_irreflexive(a.drop_first());
    }
}

pub proof fn lemma_bytes_transitive(a: Seq<u8>, b: Seq<u8>, c: Seq<u8>)
    requires
        bytes_before(a, b),
        bytes_before(b, c),
    ensures
        bytes_before(a, c),
    decreases a.len(),
{
    if a.len() > 0 && b.len() > 0 && c.len() > 0 && a[0] == b[0] && b[0] == c[0] {
        lemma_bytes_transitive(a.drop_first(), b.drop_first(), c.drop_first());
    }
}

pub proof fn lemma_bytes_total(a: Seq<u8>, b: Seq<u8>)
    requires
        a != b,
    ensures
        bytes_before(a, b) || bytes_before(b, a),
    decreases a.len(),
{
    if a.len() > 0 && b.len() > 0 && a[0] == b[0] {
        if a.drop_first() == b.drop_first() {
            assert(a =~= seq![a[0]] + a.drop_first());
            assert(b =~= seq![b[0]] + b.drop_first());
        }
        lemma_bytes_total(a.drop_first(), b.drop_first());
    } else if a.len() == 0 && b.len() == 0 {
        assert(a =~= b);
    }
}

proof fn lemma_bytes_skip(a: Seq<u8>, b: Seq<u8>, i: int)
    requires
        0 <= i <= a.len(),
        i <= b.len(),
        forall|j: int| 0 <= j < i ==> a[j] == b[j],
    ensures
        bytes_before(a, b) == bytes_before(a.skip(i), b.skip(i)),
    decreases i,
{
    if i == 0 {
        assert(a.skip(0) =~= a);
        assert(b.skip(0) =~= b);
    } else {
        assert(a[0] == b[0]);
        lemma_bytes_skip(a.drop_first(), b.drop_first(), i - 1);
        assert(a.drop_first().skip(i - 1) =~= a.skip(i));
        assert(b.drop_first().skip(i - 1) =~= b.skip(i));
    }
}

/// The three outcomes of comparing two keys.
#[derive(Debug, Clone, Copy, PartialEq, Eq, Structural)]
pub enum Rank {
    Before,
    Same,
    After,
}

/// Compares two byte strings lexicographically.
pub(crate) fn compare_bytes(a: &[u8], b: &[u8]) -> (r: Rank)
    ensures
        (r == Rank::Before) == bytes_before(a@, b@),
        (r == Rank::Same) == (a@ == b@),
        (r == Rank::After) == bytes_before(b@, a@),
{
    proof {
        lemma_bytes_irreflexive(a@);
        if bytes_before(a@, b@) && bytes_before(b@, a@) {
            lemma_bytes_transitive(a@, b@, a@);
        }
    }
    let n: usize = if a.len() < b.len() { a.len() } else { b.len() };
    let mut i: usize = 0;
    while i < n
        invariant
            i <= n,
            n <= a@.len(),
            n <= b@.len(),
            n == a@.len() || n == b@.len(),
            forall|j: int| 0 <= j < i ==> a@[j] == b@[j],
        decreases n - i,
    {
        if a[i] != b[i] {
            proof {
                lemma_bytes_skip(a@, b@, i as int);
                lemma_bytes_skip(b@, a@, i as int);
                assert(a@.skip(i as int)[0] == a@[i as int]);
                assert(b@.skip(i as int)[0] == b@[i as int]);
            }
            if a[i] < b[i] {
                return Rank::Before;
            } else {
                return Rank::After;
            }
        }
        i += 1;
    }
    proof {
        lemma_bytes_skip(a@, b@, n as int);
        lemma_bytes_skip(b@, a@, n as int);
    }
    if a.len() < b.len() {
        Rank::Before
    } else if b.len() < a.len() {
        Rank::After
    } else {
        assert(a@ =~= b@);
        Rank::Same
    }
}

/// Strict order on text: the lexicographic order of its UTF-8 bytes, as std orders `String`.
pub open spec fn text_before(a: Seq<char>, b: Seq<char>) -> bool {
    bytes_before(encode_utf8(a), encode_utf8(b))
}

pub proof fn lemma_text_order(a: Seq<char>, b: Seq<char>, c: Seq<char>)
    ensures
        !text_before(a, a),
        text_before(a, b) && text_before(b, c) ==> text_before(a, c),
        a != b ==> text_before(a, b) || text_before(b, a),
        text_before(a, b) ==> !text_before(b, a),
{
    lemma_bytes_irreflexive(encode_utf8(a));
    if text_before(a, b) && text_before(b, c) {
        lemma_bytes_transitive(encode_utf8(a), encode_utf8(b), encode_utf8(c));
    }
    if text_before(a, b) && text_before(b, a) {
        lemma_bytes_transitive(encode_utf8(a), encode_utf8(b), encode_utf8(a));
    }
    if a != b {
        encode_utf8_decode_utf8(a);
        encode_utf8_decode_utf8(b);
        lemma_bytes_total(encode_utf8(a), encode_utf8(b));
    }
}

/// Compares two strings as std orders them.
pub(crate) fn compare_text(a: &str, b: &str) -> (r: Rank)
    ensures
        (r == Rank::Before) == text_before(a@, b@),
        (r == Rank::Same) == (a@ == b@),
        (r == Rank::After) == text_before(b@, a@),
{
    let x = a.as_bytes();
    let y = b.as_bytes();
    let r = compare_bytes(x, y);
    proof {
        encode_utf8_decode_utf8(a@);
        encode_utf8_decode_utf8(b@);
    }
    r
}

/// Compares two integers.
pub(crate) fn compare_u64(a: u64, b: u64) -> (r: Rank)
    ensures
        (r == Rank::Before) == (a < b),
        (r == Rank::Same) == (a == b),
        (r == Rank::After) == (b < a),
{
    if a < b {
        Rank::Before
    } else if b < a {
        Rank::After
    } else {
        Rank::Same
    }
}

// ---------------------------------------------------------------------------
// Strict total orders on keys
// ---------------------------------------------------------------------------

/// A strict total order on the views of keys.
pub trait StrictOrder: Sized {
    spec fn before(self, other: Self) -> bool;

    proof fn lemma_order(a: Self, b: Self, c: Self)
        ensures
            !a.before(a),
            a.before(b) && b.before(c) ==> a.before(c),
            a != b ==> a.before(b) || b.before(a),
    ;
}

impl StrictOrder for PairKeyView {
    /// Scope, then relation name, then unit, then source, then target.
    open spec fn before(self, other: Self) -> bool {
        if self.scope != other.scope {
            text_before(self.scope, other.scope)
        } else if self.name != other.name {
            text_before(self.name, other.name)
        } else if self.unit != other.unit {
            text_before(self.unit, other.unit)
        } else if self.source != other.source {
            text_before(self.source, other.source)
        } else {
            text_before(self.target, other.target)
        }
    }

    proof fn lemma_order(a: Self, b: Self, c: Self) {
        lemma_text_order(a.scope, b.scope, c.scope);
        lemma_text_order(a.name, b.name, c.name);
        lemma_text_order(a.unit, b.unit, c.unit);
        lemma_text_order(a.source, b.source, c.source);
        lemma_text_order(a.target, b.target, c.target);
        lemma_text_order(b.target, c.target, a.target);
        lemma_text_order(c.target, a.target, b.target);
    }
}

/// The rank of a phase in the order of its variants.
pub open spec fn phase_rank(p: EventPhase) -> int {
    match p {
        EventPhase::Request => 0,
        EventPhase::ReportedResult => 1,
        EventPhase::VerifiedEffect => 2,
    }
}

impl StrictOrder for EventKeyView {
    /// Producer, then boot epoch, then sequence, then phase.
    open spec fn before(self, other: Self) -> bool {
        if self.producer != other.producer {
            text_before(self.producer, other.producer)
        } else if self.boot_epoch != other.boot_epoch {
            self.boot_epoch < other.boot_epoch
        } else if self.sequence != other.sequence {
            self.sequence < other.sequence
        } else {
            phase_rank(self.phase) < phase_rank(other.phase)
        }
    }

    proof fn lemma_order(a: Self, b: Self, c: Self) {
        lemma_text_order(a.producer, b.producer, c.producer);
    }
}

} // verus!
