# weavatrix_stream

Bounded streaming aggregates for typed `source -> target` interactions, written in
Verus. Every function of the library carries a contract, and Verus proves each body
against it.

An event carries an identity (producer, boot epoch, sequence, phase), a scope, a
relation, a source, a target, an event time and a weight. A window counts each
identity once, refuses late, zero-weight and overflowing events, and keeps its
registries within a budget. The sketch backend keeps, beside the exact counts, a
count-min matrix per replica indexed by full-key hashes.

## Layout

- `src/model.rs`: events, keys, checkpoints and their mathematical views.
- `src/budget.rs`: budgets and their validation.
- `src/order.rs`, `src/sorted.rs`: the key orders (text by its UTF-8 bytes), and
  ascending sequences read as maps and sets, with their lemmas.
- `src/exact/`: the exact window; `store.rs` holds checkpoint, restore and merge.
- `src/hash.rs`, `src/hcms.rs`: full-key hashing and the sketch.
- `src/window.rs`: the `StreamWindow` entry point over both backends.
- `src/score.rs`: integer square root and the heuristic density scores.
- `src/explain.rs`, `src/adapters/`: candidates and host adapters.
- `src/laws/`: properties across calls: a refused event changes nothing, an
  identity counts once and stays counted through every later operation, each
  count is the sum of the weights counted for its pair (across merges, restores
  and restored counts), restoring a checkpoint decides every later event alike,
  merging disjoint panes equals one replay of both (exact window, sketch, and the
  two together), sketch merges commute, an unseen pair never appears, and
  length-prefixed hash fields cannot be confused.

## Pair and identity registries

Pair counts and identity keys are kept in `Vec`s sorted by key rather than in a
`BTreeMap` and a `BTreeSet`. Their keys are tuples of text fields, and vstd gives
no usable ordering contract for such keys in the standard B-tree collections; the
sorted vectors carry a proved order instead (UTF-8 bytes, then field by field,
which is how `String` and tuples compare), so checkpoints list pairs and keys in
the same order. The cost is a linear search and a `Vec::insert` per new key, where
a B-tree is logarithmic.

## Using it

```rust
use weavatrix_stream::{Budget, StreamWindow};

let mut window = StreamWindow::exact(Budget::small()).unwrap();
// window.ingest(&event) answers Ok(true), Ok(false) for a duplicate, or an error.
```

The tests under `tests/` exercise the library on concrete values.
