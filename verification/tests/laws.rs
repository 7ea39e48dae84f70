use weavatrix_stream::hash::encode_fields;
use weavatrix_stream::{
    Budget, EntityId, EventKey, EventPhase, ExactWindow, HcmsWindow, IngestError, InteractionEvent, Quality,
    RelationProfile, ScopeId, StreamWindow,
};

fn event(source: &str, target: &str, sequence: u64, weight: u64) -> InteractionEvent {
    InteractionEvent {
        event_key: EventKey {
            producer: "laws".into(),
            boot_epoch: 7,
            sequence,
            phase: EventPhase::Request,
        },
        scope: ScopeId("tenant".into()),
        relation: RelationProfile::new("mcp.invocation", "count"),
        source: EntityId(source.into()),
        target: EntityId(target.into()),
        event_time: 100 + sequence,
        observed_at: None,
        weight,
        evidence: format!("seen-{sequence}"),
        quality: Quality::default(),
    }
}

fn count(window: &ExactWindow, source: &str, target: &str) -> Option<u64> {
    window.count(
        &ScopeId("tenant".into()),
        &RelationProfile::new("mcp.invocation", "count"),
        &EntityId(source.into()),
        &EntityId(target.into()),
    )
}

fn left_events() -> Vec<InteractionEvent> {
    vec![event("a", "b", 1, 2), event("a", "c", 2, 1), event("b", "c", 3, 4)]
}

fn right_events() -> Vec<InteractionEvent> {
    vec![event("a", "b", 10, 5), event("c", "d", 11, 1), event("b", "c", 12, 3)]
}

fn narrow_budget() -> Budget {
    let mut b = Budget::small();
    b.max_witnesses = 4;
    b
}

#[test]
fn length_prefixes_keep_fields_apart() {
    assert_eq!(encode_fields(&["ab", ""]), vec![2, 0, 0, 0, 97, 98, 0, 0, 0, 0]);
    assert_ne!(encode_fields(&["a\0b"]), encode_fields(&["a", "b"]));
    assert_ne!(encode_fields(&["ab", "c"]), encode_fields(&["a", "bc"]));
    assert_ne!(encode_fields(&[""]), encode_fields(&[]));
}

#[test]
fn counted_identity_stays_through_merge_watermark_and_restore() {
    let mut a = ExactWindow::new(Budget::small()).unwrap();
    let mut b = ExactWindow::new(Budget::small()).unwrap();
    assert_eq!(a.ingest(&event("a", "b", 1, 2)), Ok(true));
    assert_eq!(b.ingest(&event("a", "c", 2, 3)), Ok(true));
    assert_eq!(a.try_merge(&b), Ok(()));
    a.advance_watermark(50);
    let mut restored = ExactWindow::restore(Budget::small(), a.checkpoint()).unwrap();
    let before = restored.exported_pairs();
    // Same identities, other pairs and weights: duplicates, nothing changes.
    assert_eq!(restored.ingest(&event("x", "y", 2, 9)), Ok(false));
    assert_eq!(restored.ingest(&event("x", "y", 1, 9)), Ok(false));
    assert_eq!(restored.exported_pairs(), before);
    assert_eq!(count(&restored, "x", "y"), None);
    assert_eq!(restored.witnesses().len(), 2);
}

#[test]
fn counts_add_accepted_weights_across_merge_restore_and_restored_counts() {
    let mut a = ExactWindow::new(Budget::small()).unwrap();
    let mut b = ExactWindow::new(Budget::small()).unwrap();
    assert_eq!(a.ingest(&event("a", "b", 1, 2)), Ok(true));
    assert_eq!(a.ingest(&event("a", "b", 2, 5)), Ok(true));
    assert_eq!(b.ingest(&event("a", "b", 3, 4)), Ok(true));
    assert_eq!(b.ingest(&event("a", "c", 4, 1)), Ok(true));
    assert_eq!(a.try_merge(&b), Ok(()));
    let mut restored = ExactWindow::restore(Budget::small(), a.checkpoint()).unwrap();
    assert_eq!(
        restored.add_restored(
            ScopeId("tenant".into()),
            RelationProfile::new("mcp.invocation", "count"),
            EntityId("a".into()),
            EntityId("b".into()),
            10,
        ),
        Ok(())
    );
    assert_eq!(restored.ingest(&event("a", "b", 1, 100)), Ok(false));
    assert_eq!(count(&restored, "a", "b"), Some(2 + 5 + 4 + 10));
    assert_eq!(count(&restored, "a", "c"), Some(1));
    assert_eq!(count(&restored, "a", "d"), None);
}

#[test]
fn pairs_are_the_pairs_that_have_a_count() {
    let mut w = ExactWindow::new(Budget::small()).unwrap();
    for e in left_events() {
        assert_eq!(w.ingest(&e), Ok(true));
    }
    assert_eq!(w.ingest(&event("z", "z", 1, 3)), Ok(false));
    assert_eq!(w.pairs(), 3);
    assert_eq!(w.pairs(), w.exported_pairs().len());
    assert_eq!(
        w.add_restored(
            ScopeId("tenant".into()),
            RelationProfile::new("mcp.invocation", "count"),
            EntityId("q".into()),
            EntityId("r".into()),
            0,
        ),
        Ok(())
    );
    assert_eq!(count(&w, "q", "r"), Some(0));
    assert_eq!(w.pairs(), 4);
    assert_eq!(w.pairs(), w.exported_pairs().len());
}

#[test]
fn exact_merge_of_disjoint_panes_matches_single_replay() {
    let mut a = ExactWindow::new(narrow_budget()).unwrap();
    let mut b = ExactWindow::new(narrow_budget()).unwrap();
    let mut c = ExactWindow::new(narrow_budget()).unwrap();
    for e in left_events() {
        assert_eq!(a.ingest(&e), Ok(true));
        assert_eq!(c.ingest(&e), Ok(true));
    }
    for e in right_events() {
        assert_eq!(b.ingest(&e), Ok(true));
        assert_eq!(c.ingest(&e), Ok(true));
    }
    assert_eq!(a.try_merge(&b), Ok(()));
    assert_eq!(a.exported_pairs(), c.exported_pairs());
    assert_eq!(a.witnesses(), c.witnesses());
    assert_eq!(a.witnesses().len(), 4);
    assert_eq!(count(&a, "a", "b"), Some(7));
    let mut later = left_events();
    later.extend(right_events());
    later.push(event("d", "e", 20, 2));
    for e in later {
        assert_eq!(a.ingest(&e), c.ingest(&e));
    }
    assert_eq!(a.exported_pairs(), c.exported_pairs());
}

#[test]
fn sketch_merge_of_disjoint_panes_matches_single_replay() {
    let budget = Budget::sketch();
    let mut a = HcmsWindow::new(budget, 99).unwrap();
    let mut b = HcmsWindow::new(budget, 99).unwrap();
    let mut c = HcmsWindow::new(budget, 99).unwrap();
    for e in left_events() {
        assert_eq!(a.ingest(&e), Ok(()));
        assert_eq!(c.ingest(&e), Ok(()));
    }
    for e in right_events() {
        assert_eq!(b.ingest(&e), Ok(()));
        assert_eq!(c.ingest(&e), Ok(()));
    }
    let mut swapped = b.clone();
    assert_eq!(swapped.try_merge(&a), Ok(()));
    assert_eq!(a.try_merge(&b), Ok(()));
    for r in 0..budget.replicas {
        assert_eq!(a.replica(r), c.replica(r));
        assert_eq!(swapped.replica(r), c.replica(r));
    }
    assert!(a.replica(0).unwrap().iter().map(|&v| v as u128).sum::<u128>() == 16);
}

#[test]
fn sketch_merge_refuses_other_seeds_in_either_order() {
    let budget = Budget::sketch();
    let mut a = HcmsWindow::new(budget, 1).unwrap();
    let mut b = HcmsWindow::new(budget, 2).unwrap();
    let expected = Err(IngestError::Checkpoint("incompatible-merge"));
    assert_eq!(a.try_merge(&HcmsWindow::new(budget, 2).unwrap()), expected.clone());
    assert_eq!(b.try_merge(&HcmsWindow::new(budget, 1).unwrap()), expected);
}

#[test]
fn panes_that_disagree_are_answered_from_their_own_state() {
    let mut sketch = HcmsWindow::new(Budget::small(), 5).unwrap();
    sketch.close();
    let mut window = StreamWindow::Hcms { exact: ExactWindow::new(Budget::small()).unwrap(), sketch };
    let e = event("a", "b", 1, 1);
    assert_eq!(window.ingest(&e), Err(IngestError::ClosedWindow));
    assert_eq!(window.exact_count(&e.scope, &e.relation, &e.source, &e.target), None);
}
