use weavatrix_stream::adapters::radiochron::{self, RadioKind, RadioObservation};
use weavatrix_stream::adapters::weavatrix::{self, AdapterError, HostObservation, ObservationResult};
use weavatrix_stream::explain::{from_witnesses, Verification};
use weavatrix_stream::hash::{bucket, encode_fields, mix};
use weavatrix_stream::{
    anograph_counterexample, group_density, heuristic_density, submatrix_density, BackendKind,
    Budget, BudgetError, EntityId, EventKey, EventPhase, ExactWindow, HcmsWindow, IngestError,
    InteractionEvent, Quality, RelationProfile, ScopeId, StreamWindow, CHECKPOINT_VERSION,
};

fn item(scope: &str, source: &str, target: &str, time: u64, sequence: u64) -> InteractionEvent {
    InteractionEvent {
        event_key: EventKey {
            producer: "unit".into(),
            boot_epoch: 1,
            sequence,
            phase: EventPhase::Request,
        },
        scope: ScopeId(scope.into()),
        relation: RelationProfile::new("mcp.invocation", "count"),
        source: EntityId(source.into()),
        target: EntityId(target.into()),
        event_time: time,
        observed_at: None,
        weight: 1,
        evidence: format!("e-{sequence}"),
        quality: Quality::default(),
    }
}

fn count_of(window: &StreamWindow, event: &InteractionEvent) -> Option<u64> {
    window.exact_count(&event.scope, &event.relation, &event.source, &event.target)
}

// ---------------------------------------------------------------------------
// Budgets
// ---------------------------------------------------------------------------

#[test]
fn budget_presets_hold_their_documented_values() {
    let small = Budget::small();
    assert_eq!(
        (small.max_pairs, small.max_dedup, small.max_witnesses, small.lateness, small.replicas, small.width),
        (4_096, 16_384, 64, 1_000, 4, 64)
    );
    let sketch = Budget::sketch();
    assert_eq!(
        (sketch.max_pairs, sketch.max_dedup, sketch.max_witnesses, sketch.lateness, sketch.replicas, sketch.width),
        (256, 16_384, 32, 1_000, 4, 128)
    );
    assert_eq!(small.validate(), Ok(small));
}

#[test]
fn each_budget_fault_is_named() {
    let mut b = Budget::small();
    b.replicas = 17;
    assert_eq!(b.validate(), Err(BudgetError::Replicas));
    let mut b = Budget::small();
    b.width = 1_024;
    assert_eq!(b.validate(), Err(BudgetError::Width));
    let mut b = Budget::small();
    b.width = 96;
    assert_eq!(b.validate(), Err(BudgetError::Width));
    let mut b = Budget::small();
    b.width = 2;
    assert!(b.validate().is_ok());
    b.width = 512;
    assert!(b.validate().is_ok());
    let mut b = Budget::small();
    b.max_dedup = 0;
    assert_eq!(b.validate(), Err(BudgetError::Cardinality));
    assert!(StreamWindow::hcms(b, 1).is_err());
}

// ---------------------------------------------------------------------------
// Ingest errors and laws
// ---------------------------------------------------------------------------

#[test]
fn refused_events_leave_the_window_unchanged() {
    let mut budget = Budget::small();
    budget.max_dedup = 1;
    let mut window = StreamWindow::hcms(budget, 5).unwrap();
    window.ingest(&item("p", "a", "b", 10, 1)).unwrap();
    let before = window.checkpoint();
    let mut zero = item("p", "a", "b", 10, 2);
    zero.weight = 0;
    assert_eq!(window.ingest(&zero), Err(IngestError::ZeroWeight));
    assert_eq!(window.ingest(&item("p", "a", "b", 10, 3)), Err(IngestError::Budget("dedup")));
    assert_eq!(window.checkpoint(), before);
    assert_eq!(window.ingest(&item("p", "a", "b", 10, 1)), Ok(false));
    assert_eq!(window.checkpoint(), before);
}

#[test]
fn closed_and_late_windows_name_their_refusal() {
    let mut window = StreamWindow::exact(Budget::small()).unwrap();
    window.advance_watermark(2_000);
    assert_eq!(
        window.ingest(&item("p", "a", "b", 999, 1)),
        Err(IngestError::Late { event_time: 999, watermark: 2_000 })
    );
    assert_eq!(window.ingest(&item("p", "a", "b", 1_000, 2)), Ok(true));
    window.close();
    assert_eq!(window.ingest(&item("p", "a", "b", 3_000, 3)), Err(IngestError::ClosedWindow));
}

#[test]
fn an_overflowing_weight_is_refused() {
    let mut window = StreamWindow::hcms(Budget::small(), 3).unwrap();
    let mut heavy = item("p", "a", "b", 10, 1);
    heavy.weight = u64::MAX;
    assert_eq!(window.ingest(&heavy), Ok(true));
    let before = window.checkpoint();
    let mut more = item("p", "x", "y", 10, 2);
    more.weight = u64::MAX;
    // A different pair may share sketch cells; any overflow refuses the whole event.
    let answer = window.ingest(&more);
    if answer.is_err() {
        assert_eq!(answer, Err(IngestError::Overflow));
        assert_eq!(window.checkpoint(), before);
    }
    assert_eq!(window.ingest(&item("p", "a", "b", 10, 3)), Err(IngestError::Overflow));
}

#[test]
fn counting_an_event_touches_only_its_pair() {
    let mut window = StreamWindow::exact(Budget::small()).unwrap();
    let first = item("p", "a", "b", 10, 1);
    let other = item("p", "a", "c", 10, 2);
    window.ingest(&first).unwrap();
    window.ingest(&other).unwrap();
    let mut heavier = item("p", "a", "b", 10, 3);
    heavier.weight = 5;
    window.ingest(&heavier).unwrap();
    assert_eq!(count_of(&window, &first), Some(6));
    assert_eq!(count_of(&window, &other), Some(1));
}

#[test]
fn the_pair_registry_is_bounded_but_known_pairs_still_count() {
    let mut budget = Budget::small();
    budget.max_pairs = 1;
    let mut window = StreamWindow::exact(budget).unwrap();
    window.ingest(&item("p", "a", "b", 10, 1)).unwrap();
    assert_eq!(window.ingest(&item("p", "a", "c", 10, 2)), Err(IngestError::Budget("pairs")));
    assert_eq!(window.ingest(&item("p", "a", "b", 10, 3)), Ok(true));
    assert_eq!(count_of(&window, &item("p", "a", "b", 10, 0)), Some(2));
}

#[test]
fn witnesses_are_bounded_and_the_checkpoint_says_so() {
    let mut budget = Budget::small();
    budget.max_witnesses = 2;
    let mut window = ExactWindow::new(budget).unwrap();
    for sequence in 1..=3 {
        window.ingest(&item("p", "a", "b", 10, sequence)).unwrap();
    }
    assert_eq!(window.witnesses().len(), 2);
    assert_eq!(window.witnesses()[1].2, "e-2");
    let snap = window.checkpoint();
    assert!(snap.witnesses_truncated);
    assert_eq!(snap.keys.len(), 3);
}

// ---------------------------------------------------------------------------
// Order of pairs and keys
// ---------------------------------------------------------------------------

#[test]
fn pairs_and_keys_come_out_in_key_order() {
    let mut window = ExactWindow::new(Budget::small()).unwrap();
    window.ingest(&item("zeta", "a", "b", 10, 9)).unwrap();
    window.ingest(&item("alpha", "b", "a", 10, 2)).unwrap();
    window.ingest(&item("alpha", "a", "z", 10, 5)).unwrap();
    let pairs = window.exported_pairs();
    let names: Vec<(String, String, String)> = pairs
        .iter()
        .map(|p| (p.0 .0.clone(), p.2 .0.clone(), p.3 .0.clone()))
        .collect();
    assert_eq!(
        names,
        vec![
            ("alpha".to_string(), "a".to_string(), "z".to_string()),
            ("alpha".to_string(), "b".to_string(), "a".to_string()),
            ("zeta".to_string(), "a".to_string(), "b".to_string()),
        ]
    );
    let sequences: Vec<u64> = window.checkpoint().keys.iter().map(|k| k.sequence).collect();
    assert_eq!(sequences, vec![2, 5, 9]);
    assert_eq!(window.pairs(), 3);
}

// ---------------------------------------------------------------------------
// Checkpoints
// ---------------------------------------------------------------------------

#[test]
fn a_restored_window_decides_like_the_live_one() {
    let mut live = StreamWindow::hcms(Budget::small(), 11).unwrap();
    live.ingest(&item("p", "a", "b", 100, 1)).unwrap();
    live.ingest(&item("p", "c", "d", 200, 2)).unwrap();
    live.advance_watermark(1_500);
    let mut restored = StreamWindow::restore_hcms(Budget::small(), 11, live.checkpoint()).unwrap();
    assert_eq!(restored.checkpoint(), live.checkpoint());
    for event in [item("p", "a", "b", 100, 1), item("p", "a", "b", 400, 7), item("p", "e", "f", 600, 8)] {
        assert_eq!(restored.ingest(&event), live.ingest(&event));
    }
    assert_eq!(restored.checkpoint(), live.checkpoint());
}

#[test]
fn each_restore_fault_is_named() {
    let budget = Budget::small();
    let mut window = StreamWindow::exact(budget).unwrap();
    window.ingest(&item("p", "a", "b", 10, 1)).unwrap();
    let snap = window.checkpoint();
    assert_eq!(snap.version, CHECKPOINT_VERSION);

    let mut with_counters = snap.clone();
    with_counters.counters = Some(vec![0; 4]);
    assert_eq!(
        StreamWindow::restore_exact(budget, with_counters).err(),
        Some(IngestError::Checkpoint("exact-cannot-hold-sketch"))
    );
    let mut bad_budget = budget;
    bad_budget.replicas = 0;
    assert_eq!(
        StreamWindow::restore_exact(bad_budget, snap.clone()).err(),
        Some(IngestError::Checkpoint("budget"))
    );
    let mut other_policy = budget;
    other_policy.lateness = 5;
    assert_eq!(
        StreamWindow::restore_exact(other_policy, snap.clone()).err(),
        Some(IngestError::Checkpoint("policy-mismatch"))
    );
    let mut twice = snap.clone();
    let copy = twice.pairs[0].clone();
    twice.pairs.push(copy);
    assert_eq!(
        StreamWindow::restore_exact(budget, twice).err(),
        Some(IngestError::Checkpoint("duplicate-pair"))
    );
    let mut repeated_keys = snap.clone();
    let key = repeated_keys.keys[0].clone();
    repeated_keys.keys.push(key);
    let restored = StreamWindow::restore_exact(budget, repeated_keys).unwrap();
    assert_eq!(restored.checkpoint().keys.len(), 1);

    assert_eq!(
        StreamWindow::restore_hcms(budget, 1, snap.clone()).err(),
        Some(IngestError::Checkpoint("incompatible-restore"))
    );
    let mut missing = snap.clone();
    missing.seed = 1;
    assert_eq!(
        StreamWindow::restore_hcms(budget, 1, missing).err(),
        Some(IngestError::Checkpoint("missing-counters"))
    );
    let mut short = snap.clone();
    short.seed = 1;
    short.counters = Some(vec![0; 10]);
    assert_eq!(
        StreamWindow::restore_hcms(budget, 1, short).err(),
        Some(IngestError::Checkpoint("counter-shape"))
    );
}

// ---------------------------------------------------------------------------
// Merge
// ---------------------------------------------------------------------------

#[test]
fn merging_disjoint_panes_equals_one_replay() {
    let left_events = [item("p", "a", "b", 10, 1), item("p", "a", "c", 11, 2), item("q", "a", "b", 12, 3)];
    let right_events = [item("p", "a", "b", 13, 4), item("r", "x", "y", 14, 5)];
    let mut left = StreamWindow::hcms(Budget::small(), 21).unwrap();
    let mut right = StreamWindow::hcms(Budget::small(), 21).unwrap();
    let mut both = StreamWindow::hcms(Budget::small(), 21).unwrap();
    for event in &left_events {
        left.ingest(event).unwrap();
        both.ingest(event).unwrap();
    }
    for event in &right_events {
        right.ingest(event).unwrap();
        both.ingest(event).unwrap();
    }
    left.try_merge(&right).unwrap();
    assert_eq!(left.checkpoint(), both.checkpoint());
    assert_eq!(count_of(&left, &left_events[0]), Some(2));
}

#[test]
fn each_merge_fault_is_named_and_changes_nothing() {
    let mut left = StreamWindow::hcms(Budget::small(), 1).unwrap();
    let mut right = StreamWindow::hcms(Budget::small(), 1).unwrap();
    left.ingest(&item("p", "a", "b", 10, 1)).unwrap();
    right.ingest(&item("p", "a", "b", 10, 1)).unwrap();
    let before = left.checkpoint();
    assert_eq!(left.try_merge(&right), Err(IngestError::Checkpoint("overlapping-event")));
    assert_eq!(left.checkpoint(), before);
    let exact = StreamWindow::exact(Budget::small()).unwrap();
    assert_eq!(left.try_merge(&exact), Err(IngestError::Checkpoint("merge-backend")));
    let mut narrow = Budget::small();
    narrow.width = 32;
    let other = StreamWindow::hcms(narrow, 1).unwrap();
    assert_eq!(left.try_merge(&other), Err(IngestError::Checkpoint("incompatible-merge")));
    assert_eq!(left.checkpoint(), before);
}

#[test]
fn a_sketch_merge_adds_counters_cell_by_cell() {
    let mut left = HcmsWindow::new(Budget::small(), 4).unwrap();
    let mut right = HcmsWindow::new(Budget::small(), 4).unwrap();
    left.ingest(&item("p", "a", "b", 10, 1)).unwrap();
    right.ingest(&item("p", "a", "b", 10, 2)).unwrap();
    right.advance_watermark(77);
    left.try_merge(&right).unwrap();
    let total: u64 = left.replica(0).unwrap().iter().sum();
    assert_eq!(total, 2);
    assert_eq!(left.replica(0).unwrap().len(), 64 * 64);
    assert!(left.replica(4).is_none());
    assert_eq!(left.watermark(), 77);
    assert_eq!(left.seed(), 4);
    assert_eq!(left.width(), 64);
}

// ---------------------------------------------------------------------------
// Scores
// ---------------------------------------------------------------------------

#[test]
fn density_formulas_give_exact_thousandths() {
    assert_eq!(heuristic_density(&[4], 1).milli, 4_000);
    assert_eq!(submatrix_density(&[1, 1, 1, 1], 2, &[0, 1], &[0, 1]), 2_000);
    assert_eq!(submatrix_density(&[3], 1, &[0, 5], &[0, 1]), 1_500);
    assert_eq!(submatrix_density(&[3], 1, &[], &[0]), 0);
    let peak = heuristic_density(&[0, 2, 5, 5], 2);
    assert_eq!((peak.milli, peak.rows, peak.cols, peak.kind), (5 * 1_000_000 / 1_414, 1, 0, "heuristic"));
    let flat = heuristic_density(&[0, 0, 0, 0], 2);
    assert_eq!((flat.milli, flat.rows, flat.cols), (0, 0, 0));
}

#[test]
fn group_score_is_never_below_the_peak() {
    let block = [1, 1, 0, 1, 1, 0, 0, 0, 0];
    let diagonal = [1, 0, 0, 0, 1, 0, 0, 0, 1];
    let b = group_density(&block, 3);
    assert_eq!((b.milli, b.rows, b.cols, b.kind), (2_000, 0, 0, "group"));
    let d = group_density(&diagonal, 3);
    assert_eq!((d.milli, d.rows, d.cols), (1_000, 0, 0));
    assert!(d.milli >= heuristic_density(&diagonal, 3).milli);
    let single = group_density(&[9], 1);
    assert_eq!((single.milli, single.kind), (heuristic_density(&[9], 1).milli, "group"));
}

#[test]
fn the_counterexample_matrix_has_its_band_and_diagonal() {
    assert_eq!(anograph_counterexample(3), vec![0, 1, 1, 0, 2, 0, 0, 0, 2]);
    assert_eq!(anograph_counterexample(1), vec![0]);
    assert!(anograph_counterexample(0).is_empty());
}

#[test]
fn window_scores_come_from_the_sketch_only() {
    let mut window = StreamWindow::hcms(Budget::small(), 2).unwrap();
    window.ingest(&item("p", "a", "b", 10, 1)).unwrap();
    assert_eq!(window.score().unwrap().milli, 125);
    assert_eq!(window.kind(), BackendKind::Hcms);
    let exact = StreamWindow::exact(Budget::small()).unwrap();
    assert!(exact.score().is_none());
    assert_eq!(exact.kind(), BackendKind::Exact);
}

// ---------------------------------------------------------------------------
// Hashing
// ---------------------------------------------------------------------------

#[test]
fn hashes_and_buckets_are_exact() {
    assert_eq!(mix(0, &[]), 0x9ca0_66f1_a4ab_2eea);
    assert_eq!(mix(7, b"abcdefghij"), 0x4549_ffa3_7aa7_762f);
    assert_eq!(bucket(mix(7, b"abcdefghij"), 64), 17);
    assert_eq!(bucket(u64::MAX, 64), 63);
    assert_eq!(bucket(0, 64), 0);
    assert_eq!(bucket(u64::MAX, 0), 0);
    assert_eq!(encode_fields(&["ab", ""]), vec![2, 0, 0, 0, b'a', b'b', 0, 0, 0, 0]);
}

// ---------------------------------------------------------------------------
// Adapters and explanations
// ---------------------------------------------------------------------------

fn radio(kind: RadioKind) -> RadioObservation {
    RadioObservation {
        producer: "sensor".into(),
        boot_epoch: 2,
        sequence: 3,
        kind,
        scope: "site".into(),
        device: "phone".into(),
        access_point: "ap".into(),
        event_time: 44,
        evidence: "cap".into(),
        capture_complete: true,
        scan_policy_changed: false,
        identity_confidence: 90,
    }
}

#[test]
fn radio_subtypes_keep_their_relation() {
    assert_eq!(radiochron::relation_name(RadioKind::Association), "radio.association");
    assert_eq!(radiochron::relation_name(RadioKind::AuthFailure), "radio.auth_failure");
    assert_eq!(radiochron::relation_name(RadioKind::Roam), "radio.roam");
    let event = radiochron::to_event(&radio(RadioKind::Roam)).unwrap();
    assert_eq!(event.relation.name, "radio.roam");
    assert_eq!(event.relation.weight_unit, "count");
    assert_eq!(event.source.0, "phone");
    assert_eq!(event.target.0, "ap");
    assert_eq!(event.weight, 1);
    assert_eq!(event.event_key.phase, EventPhase::Request);
    assert!(!event.quality.forbids_strong_absence());
    let mut weak = radio(RadioKind::Association);
    weak.identity_confidence = 79;
    assert!(radiochron::to_event(&weak).unwrap().quality.forbids_strong_absence());
}

fn host(phase: EventPhase, result: ObservationResult, weight: u64) -> HostObservation {
    HostObservation {
        producer: "host".into(),
        boot_epoch: 1,
        sequence: 9,
        phase,
        scope: "proj".into(),
        source: "skill".into(),
        target: "tool".into(),
        event_time: 5,
        weight,
        evidence: "obs".into(),
        result,
    }
}

#[test]
fn host_results_keep_their_outcome() {
    let success = weavatrix::to_event(&host(EventPhase::ReportedResult, ObservationResult::Success, 1)).unwrap();
    assert_eq!(success.relation.name, "mcp.result.success");
    let failure = weavatrix::to_event(&host(EventPhase::ReportedResult, ObservationResult::Failure, 1)).unwrap();
    assert_eq!(failure.relation.name, "mcp.result.failure");
    let reported = weavatrix::to_event(&host(EventPhase::ReportedResult, ObservationResult::Reported, 1)).unwrap();
    assert_eq!(reported.relation.name, "mcp.result");
    let effect = weavatrix::to_event(&host(EventPhase::VerifiedEffect, ObservationResult::Failure, 1)).unwrap();
    assert_eq!(effect.relation.name, "mcp.effect");
    let request = weavatrix::invocation_event(&host(EventPhase::Request, ObservationResult::Reported, 3)).unwrap();
    assert_eq!((request.relation.name.as_str(), request.weight), ("mcp.invocation", 3));
    assert_eq!(
        weavatrix::to_event(&host(EventPhase::Request, ObservationResult::Reported, 0)),
        Err(AdapterError::Ingest(IngestError::ZeroWeight))
    );
    assert!(weavatrix::invocation_event(&host(EventPhase::Request, ObservationResult::Reported, 0)).is_none());
}

#[test]
fn candidates_carry_their_witnesses_unverified() {
    let witnesses = vec![
        (EntityId("a".into()), EntityId("b".into()), "w1".to_string()),
        (EntityId("c".into()), EntityId("d".into()), "w2".to_string()),
    ];
    let candidate = from_witnesses("proj", "rel", None, &witnesses, Quality::default());
    assert_eq!(candidate.scope, "proj");
    assert_eq!(candidate.relation, "rel");
    assert_eq!(candidate.participants[1], (EntityId("c".into()), EntityId("d".into())));
    assert_eq!(candidate.witnesses, vec!["w1".to_string(), "w2".to_string()]);
    assert_eq!(candidate.verification, Verification::NotPerformed);
}

#[test]
fn default_quality_allows_absence_claims() {
    let quality = Quality::default();
    assert_eq!((quality.sampled, quality.identity_confidence, quality.gaps, quality.exposure), (false, 100, false, 100));
    assert!(!quality.forbids_strong_absence());
}
