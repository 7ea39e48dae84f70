//! Typed interaction events and the values a window exchanges with its host.

use vstd::prelude::*;

verus! {

/// The tenant, project or site an interaction belongs to.
#[derive(Debug, PartialEq, Eq, PartialOrd, Ord)]
pub struct ScopeId(pub String);

/// One side of an interaction (a skill, a tool, a device, an access point).
#[derive(Debug, PartialEq, Eq, PartialOrd, Ord)]
pub struct EntityId(pub String);

/// The phase of an interaction; each phase is a relation of its own.
#[derive(Debug, Clone, Copy, PartialEq, Eq, Structural, PartialOrd, Ord)]
pub enum EventPhase {
    Request,
    ReportedResult,
    VerifiedEffect,
}

/// Identity of one event: producer, boot epoch, sequence number and phase.
#[derive(Debug, PartialEq, Eq, PartialOrd, Ord)]
pub struct EventKey {
    pub producer: String,
    pub boot_epoch: u64,
    pub sequence: u64,
    pub phase: EventPhase,
}

/// The relation an interaction is counted under, with the unit of its weight.
#[derive(Debug, PartialEq, Eq, PartialOrd, Ord)]
pub struct RelationProfile {
    pub name: String,
    pub weight_unit: String,
}

/// Capture quality of an observation.
#[derive(Debug, Clone, Copy, PartialEq, Eq, Structural)]
pub struct Quality {
    pub sampled: bool,
    pub identity_confidence: u8,
    pub gaps: bool,
    pub exposure: u8,
}

/// One typed `source -> target` interaction.
#[derive(Debug, PartialEq, Eq)]
pub struct InteractionEvent {
    pub event_key: EventKey,
    pub scope: ScopeId,
    pub relation: RelationProfile,
    pub source: EntityId,
    pub target: EntityId,
    pub event_time: u64,
    pub observed_at: Option<u64>,
    pub weight: u64,
    pub evidence: String,
    pub quality: Quality,
}

/// Why an event, a merge or a restore was refused.
#[derive(Debug, Clone, PartialEq, Eq)]
pub enum IngestError {
    ZeroWeight,
    Overflow,
    Late { event_time: u64, watermark: u64 },
    Budget(&'static str),
    ClosedWindow,
    Checkpoint(&'static str),
}

/// The checkpoint format this crate writes and accepts.
pub const CHECKPOINT_VERSION: u16 = 2;

/// One exact pair count in a checkpoint.
#[derive(Debug, PartialEq, Eq)]
pub struct PairCount {
    pub scope: ScopeId,
    pub relation: RelationProfile,
    pub source: EntityId,
    pub target: EntityId,
    pub count: u64,
}

/// A full snapshot of a window: identity keys, pairs, witnesses, sketch counters and policy.
#[derive(Debug, PartialEq, Eq)]
pub struct WindowCheckpoint {
    pub version: u16,
    pub seed: u64,
    pub watermark: u64,
    pub closed: bool,
    pub width: usize,
    pub replicas: usize,
    pub pairs: Vec<PairCount>,
    pub keys: Vec<EventKey>,
    pub witnesses: Vec<(EntityId, EntityId, String)>,
    pub counters: Option<Vec<u64>>,
    pub lateness: u64,
    pub max_pairs: usize,
    pub max_dedup: usize,
    pub max_witnesses: usize,
    pub witnesses_truncated: bool,
}

// ---------------------------------------------------------------------------
// Mathematical views
// ---------------------------------------------------------------------------

/// The key an exact pair is counted under: scope, relation name and unit, source, target.
pub struct PairKeyView {
    pub scope: Seq<char>,
    pub name: Seq<char>,
    pub unit: Seq<char>,
    pub source: Seq<char>,
    pub target: Seq<char>,
}

/// The identity of an event as text and numbers.
pub struct EventKeyView {
    pub producer: Seq<char>,
    pub boot_epoch: u64,
    pub sequence: u64,
    pub phase: EventPhase,
}

/// A witness: source, target and evidence label.
pub type WitnessView = (Seq<char>, Seq<char>, Seq<char>);

/// An event as plain values.
pub struct EventView {
    pub key: EventKeyView,
    pub pair: PairKeyView,
    pub event_time: u64,
    pub observed_at: Option<u64>,
    pub weight: u64,
    pub evidence: Seq<char>,
    pub quality: Quality,
}

/// A checkpoint as plain values.
pub struct CheckpointView {
    pub version: u16,
    pub seed: u64,
    pub watermark: u64,
    pub closed: bool,
    pub width: usize,
    pub replicas: usize,
    pub pairs: Seq<(PairKeyView, u64)>,
    pub keys: Seq<EventKeyView>,
    pub witnesses: Seq<WitnessView>,
    pub counters: Option<Seq<u64>>,
    pub lateness: u64,
    pub max_pairs: usize,
    pub max_dedup: usize,
    pub max_witnesses: usize,
    pub witnesses_truncated: bool,
}

impl View for ScopeId {
    type V = Seq<char>;

    open spec fn view(&self) -> Seq<char> {
        self.0@
    }
}

impl View for EntityId {
    type V = Seq<char>;

    open spec fn view(&self) -> Seq<char> {
        self.0@
    }
}

impl View for EventKey {
    type V = EventKeyView;

    open spec fn view(&self) -> EventKeyView {
        EventKeyView {
            producer: self.producer@,
            boot_epoch: self.boot_epoch,
            sequence: self.sequence,
            phase: self.phase,
        }
    }
}

impl View for RelationProfile {
    type V = (Seq<char>, Seq<char>);

    open spec fn view(&self) -> (Seq<char>, Seq<char>) {
        (self.name@, self.weight_unit@)
    }
}

/// The pair key of scope, relation, source and target.
pub open spec fn pair_key(
    scope: &ScopeId,
    relation: &RelationProfile,
    source: &EntityId,
    target: &EntityId,
) -> PairKeyView {
    PairKeyView {
        scope: scope@,
        name: relation.name@,
        unit: relation.weight_unit@,
        source: source@,
        target: target@,
    }
}

impl View for InteractionEvent {
    type V = EventView;

    open spec fn view(&self) -> EventView {
        EventView {
            key: self.event_key@,
            pair: pair_key(&self.scope, &self.relation, &self.source, &self.target),
            event_time: self.event_time,
            observed_at: self.observed_at,
            weight: self.weight,
            evidence: self.evidence@,
            quality: self.quality,
        }
    }
}

impl View for PairCount {
    type V = (PairKeyView, u64);

    open spec fn view(&self) -> (PairKeyView, u64) {
        (pair_key(&self.scope, &self.relation, &self.source, &self.target), self.count)
    }
}

/// The view of one witness triple.
pub open spec fn witness_view(w: (EntityId, EntityId, String)) -> WitnessView {
    (w.0@, w.1@, w.2@)
}

/// The view of a list of witness triples.
pub open spec fn witnesses_view(ws: Seq<(EntityId, EntityId, String)>) -> Seq<WitnessView> {
    ws.map_values(|w: (EntityId, EntityId, String)| witness_view(w))
}

/// The view of a list of pair counts.
pub open spec fn pairs_view(ps: Seq<PairCount>) -> Seq<(PairKeyView, u64)> {
    ps.map_values(|p: PairCount| p@)
}

/// The view of a list of event keys.
pub open spec fn keys_view(ks: Seq<EventKey>) -> Seq<EventKeyView> {
    ks.map_values(|k: EventKey| k@)
}

impl View for WindowCheckpoint {
    type V = CheckpointView;

    open spec fn view(&self) -> CheckpointView {
        CheckpointView {
            version: self.version,
            seed: self.seed,
            watermark: self.watermark,
            closed: self.closed,
            width: self.width,
            replicas: self.replicas,
            pairs: pairs_view(self.pairs@),
            keys: keys_view(self.keys@),
            witnesses: witnesses_view(self.witnesses@),
            counters: match self.counters {
                Some(c) => Some(c@),
                None => None,
            },
            lateness: self.lateness,
            max_pairs: self.max_pairs,
            max_dedup: self.max_dedup,
            max_witnesses: self.max_witnesses,
            witnesses_truncated: self.witnesses_truncated,
        }
    }
}

// ---------------------------------------------------------------------------
// Copies
// ---------------------------------------------------------------------------

impl Clone for ScopeId {
    fn clone(&self) -> (r: Self)
        ensures
            r == *self,
    {
        ScopeId(self.0.clone())
    }
}

impl Clone for EntityId {
    fn clone(&self) -> (r: Self)
        ensures
            r == *self,
    {
        EntityId(self.0.clone())
    }
}

impl Clone for EventKey {
    fn clone(&self) -> (r: Self)
        ensures
            r == *self,
    {
        EventKey {
            producer: self.producer.clone(),
            boot_epoch: self.boot_epoch,
            sequence: self.sequence,
            phase: self.phase,
        }
    }
}

impl Clone for RelationProfile {
    fn clone(&self) -> (r: Self)
        ensures
            r == *self,
    {
        RelationProfile { name: self.name.clone(), weight_unit: self.weight_unit.clone() }
    }
}

impl Clone for InteractionEvent {
    fn clone(&self) -> (r: Self)
        ensures
            r == *self,
    {
        InteractionEvent {
            event_key: self.event_key.clone(),
            scope: self.scope.clone(),
            relation: self.relation.clone(),
            source: self.source.clone(),
            target: self.target.clone(),
            event_time: self.event_time,
            observed_at: self.observed_at,
            weight: self.weight,
            evidence: self.evidence.clone(),
            quality: self.quality,
        }
    }
}

impl Clone for PairCount {
    fn clone(&self) -> (r: Self)
        ensures
            r == *self,
    {
        PairCount {
            scope: self.scope.clone(),
            relation: self.relation.clone(),
            source: self.source.clone(),
            target: self.target.clone(),
            count: self.count,
        }
    }
}

impl Clone for WindowCheckpoint {
    fn clone(&self) -> (r: Self)
        ensures
            r@ == self@,
    {
        let counters = match &self.counters {
            Some(c) => {
                let mut out: Vec<u64> = Vec::new();
                let mut i: usize = 0;
                while i < c.len()
                    invariant
                        i <= c.len(),
                        out@ == c@.take(i as int),
                    decreases c.len() - i,
                {
                    out.push(c[i]);
                    i += 1;
                    assert(out@ =~= c@.take(i as int));
                }
                assert(c@.take(c.len() as int) =~= c@);
                Some(out)
            },
            None => None,
        };
        WindowCheckpoint {
            version: self.version,
            seed: self.seed,
            watermark: self.watermark,
            closed: self.closed,
            width: self.width,
            replicas: self.replicas,
            pairs: copy_pairs(&self.pairs),
            keys: copy_keys(&self.keys),
            witnesses: copy_witnesses(&self.witnesses),
            counters,
            lateness: self.lateness,
            max_pairs: self.max_pairs,
            max_dedup: self.max_dedup,
            max_witnesses: self.max_witnesses,
            witnesses_truncated: self.witnesses_truncated,
        }
    }
}

/// A copy of a witness triple.
pub(crate) fn copy_witness(w: &(EntityId, EntityId, String)) -> (r: (EntityId, EntityId, String))
    ensures
        r == *w,
{
    (w.0.clone(), w.1.clone(), w.2.clone())
}

/// A copy of a list of witness triples.
pub(crate) fn copy_witnesses(ws: &Vec<(EntityId, EntityId, String)>) -> (r: Vec<(EntityId, EntityId, String)>)
    ensures
        r@ == ws@,
{
    let mut out: Vec<(EntityId, EntityId, String)> = Vec::new();
    let mut i: usize = 0;
    while i < ws.len()
        invariant
            i <= ws.len(),
            out@ == ws@.take(i as int),
        decreases ws.len() - i,
    {
        out.push(copy_witness(&ws[i]));
        i += 1;
        assert(out@ =~= ws@.take(i as int));
    }
    assert(ws@.take(ws.len() as int) =~= ws@);
    out
}

/// A copy of a list of pair counts.
pub(crate) fn copy_pairs(ps: &Vec<PairCount>) -> (r: Vec<PairCount>)
    ensures
        r@ == ps@,
{
    let mut out: Vec<PairCount> = Vec::new();
    let mut i: usize = 0;
    while i < ps.len()
        invariant
            i <= ps.len(),
            out@ == ps@.take(i as int),
        decreases ps.len() - i,
    {
        out.push(ps[i].clone());
        i += 1;
        assert(out@ =~= ps@.take(i as int));
    }
    assert(ps@.take(ps.len() as int) =~= ps@);
    out
}

/// A copy of a list of event keys.
pub(crate) fn copy_keys(ks: &Vec<EventKey>) -> (r: Vec<EventKey>)
    ensures
        r@ == ks@,
{
    let mut out: Vec<EventKey> = Vec::new();
    let mut i: usize = 0;
    while i < ks.len()
        invariant
            i <= ks.len(),
            out@ == ks@.take(i as int),
        decreases ks.len() - i,
    {
        out.push(ks[i].clone());
        i += 1;
        assert(out@ =~= ks@.take(i as int));
    }
    assert(ks@.take(ks.len() as int) =~= ks@);
    out
}

// ---------------------------------------------------------------------------
// Behaviour
// ---------------------------------------------------------------------------

impl RelationProfile {
    /// A relation named `name` whose weights are measured in `weight_unit`.
    pub fn new(name: &str, weight_unit: &str) -> (r: Self)
        ensures
            r.name@ == name@,
            r.weight_unit@ == weight_unit@,
    {
        RelationProfile { name: name.to_owned(), weight_unit: weight_unit.to_owned() }
    }
}

impl Quality {
    /// Whether this capture is too incomplete to claim that nothing happened.
    pub open spec fn spec_forbids_strong_absence(self) -> bool {
        self.gaps || self.sampled || self.identity_confidence < 80
    }

    /// Gaps, sampling or an identity confidence under 80 forbid a "nothing happened" claim.
    pub fn forbids_strong_absence(self) -> (r: bool)
        ensures
            r == self.spec_forbids_strong_absence(),
    {
        self.gaps || self.sampled || self.identity_confidence < 80
    }
}

impl Default for Quality {
    fn default() -> (r: Self)
        ensures
            r == (Quality { sampled: false, identity_confidence: 100, gaps: false, exposure: 100 }),
    {
        Quality { sampled: false, identity_confidence: 100, gaps: false, exposure: 100 }
    }
}

} // verus!
