//! Map `Weavatrix`/`GrantTap` observations to ingest events.

use crate::model::{
    EntityId, EventKey, EventKeyView, EventPhase, EventView, IngestError, InteractionEvent,
    PairKeyView, Quality, RelationProfile, ScopeId,
};
use vstd::prelude::*;

verus! {

/// One observation reported by a host.
#[derive(Debug, Clone, PartialEq, Eq)]
pub struct HostObservation {
    pub producer: String,
    pub boot_epoch: u64,
    pub sequence: u64,
    pub phase: EventPhase,
    pub scope: String,
    pub source: String,
    pub target: String,
    pub event_time: u64,
    pub weight: u64,
    pub evidence: String,
    pub result: ObservationResult,
}

/// What the host reported about the outcome.
#[derive(Debug, Clone, Copy, PartialEq, Eq, Structural)]
pub enum ObservationResult {
    Reported,
    Success,
    Failure,
}

/// Why an observation cannot become an event.
#[derive(Debug, Clone, PartialEq, Eq)]
pub enum AdapterError {
    SuccessIsNotEffect,
    Ingest(IngestError),
}

/// The relation an observation is counted under: invocations, results by outcome, effects.
pub open spec fn relation_for_spec(phase: EventPhase, result: ObservationResult) -> &'static str {
    match phase {
        EventPhase::Request => "mcp.invocation",
        EventPhase::ReportedResult => match result {
            ObservationResult::Success => "mcp.result.success",
            ObservationResult::Failure => "mcp.result.failure",
            ObservationResult::Reported => "mcp.result",
        },
        EventPhase::VerifiedEffect => "mcp.effect",
    }
}

/// The event an accepted observation becomes.
pub open spec fn host_event_spec(o: HostObservation) -> EventView {
    EventView {
        key: EventKeyView { producer: o.producer@, boot_epoch: o.boot_epoch, sequence: o.sequence, phase: o.phase },
        pair: PairKeyView {
            scope: o.scope@,
            name: relation_for_spec(o.phase, o.result)@,
            unit: "count"@,
            source: o.source@,
            target: o.target@,
        },
        event_time: o.event_time,
        observed_at: None,
        weight: o.weight,
        evidence: o.evidence@,
        quality: Quality { sampled: false, identity_confidence: 100, gaps: false, exposure: 100 },
    }
}

fn relation_for(phase: EventPhase, result: ObservationResult) -> (r: RelationProfile)
    ensures
        r.name@ == relation_for_spec(phase, result)@,
        r.weight_unit@ == "count"@,
{
    let name: &str = match phase {
        EventPhase::Request => "mcp.invocation",
        EventPhase::ReportedResult => match result {
            ObservationResult::Success => "mcp.result.success",
            ObservationResult::Failure => "mcp.result.failure",
            ObservationResult::Reported => "mcp.result",
        },
        EventPhase::VerifiedEffect => "mcp.effect",
    };
    RelationProfile::new(name, "count")
}

/// Invocation counts use the request phase only. A reported success is not an effect.
pub fn invocation_event(observation: &HostObservation) -> (r: Option<InteractionEvent>)
    ensures
        observation.phase == EventPhase::Request && observation.weight != 0 ==> (r matches Some(e) && e@
            == host_event_spec(*observation)),
        !(observation.phase == EventPhase::Request && observation.weight != 0) ==> r is None,
{
    if observation.phase != EventPhase::Request {
        return None;
    }
    match to_event(observation) {
        Ok(e) => Some(e),
        Err(_) => None,
    }
}

/// Projects a host observation into an event. A success labelled as a verified effect, and a
/// zero weight, are refused.
pub fn to_event(observation: &HostObservation) -> (r: Result<InteractionEvent, AdapterError>)
    ensures
        observation.result == ObservationResult::Success && observation.phase == EventPhase::VerifiedEffect
            ==> r == Err::<InteractionEvent, AdapterError>(AdapterError::SuccessIsNotEffect),
        !(observation.result == ObservationResult::Success && observation.phase == EventPhase::VerifiedEffect)
            && observation.weight == 0 ==> r == Err::<InteractionEvent, AdapterError>(AdapterError::Ingest(IngestError::ZeroWeight)),
        !(observation.result == ObservationResult::Success && observation.phase == EventPhase::VerifiedEffect)
            && observation.weight != 0 ==> (r matches Ok(e) && e@ == host_event_spec(*observation)),
{
    if observation.result == ObservationResult::Success && observation.phase == EventPhase::VerifiedEffect {
        return Err(AdapterError::SuccessIsNotEffect);
    }
    if observation.weight == 0 {
        return Err(AdapterError::Ingest(IngestError::ZeroWeight));
    }
    Ok(InteractionEvent {
        event_key: EventKey {
            producer: observation.producer.clone(),
            boot_epoch: observation.boot_epoch,
            sequence: observation.sequence,
            phase: observation.phase,
        },
        scope: ScopeId(observation.scope.clone()),
        relation: relation_for(observation.phase, observation.result),
        source: EntityId(observation.source.clone()),
        target: EntityId(observation.target.clone()),
        event_time: observation.event_time,
        observed_at: None,
        weight: observation.weight,
        evidence: observation.evidence.clone(),
        quality: Quality::default(),
    })
}

} // verus!
