//! `RadioChron` projections. Scan visibility is not a communication edge.

use crate::model::{
    EntityId, EventKey, EventKeyView, EventPhase, EventView, IngestError, InteractionEvent,
    PairKeyView, Quality, RelationProfile, ScopeId,
};
use vstd::prelude::*;

verus! {

/// The kind of a radio capture.
#[derive(Debug, Clone, Copy, PartialEq, Eq, Structural)]
pub enum RadioKind {
    Association,
    AuthFailure,
    Roam,
    ScanVisibility,
}

/// One radio capture from a sensor.
#[derive(Debug, Clone, PartialEq, Eq)]
pub struct RadioObservation {
    pub producer: String,
    pub boot_epoch: u64,
    pub sequence: u64,
    pub kind: RadioKind,
    pub scope: String,
    pub device: String,
    pub access_point: String,
    pub event_time: u64,
    pub evidence: String,
    pub capture_complete: bool,
    pub scan_policy_changed: bool,
    pub identity_confidence: u8,
}

/// The relation a radio kind is counted under; each subtype keeps its own name.
pub open spec fn relation_name_spec(kind: RadioKind) -> &'static str {
    match kind {
        RadioKind::Association => "radio.association",
        RadioKind::AuthFailure => "radio.auth_failure",
        RadioKind::Roam => "radio.roam",
        RadioKind::ScanVisibility => "radio.visibility",
    }
}

/// The event a radio capture becomes: a request-phase count of one from device to access point,
/// its quality taken from the capture.
pub open spec fn radio_event_spec(o: RadioObservation) -> EventView {
    EventView {
        key: EventKeyView {
            producer: o.producer@,
            boot_epoch: o.boot_epoch,
            sequence: o.sequence,
            phase: EventPhase::Request,
        },
        pair: PairKeyView {
            scope: o.scope@,
            name: relation_name_spec(o.kind)@,
            unit: "count"@,
            source: o.device@,
            target: o.access_point@,
        },
        event_time: o.event_time,
        observed_at: None,
        weight: 1,
        evidence: o.evidence@,
        quality: Quality {
            sampled: o.scan_policy_changed,
            identity_confidence: o.identity_confidence,
            gaps: !o.capture_complete,
            exposure: 100,
        },
    }
}

/// Projects a radio capture into an interaction event. Scan rows use `radio.visibility`.
pub fn to_event(observation: &RadioObservation) -> (r: Result<InteractionEvent, IngestError>)
    ensures
        r matches Ok(e) && e@ == radio_event_spec(*observation),
{
    Ok(InteractionEvent {
        event_key: EventKey {
            producer: observation.producer.clone(),
            boot_epoch: observation.boot_epoch,
            sequence: observation.sequence,
            phase: EventPhase::Request,
        },
        scope: ScopeId(observation.scope.clone()),
        relation: RelationProfile::new(relation_name(observation.kind), "count"),
        source: EntityId(observation.device.clone()),
        target: EntityId(observation.access_point.clone()),
        event_time: observation.event_time,
        observed_at: None,
        weight: 1,
        evidence: observation.evidence.clone(),
        quality: Quality {
            sampled: observation.scan_policy_changed,
            identity_confidence: observation.identity_confidence,
            gaps: !observation.capture_complete,
            exposure: 100,
        },
    })
}

/// The relation name of a radio kind.
pub fn relation_name(kind: RadioKind) -> (r: &'static str)
    ensures
        r == relation_name_spec(kind),
{
    match kind {
        RadioKind::Association => "radio.association",
        RadioKind::AuthFailure => "radio.auth_failure",
        RadioKind::Roam => "radio.roam",
        RadioKind::ScanVisibility => "radio.visibility",
    }
}

/// Only a scan would invent a communication edge if it were counted as one.
pub fn invents_communication(kind: RadioKind) -> (r: bool)
    ensures
        r == (kind == RadioKind::ScanVisibility),
{
    match kind {
        RadioKind::ScanVisibility => true,
        _ => false,
    }
}

} // verus!
