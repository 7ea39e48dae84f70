//! Candidate explanations. Scores never become graph edges or attacks.

use crate::model::{witness_view, EntityId, Quality};
use crate::score::DensityScore;
use vstd::prelude::*;

verus! {

/// A dense region offered to an analyst, with the evidence behind it.
#[derive(Debug, Clone, PartialEq, Eq)]
pub struct Candidate {
    pub scope: String,
    pub relation: String,
    pub score: Option<DensityScore>,
    pub participants: Vec<(EntityId, EntityId)>,
    pub witnesses: Vec<String>,
    pub verification: Verification,
    pub quality: Quality,
}

/// How far a candidate has been checked against the host's real entities.
#[derive(Debug, Clone, Copy, PartialEq, Eq, Structural)]
pub enum Verification {
    Corroborated,
    Partial,
    NotPerformed,
}

/// A candidate built from witnesses: their pairs as participants, their evidence as witnesses,
/// not yet verified.
pub fn from_witnesses(
    scope: &str,
    relation: &str,
    density: Option<DensityScore>,
    witnesses: &[(EntityId, EntityId, String)],
    quality: Quality,
) -> (r: Candidate)
    ensures
        r.scope@ == scope@,
        r.relation@ == relation@,
        r.score == density,
        r.participants@.len() == witnesses@.len(),
        r.witnesses@.len() == witnesses@.len(),
        forall|i: int| 0 <= i < witnesses@.len() ==> (#[trigger] r.participants@[i]).0@ == witness_view(witnesses@[i]).0
            && r.participants@[i].1@ == witness_view(witnesses@[i]).1
            && r.witnesses@[i]@ == witness_view(witnesses@[i]).2,
        r.verification == Verification::NotPerformed,
        r.quality == quality,
{
    let mut participants: Vec<(EntityId, EntityId)> = Vec::new();
    let mut evidence: Vec<String> = Vec::new();
    let mut i: usize = 0;
    while i < witnesses.len()
        invariant
            i <= witnesses@.len(),
            participants@.len() == i,
            evidence@.len() == i,
            forall|j: int| 0 <= j < i ==> (#[trigger] participants@[j]).0@ == witness_view(witnesses@[j]).0
                && participants@[j].1@ == witness_view(witnesses@[j]).1
                && evidence@[j]@ == witness_view(witnesses@[j]).2,
        decreases witnesses@.len() - i,
    {
        let w = &witnesses[i];
        participants.push((w.0.clone(), w.1.clone()));
        evidence.push(w.2.clone());
        i += 1;
    }
    Candidate {
        scope: scope.to_owned(),
        relation: relation.to_owned(),
        score: density,
        participants,
        witnesses: evidence,
        verification: Verification::NotPerformed,
        quality,
    }
}

/// A candidate is never a security finding: a dense hub is a lead, not an attack.
pub fn is_security_finding(candidate: &Candidate) -> (r: bool)
    ensures
        !r,
{
    false
}

} // verus!
