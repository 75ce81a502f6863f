//! Identifiers shared across the platform.
use vstd::prelude::*;

verus! {

/// Identifier of an action proposal.
#[derive(Debug, PartialEq, Eq, Hash)]
pub struct ActionProposalId(pub String);

impl Clone for ActionProposalId {
    fn clone(&self) -> (r: ActionProposalId)
        ensures
            r == *self,
    {
        ActionProposalId(self.0.clone())
    }
}

/// Identifier of a piece of evidence.
#[derive(Debug, PartialEq, Eq, Hash)]
pub struct EvidenceId(pub String);

impl Clone for EvidenceId {
    fn clone(&self) -> (r: EvidenceId)
        ensures
            r == *self,
    {
        EvidenceId(self.0.clone())
    }
}

/// Identifier of an incident.
#[derive(Debug, PartialEq, Eq, Hash)]
pub struct IncidentId(pub String);

impl Clone for IncidentId {
    fn clone(&self) -> (r: IncidentId)
        ensures
            r == *self,
    {
        IncidentId(self.0.clone())
    }
}

/// Identifier of an observed object.
#[derive(Debug, PartialEq, Eq, Hash)]
pub struct ObjectId(pub String);

impl Clone for ObjectId {
    fn clone(&self) -> (r: ObjectId)
        ensures
            r == *self,
    {
        ObjectId(self.0.clone())
    }
}

/// Identifier of an observation.
#[derive(Debug, PartialEq, Eq, Hash)]
pub struct ObservationId(pub String);

impl Clone for ObservationId {
    fn clone(&self) -> (r: ObservationId)
        ensures
            r == *self,
    {
        ObservationId(self.0.clone())
    }
}

} // verus!
