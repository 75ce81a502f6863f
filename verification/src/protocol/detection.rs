//! Observations, objects, evidence and incidents.
use vstd::prelude::*;
use crate::protocol::ids::{EvidenceId, IncidentId, ObjectId, ObservationId};

verus! {

/// A confidence percentage, always within `0..=100`.
#[derive(Debug, Clone, Copy, PartialEq, Eq, PartialOrd, Ord, Structural)]
pub struct Confidence(u8);

impl Confidence {
    #[verifier::type_invariant]
    spec fn bounded(self) -> bool {
        self.0 <= 100
    }

    /// The percentage held.
    pub closed spec fn view(self) -> u8 {
        self.0
    }

    /// A confidence of `value` percent; `None` above 100.
    pub fn new(value: u8) -> (r: Option<Confidence>)
        ensures
            value <= 100 ==> r is Some && r->0.view() == value,
            value > 100 ==> r is None,
    {
        if value <= 100 {
            Some(Confidence(value))
        } else {
            None
        }
    }

    pub fn value(self) -> (r: u8)
        ensures
            r == self.view(),
            r <= 100,
    {
        proof {
            use_type_invariant(self);
        }
        self.0
    }
}

/// Severity of an incident, in increasing order.
#[derive(Debug, Clone, Copy, PartialEq, Eq, PartialOrd, Ord, Structural)]
pub enum Severity {
    Low,
    Medium,
    High,
    Critical,
}

impl Severity {
    /// Position of the severity in its order.
    pub open spec fn rank(self) -> nat {
        match self {
            Severity::Low => 0,
            Severity::Medium => 1,
            Severity::High => 2,
            Severity::Critical => 3,
        }
    }

    /// The greater of two severities.
    pub open spec fn max_spec(self, other: Severity) -> Severity {
        if self.rank() >= other.rank() {
            self
        } else {
            other
        }
    }

    pub fn max_of(self, other: Severity) -> (r: Severity)
        ensures
            r == self.max_spec(other),
    {
        if Severity::rank_of(self) >= Severity::rank_of(other) {
            self
        } else {
            other
        }
    }

    fn rank_of(s: Severity) -> (r: u8)
        ensures
            r == s.rank(),
    {
        match s {
            Severity::Low => 0,
            Severity::Medium => 1,
            Severity::High => 2,
            Severity::Critical => 3,
        }
    }
}

/// Where a piece of evidence came from.
#[derive(Debug, Clone, Copy, PartialEq, Eq, Structural)]
pub enum EvidenceSource {
    Rule,
    SelfModel,
    MemoryGraph,
    MachineLearning,
    KernelTelemetry,
    FilesystemTelemetry,
    NetworkTelemetry,
}

/// A recorded piece of evidence.
#[derive(Debug, Clone, PartialEq, Eq)]
pub struct Evidence {
    pub id: EvidenceId,
    pub source: EvidenceSource,
    pub description: String,
    pub confidence: Confidence,
}

/// An incident that groups evidence.
#[derive(Debug, Clone, PartialEq, Eq)]
pub struct Incident {
    pub id: IncidentId,
    pub severity: Severity,
    pub summary: String,
    pub evidence: Vec<EvidenceId>,
}

/// The kind of an observed object.
#[derive(Debug, Clone, Copy, PartialEq, Eq, Structural)]
pub enum EntityKind {
    Process,
    File,
    User,
    Host,
    NetworkEndpoint,
    Service,
    Container,
    Incident,
    Threat,
}

/// An observed object.
#[derive(Debug, Clone, PartialEq, Eq)]
pub struct ObjectDescriptor {
    pub id: ObjectId,
    pub kind: EntityKind,
    pub label: String,
}

/// The kind of an observation.
#[derive(Debug, Clone, Copy, PartialEq, Eq, Structural)]
pub enum ObservationKind {
    ProcessStarted,
    FileExecuted,
    FileRead,
    FileWritten,
    NetworkConnection,
    ServiceInteraction,
    Associated,
}

/// A normalised observation of a source object, optionally acting on a target.
#[derive(Debug, Clone, PartialEq, Eq)]
pub struct Observation {
    pub id: ObservationId,
    pub kind: ObservationKind,
    pub source: ObjectDescriptor,
    pub target: Option<ObjectDescriptor>,
    pub observed_at: u64,
    pub expires_at: Option<u64>,
    pub severity: Severity,
    pub confidence: Confidence,
}

/// Evidence that detection proposes, before it is recorded against an incident.
#[derive(Debug, Clone, PartialEq, Eq)]
pub struct EvidenceCandidate {
    pub source: EvidenceSource,
    pub summary: String,
    pub description: String,
    pub severity: Severity,
    pub confidence: Confidence,
    pub related_objects: Vec<ObjectId>,
}

} // verus!
