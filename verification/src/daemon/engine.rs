//! The daemon core: observations become Memory Graph nodes and consolidated
//! relationships; a path from the observed objects to a known threat becomes
//! evidence of a correlated incident; proposals are evaluated under the
//! Guard's authority.
use vstd::prelude::*;
use vstd::string::StringExecFns;
use crate::daemon::actions::{
    ActionService, ActionStoreError, detail_reports, evaluation_recorded, has_proposal,
    proposal_at, evaluations_of, transactions_of,
};
use crate::daemon::guard::{GuardService, GuardStoreError, authority_name, finding_reports};
use crate::guard::authority_for;
use crate::protocol::trust::TrustState;
use crate::daemon::incidents::{IncidentService, IncidentStoreError, candidate_recorded};
use crate::memory::model::{
    DecayPolicy, DecayRate, MemoryConfidence, MemoryNode, MemoryNodeId, MemoryNodeKind,
    MemoryPriority, MemoryRelationship, MemoryRelationshipId, MemoryRelationshipKind, MemoryState,
    MemoryStrength, RelationshipView, RetentionClass,
};
use crate::memory::rows::{StorageError, tuple_form, tuple_text};
use crate::text::{debug_quoted, debug_quoted_spec};
use crate::memory::storage::{
    MemoryPath, MemoryStore, PathQuery, ThreatPath, TraversalDirection, node_stored,
    observation_stored, saved_node, threat_paths_found,
};
use crate::protocol::detection::{
    Confidence, EntityKind, EvidenceCandidate, EvidenceSource, ObjectDescriptor, Observation,
    ObservationKind, Severity,
};
use crate::protocol::ids::{EvidenceId, IncidentId, ObjectId};
use crate::text::{decimal, decimal_spec, id_lt, join, join_spec};
use crate::protocol::ipc::{
    ActionDetailDto, ActionSummaryDto, GuardStatusDto, IncidentDetailDto, IncidentSummaryDto,
    IntegrityFindingDto, MemoryNodeDto, TelemetryEventDto, TelemetrySourceDto, TelemetryStatusDto,
};
use crate::protocol::action::ActionProposal;
use crate::protocol::ids::ActionProposalId;
use crate::memory::storage::kind_filter;
use crate::daemon::incidents::{has_incident, summary_reports, evidence_reports, evidence_of, objects_of};

verus! {

/// Why a request to the daemon core failed.
#[derive(Debug)]
pub enum DaemonError {
    Memory(StorageError),
    Incidents(IncidentStoreError),
    Actions(ActionStoreError),
    Guard(GuardStoreError),
    Debug(String),
}

impl DaemonError {
    /// The debug form of the error, as `{:?}` renders it; the text of a
    /// malformed evidence list's JSON error is left to serde_json.
    pub open spec fn describe_spec(&self) -> Seq<char> {
        match self {
            DaemonError::Memory(e) => tuple_form("Memory"@, e.describe_spec()),
            DaemonError::Incidents(e) => tuple_form("Incidents"@, e.describe_spec()),
            DaemonError::Actions(e) => tuple_form("Actions"@, e.describe_spec()),
            DaemonError::Guard(e) => tuple_form("Guard"@, e.describe_spec()),
            DaemonError::Debug(s) => tuple_form("Debug"@, debug_quoted_spec(s@)),
        }
    }

    /// Renders the error in its debug form.
    pub fn describe(&self) -> (r: String)
        ensures
            !(self matches DaemonError::Memory(StorageError::InvalidReinforcementEvidenceJson(_)))
                ==> r@ == self.describe_spec(),
    {
        match self {
            DaemonError::Memory(e) => tuple_text("Memory", e.describe().as_str()),
            DaemonError::Incidents(e) => tuple_text("Incidents", e.describe().as_str()),
            DaemonError::Actions(e) => tuple_text("Actions", e.describe().as_str()),
            DaemonError::Guard(e) => tuple_text("Guard", e.describe().as_str()),
            DaemonError::Debug(s) => tuple_text("Debug", debug_quoted(s.as_str()).as_str()),
        }
    }
}

/// What ingesting an observation produced.
#[derive(Debug, PartialEq, Eq)]
pub struct IngestionOutcome {
    pub relationship_id: Option<MemoryRelationshipId>,
    pub incidents: Vec<IncidentId>,
    pub evidence: Vec<EvidenceId>,
    pub strongest_graph_score: Option<u8>,
}

/// The node kind an observed object is remembered as.
pub open spec fn entity_node_kind(kind: EntityKind) -> MemoryNodeKind {
    match kind {
        EntityKind::Process => MemoryNodeKind::Process,
        EntityKind::File => MemoryNodeKind::File,
        EntityKind::User => MemoryNodeKind::User,
        EntityKind::Host => MemoryNodeKind::Host,
        EntityKind::NetworkEndpoint => MemoryNodeKind::NetworkEndpoint,
        EntityKind::Service => MemoryNodeKind::Service,
        EntityKind::Container => MemoryNodeKind::Container,
        EntityKind::Incident => MemoryNodeKind::Incident,
        EntityKind::Threat => MemoryNodeKind::Threat,
    }
}

pub fn map_entity_kind(kind: EntityKind) -> (r: MemoryNodeKind)
    ensures
        r == entity_node_kind(kind),
{
    match kind {
        EntityKind::Process => MemoryNodeKind::Process,
        EntityKind::File => MemoryNodeKind::File,
        EntityKind::User => MemoryNodeKind::User,
        EntityKind::Host => MemoryNodeKind::Host,
        EntityKind::NetworkEndpoint => MemoryNodeKind::NetworkEndpoint,
        EntityKind::Service => MemoryNodeKind::Service,
        EntityKind::Container => MemoryNodeKind::Container,
        EntityKind::Incident => MemoryNodeKind::Incident,
        EntityKind::Threat => MemoryNodeKind::Threat,
    }
}

/// The relationship kind an observation is remembered as.
pub open spec fn observation_relationship_kind(kind: ObservationKind) -> MemoryRelationshipKind {
    match kind {
        ObservationKind::ProcessStarted => MemoryRelationshipKind::Spawned,
        ObservationKind::FileExecuted => MemoryRelationshipKind::Executed,
        ObservationKind::FileRead => MemoryRelationshipKind::Read,
        ObservationKind::FileWritten => MemoryRelationshipKind::Wrote,
        ObservationKind::NetworkConnection => MemoryRelationshipKind::ConnectedTo,
        ObservationKind::ServiceInteraction => MemoryRelationshipKind::AssociatedWith,
        ObservationKind::Associated => MemoryRelationshipKind::AssociatedWith,
    }
}

pub fn map_relationship_kind(kind: ObservationKind) -> (r: MemoryRelationshipKind)
    ensures
        r == observation_relationship_kind(kind),
{
    match kind {
        ObservationKind::ProcessStarted => MemoryRelationshipKind::Spawned,
        ObservationKind::FileExecuted => MemoryRelationshipKind::Executed,
        ObservationKind::FileRead => MemoryRelationshipKind::Read,
        ObservationKind::FileWritten => MemoryRelationshipKind::Wrote,
        ObservationKind::NetworkConnection => MemoryRelationshipKind::ConnectedTo,
        ObservationKind::ServiceInteraction | ObservationKind::Associated => {
            MemoryRelationshipKind::AssociatedWith
        },
    }
}

/// The memory priority of an observation of a severity.
pub open spec fn severity_priority(severity: Severity) -> MemoryPriority {
    match severity {
        Severity::Low => MemoryPriority::Low,
        Severity::Medium => MemoryPriority::Normal,
        Severity::High => MemoryPriority::High,
        Severity::Critical => MemoryPriority::Critical,
    }
}

pub fn map_priority(severity: Severity) -> (r: MemoryPriority)
    ensures
        r == severity_priority(severity),
{
    match severity {
        Severity::Low => MemoryPriority::Low,
        Severity::Medium => MemoryPriority::Normal,
        Severity::High => MemoryPriority::High,
        Severity::Critical => MemoryPriority::Critical,
    }
}

/// The longer-lived of two retention classes.
pub open spec fn stronger_retention_spec(left: RetentionClass, right: RetentionClass) -> RetentionClass {
    if left == RetentionClass::Persistent || right == RetentionClass::Persistent {
        RetentionClass::Persistent
    } else if left == RetentionClass::LongTerm || right == RetentionClass::LongTerm {
        RetentionClass::LongTerm
    } else {
        RetentionClass::ShortTerm
    }
}

pub fn stronger_retention(left: RetentionClass, right: RetentionClass) -> (r: RetentionClass)
    ensures
        r == stronger_retention_spec(left, right),
{
    match (left, right) {
        (RetentionClass::Persistent, _) | (_, RetentionClass::Persistent) => {
            RetentionClass::Persistent
        },
        (RetentionClass::LongTerm, _) | (_, RetentionClass::LongTerm) => RetentionClass::LongTerm,
        _ => RetentionClass::ShortTerm,
    }
}

/// The retention class of a newly observed object: threats are kept long,
/// incidents for good, everything else briefly.
pub open spec fn entity_retention(kind: EntityKind) -> RetentionClass {
    match kind {
        EntityKind::Threat => RetentionClass::LongTerm,
        EntityKind::Incident => RetentionClass::Persistent,
        _ => RetentionClass::ShortTerm,
    }
}

pub fn map_retention(kind: EntityKind) -> (r: RetentionClass)
    ensures
        r == entity_retention(kind),
{
    match kind {
        EntityKind::Threat => RetentionClass::LongTerm,
        EntityKind::Incident => RetentionClass::Persistent,
        _ => RetentionClass::ShortTerm,
    }
}

/// The node an observation of `object` saves, merged with the node already
/// remembered for it: the first sighting and the latest last sighting are
/// kept, a reasoning-active state stays, and the priority and retention
/// only rise.
pub open spec fn persisted_node(
    existing: Option<MemoryNode>,
    object: ObjectDescriptor,
    observation: Observation,
) -> MemoryNode {
    let fresh = MemoryNode {
        id: MemoryNodeId(object.id.0),
        kind: entity_node_kind(object.kind),
        label: object.label,
        created_at: observation.observed_at,
        last_seen_at: observation.observed_at,
        expires_at: observation.expires_at,
        state: MemoryState::Observed,
        priority: severity_priority(observation.severity),
        retention: entity_retention(object.kind),
        decay_policy: DecayPolicy::NoDecay,
    };
    match existing {
        None => fresh,
        Some(e) => MemoryNode {
            created_at: e.created_at,
            last_seen_at: if e.last_seen_at >= observation.observed_at {
                e.last_seen_at
            } else {
                observation.observed_at
            },
            state: if e.state.active_spec() {
                e.state
            } else {
                MemoryState::Observed
            },
            priority: e.priority.max_spec(fresh.priority),
            retention: stronger_retention_spec(e.retention, fresh.retention),
            ..fresh
        },
    }
}

/// Whether `r` is the relationship an observation with a target records: a
/// short-term, linearly decaying (10%) edge named after the observation,
/// with the observation's confidence as its strength and confidence.
pub open spec fn observed_relationship(
    observation: Observation,
    target: ObjectDescriptor,
    r: RelationshipView,
) -> bool {
    &&& r.id == "obs:"@ + observation.id.0@
    &&& r.kind == observation_relationship_kind(observation.kind)
    &&& r.source == observation.source.id.0@
    &&& r.target == target.id.0@
    &&& r.created_at == observation.observed_at
    &&& r.last_seen_at == observation.observed_at
    &&& r.observation_count == 1
    &&& r.expires_at == observation.expires_at
    &&& r.state == MemoryState::Observed
    &&& r.priority == severity_priority(observation.severity)
    &&& r.retention == RetentionClass::ShortTerm
    &&& r.decay_policy matches DecayPolicy::Linear { rate } && rate.view() == 10
    &&& r.strength.view() == observation.confidence.view()
    &&& r.confidence.view() == observation.confidence.view()
    &&& r.reinforcement is None
}

/// Whether an observation seeds threat knowledge: an association with a
/// threat, which records memory but looks for no threat path.
pub open spec fn seeds_threat_knowledge(observation: Observation) -> bool {
    &&& observation.kind == ObservationKind::Associated
    &&& observation.target matches Some(t) && t.kind == EntityKind::Threat
}

/// The threat search of an ingestion: up to six relationships in either
/// direction, evaluated at the observation's time.
pub open spec fn ingestion_query(q: PathQuery, observed_at: u64) -> bool {
    &&& q.max_depth == 6
    &&& q.direction == TraversalDirection::Any
    &&& q.relationship_kinds@.len() == 0
    &&& q.minimum_strength is None
    &&& q.minimum_confidence is None
    &&& q.evaluation_time == Some(observed_at)
}

/// The description of the evidence a threat path gives.
pub open spec fn threat_path_description(path: MemoryPath) -> Seq<char> {
    "Threat path: "@ + join_spec(path.nodes@.map_values(|n: MemoryNodeId| n.0@), " -> "@) + " ("@
        + decimal_spec(path.relationships@.len()) + " relationship(s)), score "@ + decimal_spec(
        path.score_spec() as nat,
    )
}

/// The Memory Graph, the incident, action and Guard services, the count of
/// ingested observations, the recent telemetry events (at most 512, oldest
/// first) and the telemetry sources.
pub struct DaemonCore {
    memory: MemoryStore,
    incidents: IncidentService,
    actions: ActionService,
    guard: GuardService,
    observations_ingested: u64,
    telemetry_recent: Vec<crate::protocol::ipc::TelemetryEventDto>,
    telemetry_sources: Vec<crate::protocol::ipc::TelemetrySourceDto>,
}

impl DaemonCore {
    pub closed spec fn memory_spec(&self) -> MemoryStore {
        self.memory
    }

    pub closed spec fn incidents_spec(&self) -> IncidentService {
        self.incidents
    }

    pub closed spec fn actions_spec(&self) -> ActionService {
        self.actions
    }

    pub closed spec fn guard_spec(&self) -> GuardService {
        self.guard
    }

    pub closed spec fn ingested(&self) -> u64 {
        self.observations_ingested
    }

    pub closed spec fn recent_events(&self) -> Seq<crate::protocol::ipc::TelemetryEventDto> {
        self.telemetry_recent@
    }

    pub closed spec fn sources(&self) -> Seq<crate::protocol::ipc::TelemetrySourceDto> {
        self.telemetry_sources@
    }

    /// The services are well formed and at most 512 telemetry events are kept.
    pub open spec fn well_formed(&self) -> bool {
        &&& self.memory_spec().well_formed()
        &&& self.incidents_spec().well_formed()
        &&& self.actions_spec().well_formed()
        &&& self.recent_events().len() <= 512
    }

    /// A core over the given services, with nothing ingested yet.
    pub fn from_services(
        memory: MemoryStore,
        incidents: IncidentService,
        actions: ActionService,
        guard: GuardService,
    ) -> (r: DaemonCore)
        requires
            memory.well_formed(),
            incidents.well_formed(),
            actions.well_formed(),
        ensures
            r.well_formed(),
            r.memory_spec() == memory,
            r.incidents_spec() == incidents,
            r.actions_spec() == actions,
            r.guard_spec() == guard,
            r.ingested() == 0,
            r.recent_events().len() == 0,
            r.sources().len() == 0,
    {
        DaemonCore {
            memory,
            incidents,
            actions,
            guard,
            observations_ingested: 0,
            telemetry_recent: Vec::new(),
            telemetry_sources: Vec::new(),
        }
    }

    /// A core over empty services.
    pub fn open() -> (r: DaemonCore)
        ensures
            r.well_formed(),
            r.ingested() == 0,
            r.memory_spec().node_seq().len() == 0,
            r.memory_spec().rel_seq().len() == 0,
            r.incidents_spec().incidents_view().len() == 0,
            r.incidents_spec().evidence_view().len() == 0,
            r.incidents_spec().objects_view().len() == 0,
            r.incidents_spec().next_incident_count() == 1,
            r.incidents_spec().next_evidence_count() == 1,
            r.actions_spec().proposals_view().len() == 0,
            r.actions_spec().evaluations_view().len() == 0,
            r.actions_spec().transactions_view().len() == 0,
            r.actions_spec().next_proposal_count() == 1,
            r.actions_spec().next_sequence_number() == 1,
            r.guard_spec().state() == TrustState::Trusted,
            r.guard_spec().state_updated_at() == 0,
            r.guard_spec().findings_view().len() == 0,
            r.guard_spec().next_finding_id() == 1,
            r.recent_events().len() == 0,
            r.sources().len() == 0,
    {
        DaemonCore::from_services(
            MemoryStore::new(),
            IncidentService::new(),
            ActionService::new(),
            GuardService::new(),
        )
    }

    pub fn memory(&self) -> (r: &MemoryStore)
        ensures
            *r == self.memory_spec(),
    {
        &self.memory
    }

    pub fn incidents(&self) -> (r: &IncidentService)
        ensures
            *r == self.incidents_spec(),
    {
        &self.incidents
    }

    pub fn actions(&self) -> (r: &ActionService)
        ensures
            *r == self.actions_spec(),
    {
        &self.actions
    }

    pub fn guard(&self) -> (r: &GuardService)
        ensures
            *r == self.guard_spec(),
    {
        &self.guard
    }

    pub fn observations_ingested(&self) -> (r: u64)
        ensures
            r == self.ingested(),
    {
        self.observations_ingested
    }

    /// Saves the node an observation of `object` describes, merged with the
    /// node already remembered for it.
    fn persist_object(&mut self, object: &ObjectDescriptor, observation: &Observation)
        requires
            old(self).well_formed(),
        ensures
            final(self).well_formed(),
            node_stored(
                old(self).memory_spec(),
                final(self).memory_spec(),
                persisted_node(
                    old(self).memory_spec().node(object.id.0@),
                    *object,
                    *observation,
                ),
            ),
            final(self).incidents_spec() == old(self).incidents_spec(),
            final(self).actions_spec() == old(self).actions_spec(),
            final(self).guard_spec() == old(self).guard_spec(),
            final(self).ingested() == old(self).ingested(),
            final(self).recent_events() == old(self).recent_events(),
            final(self).sources() == old(self).sources(),
    {
        let id = MemoryNodeId(object.id.0.clone());
        let existing = self.memory.load_node(&id);
        let priority = map_priority(observation.severity);
        let retention = map_retention(object.kind);
        let node = match existing {
            None => MemoryNode {
                id,
                kind: map_entity_kind(object.kind),
                label: object.label.clone(),
                created_at: observation.observed_at,
                last_seen_at: observation.observed_at,
                expires_at: observation.expires_at,
                state: MemoryState::Observed,
                priority,
                retention,
                decay_policy: DecayPolicy::NoDecay,
            },
            Some(e) => MemoryNode {
                id,
                kind: map_entity_kind(object.kind),
                label: object.label.clone(),
                created_at: e.created_at,
                last_seen_at: if e.last_seen_at >= observation.observed_at {
                    e.last_seen_at
                } else {
                    observation.observed_at
                },
                expires_at: observation.expires_at,
                state: if e.state.is_active_for_reasoning() {
                    e.state
                } else {
                    MemoryState::Observed
                },
                priority: e.priority.max_of(priority),
                retention: stronger_retention(e.retention, retention),
                decay_policy: DecayPolicy::NoDecay,
            },
        };
        self.memory.save_node(node);
    }
}

/// Whether the Memory Graph went from `before` to `after` by an ingestion of
/// `observation` through the intermediate graphs `m1` (source saved) and `m2`
/// (target saved), with `relationship` the identifier of the observed edge.
pub open spec fn memory_ingested(
    before: MemoryStore,
    m1: MemoryStore,
    m2: MemoryStore,
    after: MemoryStore,
    observation: Observation,
    relationship: Option<Seq<char>>,
) -> bool {
    &&& node_stored(
        before,
        m1,
        persisted_node(before.node(observation.source.id.0@), observation.source, observation),
    )
    &&& match observation.target {
        Some(t) => {
            &&& node_stored(m1, m2, persisted_node(m1.node(t.id.0@), t, observation))
            &&& relationship is Some
            &&& exists|v: RelationshipView|
                #[trigger] observed_relationship(observation, t, v) && observation_stored(
                    m2,
                    after,
                    v,
                    relationship->0,
                )
        },
        None => m2 == m1 && after == m2 && relationship is None,
    }
}

/// Whether `found` are the threat paths an ingestion of `observation`
/// reports from the graph `memory`, searched from `origin`: none when the
/// observation seeds threat knowledge; otherwise the paths from the source,
/// unless it is a threat, and when there are none, from the target, unless
/// it is a threat.
pub open spec fn graph_findings(
    memory: MemoryStore,
    observation: Observation,
    found: Seq<ThreatPath>,
    origin: Seq<char>,
) -> bool {
    if seeds_threat_knowledge(observation) {
        found.len() == 0
    } else {
        exists|q: PathQuery, from_source: Seq<ThreatPath>|
            #![trigger ingestion_query(q, observation.observed_at), from_source.len()]
            {
                &&& ingestion_query(q, observation.observed_at)
                &&& if observation.source.kind != EntityKind::Threat {
                    threat_paths_found(memory, observation.source.id.0@, q, from_source)
                } else {
                    from_source.len() == 0
                }
                &&& if from_source.len() > 0 {
                    found == from_source && origin == observation.source.id.0@
                } else {
                    match observation.target {
                        Some(t) => if t.kind != EntityKind::Threat {
                            threat_paths_found(memory, t.id.0@, q, found) && origin == t.id.0@
                        } else {
                            found.len() == 0
                        },
                        None => found.len() == 0,
                    }
                }
            }
    }
}

/// The correlation key of a threat path found from `origin`.
pub open spec fn correlation_key(origin: Seq<char>, finding: ThreatPath) -> Seq<char> {
    origin + "|"@ + finding.threat.0@
}

/// Whether the incident service went from `before` to `after`, and the
/// ingestion returned `r`, given the threat paths `found` from `origin`: no
/// path records nothing; otherwise the strongest path becomes evidence of the
/// incident correlated by origin and threat.
pub open spec fn incidents_ingested(
    before: IncidentService,
    after: IncidentService,
    observation: Observation,
    found: Seq<ThreatPath>,
    origin: Seq<char>,
    r: Result<IngestionOutcome, DaemonError>,
) -> bool {
    if found.len() == 0 {
        &&& after == before
        &&& r matches Ok(o) && o.incidents@.len() == 0 && o.evidence@.len() == 0
            && o.strongest_graph_score is None
    } else {
        let key = correlation_key(origin, found[0]);
        &&& (r is Err <==> before.candidate_refused(key))
        &&& r matches Err(e) ==> {
            &&& e is Incidents
            &&& after.incidents_view() == before.incidents_view()
            &&& after.evidence_view() == before.evidence_view()
            &&& after.objects_view() == before.objects_view()
            &&& after.next_incident_count() == before.next_incident_count()
            &&& after.next_evidence_count() == before.next_evidence_count()
        }
        &&& r matches Ok(o) ==> {
            &&& o.strongest_graph_score == Some(found[0].path.score_spec())
            &&& o.incidents@.len() == 1
            &&& o.evidence@.len() == 1
            &&& candidate_recorded(
                before,
                after,
                key,
                EvidenceSource::MemoryGraph,
                "Memory Graph threat path detected"@,
                threat_path_description(found[0].path),
                observation.severity,
                found[0].path.weakest_confidence.view(),
                found[0].path.nodes@.map_values(|n: MemoryNodeId| n.0@),
                observation.observed_at,
                o.incidents@[0].0@,
                o.evidence@[0].0@,
            )
        }
    }
}

impl DaemonCore {
    /// Records the relationship an observation with a target describes,
    /// consolidated with the relationship it repeats.
    fn persist_relationship(&mut self, observation: &Observation) -> (r: Option<MemoryRelationshipId>)
        requires
            old(self).well_formed(),
        ensures
            final(self).well_formed(),
            match observation.target {
                Some(t) => r is Some && exists|v: RelationshipView|
                    #[trigger] observed_relationship(*observation, t, v) && observation_stored(
                        old(self).memory_spec(),
                        final(self).memory_spec(),
                        v,
                        (r->0).0@,
                    ),
                None => r is None && final(self).memory_spec() == old(self).memory_spec(),
            },
            final(self).incidents_spec() == old(self).incidents_spec(),
            final(self).actions_spec() == old(self).actions_spec(),
            final(self).guard_spec() == old(self).guard_spec(),
            final(self).ingested() == old(self).ingested(),
            final(self).recent_events() == old(self).recent_events(),
            final(self).sources() == old(self).sources(),
    {
        let target = match &observation.target {
            Some(t) => t,
            None => {
                return None;
            },
        };
        proof {
            reveal_strlit("obs:");
        }
        let id = String::from_str("obs:").concat(observation.id.0.as_str());
        let confidence = observation.confidence.value();
        let rate = DecayRate::new(10).unwrap();
        let relationship = MemoryRelationship {
            id: MemoryRelationshipId(id),
            kind: map_relationship_kind(observation.kind),
            source: MemoryNodeId(observation.source.id.0.clone()),
            target: MemoryNodeId(target.id.0.clone()),
            created_at: observation.observed_at,
            last_seen_at: observation.observed_at,
            observation_count: 1,
            expires_at: observation.expires_at,
            state: MemoryState::Observed,
            priority: map_priority(observation.severity),
            retention: RetentionClass::ShortTerm,
            decay_policy: DecayPolicy::Linear { rate },
            strength: MemoryStrength::new(confidence).unwrap(),
            confidence: MemoryConfidence::new(confidence).unwrap(),
            reinforcement: None,
        };
        assert(observed_relationship(*observation, *target, relationship@));
        let rid = self.memory.observe_relationship(&relationship);
        Some(rid)
    }

    /// The evidence candidate a threat path gives.
    fn candidate_for(finding: &ThreatPath, severity: Severity) -> (r: EvidenceCandidate)
        ensures
            r.source == EvidenceSource::MemoryGraph,
            r.summary@ == "Memory Graph threat path detected"@,
            r.description@ == threat_path_description(finding.path),
            r.severity == severity,
            r.confidence.view() == finding.path.weakest_confidence.view(),
            r.related_objects@.map_values(|o: ObjectId| o.0@) == finding.path.nodes@.map_values(
                |n: MemoryNodeId| n.0@,
            ),
    {
        let mut names: Vec<String> = Vec::new();
        let mut related: Vec<ObjectId> = Vec::new();
        let nodes = &finding.path.nodes;
        let mut i: usize = 0;
        while i < nodes.len()
            invariant
                i <= nodes@.len(),
                names@.map_values(|x: String| x@) == nodes@.take(i as int).map_values(
                    |n: MemoryNodeId| n.0@,
                ),
                related@.map_values(|o: ObjectId| o.0@) == nodes@.take(i as int).map_values(
                    |n: MemoryNodeId| n.0@,
                ),
            decreases nodes@.len() - i,
        {
            let ghost before_names = names@;
            let ghost before_related = related@;
            names.push(nodes[i].0.clone());
            related.push(ObjectId(nodes[i].0.clone()));
            proof {
                assert(nodes@.take(i + 1) =~= nodes@.take(i as int).push(nodes@[i as int]));
                assert(nodes@.take(i + 1).map_values(|n: MemoryNodeId| n.0@) =~= nodes@.take(
                    i as int,
                ).map_values(|n: MemoryNodeId| n.0@).push(nodes@[i as int].0@));
                assert(names@.map_values(|x: String| x@) =~= before_names.map_values(
                    |x: String| x@,
                ).push(nodes@[i as int].0@));
                assert(related@.map_values(|o: ObjectId| o.0@) =~= before_related.map_values(
                    |o: ObjectId| o.0@,
                ).push(nodes@[i as int].0@));
                assert(names@.map_values(|x: String| x@) =~= nodes@.take(i + 1).map_values(
                    |n: MemoryNodeId| n.0@,
                ));
                assert(related@.map_values(|o: ObjectId| o.0@) =~= nodes@.take(i + 1).map_values(
                    |n: MemoryNodeId| n.0@,
                ));
            }
            i = i + 1;
        }
        assert(nodes@.take(nodes@.len() as int) =~= nodes@);
        proof {
            reveal_strlit("Threat path: ");
            reveal_strlit(" -> ");
            reveal_strlit(" (");
            reveal_strlit(" relationship(s)), score ");
        }
        let description = String::from_str("Threat path: ");
        let joined = join(&names, " -> ");
        let description = description.concat(joined.as_str());
        let description = description.concat(" (");
        let count = decimal(finding.path.relationships.len() as u64);
        let description = description.concat(count.as_str());
        let description = description.concat(" relationship(s)), score ");
        let score = decimal(finding.path.score() as u64);
        let description = description.concat(score.as_str());
        let confidence = Confidence::new(finding.path.weakest_confidence.value()).unwrap();
        EvidenceCandidate {
            source: EvidenceSource::MemoryGraph,
            summary: String::from_str("Memory Graph threat path detected"),
            description,
            severity,
            confidence,
            related_objects: related,
        }
    }
}

/// Whether `after` is `before` once `observation` was ingested with the
/// outcome `r`: the objects and the relationship remembered, the graph's
/// findings recorded as evidence, and nothing else changed but the count of
/// observations.
pub open spec fn observation_ingested(
    before: DaemonCore,
    after: DaemonCore,
    observation: Observation,
    r: Result<IngestionOutcome, DaemonError>,
) -> bool {
    &&& after.ingested() == crate::daemon::incidents::next_count(before.ingested())
    &&& after.actions_spec() == before.actions_spec()
    &&& after.guard_spec() == before.guard_spec()
    &&& after.recent_events() == before.recent_events()
    &&& after.sources() == before.sources()
    &&& exists|m1: MemoryStore, m2: MemoryStore, rel: Option<Seq<char>>|
        #[trigger] memory_ingested(before.memory_spec(), m1, m2, after.memory_spec(), observation, rel)
            && (r matches Ok(o) ==> (match o.relationship_id {
            Some(x) => Some(x.0@),
            None => None,
        }) == rel)
    &&& exists|found: Seq<ThreatPath>, origin: Seq<char>|
        #[trigger] graph_findings(after.memory_spec(), observation, found, origin) && incidents_ingested(
            before.incidents_spec(),
            after.incidents_spec(),
            observation,
            found,
            origin,
            r,
        )
}

/// The kept telemetry events once `e` is kept: the oldest is dropped when
/// 512 are kept.
pub open spec fn event_kept(events: Seq<TelemetryEventDto>, e: TelemetryEventDto) -> Seq<TelemetryEventDto> {
    if events.len() >= 512 {
        events.drop_first().push(e)
    } else {
        events.push(e)
    }
}

impl DaemonCore {
    /// Ingests an observation: remembers its objects and the relationship
    /// between them, then, unless it seeds threat knowledge, looks for paths
    /// from the source (or else the target) to a known threat and records the
    /// strongest as evidence of the incident correlated by origin and threat.
    pub fn ingest_observation(&mut self, observation: &Observation) -> (r: Result<
        IngestionOutcome,
        DaemonError,
    >)
        requires
            old(self).well_formed(),
        ensures
            final(self).well_formed(),
            observation_ingested(*old(self), *final(self), *observation, r),
    {
        let ghost m0 = self.memory;
        self.persist_object(&observation.source, observation);
        let ghost m1 = self.memory;
        match &observation.target {
            Some(target) => self.persist_object(target, observation),
            None => {},
        }
        let ghost m2 = self.memory;
        let relationship_id = self.persist_relationship(observation);
        let ghost rel: Option<Seq<char>> = if relationship_id is Some {
            Some((relationship_id->0).0@)
        } else {
            None
        };
        assert(memory_ingested(m0, m1, m2, self.memory, *observation, rel));
        self.observations_ingested = self.observations_ingested.saturating_add(1);
        let seeds = observation.kind == ObservationKind::Associated && match &observation.target {
            Some(t) => t.kind == EntityKind::Threat,
            None => false,
        };
        if seeds {
            let outcome = IngestionOutcome {
                relationship_id,
                incidents: Vec::new(),
                evidence: Vec::new(),
                strongest_graph_score: None,
            };
            proof {
                let r0: Result<IngestionOutcome, DaemonError> = Ok(outcome);
                assert(graph_findings(self.memory_spec(), *observation, Seq::empty(), Seq::empty()));
                assert(memory_ingested(old(self).memory_spec(), m1, m2, self.memory_spec(), *observation, rel));
                assert(incidents_ingested(
                    old(self).incidents_spec(),
                    self.incidents_spec(),
                    *observation,
                    Seq::empty(),
                    Seq::empty(),
                    r0,
                ));
            }
            return Ok(outcome);
        }
        let mut query = PathQuery::default();
        query.max_depth = 6;
        query.direction = TraversalDirection::Any;
        query.evaluation_time = Some(observation.observed_at);
        assert(ingestion_query(query, observation.observed_at));
        let from_source: Vec<ThreatPath> = if observation.source.kind != EntityKind::Threat {
            self.memory.threat_paths_from(&MemoryNodeId(observation.source.id.0.clone()), &query)
        } else {
            Vec::new()
        };
        let ghost source_found = from_source@;
        let (found, origin) = if from_source.len() > 0 {
            (from_source, observation.source.id.0.clone())
        } else {
            match &observation.target {
                Some(t) => if t.kind != EntityKind::Threat {
                    (self.memory.threat_paths_from(&MemoryNodeId(t.id.0.clone()), &query), t.id.0.clone())
                } else {
                    (Vec::new(), String::new())
                },
                None => (Vec::new(), String::new()),
            }
        };
        assert(source_found.len() == source_found.len());
        assert(graph_findings(self.memory_spec(), *observation, found@, origin@));
        assert(memory_ingested(old(self).memory_spec(), m1, m2, self.memory_spec(), *observation, rel));
        if found.len() == 0 {
            return Ok(
                IngestionOutcome {
                    relationship_id,
                    incidents: Vec::new(),
                    evidence: Vec::new(),
                    strongest_graph_score: None,
                },
            );
        }
        let first = &found[0];
        let strongest = first.path.score();
        let candidate = DaemonCore::candidate_for(first, observation.severity);
        proof {
            reveal_strlit("|");
        }
        let key = origin.concat("|").concat(first.threat.0.as_str());
        let ghost incidents_before = self.incidents_spec();
        let result = match self.incidents.record_candidate(
            candidate,
            key.as_str(),
            observation.observed_at,
        ) {
            Ok((incident, evidence)) => {
                let mut incidents: Vec<IncidentId> = Vec::new();
                incidents.push(incident);
                let mut evidence_ids: Vec<EvidenceId> = Vec::new();
                evidence_ids.push(evidence);
                Ok(
                    IngestionOutcome {
                        relationship_id,
                        incidents,
                        evidence: evidence_ids,
                        strongest_graph_score: Some(strongest),
                    },
                )
            },
            Err(e) => Err(DaemonError::Incidents(e)),
        };
        proof {
            assert(key@ == correlation_key(origin@, found@[0]));
            assert(memory_ingested(old(self).memory_spec(), m1, m2, self.memory_spec(), *observation, rel));
            assert(graph_findings(self.memory_spec(), *observation, found@, origin@));
            assert(incidents_ingested(
                old(self).incidents_spec(),
                self.incidents_spec(),
                *observation,
                found@,
                origin@,
                result,
            ));
        }
        result
    }
}

/// The views of a list of strings.
pub open spec fn texts(s: Seq<String>) -> Seq<Seq<char>> {
    s.map_values(|x: String| x@)
}

fn copy_texts(s: &Vec<String>) -> (r: Vec<String>)
    ensures
        texts(r@) == texts(s@),
{
    let mut r: Vec<String> = Vec::new();
    let mut i: usize = 0;
    while i < s.len()
        invariant
            i <= s@.len(),
            texts(r@) == texts(s@.take(i as int)),
        decreases s@.len() - i,
    {
        let ghost before = r@;
        r.push(s[i].clone());
        proof {
            assert(texts(r@) =~= texts(before).push(s@[i as int]@));
            assert(s@.take(i + 1) =~= s@.take(i as int).push(s@[i as int]));
            assert(texts(s@.take(i + 1)) =~= texts(s@.take(i as int)).push(s@[i as int]@));
        }
        i = i + 1;
    }
    assert(s@.take(s@.len() as int) =~= s@);
    r
}

fn copy_text(s: &Option<String>) -> (r: Option<String>)
    ensures
        crate::daemon::actions::opt_view(r) == crate::daemon::actions::opt_view(*s),
{
    match s {
        Some(t) => Some(t.clone()),
        None => None,
    }
}

/// Whether two telemetry events hold the same values.
pub open spec fn same_event(a: TelemetryEventDto, b: TelemetryEventDto) -> bool {
    &&& a.id@ == b.id@
    &&& a.source@ == b.source@
    &&& a.event@ == b.event@
    &&& a.observation_kind@ == b.observation_kind@
    &&& a.process_id == b.process_id
    &&& a.source_object@ == b.source_object@
    &&& crate::daemon::actions::opt_view(a.target_object) == crate::daemon::actions::opt_view(
        b.target_object,
    )
    &&& crate::daemon::actions::opt_view(a.target_label) == crate::daemon::actions::opt_view(
        b.target_label,
    )
    &&& a.observed_at == b.observed_at
    &&& texts(a.incident_ids@) == texts(b.incident_ids@)
}

fn copy_event(e: &TelemetryEventDto) -> (r: TelemetryEventDto)
    ensures
        same_event(r, *e),
{
    TelemetryEventDto {
        id: e.id.clone(),
        source: e.source.clone(),
        event: e.event.clone(),
        observation_kind: e.observation_kind.clone(),
        process_id: e.process_id,
        source_object: e.source_object.clone(),
        target_object: copy_text(&e.target_object),
        target_label: copy_text(&e.target_label),
        observed_at: e.observed_at,
        incident_ids: copy_texts(&e.incident_ids),
    }
}

/// Whether two telemetry sources hold the same values.
pub open spec fn same_source(a: TelemetrySourceDto, b: TelemetrySourceDto) -> bool {
    a.source@ == b.source@ && a.status@ == b.status@ && a.detail@ == b.detail@
}

/// Whether `d` reports the node `n`.
pub open spec fn node_reports(d: MemoryNodeDto, n: MemoryNode) -> bool {
    &&& d.id@ == n.id.0@
    &&& d.kind@ == n.kind.name()
    &&& d.label@ == n.label@
    &&& d.state@ == n.state.name()
    &&& d.priority@ == n.priority.name()
    &&& d.retention@ == n.retention.name()
    &&& d.created_at == n.created_at
    &&& d.last_seen_at == n.last_seen_at
    &&& d.expires_at == n.expires_at
}

/// The reported form of a node.
pub fn memory_node_dto(node: MemoryNode) -> (r: MemoryNodeDto)
    ensures
        node_reports(r, node),
{
    MemoryNodeDto {
        id: node.id.0,
        kind: String::from_str(node.kind.as_str()),
        label: node.label,
        state: String::from_str(node.state.as_str()),
        priority: String::from_str(node.priority.as_str()),
        retention: String::from_str(node.retention.as_str()),
        created_at: node.created_at,
        last_seen_at: node.last_seen_at,
        expires_at: node.expires_at,
    }
}

fn node_dtos(nodes: Vec<MemoryNode>) -> (r: Vec<MemoryNodeDto>)
    ensures
        r@.len() == nodes@.len(),
        forall|k: int| 0 <= k < r@.len() ==> node_reports(#[trigger] r@[k], nodes@[k]),
{
    let ghost all = nodes@;
    let mut rest = nodes;
    let mut r: Vec<MemoryNodeDto> = Vec::new();
    while rest.len() > 0
        invariant
            r@.len() + rest@.len() == all.len(),
            forall|k: int| 0 <= k < rest@.len() ==> #[trigger] rest@[k] == all[r@.len() + k],
            forall|k: int| 0 <= k < r@.len() ==> node_reports(#[trigger] r@[k], all[k]),
        decreases rest@.len(),
    {
        let ghost before = rest@;
        let node = rest.remove(0);
        assert(node == all[r@.len() as int]);
        r.push(memory_node_dto(node));
        assert forall|k: int| 0 <= k < rest@.len() implies #[trigger] rest@[k] == all[r@.len() + k] by {
            assert(rest@[k] == before[k + 1]);
        }
    }
    r
}

/// The limit of kept telemetry events.
pub const MAX_RECENT_TELEMETRY: usize = 512;

/// Whether `v` lists the incidents of `core`, each with its evidence count.
pub open spec fn incidents_listed(core: DaemonCore, v: Seq<IncidentSummaryDto>) -> bool {
    &&& v.len() == core.incidents_spec().incidents_view().len()
    &&& forall|k: int|
        0 <= k < v.len() ==> summary_reports(
            #[trigger] v[k],
            core.incidents_spec().incidents_view()[k],
            evidence_of(
                core.incidents_spec().evidence_view(),
                core.incidents_spec().incidents_view()[k].id,
            ).len(),
        )
}

/// Whether `d` reports the incident `id` of `core` with its evidence and
/// related objects.
pub open spec fn incident_detailed(core: DaemonCore, id: Seq<char>, d: IncidentDetailDto) -> bool {
    &&& exists|i: int|
        0 <= i < core.incidents_spec().incidents_view().len()
            && core.incidents_spec().incidents_view()[i].id == id && summary_reports(
            d.incident,
            core.incidents_spec().incidents_view()[i],
            evidence_of(core.incidents_spec().evidence_view(), id).len(),
        )
    &&& d.evidence@.len() == evidence_of(core.incidents_spec().evidence_view(), id).len()
    &&& forall|k: int|
        0 <= k < d.evidence@.len() ==> evidence_reports(
            #[trigger] d.evidence@[k],
            evidence_of(core.incidents_spec().evidence_view(), id)[k],
        )
    &&& d.related_objects@.map_values(|x: String| x@) == objects_of(core.incidents_spec().objects_view(), id)
}

/// Whether `v` reports the nodes of `core` of the kind `kind`, or all nodes.
pub open spec fn nodes_listed(core: DaemonCore, kind: Option<MemoryNodeKind>, v: Seq<MemoryNodeDto>) -> bool {
    let selected = core.memory_spec().node_seq().filter(kind_filter(kind));
    &&& v.len() == selected.len()
    &&& forall|k: int| 0 <= k < v.len() ==> node_reports(#[trigger] v[k], selected[k])
}

/// Whether `v` reports the `limit` most recently seen nodes of `core`.
pub open spec fn recent_listed(core: DaemonCore, limit: usize, v: Seq<MemoryNodeDto>) -> bool {
    exists|nodes: Seq<MemoryNode>|
        #[trigger] crate::memory::storage::recent_listing(core.memory_spec(), limit, nodes) && v.len()
            == nodes.len() && forall|k: int| 0 <= k < v.len() ==> node_reports(#[trigger] v[k], nodes[k])
}

/// Whether `v` reports the proposals of `core`.
pub open spec fn actions_listed(core: DaemonCore, v: Seq<ActionSummaryDto>) -> bool {
    &&& v.len() == core.actions_spec().proposals_view().len()
    &&& forall|k: int|
        0 <= k < v.len() ==> crate::daemon::actions::proposal_reports(
            #[trigger] v[k],
            core.actions_spec().proposals_view()[k],
        )
}

/// Whether `d` reports the proposal `id` of `core` with its evaluations and
/// transaction events.
pub open spec fn action_detailed(core: DaemonCore, id: Seq<char>, d: ActionDetailDto) -> bool {
    exists|i: int|
        proposal_at(core.actions_spec().proposals_view(), id, i) && detail_reports(
            d,
            core.actions_spec().proposals_view()[i],
            evaluations_of(core.actions_spec().evaluations_view(), id),
            transactions_of(core.actions_spec().transactions_view(), id),
        )
}

/// Whether `v` reports the Guard's findings of `core`, newest first.
pub open spec fn findings_listed(core: DaemonCore, v: Seq<IntegrityFindingDto>) -> bool {
    &&& v.len() == core.guard_spec().findings_view().len()
    &&& forall|k: int|
        0 <= k < v.len() ==> finding_reports(
            #[trigger] v[k],
            core.guard_spec().findings_view()[core.guard_spec().findings_view().len() - 1 - k],
        )
}

/// Whether `v` holds the `limit` most recent telemetry events of `core`,
/// most recent first.
pub open spec fn events_listed(core: DaemonCore, limit: usize, v: Seq<TelemetryEventDto>) -> bool {
    &&& v.len() == if limit < core.recent_events().len() {
        limit as int
    } else {
        core.recent_events().len() as int
    }
    &&& forall|k: int|
        0 <= k < v.len() ==> same_event(
            #[trigger] v[k],
            core.recent_events()[core.recent_events().len() - 1 - k],
        )
}

/// Whether `s` reports the telemetry sources of `core` and its number of
/// kept events.
pub open spec fn telemetry_reported(core: DaemonCore, s: TelemetryStatusDto) -> bool {
    &&& s.recent_events == core.recent_events().len()
    &&& s.sources@.len() == core.sources().len()
    &&& forall|k: int| 0 <= k < s.sources@.len() ==> same_source(#[trigger] s.sources@[k], core.sources()[k])
}

impl DaemonCore {
    /// Replaces the telemetry sources reported by the status.
    pub fn set_telemetry_sources(&mut self, sources: Vec<TelemetrySourceDto>)
        requires
            old(self).well_formed(),
        ensures
            final(self).well_formed(),
            final(self).sources() == sources@,
            final(self).memory_spec() == old(self).memory_spec(),
            final(self).incidents_spec() == old(self).incidents_spec(),
            final(self).actions_spec() == old(self).actions_spec(),
            final(self).guard_spec() == old(self).guard_spec(),
            final(self).ingested() == old(self).ingested(),
            final(self).recent_events() == old(self).recent_events(),
    {
        self.telemetry_sources = sources;
    }

    /// Keeps a telemetry event, dropping the oldest when 512 are kept.
    pub fn record_telemetry_event(&mut self, event: TelemetryEventDto)
        requires
            old(self).well_formed(),
        ensures
            final(self).well_formed(),
            final(self).recent_events() == event_kept(old(self).recent_events(), event),
            final(self).memory_spec() == old(self).memory_spec(),
            final(self).incidents_spec() == old(self).incidents_spec(),
            final(self).actions_spec() == old(self).actions_spec(),
            final(self).guard_spec() == old(self).guard_spec(),
            final(self).ingested() == old(self).ingested(),
            final(self).sources() == old(self).sources(),
    {
        if self.telemetry_recent.len() >= MAX_RECENT_TELEMETRY {
            let ghost before = self.telemetry_recent@;
            self.telemetry_recent.remove(0);
            assert(self.telemetry_recent@ =~= before.drop_first());
        }
        self.telemetry_recent.push(event);
    }

    /// The `limit` most recent telemetry events, most recent first.
    pub fn telemetry_recent(&self, limit: usize) -> (r: Vec<TelemetryEventDto>)
        ensures
            events_listed(*self, limit, r@),
    {
        let n = self.telemetry_recent.len();
        let take = if limit < n {
            limit
        } else {
            n
        };
        let mut r: Vec<TelemetryEventDto> = Vec::new();
        let mut k: usize = 0;
        while k < take
            invariant
                n == self.recent_events().len(),
                take <= n,
                k <= take,
                r@.len() == k,
                forall|j: int|
                    0 <= j < k ==> same_event(#[trigger] r@[j], self.recent_events()[n - 1 - j]),
            decreases take - k,
        {
            r.push(copy_event(&self.telemetry_recent[n - 1 - k]));
            k = k + 1;
        }
        r
    }

    /// The telemetry sources and the number of kept events.
    pub fn telemetry_status(&self) -> (r: TelemetryStatusDto)
        ensures
            telemetry_reported(*self, r),
    {
        let mut sources: Vec<TelemetrySourceDto> = Vec::new();
        let mut k: usize = 0;
        while k < self.telemetry_sources.len()
            invariant
                k <= self.sources().len(),
                sources@.len() == k,
                forall|j: int| 0 <= j < k ==> same_source(#[trigger] sources@[j], self.sources()[j]),
            decreases self.sources().len() - k,
        {
            let s = &self.telemetry_sources[k];
            sources.push(
                TelemetrySourceDto {
                    source: s.source.clone(),
                    status: s.status.clone(),
                    detail: s.detail.clone(),
                },
            );
            k = k + 1;
        }
        TelemetryStatusDto { sources, recent_events: self.telemetry_recent.len() }
    }

    /// The number of open incidents.
    pub fn incident_count(&self) -> (r: u64)
        ensures
            r == self.incidents_spec().incidents_view().filter(
                |i: crate::daemon::incidents::IncidentView| i.status == "open"@,
            ).len(),
    {
        self.incidents.open_count()
    }

    /// Every incident, most recently seen first.
    pub fn list_incidents(&self) -> (r: Vec<IncidentSummaryDto>)
        ensures
            incidents_listed(*self, r@),
    {
        self.incidents.list()
    }

    /// The incident `id` with its evidence and related objects.
    pub fn incident_detail(&self, id: &str) -> (r: Option<IncidentDetailDto>)
        requires
            self.well_formed(),
        ensures
            r is Some <==> has_incident(self.incidents_spec().incidents_view(), id@),
            r matches Some(d) ==> incident_detailed(*self, id@, d),
    {
        self.incidents.detail(id)
    }

    /// The remembered nodes, of the kind named `kind` when given, in order of
    /// identifier; an unknown kind is refused.
    pub fn memory_nodes(&self, kind: Option<&str>) -> (r: Result<Vec<MemoryNodeDto>, DaemonError>)
        ensures
            r is Err <==> (kind matches Some(k) && MemoryNodeKind::from_name_spec(k@) is None),
            r matches Err(e) ==> (e matches DaemonError::Memory(StorageError::InvalidNodeKind(t))
                && kind matches Some(k) && t@ == k@),
            r matches Ok(v) ==> nodes_listed(
                *self,
                match kind {
                    Some(k) => MemoryNodeKind::from_name_spec(k@),
                    None => None,
                },
                v@,
            ),
    {
        let parsed = match kind {
            Some(value) => match MemoryNodeKind::from_name(value) {
                Some(k) => Some(k),
                None => {
                    return Err(DaemonError::Memory(StorageError::InvalidNodeKind(String::from_str(value))));
                },
            },
            None => None,
        };
        Ok(node_dtos(self.memory.nodes(parsed)))
    }

    /// The `limit` most recently seen nodes.
    pub fn memory_recent(&self, limit: usize) -> (r: Vec<MemoryNodeDto>)
        requires
            self.well_formed(),
        ensures
            recent_listed(*self, limit, r@),
    {
        let nodes = self.memory.recent_nodes(limit);
        let ghost listed = nodes@;
        let r = node_dtos(nodes);
        assert(crate::memory::storage::recent_listing(self.memory_spec(), limit, listed));
        r
    }

    /// The identifiers of the nodes related to `id`, in ascending order.
    pub fn memory_neighbours(&self, id: &str) -> (r: Vec<String>)
        ensures
            crate::memory::keyed::sorted_by_key(
                texts(r@),
                |x: Seq<char>| x,
            ),
            forall|k: Seq<char>| texts(r@).contains(k) <==> self.memory_spec().is_neighbour(id@, k),
    {
        let neighbours = self.memory.neighbours(&MemoryNodeId(String::from_str(id)));
        let ghost all = neighbours@;
        let mut rest = neighbours;
        let mut r: Vec<String> = Vec::new();
        while rest.len() > 0
            invariant
                r@.len() + rest@.len() == all.len(),
                forall|k: int| 0 <= k < rest@.len() ==> #[trigger] rest@[k] == all[r@.len() + k],
                texts(r@) == all.take(r@.len() as int).map_values(|n: MemoryNodeId| n.0@),
            decreases rest@.len(),
        {
            let ghost before = rest@;
            let ghost rb = r@;
            let node = rest.remove(0);
            assert(node == all[r@.len() as int]);
            r.push(node.0);
            proof {
                assert(texts(r@) =~= texts(rb).push(all[rb.len() as int].0@));
                assert(all.take(r@.len() as int) =~= all.take(rb.len() as int).push(all[rb.len() as int]));
                assert(all.take(r@.len() as int).map_values(|n: MemoryNodeId| n.0@) =~= all.take(
                    rb.len() as int,
                ).map_values(|n: MemoryNodeId| n.0@).push(all[rb.len() as int].0@));
            }
            assert forall|k: int| 0 <= k < rest@.len() implies #[trigger] rest@[k] == all[r@.len() + k] by {
                assert(rest@[k] == before[k + 1]);
            }
        }
        proof {
            assert(all.take(all.len() as int) =~= all);
            let t = texts(r@);
            assert(t == all.map_values(|n: MemoryNodeId| n.0@));
            assert forall|i: int, j: int| #![trigger t[i], t[j]] 0 <= i < j < t.len() implies id_lt(t[i], t[j]) by {
                assert(crate::memory::storage::id_key()(all[i]) == t[i]);
                assert(crate::memory::storage::id_key()(all[j]) == t[j]);
            }
            assert forall|k: Seq<char>| t.contains(k) <==> self.memory_spec().is_neighbour(id@, k) by {
                if t.contains(k) {
                    let i = choose|i: int| 0 <= i < t.len() && t[i] == k;
                    assert(crate::memory::keyed::key_at(all, crate::memory::storage::id_key(), k, i));
                    assert(crate::memory::keyed::has_key(all, crate::memory::storage::id_key(), k));
                }
                if self.memory_spec().is_neighbour(id@, k) {
                    assert(crate::memory::keyed::has_key(all, crate::memory::storage::id_key(), k));
                    let i = choose|i: int| crate::memory::keyed::key_at(all, crate::memory::storage::id_key(), k, i);
                    assert(t[i] == k);
                }
            }
        }
        r
    }

    /// A path between two nodes under the default search.
    pub fn memory_path(&self, source: &str, target: &str) -> (r: Option<MemoryPath>)
        requires
            self.well_formed(),
        ensures
            r matches Some(p) ==> exists|q: PathQuery|
                #[trigger] default_query(q) && self.memory_spec().is_found_path(q, source@, target@, p)
                    && self.memory_spec().shortest(q, source@, target@, p)
                    && self.memory_spec().searched(q, source@, target@, p),
            r is None ==> exists|q: PathQuery|
                #[trigger] default_query(q) && !self.memory_spec().reaches_within(q, source@, target@, 8),
            source@ == target@ ==> r is Some,
    {
        let query = PathQuery::default();
        assert(default_query(query));
        self.memory.find_path(
            &MemoryNodeId(String::from_str(source)),
            &MemoryNodeId(String::from_str(target)),
            &query,
        )
    }
}

/// The default path search: up to eight relationships in either direction.
pub open spec fn default_query(q: PathQuery) -> bool {
    &&& q.max_depth == 8
    &&& q.direction == TraversalDirection::Any
    &&& q.relationship_kinds@.len() == 0
    &&& q.minimum_strength is None
    &&& q.minimum_confidence is None
    &&& q.evaluation_time is None
}

impl DaemonCore {
    /// Every proposal, most recently updated first.
    pub fn list_actions(&self) -> (r: Vec<ActionSummaryDto>)
        ensures
            actions_listed(*self, r@),
    {
        self.actions.list()
    }

    /// The proposal `id` with its evaluations and transaction events.
    pub fn action_detail(&self, id: &str) -> (r: Option<ActionDetailDto>)
        requires
            self.well_formed(),
        ensures
            r is Some <==> has_proposal(self.actions_spec().proposals_view(), id@),
            r matches Some(d) ==> action_detailed(*self, id@, d),
    {
        self.actions.detail(id)
    }

    /// Proposes `action` on `target` for an existing incident.
    pub fn create_action(&mut self, incident_id: &str, action: &str, target: &str, now: u64) -> (r:
        Result<ActionDetailDto, DaemonError>)
        requires
            old(self).well_formed(),
        ensures
            final(self).well_formed(),
            !has_incident(old(self).incidents_spec().incidents_view(), incident_id@) ==> {
                &&& r matches Err(DaemonError::Actions(ActionStoreError::InvalidProposal(m)))
                &&& m@ == "incident "@ + incident_id@ + " does not exist"@
                &&& final(self).actions_spec() == old(self).actions_spec()
            },
            has_incident(old(self).incidents_spec().incidents_view(), incident_id@) ==> (r is Ok
                <==> crate::protocol::action::ActionType::from_name_spec(action@) is Some
                && !has_proposal(
                old(self).actions_spec().proposals_view(),
                crate::daemon::actions::proposal_id_text(old(self).actions_spec().next_proposal_count()),
            )),
            r matches Ok(d) ==> crate::daemon::actions::proposal_created(
                old(self).actions_spec(),
                final(self).actions_spec(),
                incident_id@,
                action@,
                target@,
                now,
                d,
            ),
            has_incident(old(self).incidents_spec().incidents_view(), incident_id@)
                && crate::protocol::action::ActionType::from_name_spec(action@) is None ==> (r matches Err(
                DaemonError::Actions(ActionStoreError::InvalidAction(t)),
            ) && t@ == action@),
            has_incident(old(self).incidents_spec().incidents_view(), incident_id@)
                && crate::protocol::action::ActionType::from_name_spec(action@) is Some && has_proposal(
                old(self).actions_spec().proposals_view(),
                crate::daemon::actions::proposal_id_text(old(self).actions_spec().next_proposal_count()),
            ) ==> (r matches Err(DaemonError::Actions(ActionStoreError::IdentifierTaken(t))) && t@
                == crate::daemon::actions::proposal_id_text(old(self).actions_spec().next_proposal_count())),
            r is Err ==> {
                &&& final(self).actions_spec().proposals_view() == old(self).actions_spec().proposals_view()
                &&& final(self).actions_spec().evaluations_view() == old(self).actions_spec().evaluations_view()
                &&& final(self).actions_spec().transactions_view() == old(self).actions_spec().transactions_view()
                &&& final(self).actions_spec().next_proposal_count() == old(self).actions_spec().next_proposal_count()
                &&& final(self).actions_spec().next_sequence_number() == old(self).actions_spec().next_sequence_number()
            },
            r matches Err(e) ==> e is Actions,
            final(self).memory_spec() == old(self).memory_spec(),
            final(self).incidents_spec() == old(self).incidents_spec(),
            final(self).guard_spec() == old(self).guard_spec(),
            final(self).ingested() == old(self).ingested(),
            final(self).recent_events() == old(self).recent_events(),
            final(self).sources() == old(self).sources(),
    {
        if self.incidents.detail(incident_id).is_none() {
            let message = String::from_str("incident ").concat(incident_id).concat(" does not exist");
            return Err(DaemonError::Actions(ActionStoreError::InvalidProposal(message)));
        }
        match self.actions.create(incident_id, action, target, now) {
            Ok(d) => Ok(d),
            Err(e) => Err(DaemonError::Actions(e)),
        }
    }

    /// Evaluates and, when authorised, runs the proposal `id` under the
    /// Guard's current decision and trust state.
    pub fn evaluate_action(&mut self, id: &str, now: u64) -> (r: Result<ActionDetailDto, DaemonError>)
        requires
            old(self).well_formed(),
        ensures
            final(self).well_formed(),
            r is Ok <==> exists|i: int|
                proposal_at(old(self).actions_spec().proposals_view(), id@, i)
                    && crate::protocol::action::ActionType::from_name_spec(
                    old(self).actions_spec().proposals_view()[i].action,
                ) is Some,
            !has_proposal(old(self).actions_spec().proposals_view(), id@) ==> (r matches Err(
                DaemonError::Actions(ActionStoreError::InvalidProposal(m)),
            ) && m@ == "proposal "@ + id@ + " not found"@),
            r matches Err(e) ==> e is Actions,
            r matches Ok(d) ==> exists|i: int, rep: crate::action::TransactionReport|
                #[trigger] evaluation_recorded(
                    old(self).actions_spec(),
                    final(self).actions_spec(),
                    id@,
                    authority_for(old(self).guard_spec().state()),
                    old(self).guard_spec().state(),
                    now,
                    d,
                    i,
                    rep,
                ),
            final(self).memory_spec() == old(self).memory_spec(),
            final(self).incidents_spec() == old(self).incidents_spec(),
            final(self).guard_spec() == old(self).guard_spec(),
            final(self).ingested() == old(self).ingested(),
            final(self).recent_events() == old(self).recent_events(),
            final(self).sources() == old(self).sources(),
    {
        let detail = match self.actions.detail(id) {
            Some(d) => d,
            None => {
                let message = String::from_str("proposal ").concat(id).concat(" not found");
                proof {
                    assert forall|i: int| !proposal_at(old(self).actions_spec().proposals_view(), id@, i) by {}
                }
                return Err(DaemonError::Actions(ActionStoreError::InvalidProposal(message)));
            },
        };
        let action = match crate::protocol::action::ActionType::from_name(detail.proposal.action.as_str()) {
            Some(a) => a,
            None => {
                proof {
                    assert forall|i: int|
                        proposal_at(old(self).actions_spec().proposals_view(), id@, i) implies crate::protocol::action::ActionType::from_name_spec(
                        old(self).actions_spec().proposals_view()[i].action,
                    ) is None by {
                        let j = choose|j: int|
                            proposal_at(self.actions_spec().proposals_view(), id@, j) && detail_reports(
                                detail,
                                self.actions_spec().proposals_view()[j],
                                evaluations_of(self.actions_spec().evaluations_view(), id@),
                                transactions_of(self.actions_spec().transactions_view(), id@),
                            );
                        if i != j {
                            assert(self.actions_spec().proposals_view()[i].id
                                != self.actions_spec().proposals_view()[j].id);
                        }
                    }
                }
                return Err(
                    DaemonError::Actions(ActionStoreError::InvalidAction(detail.proposal.action)),
                );
            },
        };
        let proposal = ActionProposal {
            id: ActionProposalId(detail.proposal.id),
            incident_id: IncidentId(detail.proposal.incident_id),
            action,
            target: ObjectId(detail.proposal.target),
        };
        let guard_decision = self.guard.evaluate_authority(&proposal);
        let trust_state = self.guard.trust_state();
        let ghost a0 = self.actions;
        match self.actions.evaluate_and_execute(id, guard_decision, trust_state, now) {
            Ok(d) => {
                proof {
                    let (i, rep) = choose|i: int, rep: crate::action::TransactionReport|
                        evaluation_recorded(a0, self.actions, id@, guard_decision, trust_state, now, d, i, rep);
                    assert(evaluation_recorded(
                        old(self).actions_spec(),
                        self.actions_spec(),
                        id@,
                        authority_for(old(self).guard_spec().state()),
                        old(self).guard_spec().state(),
                        now,
                        d,
                        i,
                        rep,
                    ));
                }
                Ok(d)
            },
            Err(e) => Err(DaemonError::Actions(e)),
        }
    }

    /// The Guard's trust state, authority and number of findings.
    pub fn guard_status(&self) -> (r: GuardStatusDto)
        ensures
            r.trust_state@ == self.guard_spec().state().name(),
            r.authority@ == authority_name(self.guard_spec().state()),
            r.findings_count == self.guard_spec().findings_view().len(),
    {
        self.guard.status()
    }

    /// The Guard's findings, most recent first.
    pub fn guard_findings(&self) -> (r: Vec<IntegrityFindingDto>)
        ensures
            findings_listed(*self, r@),
    {
        self.guard.findings()
    }

    /// Sets the Guard's trust state named `state`, then reports the status.
    pub fn debug_set_guard_state(&mut self, state: &str, now: u64) -> (r: Result<
        GuardStatusDto,
        DaemonError,
    >)
        requires
            old(self).well_formed(),
        ensures
            final(self).well_formed(),
            r is Ok <==> TrustState::from_name_spec(state@) is Some,
            r matches Err(e) ==> (e matches DaemonError::Guard(GuardStoreError::InvalidTrustState(t))
                && t@ == state@),
            r is Ok ==> final(self).guard_spec().state_updated_at() == now,
            r is Err ==> final(self).guard_spec().state() == old(self).guard_spec().state(),
            final(self).guard_spec().findings_view() == old(self).guard_spec().findings_view(),
            r matches Ok(d) ==> {
                &&& Some(final(self).guard_spec().state()) == TrustState::from_name_spec(state@)
                &&& d.trust_state@ == final(self).guard_spec().state().name()
                &&& d.authority@ == authority_name(final(self).guard_spec().state())
                &&& d.findings_count == final(self).guard_spec().findings_view().len()
            },
            final(self).memory_spec() == old(self).memory_spec(),
            final(self).incidents_spec() == old(self).incidents_spec(),
            final(self).actions_spec() == old(self).actions_spec(),
            final(self).ingested() == old(self).ingested(),
            final(self).recent_events() == old(self).recent_events(),
            final(self).sources() == old(self).sources(),
    {
        match self.guard.debug_set_state(state, now) {
            Ok(()) => Ok(self.guard_status()),
            Err(e) => Err(DaemonError::Guard(e)),
        }
    }

    /// Records a Guard finding, then reports every finding.
    pub fn debug_record_guard_finding(
        &mut self,
        target: &str,
        severity: &str,
        description: &str,
        now: u64,
    ) -> (r: Result<Vec<IntegrityFindingDto>, DaemonError>)
        requires
            old(self).well_formed(),
        ensures
            final(self).well_formed(),
            r is Ok <==> crate::protocol::trust::IntegritySeverity::from_name_spec(severity@) is Some,
            r matches Err(e) ==> (e matches DaemonError::Guard(GuardStoreError::InvalidSeverity(t))
                && t@ == severity@),
            r matches Ok(v) ==> findings_listed(*final(self), v@),
            r is Ok ==> final(self).guard_spec().findings_view() == old(self).guard_spec().findings_view().push(
                crate::daemon::guard::FindingView {
                    id: old(self).guard_spec().next_finding_id(),
                    target: target@,
                    severity: crate::protocol::trust::IntegritySeverity::from_name_spec(severity@)->0,
                    description: description@,
                    recorded_at: now,
                },
            ),
            r is Err ==> final(self).guard_spec().findings_view() == old(self).guard_spec().findings_view(),
            final(self).guard_spec().state() == old(self).guard_spec().state(),
            final(self).memory_spec() == old(self).memory_spec(),
            final(self).incidents_spec() == old(self).incidents_spec(),
            final(self).actions_spec() == old(self).actions_spec(),
            final(self).ingested() == old(self).ingested(),
            final(self).recent_events() == old(self).recent_events(),
            final(self).sources() == old(self).sources(),
    {
        match self.guard.debug_record_finding(target, severity, description, now) {
            Ok(()) => Ok(self.guard_findings()),
            Err(e) => Err(DaemonError::Guard(e)),
        }
    }
}

fn descriptor(prefix: &str, suffix: &str, kind: EntityKind, label: &str, role: &str) -> (r: ObjectDescriptor)
    ensures
        describes(r, prefix@ + suffix@, kind, label@ + role@),
{
    ObjectDescriptor {
        id: ObjectId(String::from_str(prefix).concat(suffix)),
        kind,
        label: String::from_str(label).concat(role),
    }
}

/// Whether `d` describes the object `id` of kind `kind` labelled `label`.
pub open spec fn describes(d: ObjectDescriptor, id: Seq<char>, kind: EntityKind, label: Seq<char>) -> bool {
    d.id.0@ == id && d.kind == kind && d.label@ == label
}

/// The label of a seeded incident's objects.
pub open spec fn seed_label(label: Option<&str>) -> Seq<char> {
    match label {
        Some(l) => l@,
        None => "Synthetic debug incident"@,
    }
}

/// What tells apart the objects of one seeding: the time and the sequence
/// number of the observation.
pub open spec fn seed_suffix(now: u64, sequence: u64) -> Seq<char> {
    decimal_spec(now as nat) + ":"@ + decimal_spec(sequence as nat)
}

/// The first seeded observation: an endpoint associated with a threat.
pub open spec fn threat_seed(o: Observation, label: Seq<char>, suffix: Seq<char>, now: u64) -> bool {
    &&& o.id.0@ == "debug:threat-seed:"@ + suffix
    &&& o.kind == ObservationKind::Associated
    &&& describes(o.source, "debug:endpoint:"@ + suffix, EntityKind::NetworkEndpoint, label + " endpoint"@)
    &&& o.target matches Some(t) && describes(t, "debug:threat:"@ + suffix, EntityKind::Threat, label + " threat"@)
    &&& o.observed_at == now
    &&& o.expires_at is None
    &&& o.severity == Severity::High
    &&& o.confidence.view() == 95
}

/// The second seeded observation: a process connecting to the endpoint for
/// an hour.
pub open spec fn process_seed(o: Observation, label: Seq<char>, suffix: Seq<char>, now: u64) -> bool {
    &&& o.id.0@ == "debug:process-edge:"@ + suffix
    &&& o.kind == ObservationKind::NetworkConnection
    &&& describes(o.source, "debug:process:"@ + suffix, EntityKind::Process, label + " process"@)
    &&& o.target matches Some(t) && describes(
        t,
        "debug:endpoint:"@ + suffix,
        EntityKind::NetworkEndpoint,
        label + " endpoint"@,
    )
    &&& o.observed_at == now.saturating_add(1)
    &&& o.expires_at == Some(now.saturating_add(3600))
    &&& o.severity == Severity::High
    &&& o.confidence.view() == 90
}

/// What seeding answers once the process observation was ingested with
/// outcome `r2`: its error, the detail of the first incident it produced,
/// or an error naming what is missing.
pub open spec fn seed_answer(
    after: DaemonCore,
    r2: Result<IngestionOutcome, DaemonError>,
    r: Result<IncidentDetailDto, DaemonError>,
) -> bool {
    match r2 {
        Err(e) => r == Err::<IncidentDetailDto, DaemonError>(e),
        Ok(out) => if out.incidents@.len() == 0 {
            r matches Err(DaemonError::Debug(m)) && m@ == "debug seed did not produce an incident"@
        } else {
            let id = out.incidents@[0].0@;
            if has_incident(after.incidents_spec().incidents_view(), id) {
                r matches Ok(d) && incident_detailed(after, id, d)
            } else {
                r matches Err(DaemonError::Debug(m)) && m@ == "debug incident "@ + id + " could not be loaded"@
            }
        },
    }
}

/// Whether seeding took `before` to `after` answering `r`: the threat seed
/// was ingested, then, unless that failed, the process observation.
pub open spec fn incident_seeded(
    before: DaemonCore,
    after: DaemonCore,
    label: Seq<char>,
    now: u64,
    r: Result<IncidentDetailDto, DaemonError>,
) -> bool {
    let suffix = seed_suffix(now, crate::daemon::incidents::next_count(before.ingested()));
    exists|o1: Observation, mid: DaemonCore, r1: Result<IngestionOutcome, DaemonError>|
        threat_seed(o1, label, suffix, now) && #[trigger] observation_ingested(before, mid, o1, r1) && match r1 {
            Err(e) => after == mid && r == Err::<IncidentDetailDto, DaemonError>(e),
            Ok(_) => exists|o2: Observation, r2: Result<IngestionOutcome, DaemonError>|
                process_seed(o2, label, suffix, now) && #[trigger] observation_ingested(mid, after, o2, r2)
                    && seed_answer(after, r2, r),
        }
}

impl DaemonCore {
    /// Seeds a synthetic incident: an endpoint associated with a threat, then
    /// a process connecting to that endpoint, and reports the incident the
    /// second observation produced.
    pub fn debug_seed_incident(&mut self, label: Option<&str>, now: u64) -> (r: Result<
        IncidentDetailDto,
        DaemonError,
    >)
        requires
            old(self).well_formed(),
        ensures
            final(self).well_formed(),
            incident_seeded(*old(self), *final(self), seed_label(label), now, r),
    {
        let ghost before = *self;
        let sequence = self.observations_ingested.saturating_add(1);
        let suffix = decimal(now).concat(":").concat(decimal(sequence).as_str());
        let label_text = match label {
            Some(l) => l,
            None => "Synthetic debug incident",
        };
        let ghost lbl = seed_label(label);
        let ghost sfx = seed_suffix(now, crate::daemon::incidents::next_count(before.ingested()));
        assert(suffix@ == sfx);
        let threat_seed_observation = Observation {
            id: crate::protocol::ids::ObservationId(
                String::from_str("debug:threat-seed:").concat(suffix.as_str()),
            ),
            kind: ObservationKind::Associated,
            source: descriptor("debug:endpoint:", suffix.as_str(), EntityKind::NetworkEndpoint, label_text, " endpoint"),
            target: Some(descriptor("debug:threat:", suffix.as_str(), EntityKind::Threat, label_text, " threat")),
            observed_at: now,
            expires_at: None,
            severity: Severity::High,
            confidence: Confidence::new(95).unwrap(),
        };
        assert(threat_seed(threat_seed_observation, lbl, sfx, now));
        let r1 = self.ingest_observation(&threat_seed_observation);
        let ghost mid = *self;
        let ghost gr1 = r1;
        match r1 {
            Ok(_) => {},
            Err(e) => {
                let r = Err(e);
                assert(threat_seed(threat_seed_observation, lbl, sfx, now) && observation_ingested(
                    before,
                    mid,
                    threat_seed_observation,
                    gr1,
                ));
                return r;
            },
        }
        let process_observation = Observation {
            id: crate::protocol::ids::ObservationId(
                String::from_str("debug:process-edge:").concat(suffix.as_str()),
            ),
            kind: ObservationKind::NetworkConnection,
            source: descriptor("debug:process:", suffix.as_str(), EntityKind::Process, label_text, " process"),
            target: Some(descriptor("debug:endpoint:", suffix.as_str(), EntityKind::NetworkEndpoint, label_text, " endpoint")),
            observed_at: now.saturating_add(1),
            expires_at: Some(now.saturating_add(3600)),
            severity: Severity::High,
            confidence: Confidence::new(90).unwrap(),
        };
        assert(process_seed(process_observation, lbl, sfx, now));
        let r2 = self.ingest_observation(&process_observation);
        let ghost gr2 = r2;
        let r = match r2 {
            Err(e) => Err(e),
            Ok(outcome) => if outcome.incidents.len() == 0 {
                Err(DaemonError::Debug(String::from_str("debug seed did not produce an incident")))
            } else {
                let incident_id = outcome.incidents[0].0.as_str();
                match self.incident_detail(incident_id) {
                    Some(d) => Ok(d),
                    None => Err(
                        DaemonError::Debug(
                            String::from_str("debug incident ").concat(incident_id).concat(" could not be loaded"),
                        ),
                    ),
                }
            },
        };
        assert(seed_answer(*self, gr2, r));
        assert(process_seed(process_observation, lbl, sfx, now) && observation_ingested(
            mid,
            *self,
            process_observation,
            gr2,
        ) && seed_answer(*self, gr2, r));
        assert(threat_seed(threat_seed_observation, lbl, sfx, now) && observation_ingested(
            before,
            mid,
            threat_seed_observation,
            gr1,
        ));
        r
    }
}


/// Compromise can remove authority but cannot create it: while the Guard's
/// trust state is anything but trusted, evaluating a proposal never reaches
/// the executor; the proposal is not authorised and its report holds the
/// proposal stage alone.
pub proof fn lemma_untrusted_guard_blocks_every_action(
    before: DaemonCore,
    after: DaemonCore,
    id: Seq<char>,
    now: u64,
    d: ActionDetailDto,
    i: int,
    rep: crate::action::TransactionReport,
)
    requires
        before.guard_spec().state() != TrustState::Trusted,
        evaluation_recorded(
            before.actions_spec(),
            after.actions_spec(),
            id,
            authority_for(before.guard_spec().state()),
            before.guard_spec().state(),
            now,
            d,
            i,
            rep,
        ),
    ensures
        rep.status == crate::protocol::action::ActionExecutionStatus::NotAuthorised,
        rep.transitions@ == seq![crate::protocol::action::ActionTransactionState::Proposal],
{
    crate::guard::lemma_untrusted_guard_never_grants_authority(before.guard_spec().state());
    crate::daemon::actions::lemma_execution_needs_every_gate(
        before.actions_spec(),
        after.actions_spec(),
        id,
        authority_for(before.guard_spec().state()),
        before.guard_spec().state(),
        now,
        d,
        i,
        rep,
    );
}

/// A remembered object keeps its first sighting: persisting an observation
/// of an object already in memory leaves its creation time, and its last
/// sighting becomes the later of the stored one and the observation's.
pub proof fn lemma_persisted_node_keeps_first_sighting(
    e: MemoryNode,
    object: ObjectDescriptor,
    observation: Observation,
)
    ensures
        persisted_node(Some(e), object, observation).created_at == e.created_at,
        persisted_node(Some(e), object, observation).last_seen_at >= e.last_seen_at,
        persisted_node(Some(e), object, observation).last_seen_at >= observation.observed_at,
        persisted_node(Some(e), object, observation).last_seen_at == e.last_seen_at
            || persisted_node(Some(e), object, observation).last_seen_at == observation.observed_at,
{
}

/// Ingestion never rewrites a first sighting: after an observation is
/// ingested, every node that memory held before keeps its creation time;
/// the observed source is remembered, last seen no earlier than the
/// observation and than it was before.
pub proof fn lemma_ingestion_keeps_first_sightings(
    before: DaemonCore,
    after: DaemonCore,
    observation: Observation,
    r: Result<IngestionOutcome, DaemonError>,
    id: Seq<char>,
)
    requires
        observation_ingested(before, after, observation, r),
    ensures
        before.memory_spec().node(id) matches Some(e) ==> (after.memory_spec().node(id) matches Some(n)
            && n.created_at == e.created_at && (id == observation.source.id.0@ ==> n.last_seen_at
            >= e.last_seen_at)),
        id == observation.source.id.0@ ==> (after.memory_spec().node(id) matches Some(n) && n.last_seen_at
            >= observation.observed_at),
{
    let (m1, m2, rel) = choose|m1: MemoryStore, m2: MemoryStore, rel: Option<Seq<char>>|
        #[trigger] memory_ingested(before.memory_spec(), m1, m2, after.memory_spec(), observation, rel)
            && (r matches Ok(o) ==> (match o.relationship_id {
            Some(x) => Some(x.0@),
            None => None,
        }) == rel);
    let m0 = before.memory_spec();
    let src = observation.source.id.0@;
    assert(m1.node(id) == if id == src {
        Some(saved_node(m0.node(id), persisted_node(m0.node(src), observation.source, observation)))
    } else {
        m0.node(id)
    });
    match observation.target {
        Some(t) => {
            let tid = t.id.0@;
            assert(m2.node(id) == if id == tid {
                Some(saved_node(m1.node(id), persisted_node(m1.node(tid), t, observation)))
            } else {
                m1.node(id)
            });
            let v = choose|v: RelationshipView|
                #[trigger] observed_relationship(observation, t, v) && observation_stored(
                    m2,
                    after.memory_spec(),
                    v,
                    rel->0,
                );
            assert(after.memory_spec().node_seq() == m2.node_seq());
        },
        None => {},
    }
}

} // verus!
