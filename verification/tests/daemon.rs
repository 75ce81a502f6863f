use dendrite::daemon::actions::{ActionService, ActionStoreError, EvaluationRecord, ProposalRecord};
use dendrite::daemon::engine::DaemonCore;
use dendrite::daemon::guard::{GuardService, GuardStoreError};
use dendrite::daemon::incidents::{
    EvidenceRecord, IncidentObject, IncidentRecord, IncidentService, IncidentStoreError,
};
use dendrite::protocol::action::{ActionProposal, ActionType, Evaluator, EvaluatorVerdict};
use dendrite::protocol::detection::{
    Confidence, EntityKind, EvidenceCandidate, EvidenceSource, ObjectDescriptor, Observation,
    ObservationKind, Severity,
};
use dendrite::protocol::ids::{ActionProposalId, IncidentId, ObjectId, ObservationId};
use dendrite::protocol::trust::{GuardDecision, TrustState};

fn service_with_incident() -> ActionService {
    ActionService::new()
}

#[test]
fn safe_action_reaches_verified_state() {
    let mut service = service_with_incident();
    let proposal = service
        .create("inc_00000001", "observe", "process:1", 10)
        .unwrap();
    let detail = service
        .evaluate_and_execute(
            &proposal.proposal.id,
            GuardDecision::Allow,
            TrustState::Trusted,
            20,
        )
        .unwrap();

    assert_eq!(detail.proposal.status, "completed");
    assert_eq!(detail.proposal.quorum.as_deref(), Some("approved"));
    assert_eq!(detail.proposal.policy.as_deref(), Some("allow"));
    assert_eq!(detail.evaluations.len(), 3);
    assert!(detail
        .transactions
        .iter()
        .any(|event| event.state == "verified"));
}

#[test]
fn compromised_guard_blocks_otherwise_safe_action_before_prepare() {
    let mut service = service_with_incident();
    let proposal = service
        .create("inc_00000001", "observe", "process:1", 10)
        .unwrap();
    let detail = service
        .evaluate_and_execute(
            &proposal.proposal.id,
            GuardDecision::Deny,
            TrustState::Compromised,
            20,
        )
        .unwrap();

    assert_eq!(detail.proposal.status, "not_authorised");
    assert_eq!(detail.proposal.quorum.as_deref(), Some("approved"));
    assert_eq!(detail.proposal.policy.as_deref(), Some("allow"));
    assert_eq!(detail.proposal.guard.as_deref(), Some("deny"));
    assert_eq!(detail.proposal.trust_state.as_deref(), Some("compromised"));
    assert!(!detail
        .transactions
        .iter()
        .any(|event| event.state == "prepared"));
}

#[test]
fn privileged_action_is_policy_denied_and_never_committed() {
    let mut service = service_with_incident();
    let proposal = service
        .create("inc_00000001", "terminate_process", "process:1", 10)
        .unwrap();
    let detail = service
        .evaluate_and_execute(
            &proposal.proposal.id,
            GuardDecision::Allow,
            TrustState::Trusted,
            20,
        )
        .unwrap();

    assert_eq!(detail.proposal.status, "not_authorised");
    assert_eq!(detail.proposal.policy.as_deref(), Some("deny"));
    assert!(!detail
        .transactions
        .iter()
        .any(|event| event.state == "committed"));
}

#[test]
fn unknown_action_and_proposal_are_refused() {
    let mut service = service_with_incident();
    assert!(matches!(
        service.create("inc_00000001", "reboot", "process:1", 10),
        Err(ActionStoreError::InvalidAction(ref a)) if a == "reboot"
    ));
    assert!(matches!(
        service.evaluate_and_execute("act_99999999", GuardDecision::Allow, TrustState::Trusted, 20),
        Err(ActionStoreError::InvalidProposal(ref m)) if m == "proposal act_99999999 not found"
    ));
}

#[test]
fn proposals_are_numbered_in_creation_order() {
    let mut service = service_with_incident();
    let first = service.create("inc_00000001", "observe", "a", 10).unwrap();
    let second = service.create("inc_00000001", "warn", "b", 11).unwrap();
    assert_eq!(first.proposal.id, "act_00000001");
    assert_eq!(second.proposal.id, "act_00000002");
    assert_eq!(first.proposal.status, "proposed");
    // Most recently updated first.
    let ids = service
        .list()
        .into_iter()
        .map(|proposal| proposal.id)
        .collect::<Vec<_>>();
    assert_eq!(ids, vec!["act_00000002", "act_00000001"]);
}

fn candidate(severity: Severity) -> EvidenceCandidate {
    EvidenceCandidate {
        source: EvidenceSource::MemoryGraph,
        summary: "Threat path found".into(),
        description: "process -> threat".into(),
        severity,
        confidence: Confidence::new(90).unwrap(),
        related_objects: vec![ObjectId("process:test".into())],
    }
}

#[test]
fn correlated_candidates_share_incident_and_escalate_severity() {
    let mut service = IncidentService::new();
    let (first_incident, first_evidence) = service
        .record_candidate(candidate(Severity::Medium), "process:test|threat:test", 10)
        .unwrap();
    let (second_incident, second_evidence) = service
        .record_candidate(
            candidate(Severity::Critical),
            "process:test|threat:test",
            20,
        )
        .unwrap();

    assert_eq!(first_incident, second_incident);
    assert_ne!(first_evidence, second_evidence);
    let detail = service.detail(&first_incident.0).unwrap();
    assert_eq!(detail.incident.severity, "critical");
    assert_eq!(detail.incident.evidence_count, 2);
    assert_eq!(detail.incident.last_seen_at, 20);
}

#[test]
fn severity_never_drops_when_weaker_evidence_joins() {
    let mut service = IncidentService::new();
    let (incident, _) = service
        .record_candidate(candidate(Severity::High), "key", 10)
        .unwrap();
    service
        .record_candidate(candidate(Severity::Low), "key", 20)
        .unwrap();
    let detail = service.detail(&incident.0).unwrap();
    assert_eq!(detail.incident.severity, "high");
    assert_eq!(service.open_count(), 1);
    assert_eq!(incident, IncidentId("inc_00000001".into()));
}

#[test]
fn unknown_incident_has_no_detail() {
    let service = IncidentService::new();
    assert!(service.detail("inc_00000042").is_none());
    assert!(matches!(
        IncidentStoreError::InvalidSeverity("x".into()),
        IncidentStoreError::InvalidSeverity(_)
    ));
}

fn object(id: &str, kind: EntityKind) -> ObjectDescriptor {
    ObjectDescriptor {
        id: ObjectId(id.into()),
        kind,
        label: id.into(),
    }
}

fn observation(
    id: &str,
    kind: ObservationKind,
    source: ObjectDescriptor,
    target: ObjectDescriptor,
    confidence: u8,
) -> Observation {
    Observation {
        id: ObservationId(id.into()),
        kind,
        source,
        target: Some(target),
        observed_at: 100,
        expires_at: Some(1_000),
        severity: Severity::High,
        confidence: Confidence::new(confidence).unwrap(),
    }
}

#[test]
fn repeated_observations_consolidate_in_memory() {
    let mut core = DaemonCore::open();
    let first = observation(
        "one",
        ObservationKind::NetworkConnection,
        object("proc", EntityKind::Process),
        object("endpoint", EntityKind::NetworkEndpoint),
        70,
    );
    let second = Observation {
        id: ObservationId("two".into()),
        observed_at: 200,
        confidence: Confidence::new(90).unwrap(),
        ..first.clone()
    };
    let first_outcome = core.ingest_observation(&first).unwrap();
    let second_outcome = core.ingest_observation(&second).unwrap();
    assert_eq!(first_outcome.relationship_id, second_outcome.relationship_id);
    let relationship = core
        .memory()
        .load_relationship(first_outcome.relationship_id.as_ref().unwrap())
        .unwrap();
    assert_eq!(relationship.observation_count, 2);
    assert_eq!(relationship.confidence.value(), 90);
}

#[test]
fn graph_findings_correlate_into_one_persistent_incident() {
    let mut core = DaemonCore::open();
    let threat_edge = observation(
        "threat-edge",
        ObservationKind::Associated,
        object("endpoint", EntityKind::NetworkEndpoint),
        object("known-threat", EntityKind::Threat),
        95,
    );
    core.ingest_observation(&threat_edge).unwrap();

    let process_edge = observation(
        "process-edge",
        ObservationKind::NetworkConnection,
        object("proc", EntityKind::Process),
        object("endpoint", EntityKind::NetworkEndpoint),
        90,
    );
    let first = core.ingest_observation(&process_edge).unwrap();
    let mut repeated = process_edge.clone();
    repeated.id = ObservationId("process-edge-2".into());
    repeated.observed_at = 200;
    let second = core.ingest_observation(&repeated).unwrap();

    assert_eq!(first.incidents, second.incidents);
    let detail = core.incident_detail(&first.incidents[0].0).unwrap();
    assert_eq!(detail.incident.evidence_count, 2);
    assert_eq!(
        detail.related_objects,
        vec![
            "endpoint".to_string(),
            "known-threat".to_string(),
            "proc".to_string(),
        ]
    );
    assert!(detail.evidence.iter().all(|evidence| {
        evidence
            .description
            .contains("proc -> endpoint -> known-threat")
    }));

    let proposal = core
        .create_action(&first.incidents[0].0, "observe", "proc", 300)
        .unwrap();
    assert_eq!(proposal.proposal.incident_id, first.incidents[0].0);

    let evaluated = core.evaluate_action(&proposal.proposal.id, 301).unwrap();
    assert_eq!(evaluated.proposal.status, "completed");
}

fn guard_proposal() -> ActionProposal {
    ActionProposal {
        id: ActionProposalId("act_test".into()),
        incident_id: IncidentId("inc_test".into()),
        action: ActionType::Observe,
        target: ObjectId("target".into()),
    }
}

#[test]
fn compromised_state_removes_authority_and_persists() {
    let stored_state;
    let stored_counters;
    {
        let mut service = GuardService::new();
        service.debug_set_state("compromised", 1).unwrap();
        assert_eq!(service.evaluate_authority(&guard_proposal()), GuardDecision::Deny);
        stored_state = service.trust_state().as_str().to_string();
        stored_counters = service.counters();
    }

    let service =
        GuardService::restore(&stored_state, stored_counters.0, Vec::new(), stored_counters.1)
            .unwrap();
    assert_eq!(service.trust_state(), TrustState::Compromised);
    assert_eq!(service.evaluate_authority(&guard_proposal()), GuardDecision::Deny);
}

#[test]
fn guard_refuses_unknown_trust_state() {
    let mut service = GuardService::new();
    assert!(matches!(
        service.debug_set_state("sideways", 1),
        Err(GuardStoreError::InvalidTrustState(ref s)) if s == "sideways"
    ));
    assert_eq!(service.trust_state(), TrustState::Trusted);
    assert!(GuardService::restore("sideways", 0, Vec::new(), 1).is_err());
}

#[test]
fn untrusted_guard_blocks_every_action_through_the_core() {
    let mut core = DaemonCore::open();
    core.debug_seed_incident(Some("guard"), 5).unwrap();
    core.debug_set_guard_state("degraded", 6).unwrap();
    let proposal = core
        .create_action("inc_00000001", "observe", "process:1", 7)
        .unwrap();
    let evaluated = core.evaluate_action(&proposal.proposal.id, 8).unwrap();
    assert_eq!(evaluated.proposal.status, "not_authorised");
    assert_eq!(evaluated.proposal.guard.as_deref(), Some("deny"));
    assert!(evaluated
        .transactions
        .iter()
        .all(|event| event.state == "proposal"));
}

fn incident_record(id: &str, first_seen_at: u64) -> IncidentRecord {
    IncidentRecord {
        id: id.into(),
        correlation_key: format!("key:{id}"),
        severity: Severity::Medium,
        summary: "summary".into(),
        status: "open".into(),
        first_seen_at,
        last_seen_at: first_seen_at,
    }
}

fn evidence_record(id: &str, incident_id: &str) -> EvidenceRecord {
    EvidenceRecord {
        id: id.into(),
        incident_id: incident_id.into(),
        source: EvidenceSource::Rule,
        description: "seen".into(),
        confidence: 70,
        observed_at: 10,
    }
}

#[test]
fn incident_store_restores_its_records_in_order() {
    let restored = IncidentService::restore(
        vec![incident_record("inc_2", 20), incident_record("inc_1", 10)],
        vec![evidence_record("ev_1", "inc_1")],
        vec![
            IncidentObject { incident_id: "inc_1".into(), object_id: "obj".into() },
            IncidentObject { incident_id: "inc_1".into(), object_id: "obj".into() },
        ],
        3,
        2,
    )
    .unwrap();
    let ids: Vec<String> = restored.incident_records().iter().map(|r| r.id.clone()).collect();
    assert_eq!(ids.len(), 2);
    assert!(ids.contains(&"inc_1".to_string()) && ids.contains(&"inc_2".to_string()));
    assert_eq!(restored.evidence_records().len(), 1);
    assert_eq!(restored.object_records().len(), 1);
    assert_eq!(restored.counters(), (3, 2));
}

#[test]
fn incident_store_refuses_repeated_identifiers() {
    assert!(IncidentService::restore(
        vec![incident_record("inc_1", 10), incident_record("inc_1", 20)],
        Vec::new(),
        Vec::new(),
        1,
        1,
    )
    .is_none());
    assert!(IncidentService::restore(
        vec![incident_record("inc_1", 10)],
        vec![evidence_record("ev_1", "inc_1"), evidence_record("ev_1", "inc_1")],
        Vec::new(),
        1,
        1,
    )
    .is_none());
}

fn proposal_record(id: &str) -> ProposalRecord {
    ProposalRecord {
        id: id.into(),
        incident_id: "inc_1".into(),
        action: "observe".into(),
        target: "target".into(),
        status: "proposed".into(),
        quorum: None,
        policy: None,
        guard: None,
        trust_state: None,
        created_at: 1,
        updated_at: 1,
    }
}

fn evaluation_record(evaluator: Evaluator, verdict: EvaluatorVerdict, at: u64) -> EvaluationRecord {
    EvaluationRecord {
        proposal_id: "act_1".into(),
        evaluator,
        verdict,
        reason: "why".into(),
        evaluated_at: at,
    }
}

#[test]
fn action_store_restore_keeps_the_latest_evaluation_per_evaluator() {
    let restored = ActionService::restore(
        vec![proposal_record("act_1")],
        vec![
            evaluation_record(Evaluator::Host, EvaluatorVerdict::Deny, 1),
            evaluation_record(Evaluator::User, EvaluatorVerdict::Approve, 2),
            evaluation_record(Evaluator::Host, EvaluatorVerdict::Approve, 3),
        ],
        Vec::new(),
        2,
        1,
    )
    .unwrap();
    let evaluations = restored.evaluation_records();
    assert_eq!(evaluations.len(), 2);
    assert_eq!(evaluations[0].evaluator, Evaluator::Host);
    assert_eq!(evaluations[0].verdict, EvaluatorVerdict::Approve);
    assert_eq!(evaluations[0].evaluated_at, 3);
    assert_eq!(evaluations[1].evaluator, Evaluator::User);
    assert_eq!(restored.counters(), (2, 1));
}

#[test]
fn action_store_refuses_repeated_proposal_identifiers() {
    assert!(ActionService::restore(
        vec![proposal_record("act_1"), proposal_record("act_1")],
        Vec::new(),
        Vec::new(),
        1,
        1,
    )
    .is_none());
}
