use dendrite::memory::model::{
    DecayPolicy, DecayRate, MemoryConfidence, MemoryNode, MemoryNodeId, MemoryNodeKind,
    MemoryPriority, MemoryRelationship, MemoryRelationshipId, MemoryRelationshipKind, MemoryState,
    MemoryStrength, ReinforcementProvenance, ReinforcementReason, RetentionClass,
};
use dendrite::memory::rows::{
    decode_node, decode_relationship, node_row, relationship_row, NodeRow, RelationshipRow,
    StorageError,
};
use dendrite::memory::storage::{MemoryStore, PathQuery, TraversalDirection, TraversalVisit};
use dendrite::protocol::ids::{EvidenceId, IncidentId};

fn test_relationship(id: &str, source: &str, target: &str) -> MemoryRelationship {
    MemoryRelationship {
        id: MemoryRelationshipId(id.into()),
        kind: MemoryRelationshipKind::AssociatedWith,
        source: MemoryNodeId(source.into()),
        target: MemoryNodeId(target.into()),
        created_at: 100,
        last_seen_at: 100,
        observation_count: 1,
        expires_at: None,
        state: MemoryState::Observed,
        priority: MemoryPriority::Normal,
        retention: RetentionClass::ShortTerm,
        decay_policy: DecayPolicy::NoDecay,
        strength: MemoryStrength::new(50).unwrap(),
        confidence: MemoryConfidence::new(50).unwrap(),
        reinforcement: None,
    }
}

fn save_test_relationships(store: &mut MemoryStore, relationships: &[MemoryRelationship]) {
    for relationship in relationships {
        store.save_relationship(relationship.clone());
    }
}

fn test_node(id: &str, kind: MemoryNodeKind, state: MemoryState) -> MemoryNode {
    MemoryNode {
        id: MemoryNodeId(id.into()),
        kind,
        label: id.into(),
        created_at: 100,
        last_seen_at: 100,
        expires_at: None,
        state,
        priority: MemoryPriority::Normal,
        retention: RetentionClass::ShortTerm,
        decay_policy: DecayPolicy::NoDecay,
    }
}

fn relationship_ids(relationships: Vec<MemoryRelationship>) -> Vec<String> {
    relationships
        .into_iter()
        .map(|relationship| relationship.id.0)
        .collect::<Vec<_>>()
}

#[test]
fn save_node_persists_memory_node() {
    let mut store = MemoryStore::new();

    let node = MemoryNode {
        id: MemoryNodeId("node-1".into()),
        kind: MemoryNodeKind::Process,
        label: "nginx".into(),
        created_at: 100,
        last_seen_at: 200,
        expires_at: Some(300),
        state: MemoryState::Observed,
        priority: MemoryPriority::Normal,
        retention: RetentionClass::ShortTerm,
        decay_policy: DecayPolicy::NoDecay,
    };

    store.save_node(node.clone());

    let stored = store.load_node(&node.id).unwrap();
    let row = node_row(&stored);
    assert_eq!(row.id, "node-1");
    assert_eq!(row.kind, "process");
    assert_eq!(row.label, "nginx");
}

#[test]
fn load_node_returns_persisted_memory_node() {
    let mut store = MemoryStore::new();

    let node = MemoryNode {
        id: MemoryNodeId("node-1".into()),
        kind: MemoryNodeKind::Process,
        label: "nginx".into(),
        created_at: 100,
        last_seen_at: 200,
        expires_at: Some(300),
        state: MemoryState::Supported,
        priority: MemoryPriority::Elevated,
        retention: RetentionClass::LongTerm,
        decay_policy: DecayPolicy::Linear {
            rate: DecayRate::new(25).unwrap(),
        },
    };

    store.save_node(node.clone());

    let loaded = store.load_node(&node.id).expect("saved node should exist");

    assert_eq!(loaded, node);
}

#[test]
fn load_node_returns_none_when_node_does_not_exist() {
    let store = MemoryStore::new();

    let loaded = store.load_node(&MemoryNodeId("missing-node".into()));

    assert_eq!(loaded, None);
}

#[test]
fn save_node_updates_existing_node_without_changing_created_at() {
    let mut store = MemoryStore::new();

    let original = MemoryNode {
        id: MemoryNodeId("node-1".into()),
        kind: MemoryNodeKind::Process,
        label: "nginx".into(),
        created_at: 100,
        last_seen_at: 200,
        expires_at: Some(300),
        state: MemoryState::Observed,
        priority: MemoryPriority::Normal,
        retention: RetentionClass::ShortTerm,
        decay_policy: DecayPolicy::NoDecay,
    };

    store.save_node(original);

    let updated = MemoryNode {
        id: MemoryNodeId("node-1".into()),
        kind: MemoryNodeKind::Process,
        label: "nginx-worker".into(),
        created_at: 999,
        last_seen_at: 250,
        expires_at: Some(400),
        state: MemoryState::Supported,
        priority: MemoryPriority::Elevated,
        retention: RetentionClass::LongTerm,
        decay_policy: DecayPolicy::NoDecay,
    };

    store.save_node(updated.clone());

    let row = node_row(&store.load_node(&updated.id).unwrap());
    assert_eq!(row.created_at, 100);
    assert_eq!(row.last_seen_at, 250);
    assert_eq!(row.label, "nginx-worker");
}

#[test]
fn save_relationship_persists_memory_relationship() {
    let mut store = MemoryStore::new();

    let relationship = MemoryRelationship {
        id: MemoryRelationshipId("rel-1".into()),
        kind: MemoryRelationshipKind::ConnectedTo,
        source: MemoryNodeId("node-1".into()),
        target: MemoryNodeId("node-2".into()),
        created_at: 100,
        last_seen_at: 200,
        observation_count: 3,
        expires_at: Some(300),
        state: MemoryState::Observed,
        priority: MemoryPriority::Normal,
        retention: RetentionClass::ShortTerm,
        decay_policy: DecayPolicy::NoDecay,
        strength: MemoryStrength::new(70).unwrap(),
        confidence: MemoryConfidence::new(80).unwrap(),
        reinforcement: None,
    };

    store.save_relationship(relationship.clone());

    let stored = store.load_relationship(&relationship.id).unwrap();
    let row = relationship_row(&stored).unwrap();
    assert_eq!(row.id, "rel-1");
    assert_eq!(row.kind, "connected_to");
    assert_eq!(row.source, "node-1");
    assert_eq!(row.target, "node-2");
}

#[test]
fn load_relationship_returns_persisted_memory_relationship() {
    let mut store = MemoryStore::new();

    let relationship = MemoryRelationship {
        id: MemoryRelationshipId("rel-1".into()),
        kind: MemoryRelationshipKind::AssociatedWith,
        source: MemoryNodeId("node-1".into()),
        target: MemoryNodeId("node-2".into()),
        created_at: 100,
        last_seen_at: 200,
        observation_count: 4,
        expires_at: Some(500),
        state: MemoryState::Established,
        priority: MemoryPriority::High,
        retention: RetentionClass::LongTerm,
        decay_policy: DecayPolicy::Linear {
            rate: DecayRate::new(20).unwrap(),
        },
        strength: MemoryStrength::new(90).unwrap(),
        confidence: MemoryConfidence::new(95).unwrap(),
        reinforcement: Some(ReinforcementProvenance {
            reason: ReinforcementReason::ConfirmedHighRisk,
            incident_id: Some(IncidentId("incident-1".into())),
            evidence_ids: vec![
                EvidenceId("evidence-1".into()),
                EvidenceId("evidence-2".into()),
            ],
        }),
    };

    store.save_relationship(relationship.clone());

    let loaded = store
        .load_relationship(&relationship.id)
        .expect("saved relationship should exist");

    assert_eq!(loaded, relationship);
    // The stored row reads back as the same relationship.
    let row = relationship_row(&relationship).unwrap();
    assert_eq!(decode_relationship(row).unwrap(), relationship);
}

#[test]
fn load_relationship_returns_none_when_relationship_does_not_exist() {
    let store = MemoryStore::new();

    let loaded = store.load_relationship(&MemoryRelationshipId("missing-relationship".into()));

    assert_eq!(loaded, None);
}

#[test]
fn load_relationship_round_trips_without_reinforcement() {
    let mut store = MemoryStore::new();

    let relationship = MemoryRelationship {
        id: MemoryRelationshipId("rel-no-reinforcement".into()),
        kind: MemoryRelationshipKind::Executed,
        source: MemoryNodeId("process-1".into()),
        target: MemoryNodeId("file-1".into()),
        created_at: 100,
        last_seen_at: 150,
        observation_count: 2,
        expires_at: Some(500),
        state: MemoryState::Correlated,
        priority: MemoryPriority::Elevated,
        retention: RetentionClass::ShortTerm,
        decay_policy: DecayPolicy::Linear {
            rate: DecayRate::new(15).unwrap(),
        },
        strength: MemoryStrength::new(65).unwrap(),
        confidence: MemoryConfidence::new(75).unwrap(),
        reinforcement: None,
    };

    store.save_relationship(relationship.clone());

    let loaded = store
        .load_relationship(&relationship.id)
        .expect("saved relationship should exist");

    assert_eq!(loaded, relationship);
    let row = relationship_row(&relationship).unwrap();
    assert_eq!(decode_relationship(row).unwrap(), relationship);
}

#[test]
fn save_relationship_persists_reinforcement_evidence_ids() {
    let mut store = MemoryStore::new();

    let relationship = MemoryRelationship {
        id: MemoryRelationshipId("rel-1".into()),
        kind: MemoryRelationshipKind::AssociatedWith,
        source: MemoryNodeId("node-1".into()),
        target: MemoryNodeId("node-2".into()),
        created_at: 100,
        last_seen_at: 200,
        observation_count: 1,
        expires_at: None,
        state: MemoryState::Established,
        priority: MemoryPriority::High,
        retention: RetentionClass::LongTerm,
        decay_policy: DecayPolicy::NoDecay,
        strength: MemoryStrength::new(90).unwrap(),
        confidence: MemoryConfidence::new(95).unwrap(),
        reinforcement: Some(ReinforcementProvenance {
            reason: ReinforcementReason::ConfirmedHighRisk,
            incident_id: None,
            evidence_ids: vec![
                EvidenceId("evidence-1".into()),
                EvidenceId("evidence-2".into()),
            ],
        }),
    };

    store.save_relationship(relationship.clone());

    let stored = store.load_relationship(&relationship.id).unwrap();
    let row = relationship_row(&stored).unwrap();

    assert_eq!(
        row.reinforcement_evidence_ids,
        Some(r#"["evidence-1","evidence-2"]"#.to_string())
    );
}

#[test]
fn save_relationship_updates_existing_relationship_without_changing_created_at() {
    let mut store = MemoryStore::new();

    let original = MemoryRelationship {
        id: MemoryRelationshipId("rel-1".into()),
        kind: MemoryRelationshipKind::ConnectedTo,
        source: MemoryNodeId("node-1".into()),
        target: MemoryNodeId("node-2".into()),
        created_at: 100,
        last_seen_at: 200,
        observation_count: 1,
        expires_at: Some(300),
        state: MemoryState::Observed,
        priority: MemoryPriority::Normal,
        retention: RetentionClass::ShortTerm,
        decay_policy: DecayPolicy::NoDecay,
        strength: MemoryStrength::new(60).unwrap(),
        confidence: MemoryConfidence::new(70).unwrap(),
        reinforcement: None,
    };

    store.save_relationship(original);

    let updated = MemoryRelationship {
        id: MemoryRelationshipId("rel-1".into()),
        kind: MemoryRelationshipKind::AssociatedWith,
        source: MemoryNodeId("node-1".into()),
        target: MemoryNodeId("node-3".into()),
        created_at: 999,
        last_seen_at: 250,
        observation_count: 4,
        expires_at: Some(500),
        state: MemoryState::Supported,
        priority: MemoryPriority::High,
        retention: RetentionClass::LongTerm,
        decay_policy: DecayPolicy::NoDecay,
        strength: MemoryStrength::new(85).unwrap(),
        confidence: MemoryConfidence::new(90).unwrap(),
        reinforcement: None,
    };

    store.save_relationship(updated.clone());

    let loaded = store
        .load_relationship(&updated.id)
        .expect("updated relationship should exist");

    assert_eq!(loaded.created_at, 100);
    assert_eq!(loaded.last_seen_at, 250);
    assert_eq!(loaded.observation_count, 4);
    assert_eq!(loaded.kind, MemoryRelationshipKind::AssociatedWith);
    assert_eq!(loaded.target, MemoryNodeId("node-3".into()));
    assert_eq!(loaded.strength, MemoryStrength::new(85).unwrap());
    assert_eq!(loaded.confidence, MemoryConfidence::new(90).unwrap());
}

#[test]
fn load_node_rejects_invalid_stored_kind() {
    let row = NodeRow {
        id: "node-invalid-kind".into(),
        kind: "definitely_not_a_kind".into(),
        label: "invalid node".into(),
        created_at: 100,
        last_seen_at: 200,
        expires_at: None,
        state: "observed".into(),
        priority: "normal".into(),
        retention: "short_term".into(),
        decay_policy: "none".into(),
        decay_rate: None,
    };

    let result = decode_node(row);

    assert!(matches!(
        result,
        Err(StorageError::InvalidNodeKind(ref value))
            if value == "definitely_not_a_kind"
    ));
}

#[test]
fn load_node_rejects_invalid_stored_decay_rate() {
    let row = NodeRow {
        id: "node-invalid-decay".into(),
        kind: "process".into(),
        label: "invalid decay node".into(),
        created_at: 100,
        last_seen_at: 200,
        expires_at: None,
        state: "observed".into(),
        priority: "normal".into(),
        retention: "short_term".into(),
        decay_policy: "linear".into(),
        decay_rate: Some(101),
    };

    let result = decode_node(row);

    assert!(matches!(
        result,
        Err(StorageError::InvalidDecayPolicy {
            ref kind,
            rate: Some(101),
        }) if kind == "linear"
    ));
}

#[test]
fn load_relationship_rejects_malformed_reinforcement_evidence_json() {
    let row = RelationshipRow {
        id: "rel-invalid-json".into(),
        kind: "associated_with".into(),
        source: "node-1".into(),
        target: "node-2".into(),
        created_at: 100,
        last_seen_at: 200,
        observation_count: 1,
        expires_at: None,
        state: "established".into(),
        priority: "high".into(),
        retention: "long_term".into(),
        decay_policy: "none".into(),
        decay_rate: None,
        strength: 90,
        confidence: 95,
        reinforcement_reason: Some("confirmed_high_risk".into()),
        reinforcement_incident_id: None,
        reinforcement_evidence_ids: Some("{this is not valid json".into()),
    };

    let result = decode_relationship(row);

    assert!(matches!(
        result,
        Err(StorageError::InvalidReinforcementEvidenceJson(_))
    ));
}

#[test]
fn load_relationship_rejects_invalid_stored_confidence() {
    let row = RelationshipRow {
        id: "rel-invalid-confidence".into(),
        kind: "connected_to".into(),
        source: "node-1".into(),
        target: "node-2".into(),
        created_at: 100,
        last_seen_at: 200,
        observation_count: 1,
        expires_at: None,
        state: "observed".into(),
        priority: "normal".into(),
        retention: "short_term".into(),
        decay_policy: "none".into(),
        decay_rate: None,
        strength: 70,
        confidence: 101,
        reinforcement_reason: None,
        reinforcement_incident_id: None,
        reinforcement_evidence_ids: None,
    };

    let result = decode_relationship(row);

    assert!(matches!(result, Err(StorageError::InvalidConfidence(101))));
}

#[test]
fn relationships_from_returns_outgoing_relationships_in_id_order() {
    let mut store = MemoryStore::new();

    save_test_relationships(
        &mut store,
        &[
            test_relationship("rel-2", "node-a", "node-c"),
            test_relationship("rel-1", "node-a", "node-b"),
            test_relationship("rel-3", "node-d", "node-a"),
        ],
    );

    let relationships = store.relationships_from(&MemoryNodeId("node-a".into()));

    assert_eq!(relationship_ids(relationships), vec!["rel-1", "rel-2"]);
}

#[test]
fn relationships_to_returns_incoming_relationships_in_id_order() {
    let mut store = MemoryStore::new();

    save_test_relationships(
        &mut store,
        &[
            test_relationship("rel-2", "node-c", "node-a"),
            test_relationship("rel-1", "node-b", "node-a"),
            test_relationship("rel-3", "node-a", "node-d"),
        ],
    );

    let relationships = store.relationships_to(&MemoryNodeId("node-a".into()));

    assert_eq!(relationship_ids(relationships), vec!["rel-1", "rel-2"]);
}

#[test]
fn relationships_for_returns_both_directions_without_duplicates() {
    let mut store = MemoryStore::new();

    save_test_relationships(
        &mut store,
        &[
            test_relationship("rel-1", "node-a", "node-b"),
            test_relationship("rel-2", "node-c", "node-a"),
            test_relationship("rel-3", "node-a", "node-a"),
            test_relationship("rel-4", "node-x", "node-y"),
        ],
    );

    let relationships = store.relationships_for(&MemoryNodeId("node-a".into()));

    assert_eq!(relationship_ids(relationships), vec!["rel-1", "rel-2", "rel-3"]);
}

#[test]
fn neighbours_returns_unique_sorted_adjacent_node_ids() {
    let mut store = MemoryStore::new();

    save_test_relationships(
        &mut store,
        &[
            test_relationship("rel-1", "node-a", "node-c"),
            test_relationship("rel-2", "node-b", "node-a"),
            test_relationship("rel-3", "node-a", "node-b"),
            test_relationship("rel-4", "node-a", "node-a"),
        ],
    );

    let neighbours = store.neighbours(&MemoryNodeId("node-a".into()));

    assert_eq!(
        neighbours,
        vec![MemoryNodeId("node-b".into()), MemoryNodeId("node-c".into()),]
    );
}

#[test]
fn neighbours_returns_empty_when_node_is_disconnected() {
    let mut store = MemoryStore::new();

    save_test_relationships(&mut store, &[test_relationship("rel-1", "node-x", "node-y")]);

    let neighbours = store.neighbours(&MemoryNodeId("node-a".into()));

    assert!(neighbours.is_empty());
}

#[test]
fn traverse_uses_breadth_first_order_and_respects_max_depth() {
    let mut store = MemoryStore::new();

    save_test_relationships(
        &mut store,
        &[
            test_relationship("rel-1", "node-a", "node-c"),
            test_relationship("rel-2", "node-a", "node-b"),
            test_relationship("rel-3", "node-b", "node-d"),
            test_relationship("rel-4", "node-c", "node-e"),
            test_relationship("rel-5", "node-d", "node-f"),
        ],
    );

    let zero_depth = store.traverse(&MemoryNodeId("node-a".into()), 0);
    assert!(zero_depth.is_empty());

    let visits = store.traverse(&MemoryNodeId("node-a".into()), 2);

    assert_eq!(
        visits,
        vec![
            TraversalVisit {
                node_id: MemoryNodeId("node-b".into()),
                depth: 1,
            },
            TraversalVisit {
                node_id: MemoryNodeId("node-c".into()),
                depth: 1,
            },
            TraversalVisit {
                node_id: MemoryNodeId("node-d".into()),
                depth: 2,
            },
            TraversalVisit {
                node_id: MemoryNodeId("node-e".into()),
                depth: 2,
            },
        ]
    );
}

#[test]
fn traverse_handles_cycles_without_revisiting_nodes() {
    let mut store = MemoryStore::new();

    save_test_relationships(
        &mut store,
        &[
            test_relationship("rel-1", "node-a", "node-b"),
            test_relationship("rel-2", "node-b", "node-c"),
            test_relationship("rel-3", "node-c", "node-a"),
        ],
    );

    let visits = store.traverse(&MemoryNodeId("node-a".into()), 10);

    assert_eq!(
        visits,
        vec![
            TraversalVisit {
                node_id: MemoryNodeId("node-b".into()),
                depth: 1,
            },
            TraversalVisit {
                node_id: MemoryNodeId("node-c".into()),
                depth: 1,
            },
        ]
    );
}

#[test]
fn expired_queries_return_only_active_records_past_expiry() {
    let mut store = MemoryStore::new();

    let mut expired_node = test_node("node-expired", MemoryNodeKind::File, MemoryState::Observed);
    expired_node.expires_at = Some(100);
    let mut future_node = test_node("node-future", MemoryNodeKind::File, MemoryState::Observed);
    future_node.expires_at = Some(300);
    store.save_node(expired_node.clone());
    store.save_node(future_node);

    let mut expired_relationship = test_relationship("rel-expired", "node-a", "node-b");
    expired_relationship.expires_at = Some(100);
    let mut future_relationship = test_relationship("rel-future", "node-a", "node-c");
    future_relationship.expires_at = Some(300);
    store.save_relationship(expired_relationship.clone());
    store.save_relationship(future_relationship);

    assert_eq!(store.expired_nodes(200), vec![expired_node]);
    assert_eq!(store.expired_relationships(200), vec![expired_relationship]);
}

#[test]
fn mark_expired_marks_relationships_and_nodes_without_overwriting_revoked_state() {
    let mut store = MemoryStore::new();

    let mut node = test_node("node-a", MemoryNodeKind::Process, MemoryState::Observed);
    node.expires_at = Some(100);
    store.save_node(node.clone());

    let mut relationship = test_relationship("rel-a", "node-a", "node-b");
    relationship.expires_at = Some(100);
    store.save_relationship(relationship.clone());

    let mut revoked = test_relationship("rel-revoked", "node-a", "node-c");
    revoked.expires_at = Some(100);
    revoked.state = MemoryState::Revoked;
    store.save_relationship(revoked.clone());

    let update = store.mark_expired(100);
    assert_eq!(update.relationships_expired, 1);
    assert_eq!(update.nodes_expired, 1);
    assert_eq!(store.load_node(&node.id).unwrap().state, MemoryState::Expired);
    assert_eq!(
        store.load_relationship(&relationship.id).unwrap().state,
        MemoryState::Expired
    );
    assert_eq!(
        store.load_relationship(&revoked.id).unwrap().state,
        MemoryState::Revoked
    );
}

#[test]
fn purge_eligible_queries_respect_grace_period_and_persistent_retention() {
    let mut store = MemoryStore::new();

    let mut node = test_node("node-old", MemoryNodeKind::File, MemoryState::Expired);
    node.expires_at = Some(100);
    store.save_node(node.clone());

    let mut persistent = test_node("node-persistent", MemoryNodeKind::Host, MemoryState::Expired);
    persistent.expires_at = Some(100);
    persistent.retention = RetentionClass::Persistent;
    store.save_node(persistent);

    let mut relationship = test_relationship("rel-old", "node-a", "node-b");
    relationship.state = MemoryState::Expired;
    relationship.expires_at = Some(100);
    store.save_relationship(relationship.clone());

    assert!(store.purge_eligible_nodes(149, 50).is_empty());
    assert_eq!(store.purge_eligible_nodes(150, 50), vec![node]);
    assert_eq!(store.purge_eligible_relationships(150, 50), vec![relationship]);
}

#[test]
fn reinforcement_can_be_applied_and_revoked() {
    let mut store = MemoryStore::new();
    let relationship = test_relationship("rel-reinforce", "node-a", "node-b");
    store.save_relationship(relationship.clone());

    let provenance = ReinforcementProvenance {
        reason: ReinforcementReason::ConfirmedHighRisk,
        incident_id: Some(IncidentId("incident-1".into())),
        evidence_ids: vec![EvidenceId("evidence-1".into())],
    };
    assert!(store.reinforce_relationship(&relationship.id, provenance.clone()));
    assert_eq!(
        store.load_relationship(&relationship.id).unwrap().reinforcement,
        Some(provenance)
    );

    assert!(store.revoke_relationship_reinforcement(&relationship.id));
    assert_eq!(
        store.load_relationship(&relationship.id).unwrap().reinforcement,
        None
    );
}

#[test]
fn observe_relationship_consolidates_matching_edges() {
    let mut store = MemoryStore::new();

    let original = test_relationship("rel-original", "node-a", "node-b");
    store.save_relationship(original.clone());

    let mut observation = test_relationship("rel-new-id", "node-a", "node-b");
    observation.last_seen_at = 250;
    observation.strength = MemoryStrength::new(80).unwrap();
    observation.confidence = MemoryConfidence::new(75).unwrap();
    observation.priority = MemoryPriority::High;

    let canonical_id = store.observe_relationship(&observation);
    assert_eq!(canonical_id, original.id);

    let loaded = store.load_relationship(&canonical_id).unwrap();
    assert_eq!(loaded.observation_count, 2);
    assert_eq!(loaded.last_seen_at, 250);
    assert_eq!(loaded.strength, MemoryStrength::new(80).unwrap());
    assert_eq!(loaded.confidence, MemoryConfidence::new(75).unwrap());
    assert_eq!(loaded.priority, MemoryPriority::High);
    assert!(store.load_relationship(&observation.id).is_none());
}

#[test]
fn active_relationships_for_excludes_terminal_relationship_states() {
    let mut store = MemoryStore::new();

    let active = test_relationship("rel-active", "node-a", "node-b");
    let mut expired = test_relationship("rel-expired", "node-a", "node-c");
    expired.state = MemoryState::Expired;
    save_test_relationships(&mut store, &[active.clone(), expired]);

    assert_eq!(
        store.active_relationships_for(&MemoryNodeId("node-a".into())),
        vec![active]
    );
}

#[test]
fn find_path_respects_direction_and_active_state() {
    let mut store = MemoryStore::new();
    save_test_relationships(
        &mut store,
        &[
            test_relationship("rel-ab", "node-a", "node-b"),
            test_relationship("rel-bc", "node-b", "node-c"),
        ],
    );

    let outgoing = PathQuery {
        max_depth: 3,
        direction: TraversalDirection::Outgoing,
        ..PathQuery::default()
    };
    assert!(store
        .find_path(
            &MemoryNodeId("node-a".into()),
            &MemoryNodeId("node-c".into()),
            &outgoing
        )
        .is_some());
    assert!(store
        .find_path(
            &MemoryNodeId("node-c".into()),
            &MemoryNodeId("node-a".into()),
            &outgoing
        )
        .is_none());
}

#[test]
fn find_path_filters_relationship_kind_strength_and_confidence() {
    let mut store = MemoryStore::new();

    let mut relationship = test_relationship("rel-ab", "node-a", "node-b");
    relationship.kind = MemoryRelationshipKind::Executed;
    relationship.strength = MemoryStrength::new(80).unwrap();
    relationship.confidence = MemoryConfidence::new(70).unwrap();
    store.save_relationship(relationship);

    let allowed = PathQuery {
        max_depth: 1,
        relationship_kinds: vec![MemoryRelationshipKind::Executed],
        minimum_strength: Some(MemoryStrength::new(80).unwrap()),
        minimum_confidence: Some(MemoryConfidence::new(70).unwrap()),
        ..PathQuery::default()
    };
    assert!(store
        .find_path(
            &MemoryNodeId("node-a".into()),
            &MemoryNodeId("node-b".into()),
            &allowed
        )
        .is_some());

    let blocked = PathQuery {
        minimum_confidence: Some(MemoryConfidence::new(71).unwrap()),
        ..allowed
    };
    assert!(store
        .find_path(
            &MemoryNodeId("node-a".into()),
            &MemoryNodeId("node-b".into()),
            &blocked
        )
        .is_none());
}

#[test]
fn find_path_reports_weakest_link_score() {
    let mut store = MemoryStore::new();

    let mut first = test_relationship("rel-ab", "node-a", "node-b");
    first.strength = MemoryStrength::new(90).unwrap();
    first.confidence = MemoryConfidence::new(85).unwrap();
    let mut second = test_relationship("rel-bc", "node-b", "node-c");
    second.strength = MemoryStrength::new(60).unwrap();
    second.confidence = MemoryConfidence::new(95).unwrap();
    save_test_relationships(&mut store, &[first, second]);

    let path = store
        .find_path(
            &MemoryNodeId("node-a".into()),
            &MemoryNodeId("node-c".into()),
            &PathQuery::default(),
        )
        .unwrap();

    assert_eq!(path.weakest_strength, MemoryStrength::new(60).unwrap());
    assert_eq!(path.weakest_confidence, MemoryConfidence::new(85).unwrap());
    assert_eq!(path.score(), 60);
}

#[test]
fn threat_paths_are_ranked_by_weakest_link_score() {
    let mut store = MemoryStore::new();

    for node in [
        test_node("threat-high", MemoryNodeKind::Threat, MemoryState::Established),
        test_node("threat-low", MemoryNodeKind::Threat, MemoryState::Established),
    ] {
        store.save_node(node);
    }

    let mut high = test_relationship("rel-high", "start", "threat-high");
    high.strength = MemoryStrength::new(90).unwrap();
    high.confidence = MemoryConfidence::new(95).unwrap();
    let mut low = test_relationship("rel-low", "start", "threat-low");
    low.strength = MemoryStrength::new(50).unwrap();
    low.confidence = MemoryConfidence::new(80).unwrap();
    save_test_relationships(&mut store, &[low, high]);

    let paths = store.threat_paths_from(&MemoryNodeId("start".into()), &PathQuery::default());

    assert_eq!(paths.len(), 2);
    assert_eq!(paths[0].threat, MemoryNodeId("threat-high".into()));
    assert_eq!(paths[0].path.score(), 90);
    assert_eq!(paths[1].threat, MemoryNodeId("threat-low".into()));
    assert_eq!(paths[1].path.score(), 50);
}

#[test]
fn evaluate_decay_is_non_destructive_and_respects_reinforcement() {
    let mut store = MemoryStore::new();

    let mut decaying = test_relationship("rel-decay", "node-a", "node-b");
    decaying.created_at = 100;
    decaying.expires_at = Some(200);
    decaying.decay_policy = DecayPolicy::Linear {
        rate: DecayRate::new(50).unwrap(),
    };
    decaying.strength = MemoryStrength::new(100).unwrap();

    let mut reinforced = test_relationship("rel-reinforced", "node-a", "node-c");
    reinforced.created_at = 100;
    reinforced.expires_at = Some(200);
    reinforced.decay_policy = DecayPolicy::Linear {
        rate: DecayRate::new(50).unwrap(),
    };
    reinforced.strength = MemoryStrength::new(100).unwrap();
    reinforced.reinforcement = Some(ReinforcementProvenance {
        reason: ReinforcementReason::ConfirmedHighRisk,
        incident_id: None,
        evidence_ids: Vec::new(),
    });

    save_test_relationships(&mut store, &[decaying.clone(), reinforced.clone()]);
    let evaluations = store.evaluate_decay(200);

    assert_eq!(evaluations.len(), 2);
    assert_eq!(evaluations[0].relationship_id, decaying.id);
    assert_eq!(evaluations[0].stored_strength.value(), 100);
    assert_eq!(evaluations[0].effective_strength.value(), 50);
    assert_eq!(evaluations[1].effective_strength.value(), 100);

    assert_eq!(
        store
            .load_relationship(&MemoryRelationshipId("rel-decay".into()))
            .unwrap()
            .strength
            .value(),
        100
    );
}

#[test]
fn find_path_can_filter_using_effective_decayed_strength() {
    let mut store = MemoryStore::new();

    let mut relationship = test_relationship("rel-decayed", "node-a", "node-b");
    relationship.created_at = 100;
    relationship.expires_at = Some(200);
    relationship.strength = MemoryStrength::new(100).unwrap();
    relationship.decay_policy = DecayPolicy::Linear {
        rate: DecayRate::new(50).unwrap(),
    };
    store.save_relationship(relationship);

    let query = PathQuery {
        max_depth: 1,
        minimum_strength: Some(MemoryStrength::new(60).unwrap()),
        evaluation_time: Some(200),
        ..PathQuery::default()
    };

    assert!(store
        .find_path(
            &MemoryNodeId("node-a".into()),
            &MemoryNodeId("node-b".into()),
            &query,
        )
        .is_none());
}

#[test]
fn nodes_can_be_filtered_by_kind() {
    let mut store = MemoryStore::new();

    store.save_node(test_node("file-a", MemoryNodeKind::File, MemoryState::Observed));
    store.save_node(test_node("process-a", MemoryNodeKind::Process, MemoryState::Observed));
    store.save_node(test_node("process-b", MemoryNodeKind::Process, MemoryState::Observed));

    let processes = store.nodes(Some(MemoryNodeKind::Process));
    assert_eq!(
        processes.into_iter().map(|node| node.id.0).collect::<Vec<_>>(),
        vec!["process-a", "process-b"]
    );
}

#[test]
fn recent_nodes_are_ordered_by_last_seen_and_limited() {
    let mut store = MemoryStore::new();

    let mut old = test_node("old", MemoryNodeKind::File, MemoryState::Observed);
    old.last_seen_at = 10;
    let mut newest = test_node("newest", MemoryNodeKind::File, MemoryState::Observed);
    newest.last_seen_at = 30;
    let mut middle = test_node("middle", MemoryNodeKind::File, MemoryState::Observed);
    middle.last_seen_at = 20;

    for node in [old, newest, middle] {
        store.save_node(node);
    }

    let recent = store.recent_nodes(2);
    assert_eq!(
        recent.into_iter().map(|node| node.id.0).collect::<Vec<_>>(),
        vec!["newest", "middle"]
    );
}

#[test]
fn revoking_reinforcement_lets_decay_resume() {
    let mut store = MemoryStore::new();
    let mut relationship = test_relationship("rel-decay", "node-a", "node-b");
    relationship.created_at = 100;
    relationship.expires_at = Some(200);
    relationship.strength = MemoryStrength::new(100).unwrap();
    relationship.decay_policy = DecayPolicy::Linear {
        rate: DecayRate::new(50).unwrap(),
    };
    store.save_relationship(relationship.clone());

    let provenance = ReinforcementProvenance {
        reason: ReinforcementReason::ConfirmedHighRisk,
        incident_id: None,
        evidence_ids: Vec::new(),
    };
    assert!(store.reinforce_relationship(&relationship.id, provenance));
    let reinforced = store.load_relationship(&relationship.id).unwrap();
    assert_eq!(reinforced.effective_strength(200).value(), 100);

    assert!(store.revoke_relationship_reinforcement(&relationship.id));
    let revoked = store.load_relationship(&relationship.id).unwrap();
    assert_eq!(revoked.effective_strength(200).value(), 50);
    assert!(!store.reinforce_relationship(
        &MemoryRelationshipId("missing".into()),
        ReinforcementProvenance {
            reason: ReinforcementReason::ConfirmedHighRisk,
            incident_id: None,
            evidence_ids: Vec::new(),
        }
    ));
}

#[test]
fn traverse_reaches_every_linked_node_at_its_shortest_depth() {
    let mut store = MemoryStore::new();
    save_test_relationships(
        &mut store,
        &[
            test_relationship("rel-1", "node-a", "node-b"),
            test_relationship("rel-2", "node-b", "node-c"),
            test_relationship("rel-3", "node-c", "node-d"),
            test_relationship("rel-4", "node-d", "node-a"),
            test_relationship("rel-5", "node-c", "node-e"),
        ],
    );

    let visits = store.traverse(&MemoryNodeId("node-a".into()), 2);
    assert_eq!(
        visits,
        vec![
            TraversalVisit { node_id: MemoryNodeId("node-b".into()), depth: 1 },
            TraversalVisit { node_id: MemoryNodeId("node-d".into()), depth: 1 },
            TraversalVisit { node_id: MemoryNodeId("node-c".into()), depth: 2 },
        ]
    );

    let deeper = store.traverse(&MemoryNodeId("node-a".into()), 3);
    assert_eq!(deeper.len(), 4);
    assert_eq!(deeper[3], TraversalVisit { node_id: MemoryNodeId("node-e".into()), depth: 3 });
}

#[test]
fn find_path_reports_a_shortest_path_and_nothing_beyond_the_depth_limit() {
    let mut store = MemoryStore::new();
    save_test_relationships(
        &mut store,
        &[
            test_relationship("rel-1", "node-a", "node-b"),
            test_relationship("rel-2", "node-b", "node-c"),
            test_relationship("rel-3", "node-c", "node-d"),
            test_relationship("rel-4", "node-a", "node-c"),
        ],
    );

    let direct = store
        .find_path(&MemoryNodeId("node-a".into()), &MemoryNodeId("node-c".into()), &PathQuery::default())
        .unwrap();
    assert_eq!(direct.relationships, vec![MemoryRelationshipId("rel-4".into())]);

    let mut short = PathQuery::default();
    short.max_depth = 1;
    assert!(store
        .find_path(&MemoryNodeId("node-a".into()), &MemoryNodeId("node-d".into()), &short)
        .is_none());
    short.max_depth = 2;
    let found = store
        .find_path(&MemoryNodeId("node-a".into()), &MemoryNodeId("node-d".into()), &short)
        .unwrap();
    assert_eq!(found.relationships.len(), 2);
    assert_eq!(found.nodes.last(), Some(&MemoryNodeId("node-d".into())));

    assert!(store
        .find_path(&MemoryNodeId("node-a".into()), &MemoryNodeId("node-z".into()), &PathQuery::default())
        .is_none());
}

#[test]
fn threat_paths_list_every_reachable_reasoning_active_threat() {
    let mut store = MemoryStore::new();
    for node in [
        test_node("threat-near", MemoryNodeKind::Threat, MemoryState::Established),
        test_node("threat-far", MemoryNodeKind::Threat, MemoryState::Observed),
        test_node("threat-isolated", MemoryNodeKind::Threat, MemoryState::Established),
        test_node("threat-revoked", MemoryNodeKind::Threat, MemoryState::Revoked),
    ] {
        store.save_node(node);
    }
    save_test_relationships(
        &mut store,
        &[
            test_relationship("rel-1", "start", "threat-near"),
            test_relationship("rel-2", "start", "hop"),
            test_relationship("rel-3", "hop", "threat-far"),
            test_relationship("rel-4", "start", "threat-revoked"),
        ],
    );

    let paths = store.threat_paths_from(&MemoryNodeId("start".into()), &PathQuery::default());
    let threats: Vec<String> = paths.iter().map(|p| p.threat.0.clone()).collect();
    assert_eq!(threats, vec!["threat-near".to_string(), "threat-far".to_string()]);
    assert_eq!(paths[1].path.relationships.len(), 2);
}

#[test]
fn decay_never_raises_strength_over_time() {
    for policy in [
        DecayPolicy::Linear { rate: DecayRate::new(60).unwrap() },
        DecayPolicy::Exponential { rate: DecayRate::new(60).unwrap() },
        DecayPolicy::Exponential { rate: DecayRate::new(100).unwrap() },
    ] {
        let mut relationship = test_relationship("rel-decay", "node-a", "node-b");
        relationship.created_at = 100;
        relationship.expires_at = Some(200);
        relationship.strength = MemoryStrength::new(80).unwrap();
        relationship.decay_policy = policy;
        let mut previous = relationship.strength.value();
        for now in (0..=300).step_by(7) {
            let current = relationship.effective_strength(now).value();
            assert!(current <= previous);
            assert!(current <= 80);
            previous = current;
        }
    }
}

#[test]
fn persistent_relationships_are_never_listed_for_purging() {
    let mut store = MemoryStore::new();
    let mut persistent = test_relationship("rel-persistent", "node-a", "node-b");
    persistent.state = MemoryState::Expired;
    persistent.expires_at = Some(100);
    persistent.retention = RetentionClass::Persistent;
    let mut short = test_relationship("rel-short", "node-a", "node-c");
    short.state = MemoryState::Expired;
    short.expires_at = Some(100);
    save_test_relationships(&mut store, &[persistent, short]);

    assert_eq!(
        relationship_ids(store.purge_eligible_relationships(u64::MAX, 0)),
        vec!["rel-short".to_string()]
    );
}

#[test]
fn nothing_decays_before_the_lifetime_starts_to_elapse() {
    for policy in [
        DecayPolicy::Linear { rate: DecayRate::new(80).unwrap() },
        DecayPolicy::Exponential { rate: DecayRate::new(80).unwrap() },
    ] {
        let mut relationship = test_relationship("rel-start", "node-a", "node-b");
        relationship.strength = MemoryStrength::new(73).unwrap();
        relationship.decay_policy = policy;
        assert_eq!(relationship.decayed_strength(0).value(), 73);
        assert_eq!(
            relationship.decayed_strength(250).value(),
            relationship.decayed_strength(100).value()
        );
    }
}

#[test]
fn find_path_breaks_ties_by_the_first_relationship_identifiers() {
    let mut store = MemoryStore::new();
    save_test_relationships(
        &mut store,
        &[
            test_relationship("rel-2", "node-a", "node-b"),
            test_relationship("rel-3", "node-b", "node-d"),
            test_relationship("rel-1", "node-a", "node-c"),
            test_relationship("rel-9", "node-c", "node-d"),
        ],
    );
    let path = store
        .find_path(&MemoryNodeId("node-a".into()), &MemoryNodeId("node-d".into()), &PathQuery::default())
        .unwrap();
    assert_eq!(
        path.relationships,
        vec![MemoryRelationshipId("rel-1".into()), MemoryRelationshipId("rel-9".into())]
    );
    assert_eq!(
        path.nodes,
        vec![
            MemoryNodeId("node-a".into()),
            MemoryNodeId("node-c".into()),
            MemoryNodeId("node-d".into()),
        ]
    );
}

#[test]
fn threat_paths_hold_each_threat_once_with_the_searched_path() {
    let mut store = MemoryStore::new();
    store.save_node(test_node("threat", MemoryNodeKind::Threat, MemoryState::Established));
    save_test_relationships(
        &mut store,
        &[
            test_relationship("rel-2", "start", "hop-b"),
            test_relationship("rel-3", "hop-b", "threat"),
            test_relationship("rel-1", "start", "hop-a"),
            test_relationship("rel-4", "hop-a", "threat"),
        ],
    );
    let query = PathQuery::default();
    let paths = store.threat_paths_from(&MemoryNodeId("start".into()), &query);
    assert_eq!(paths.len(), 1);
    let searched = store
        .find_path(&MemoryNodeId("start".into()), &MemoryNodeId("threat".into()), &query)
        .unwrap();
    assert_eq!(paths[0].path, searched);
    assert_eq!(
        searched.relationships,
        vec![MemoryRelationshipId("rel-1".into()), MemoryRelationshipId("rel-4".into())]
    );
}
