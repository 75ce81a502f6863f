use dendrite::memory::model::{
    DecayPolicy, DecayRate, MemoryConfidence, MemoryNode, MemoryNodeId, MemoryNodeKind,
    MemoryPriority, MemoryRelationship, MemoryRelationshipId, MemoryRelationshipKind, MemoryState,
    MemoryStrength, ReinforcementProvenance, ReinforcementReason, RetentionClass,
};
use std::str::FromStr;

#[test]
fn memory_strength_accepts_valid_values() {
    assert_eq!(MemoryStrength::new(0).unwrap().value(), 0);
    assert_eq!(MemoryStrength::new(100).unwrap().value(), 100);
}

#[test]
fn memory_strength_rejects_values_above_100() {
    assert_eq!(MemoryStrength::new(101), None);
}

#[test]
fn memory_confidence_accepts_valid_values() {
    assert_eq!(MemoryConfidence::new(0).unwrap().value(), 0);
    assert_eq!(MemoryConfidence::new(100).unwrap().value(), 100);
}

#[test]
fn memory_confidence_rejects_values_above_100() {
    assert_eq!(MemoryConfidence::new(101), None);
}

#[test]
fn decay_rate_accepts_valid_values() {
    assert_eq!(DecayRate::new(0).unwrap().value(), 0);
    assert_eq!(DecayRate::new(100).unwrap().value(), 100);
}

#[test]
fn decay_rate_rejects_values_above_100() {
    assert_eq!(DecayRate::new(101), None);
}

#[test]
fn memory_node_kind_round_trips_through_string() {
    let kinds = [
        MemoryNodeKind::Process,
        MemoryNodeKind::File,
        MemoryNodeKind::User,
        MemoryNodeKind::Host,
        MemoryNodeKind::NetworkEndpoint,
        MemoryNodeKind::Service,
        MemoryNodeKind::Container,
        MemoryNodeKind::Incident,
        MemoryNodeKind::Threat,
    ];

    for kind in kinds {
        assert_eq!(MemoryNodeKind::from_str(kind.as_str()), Ok(kind));
    }
}

#[test]
fn memory_relationship_kind_round_trips_through_string() {
    let kinds = [
        MemoryRelationshipKind::Spawned,
        MemoryRelationshipKind::Executed,
        MemoryRelationshipKind::Read,
        MemoryRelationshipKind::Wrote,
        MemoryRelationshipKind::ConnectedTo,
        MemoryRelationshipKind::BelongsTo,
        MemoryRelationshipKind::AssociatedWith,
    ];

    for kind in kinds {
        assert_eq!(MemoryRelationshipKind::from_str(kind.as_str()), Ok(kind));
    }
}

#[test]
fn memory_state_round_trips_through_string() {
    let states = [
        MemoryState::Observed,
        MemoryState::Correlated,
        MemoryState::Supported,
        MemoryState::Established,
        MemoryState::Contradicted,
        MemoryState::Superseded,
        MemoryState::Expired,
        MemoryState::Revoked,
    ];

    for state in states {
        assert_eq!(MemoryState::from_str(state.as_str()), Ok(state));
    }
}

#[test]
fn decay_policy_reconstructs_from_stored_parts() {
    let linear = DecayPolicy::from_parts("linear", Some(25)).unwrap();

    assert_eq!(
        linear,
        DecayPolicy::Linear {
            rate: DecayRate::new(25).unwrap(),
        }
    );

    let exponential = DecayPolicy::from_parts("exponential", Some(40)).unwrap();

    assert_eq!(
        exponential,
        DecayPolicy::Exponential {
            rate: DecayRate::new(40).unwrap(),
        }
    );

    assert_eq!(
        DecayPolicy::from_parts("none", None),
        Some(DecayPolicy::NoDecay),
    );

    assert_eq!(DecayPolicy::from_parts("linear", None), None);
    assert_eq!(DecayPolicy::from_parts("unknown", Some(10)), None);
}

#[test]
fn memory_node_expiry_uses_expires_at() {
    let node = MemoryNode {
        id: MemoryNodeId("node-1".into()),
        kind: MemoryNodeKind::Process,
        label: "nginx".into(),
        created_at: 100,
        last_seen_at: 200,
        expires_at: Some(300),
        state: MemoryState::Observed,
        priority: MemoryPriority::Normal,
        retention: RetentionClass::ShortTerm,
        decay_policy: DecayPolicy::NoDecay,
    };

    assert!(!node.is_expired(299));
    assert!(node.is_expired(300));
    assert!(node.is_expired(301));
}

#[test]
fn memory_node_without_expiry_does_not_expire() {
    let node = MemoryNode {
        id: MemoryNodeId("node-1".into()),
        kind: MemoryNodeKind::Process,
        label: "nginx".into(),
        created_at: 100,
        last_seen_at: 200,
        expires_at: None,
        state: MemoryState::Established,
        priority: MemoryPriority::High,
        retention: RetentionClass::Persistent,
        decay_policy: DecayPolicy::NoDecay,
    };

    assert!(!node.is_expired(u64::MAX));
}

#[test]
fn memory_node_record_observation_updates_last_seen() {
    let mut node = MemoryNode {
        id: MemoryNodeId("node-1".into()),
        kind: MemoryNodeKind::Process,
        label: "nginx".into(),
        created_at: 100,
        last_seen_at: 200,
        expires_at: Some(500),
        state: MemoryState::Observed,
        priority: MemoryPriority::Normal,
        retention: RetentionClass::ShortTerm,
        decay_policy: DecayPolicy::NoDecay,
    };

    node.record_observation(250);
    assert_eq!(node.last_seen_at, 250);

    node.record_observation(150);
    assert_eq!(node.last_seen_at, 250);
}

#[test]
fn memory_relationship_expiry_uses_expires_at() {
    let relationship = MemoryRelationship {
        id: MemoryRelationshipId("rel-1".into()),
        kind: MemoryRelationshipKind::Spawned,
        source: MemoryNodeId("node-1".into()),
        target: MemoryNodeId("node-2".into()),
        created_at: 100,
        last_seen_at: 200,
        observation_count: 1,
        expires_at: Some(300),
        state: MemoryState::Observed,
        priority: MemoryPriority::Normal,
        retention: RetentionClass::ShortTerm,
        decay_policy: DecayPolicy::NoDecay,
        strength: MemoryStrength::new(50).unwrap(),
        confidence: MemoryConfidence::new(50).unwrap(),
        reinforcement: None,
    };

    assert!(!relationship.is_expired(299));
    assert!(relationship.is_expired(300));
    assert!(relationship.is_expired(301));
}

#[test]
fn memory_relationship_without_expiry_does_not_expire() {
    let relationship = MemoryRelationship {
        id: MemoryRelationshipId("rel-1".into()),
        kind: MemoryRelationshipKind::AssociatedWith,
        source: MemoryNodeId("node-1".into()),
        target: MemoryNodeId("node-2".into()),
        created_at: 100,
        last_seen_at: 200,
        observation_count: 10,
        expires_at: None,
        state: MemoryState::Established,
        priority: MemoryPriority::High,
        retention: RetentionClass::Persistent,
        decay_policy: DecayPolicy::NoDecay,
        strength: MemoryStrength::new(90).unwrap(),
        confidence: MemoryConfidence::new(95).unwrap(),
        reinforcement: None,
    };

    assert!(!relationship.is_expired(u64::MAX));
}

#[test]
fn record_observation_updates_count_and_last_seen() {
    let mut relationship = MemoryRelationship {
        id: MemoryRelationshipId("rel-1".into()),
        kind: MemoryRelationshipKind::ConnectedTo,
        source: MemoryNodeId("node-1".into()),
        target: MemoryNodeId("node-2".into()),
        created_at: 100,
        last_seen_at: 200,
        observation_count: 5,
        expires_at: Some(500),
        state: MemoryState::Observed,
        priority: MemoryPriority::Normal,
        retention: RetentionClass::ShortTerm,
        decay_policy: DecayPolicy::NoDecay,
        strength: MemoryStrength::new(50).unwrap(),
        confidence: MemoryConfidence::new(50).unwrap(),
        reinforcement: None,
    };

    relationship.record_observation(250);

    assert_eq!(relationship.observation_count, 6);
    assert_eq!(relationship.last_seen_at, 250);

    relationship.record_observation(150);

    assert_eq!(relationship.observation_count, 7);
    assert_eq!(relationship.last_seen_at, 250);
}

#[test]
fn linear_decay_reduces_relationship_strength() {
    let relationship = MemoryRelationship {
        id: MemoryRelationshipId("rel-1".into()),
        kind: MemoryRelationshipKind::AssociatedWith,
        source: MemoryNodeId("node-1".into()),
        target: MemoryNodeId("node-2".into()),
        created_at: 100,
        last_seen_at: 200,
        observation_count: 1,
        expires_at: Some(300),
        state: MemoryState::Observed,
        priority: MemoryPriority::Normal,
        retention: RetentionClass::ShortTerm,
        decay_policy: DecayPolicy::Linear {
            rate: DecayRate::new(50).unwrap(),
        },
        strength: MemoryStrength::new(100).unwrap(),
        confidence: MemoryConfidence::new(50).unwrap(),
        reinforcement: None,
    };

    assert_eq!(relationship.decayed_strength(0).value(), 100);
    assert_eq!(relationship.decayed_strength(50).value(), 75);
    assert_eq!(relationship.decayed_strength(100).value(), 50);
}

#[test]
fn linear_decay_clamps_elapsed_percent_to_100() {
    let relationship = MemoryRelationship {
        id: MemoryRelationshipId("rel-1".into()),
        kind: MemoryRelationshipKind::AssociatedWith,
        source: MemoryNodeId("node-1".into()),
        target: MemoryNodeId("node-2".into()),
        created_at: 100,
        last_seen_at: 200,
        observation_count: 1,
        expires_at: Some(300),
        state: MemoryState::Observed,
        priority: MemoryPriority::Normal,
        retention: RetentionClass::ShortTerm,
        decay_policy: DecayPolicy::Linear {
            rate: DecayRate::new(50).unwrap(),
        },
        strength: MemoryStrength::new(100).unwrap(),
        confidence: MemoryConfidence::new(50).unwrap(),
        reinforcement: None,
    };

    assert_eq!(relationship.decayed_strength(200).value(), 50);
}

#[test]
fn reinforced_relationship_does_not_decay() {
    let relationship = MemoryRelationship {
        id: MemoryRelationshipId("rel-1".into()),
        kind: MemoryRelationshipKind::AssociatedWith,
        source: MemoryNodeId("node-1".into()),
        target: MemoryNodeId("node-2".into()),
        created_at: 100,
        last_seen_at: 200,
        observation_count: 1,
        expires_at: Some(300),
        state: MemoryState::Established,
        priority: MemoryPriority::High,
        retention: RetentionClass::LongTerm,
        decay_policy: DecayPolicy::Linear {
            rate: DecayRate::new(50).unwrap(),
        },
        strength: MemoryStrength::new(100).unwrap(),
        confidence: MemoryConfidence::new(95).unwrap(),
        reinforcement: Some(ReinforcementProvenance {
            reason: ReinforcementReason::ConfirmedHighRisk,
            incident_id: None,
            evidence_ids: Vec::new(),
        }),
    };

    assert_eq!(relationship.decayed_strength(100).value(), 100);
}

#[test]
fn memory_state_identifies_reasoning_active_states() {
    for state in [
        MemoryState::Observed,
        MemoryState::Correlated,
        MemoryState::Supported,
        MemoryState::Established,
    ] {
        assert!(state.is_active_for_reasoning());
    }

    for state in [
        MemoryState::Contradicted,
        MemoryState::Superseded,
        MemoryState::Expired,
        MemoryState::Revoked,
    ] {
        assert!(!state.is_active_for_reasoning());
    }
}

#[test]
fn exponential_decay_reduces_relationship_strength() {
    let relationship = MemoryRelationship {
        id: MemoryRelationshipId("rel-exp".into()),
        kind: MemoryRelationshipKind::AssociatedWith,
        source: MemoryNodeId("node-1".into()),
        target: MemoryNodeId("node-2".into()),
        created_at: 100,
        last_seen_at: 200,
        observation_count: 1,
        expires_at: Some(300),
        state: MemoryState::Observed,
        priority: MemoryPriority::Normal,
        retention: RetentionClass::ShortTerm,
        decay_policy: DecayPolicy::Exponential {
            rate: DecayRate::new(50).unwrap(),
        },
        strength: MemoryStrength::new(100).unwrap(),
        confidence: MemoryConfidence::new(50).unwrap(),
        reinforcement: None,
    };

    assert_eq!(relationship.decayed_strength(0).value(), 100);
    assert_eq!(relationship.decayed_strength(50).value(), 71);
    assert_eq!(relationship.decayed_strength(100).value(), 50);
}

#[test]
fn expired_non_persistent_node_becomes_purge_eligible_after_grace_period() {
    let node = MemoryNode {
        id: MemoryNodeId("node-purge".into()),
        kind: MemoryNodeKind::File,
        label: "old file".into(),
        created_at: 10,
        last_seen_at: 20,
        expires_at: Some(100),
        state: MemoryState::Expired,
        priority: MemoryPriority::Low,
        retention: RetentionClass::ShortTerm,
        decay_policy: DecayPolicy::NoDecay,
    };

    assert!(!node.is_purge_eligible(149, 50));
    assert!(node.is_purge_eligible(150, 50));
}

#[test]
fn persistent_node_is_never_purge_eligible() {
    let node = MemoryNode {
        id: MemoryNodeId("node-persistent".into()),
        kind: MemoryNodeKind::Host,
        label: "host".into(),
        created_at: 10,
        last_seen_at: 20,
        expires_at: Some(100),
        state: MemoryState::Expired,
        priority: MemoryPriority::High,
        retention: RetentionClass::Persistent,
        decay_policy: DecayPolicy::NoDecay,
    };

    assert!(!node.is_purge_eligible(u64::MAX, 0));
}

#[test]
fn relationship_elapsed_percent_tracks_lifetime() {
    let mut relationship = MemoryRelationship {
        id: MemoryRelationshipId("rel-time".into()),
        kind: MemoryRelationshipKind::AssociatedWith,
        source: MemoryNodeId("node-1".into()),
        target: MemoryNodeId("node-2".into()),
        created_at: 100,
        last_seen_at: 100,
        observation_count: 1,
        expires_at: Some(200),
        state: MemoryState::Observed,
        priority: MemoryPriority::Normal,
        retention: RetentionClass::ShortTerm,
        decay_policy: DecayPolicy::NoDecay,
        strength: MemoryStrength::new(100).unwrap(),
        confidence: MemoryConfidence::new(50).unwrap(),
        reinforcement: None,
    };

    assert_eq!(relationship.elapsed_percent(50), 0);
    assert_eq!(relationship.elapsed_percent(150), 50);
    assert_eq!(relationship.elapsed_percent(200), 100);

    relationship.expires_at = None;
    assert_eq!(relationship.elapsed_percent(u64::MAX), 0);
}

#[test]
fn effective_strength_uses_elapsed_lifetime_and_resumes_after_reinforcement_is_removed() {
    let mut relationship = MemoryRelationship {
        id: MemoryRelationshipId("rel-effective".into()),
        kind: MemoryRelationshipKind::AssociatedWith,
        source: MemoryNodeId("node-1".into()),
        target: MemoryNodeId("node-2".into()),
        created_at: 100,
        last_seen_at: 100,
        observation_count: 1,
        expires_at: Some(200),
        state: MemoryState::Observed,
        priority: MemoryPriority::Normal,
        retention: RetentionClass::ShortTerm,
        decay_policy: DecayPolicy::Linear {
            rate: DecayRate::new(50).unwrap(),
        },
        strength: MemoryStrength::new(100).unwrap(),
        confidence: MemoryConfidence::new(50).unwrap(),
        reinforcement: Some(ReinforcementProvenance {
            reason: ReinforcementReason::ConfirmedHighRisk,
            incident_id: None,
            evidence_ids: Vec::new(),
        }),
    };

    assert_eq!(relationship.effective_strength(200).value(), 100);
    relationship.reinforcement = None;
    assert_eq!(relationship.effective_strength(200).value(), 50);
}
