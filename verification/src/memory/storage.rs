//! The Memory Graph store: nodes and relationships kept in order of their
//! identifiers, with the lifecycle, consolidation and reasoning queries.
use vstd::prelude::*;
use crate::memory::keyed::{
    entry_with_key, has_key, is_slot_for, key_at, lemma_entry_at, lemma_filter_take_step,
    lemma_insert_new_key, lemma_update_same_key, sorted_by_key,
};
use crate::memory::model::{
    decayed_value, effective_strength_of, elapsed_percent_spec, MemoryConfidence, MemoryNode, MemoryNodeId, MemoryNodeKind,
    MemoryPriority, MemoryRelationship, MemoryRelationshipId, MemoryRelationshipKind, MemoryState,
    MemoryStrength, ReinforcementProvenance, RelationshipView, purge_eligible_at,
};
use crate::text::{id_lt, lemma_id_lt_total, str_eq, str_lt};

verus! {

/// Whether `after` is `before` with `node` saved: the node of its identifier
/// replaced, keeping a stored creation time, and nothing else changed.
pub open spec fn node_stored(before: MemoryStore, after: MemoryStore, node: MemoryNode) -> bool {
    &&& after.well_formed()
    &&& after.rel_seq() == before.rel_seq()
    &&& forall|id: Seq<char>|
        #![trigger after.node(id)]
        after.node(id) == if id == node.id.0@ {
            Some(saved_node(before.node(id), node))
        } else {
            before.node(id)
        }
}

/// Whether `after` is `before` once `observation` was observed, returning
/// the identifier `id`: consolidated into the relationship it repeats, or
/// saved under its own identifier.
pub open spec fn observation_stored(
    before: MemoryStore,
    after: MemoryStore,
    observation: RelationshipView,
    id: Seq<char>,
) -> bool {
    &&& after.well_formed()
    &&& after.node_seq() == before.node_seq()
    &&& match consolidation_target(before.rel_seq(), observation) {
        Some(m) => {
            &&& id == m.id
            &&& forall|k: Seq<char>|
                #![trigger after.relationship(k)]
                after.relationship(k) == if k == m.id {
                    Some(consolidated(m, observation))
                } else {
                    before.relationship(k)
                }
        },
        None => {
            &&& id == observation.id
            &&& forall|k: Seq<char>|
                #![trigger after.relationship(k)]
                after.relationship(k) == if k == observation.id {
                    Some(saved_relationship(before.relationship(k), observation))
                } else {
                    before.relationship(k)
                }
        },
    }
}

/// Identifier of a node, the key its entries are ordered by.
pub open spec fn node_key() -> spec_fn(MemoryNode) -> Seq<char> {
    |n: MemoryNode| n.id.0@
}

/// Identifier of a relationship, the key its entries are ordered by.
pub open spec fn rel_key() -> spec_fn(RelationshipView) -> Seq<char> {
    |r: RelationshipView| r.id
}

/// The values of a sequence of relationships.
pub open spec fn rel_views(s: Seq<MemoryRelationship>) -> Seq<RelationshipView> {
    s.map_values(|r: MemoryRelationship| r@)
}

/// A node saved over the stored node of the same identifier keeps the stored
/// creation time.
pub open spec fn saved_node(existing: Option<MemoryNode>, node: MemoryNode) -> MemoryNode {
    match existing {
        Some(e) => MemoryNode { created_at: e.created_at, ..node },
        None => node,
    }
}

/// A relationship saved over the stored relationship of the same identifier
/// keeps the stored creation time.
pub open spec fn saved_relationship(
    existing: Option<RelationshipView>,
    relationship: RelationshipView,
) -> RelationshipView {
    match existing {
        Some(e) => RelationshipView { created_at: e.created_at, ..relationship },
        None => relationship,
    }
}

/// A record whose expiry has passed at `now` while it is still active.
pub open spec fn due_for_expiry(expires_at: Option<u64>, state: MemoryState, now: u64) -> bool {
    &&& expires_at matches Some(x) && x <= now
    &&& state.active_spec()
}

/// A node after the lifecycle pass at `now`.
pub open spec fn node_after_expiry(n: MemoryNode, now: u64) -> MemoryNode {
    if due_for_expiry(n.expires_at, n.state, now) {
        MemoryNode { state: MemoryState::Expired, ..n }
    } else {
        n
    }
}

/// A relationship after the lifecycle pass at `now`.
pub open spec fn relationship_after_expiry(r: RelationshipView, now: u64) -> RelationshipView {
    if due_for_expiry(r.expires_at, r.state, now) {
        RelationshipView { state: MemoryState::Expired, ..r }
    } else {
        r
    }
}

/// How many records a lifecycle pass expired.
#[derive(Debug, Clone, Copy, PartialEq, Eq, Structural)]
pub struct LifecycleUpdate {
    pub relationships_expired: usize,
    pub nodes_expired: usize,
}

/// The stored and the effective strength of an active relationship.
#[derive(Debug, Clone, PartialEq, Eq)]
pub struct RelationshipDecayEvaluation {
    pub relationship_id: MemoryRelationshipId,
    pub stored_strength: MemoryStrength,
    pub effective_strength: MemoryStrength,
}

/// The Memory Graph.
pub struct MemoryStore {
    nodes: Vec<MemoryNode>,
    relationships: Vec<MemoryRelationship>,
}

impl MemoryStore {
    /// The nodes, in increasing order of identifier.
    pub closed spec fn node_seq(&self) -> Seq<MemoryNode> {
        self.nodes@
    }

    /// The relationships, in increasing order of identifier.
    pub closed spec fn rel_seq(&self) -> Seq<RelationshipView> {
        rel_views(self.relationships@)
    }

    /// Identifiers are unique and kept in increasing order.
    pub open spec fn well_formed(&self) -> bool {
        &&& sorted_by_key(self.node_seq(), node_key())
        &&& sorted_by_key(self.rel_seq(), rel_key())
    }

    /// The node stored under `id`.
    pub open spec fn node(&self, id: Seq<char>) -> Option<MemoryNode> {
        entry_with_key(self.node_seq(), node_key(), id)
    }

    /// The relationship stored under `id`.
    pub open spec fn relationship(&self, id: Seq<char>) -> Option<RelationshipView> {
        entry_with_key(self.rel_seq(), rel_key(), id)
    }

    /// An empty graph.
    pub fn new() -> (r: MemoryStore)
        ensures
            r.well_formed(),
            r.node_seq() == Seq::<MemoryNode>::empty(),
            r.rel_seq() == Seq::<RelationshipView>::empty(),
    {
        let r = MemoryStore { nodes: Vec::new(), relationships: Vec::new() };
        assert(r.rel_seq() =~= Seq::<RelationshipView>::empty());
        r
    }

    /// The number of nodes.
    pub fn node_count(&self) -> (r: u64)
        ensures
            r == self.node_seq().len(),
    {
        self.nodes.len() as u64
    }

    /// Where `id` sits, or would be inserted, among the nodes; and whether a
    /// node with that identifier is stored there.
    fn node_slot(&self, id: &str) -> (r: (usize, bool))
        requires
            self.well_formed(),
        ensures
            is_slot_for(self.node_seq(), node_key(), id@, r.0 as int),
            r.1 <==> has_key(self.node_seq(), node_key(), id@),
            r.1 ==> r.0 < self.node_seq().len() && self.node_seq()[r.0 as int].id.0@ == id@,
    {
        let mut i: usize = 0;
        while i < self.nodes.len()
            invariant
                self.well_formed(),
                i <= self.nodes@.len(),
                forall|j: int| 0 <= j < i ==> id_lt(#[trigger] self.nodes@[j].id.0@, id@),
            decreases self.nodes@.len() - i,
        {
            if !str_lt(self.nodes[i].id.0.as_str(), id) {
                let found = str_eq(self.nodes[i].id.0.as_str(), id);
                proof {
                    let s = self.node_seq();
                    if found {
                        assert(key_at(s, node_key(), id@, i as int));
                    } else {
                        lemma_id_lt_total(s[i as int].id.0@, id@);
                        assert forall|j: int| !key_at(s, node_key(), id@, j) by {
                            if key_at(s, node_key(), id@, j) {
                                if j < i {
                                    crate::text::lemma_id_lt_irreflexive(id@);
                                } else if j > i {
                                    assert(id_lt(s[i as int].id.0@, s[j].id.0@));
                                    crate::text::lemma_id_lt_asymmetric(s[i as int].id.0@, id@);
                                }
                            }
                        }
                    }
                }
                return (i, found);
            }
            i = i + 1;
        }
        proof {
            let s = self.node_seq();
            assert forall|j: int| !key_at(s, node_key(), id@, j) by {
                if key_at(s, node_key(), id@, j) {
                    crate::text::lemma_id_lt_irreflexive(id@);
                }
            }
        }
        (i, false)
    }

    /// Where `id` sits, or would be inserted, among the relationships; and
    /// whether a relationship with that identifier is stored there.
    fn rel_slot(&self, id: &str) -> (r: (usize, bool))
        requires
            self.well_formed(),
        ensures
            is_slot_for(self.rel_seq(), rel_key(), id@, r.0 as int),
            r.1 <==> has_key(self.rel_seq(), rel_key(), id@),
            r.1 ==> r.0 < self.rel_seq().len() && self.rel_seq()[r.0 as int].id == id@,
    {
        let mut i: usize = 0;
        while i < self.relationships.len()
            invariant
                self.well_formed(),
                i <= self.relationships@.len(),
                forall|j: int| 0 <= j < i ==> id_lt(#[trigger] self.relationships@[j].id.0@, id@),
            decreases self.relationships@.len() - i,
        {
            if !str_lt(self.relationships[i].id.0.as_str(), id) {
                let found = str_eq(self.relationships[i].id.0.as_str(), id);
                proof {
                    let s = self.rel_seq();
                    assert(s[i as int] == self.relationships@[i as int]@);
                    if found {
                        assert(key_at(s, rel_key(), id@, i as int));
                    } else {
                        lemma_id_lt_total(s[i as int].id, id@);
                        assert forall|j: int| !key_at(s, rel_key(), id@, j) by {
                            if key_at(s, rel_key(), id@, j) {
                                if j < i {
                                    assert(s[j] == self.relationships@[j]@);
                                    crate::text::lemma_id_lt_irreflexive(id@);
                                } else if j > i {
                                    assert(id_lt(s[i as int].id, s[j].id));
                                    crate::text::lemma_id_lt_asymmetric(s[i as int].id, id@);
                                }
                            }
                        }
                    }
                    assert forall|j: int| 0 <= j < i implies id_lt(#[trigger] s[j].id, id@) by {
                        assert(s[j] == self.relationships@[j]@);
                    }
                }
                return (i, found);
            }
            i = i + 1;
        }
        proof {
            let s = self.rel_seq();
            assert forall|j: int| !key_at(s, rel_key(), id@, j) by {
                if key_at(s, rel_key(), id@, j) {
                    assert(s[j] == self.relationships@[j]@);
                    crate::text::lemma_id_lt_irreflexive(id@);
                }
            }
            assert forall|j: int| 0 <= j < i implies id_lt(#[trigger] s[j].id, id@) by {
                assert(s[j] == self.relationships@[j]@);
            }
        }
        (i, false)
    }

    /// Stores a node, or updates the stored node of the same identifier while
    /// keeping its creation time.
    pub fn save_node(&mut self, node: MemoryNode)
        requires
            old(self).well_formed(),
        ensures
            node_stored(*old(self), *final(self), node),
    {
        let (pos, found) = self.node_slot(node.id.0.as_str());
        let ghost s = self.node_seq();
        if found {
            let created_at = self.nodes[pos].created_at;
            let merged = MemoryNode { created_at, ..node };
            proof {
                lemma_entry_at(s, node_key(), pos as int);
                lemma_update_same_key(s, node_key(), pos as int, merged);
            }
            self.nodes.set(pos, merged);
        } else {
            proof {
                lemma_insert_new_key(s, node_key(), pos as int, node);
            }
            self.nodes.insert(pos, node);
        }
    }

    /// The node stored under `id`.
    pub fn load_node(&self, id: &MemoryNodeId) -> (r: Option<MemoryNode>)
        requires
            self.well_formed(),
        ensures
            r == self.node(id.0@),
    {
        let (pos, found) = self.node_slot(id.0.as_str());
        if found {
            proof {
                lemma_entry_at(self.node_seq(), node_key(), pos as int);
            }
            Some(self.nodes[pos].clone())
        } else {
            None
        }
    }

    /// Stores a relationship, or updates the stored relationship of the same
    /// identifier while keeping its creation time.
    pub fn save_relationship(&mut self, relationship: MemoryRelationship)
        requires
            old(self).well_formed(),
        ensures
            final(self).well_formed(),
            final(self).node_seq() == old(self).node_seq(),
            forall|id: Seq<char>|
                #![trigger final(self).relationship(id)]
                final(self).relationship(id) == if id == relationship.id.0@ {
                    Some(saved_relationship(old(self).relationship(id), relationship@))
                } else {
                    old(self).relationship(id)
                },
    {
        let (pos, found) = self.rel_slot(relationship.id.0.as_str());
        let ghost s = self.rel_seq();
        if found {
            let created_at = self.relationships[pos].created_at;
            let merged = MemoryRelationship { created_at, ..relationship };
            proof {
                lemma_entry_at(s, rel_key(), pos as int);
                lemma_update_same_key(s, rel_key(), pos as int, merged@);
            }
            self.relationships.set(pos, merged);
            assert(self.rel_seq() =~= s.update(pos as int, merged@));
        } else {
            proof {
                lemma_insert_new_key(s, rel_key(), pos as int, relationship@);
            }
            let ghost v = relationship@;
            self.relationships.insert(pos, relationship);
            assert(self.rel_seq() =~= s.insert(pos as int, v));
        }
    }

    /// The relationship stored under `id`.
    pub fn load_relationship(&self, id: &MemoryRelationshipId) -> (r: Option<MemoryRelationship>)
        requires
            self.well_formed(),
        ensures
            r is Some <==> self.relationship(id.0@) is Some,
            r matches Some(x) ==> Some(x@) == self.relationship(id.0@),
    {
        let (pos, found) = self.rel_slot(id.0.as_str());
        if found {
            proof {
                lemma_entry_at(self.rel_seq(), rel_key(), pos as int);
            }
            Some(self.relationships[pos].clone())
        } else {
            None
        }
    }
}


/// Nodes of `kind`, or all nodes.
pub open spec fn kind_filter(kind: Option<MemoryNodeKind>) -> spec_fn(MemoryNode) -> bool {
    |n: MemoryNode| kind is None || n.kind == kind->0
}

/// Relationships leaving `id`.
pub open spec fn leaving(id: Seq<char>) -> spec_fn(RelationshipView) -> bool {
    |r: RelationshipView| r.source == id
}

/// Relationships entering `id`.
pub open spec fn entering(id: Seq<char>) -> spec_fn(RelationshipView) -> bool {
    |r: RelationshipView| r.target == id
}

/// Relationships with `id` at either end.
pub open spec fn touching(id: Seq<char>) -> spec_fn(RelationshipView) -> bool {
    |r: RelationshipView| r.source == id || r.target == id
}

/// Active relationships with `id` at either end.
pub open spec fn active_touching(id: Seq<char>) -> spec_fn(RelationshipView) -> bool {
    |r: RelationshipView| (r.source == id || r.target == id) && r.state.active_spec()
}

/// Active relationships.
pub open spec fn active_relationship() -> spec_fn(RelationshipView) -> bool {
    |r: RelationshipView| r.state.active_spec()
}

/// Active nodes whose expiry has passed at `now`.
pub open spec fn node_due(now: u64) -> spec_fn(MemoryNode) -> bool {
    |n: MemoryNode| due_for_expiry(n.expires_at, n.state, now)
}

/// Active relationships whose expiry has passed at `now`.
pub open spec fn relationship_due(now: u64) -> spec_fn(RelationshipView) -> bool {
    |r: RelationshipView| due_for_expiry(r.expires_at, r.state, now)
}

/// Nodes that may be purged at `now` after `grace_period`.
pub open spec fn node_purgeable(now: u64, grace_period: u64) -> spec_fn(MemoryNode) -> bool {
    |n: MemoryNode| purge_eligible_at(n.retention, n.state, n.expires_at, now, grace_period)
}

/// Relationships that may be purged at `now` after `grace_period`.
pub open spec fn relationship_purgeable(now: u64, grace_period: u64) -> spec_fn(
    RelationshipView,
) -> bool {
    |r: RelationshipView| purge_eligible_at(r.retention, r.state, r.expires_at, now, grace_period)
}

/// A relationship into which an observation of the same kind between the
/// same endpoints is consolidated: any that has not been revoked.
pub open spec fn consolidates_with(r: RelationshipView, observation: RelationshipView) -> bool {
    &&& r.kind == observation.kind
    &&& r.source == observation.source
    &&& r.target == observation.target
    &&& r.state != MemoryState::Revoked
}

/// `a` was created before `b`, identifiers breaking ties.
pub open spec fn created_before(a: RelationshipView, b: RelationshipView) -> bool {
    ||| a.created_at < b.created_at
    ||| a.created_at == b.created_at && id_lt(a.id, b.id)
}

/// The entry at `i` is the earliest-created relationship that consolidates
/// the observation.
pub open spec fn is_consolidation_target(
    s: Seq<RelationshipView>,
    observation: RelationshipView,
    i: int,
) -> bool {
    &&& 0 <= i < s.len()
    &&& consolidates_with(s[i], observation)
    &&& forall|j: int|
        0 <= j < s.len() && #[trigger] consolidates_with(s[j], observation) ==> !created_before(
            s[j],
            s[i],
        )
}

/// The relationship an observation is consolidated into, if any.
pub open spec fn consolidation_target(
    s: Seq<RelationshipView>,
    observation: RelationshipView,
) -> Option<RelationshipView> {
    if exists|i: int| is_consolidation_target(s, observation, i) {
        Some(s[choose|i: int| is_consolidation_target(s, observation, i)])
    } else {
        None
    }
}

/// The later of two instants.
pub open spec fn later(a: u64, b: u64) -> u64 {
    if a >= b {
        a
    } else {
        b
    }
}

/// A relationship after consolidating one more observation into it: one more
/// sighting, the later last sighting and expiry, the higher priority, strength
/// and confidence, and an expired relationship observed again.
pub open spec fn consolidated(m: RelationshipView, observation: RelationshipView) -> RelationshipView {
    RelationshipView {
        observation_count: if m.observation_count == u64::MAX {
            u64::MAX
        } else {
            (m.observation_count + 1) as u64
        },
        last_seen_at: later(m.last_seen_at, observation.last_seen_at),
        expires_at: match (m.expires_at, observation.expires_at) {
            (Some(a), Some(b)) => Some(later(a, b)),
            (None, other) => other,
            (other, None) => other,
        },
        priority: m.priority.max_spec(observation.priority),
        strength: if m.strength.view() >= observation.strength.view() {
            m.strength
        } else {
            observation.strength
        },
        confidence: if m.confidence.view() >= observation.confidence.view() {
            m.confidence
        } else {
            observation.confidence
        },
        state: if m.state == MemoryState::Expired {
            MemoryState::Observed
        } else {
            m.state
        },
        ..m
    }
}

/// In a store with unique identifiers at most one relationship is the
/// consolidation target of an observation.
proof fn lemma_consolidation_target_unique(
    s: Seq<RelationshipView>,
    observation: RelationshipView,
    i: int,
    k: int,
)
    requires
        sorted_by_key(s, rel_key()),
        is_consolidation_target(s, observation, i),
        is_consolidation_target(s, observation, k),
    ensures
        i == k,
{
    assert(!created_before(s[k], s[i]));
    assert(!created_before(s[i], s[k]));
    lemma_id_lt_total(s[i].id, s[k].id);
    if i < k {
        assert(id_lt(s[i].id, s[k].id));
    } else if k < i {
        assert(id_lt(s[k].id, s[i].id));
    }
}

proof fn lemma_rel_views_push(s: Seq<MemoryRelationship>, x: MemoryRelationship)
    ensures
        rel_views(s.push(x)) == rel_views(s).push(x@),
{
    assert(rel_views(s.push(x)) =~= rel_views(s).push(x@));
}

proof fn lemma_rel_views_update(s: Seq<MemoryRelationship>, i: int, x: MemoryRelationship)
    requires
        0 <= i < s.len(),
    ensures
        rel_views(s.update(i, x)) == rel_views(s).update(i, x@),
{
    assert(rel_views(s.update(i, x)) =~= rel_views(s).update(i, x@));
}

impl MemoryStore {
    /// The nodes of `kind`, or all nodes, in order of identifier.
    pub fn nodes(&self, kind: Option<MemoryNodeKind>) -> (r: Vec<MemoryNode>)
        ensures
            r@ == self.node_seq().filter(kind_filter(kind)),
    {
        let ghost s = self.node_seq();
        let mut r: Vec<MemoryNode> = Vec::new();
        let mut i: usize = 0;
        while i < self.nodes.len()
            invariant
                s == self.node_seq(),
                i <= s.len(),
                r@ == s.take(i as int).filter(kind_filter(kind)),
            decreases s.len() - i,
        {
            proof {
                lemma_filter_take_step(s, kind_filter(kind), i as int);
            }
            let keep = match kind {
                None => true,
                Some(k) => self.nodes[i].kind == k,
            };
            if keep {
                r.push(self.nodes[i].clone());
            }
            i = i + 1;
        }
        assert(s.take(s.len() as int) =~= s);
        r
    }

    /// Every relationship, in order of identifier.
    pub fn all_relationships(&self) -> (r: Vec<MemoryRelationship>)
        ensures
            rel_views(r@) == self.rel_seq(),
    {
        let ghost s = self.rel_seq();
        let mut r: Vec<MemoryRelationship> = Vec::new();
        let mut i: usize = 0;
        while i < self.relationships.len()
            invariant
                s == self.rel_seq(),
                i <= s.len(),
                rel_views(r@) == s.take(i as int),
            decreases s.len() - i,
        {
            let ghost before = r@;
            r.push(self.relationships[i].clone());
            proof {
                assert(rel_views(r@) =~= rel_views(before).push(s[i as int]));
                assert(s.take(i as int).push(s[i as int]) =~= s.take(i + 1));
            }
            i = i + 1;
        }
        assert(s.take(s.len() as int) =~= s);
        r
    }

    /// Relationships chosen by an exec test mirrored by `p`, in order.
    fn collect_relationships(&self, which: u8, id: &str, now: u64, grace_period: u64) -> (r: Vec<
        MemoryRelationship,
    >)
        requires
            which <= 6,
        ensures
            rel_views(r@) == self.rel_seq().filter(
                MemoryStore::selector(which, id@, now, grace_period),
            ),
    {
        let ghost s = self.rel_seq();
        let ghost p = MemoryStore::selector(which, id@, now, grace_period);
        let mut r: Vec<MemoryRelationship> = Vec::new();
        let mut i: usize = 0;
        while i < self.relationships.len()
            invariant
                which <= 6,
                s == self.rel_seq(),
                p == MemoryStore::selector(which, id@, now, grace_period),
                i <= s.len(),
                rel_views(r@) == s.take(i as int).filter(p),
            decreases s.len() - i,
        {
            proof {
                lemma_filter_take_step(s, p, i as int);
            }
            let rel = &self.relationships[i];
            assert(s[i as int] == rel@);
            let keep = if which == 0 {
                str_eq(rel.source.0.as_str(), id)
            } else if which == 1 {
                str_eq(rel.target.0.as_str(), id)
            } else if which == 2 {
                str_eq(rel.source.0.as_str(), id) || str_eq(rel.target.0.as_str(), id)
            } else if which == 3 {
                (str_eq(rel.source.0.as_str(), id) || str_eq(rel.target.0.as_str(), id))
                    && rel.state.is_active_for_reasoning()
            } else if which == 4 {
                rel.state.is_active_for_reasoning()
            } else if which == 5 {
                match rel.expires_at {
                    Some(x) => x <= now && rel.state.is_active_for_reasoning(),
                    None => false,
                }
            } else {
                rel.is_purge_eligible(now, grace_period)
            };
            if keep {
                let c = rel.clone();
                proof {
                    lemma_rel_views_push(r@, c);
                }
                r.push(c);
            }
            i = i + 1;
        }
        assert(s.take(s.len() as int) =~= s);
        r
    }

    /// The relationship selections the queries make.
    pub open spec fn selector(which: u8, id: Seq<char>, now: u64, grace_period: u64) -> spec_fn(
        RelationshipView,
    ) -> bool {
        if which == 0 {
            leaving(id)
        } else if which == 1 {
            entering(id)
        } else if which == 2 {
            touching(id)
        } else if which == 3 {
            active_touching(id)
        } else if which == 4 {
            active_relationship()
        } else if which == 5 {
            relationship_due(now)
        } else {
            relationship_purgeable(now, grace_period)
        }
    }

    /// The relationships leaving a node, in order of identifier.
    pub fn relationships_from(&self, node_id: &MemoryNodeId) -> (r: Vec<MemoryRelationship>)
        ensures
            rel_views(r@) == self.rel_seq().filter(leaving(node_id.0@)),
    {
        self.collect_relationships(0, node_id.0.as_str(), 0, 0)
    }

    /// The relationships entering a node, in order of identifier.
    pub fn relationships_to(&self, node_id: &MemoryNodeId) -> (r: Vec<MemoryRelationship>)
        ensures
            rel_views(r@) == self.rel_seq().filter(entering(node_id.0@)),
    {
        self.collect_relationships(1, node_id.0.as_str(), 0, 0)
    }

    /// The relationships with a node at either end, each once, in order of
    /// identifier.
    pub fn relationships_for(&self, node_id: &MemoryNodeId) -> (r: Vec<MemoryRelationship>)
        ensures
            rel_views(r@) == self.rel_seq().filter(touching(node_id.0@)),
    {
        self.collect_relationships(2, node_id.0.as_str(), 0, 0)
    }

    /// The reasoning-active relationships with a node at either end.
    pub fn active_relationships_for(&self, node_id: &MemoryNodeId) -> (r: Vec<MemoryRelationship>)
        ensures
            rel_views(r@) == self.rel_seq().filter(active_touching(node_id.0@)),
    {
        self.collect_relationships(3, node_id.0.as_str(), 0, 0)
    }

    /// Active relationships whose expiry has passed at `now`.
    pub fn expired_relationships(&self, now: u64) -> (r: Vec<MemoryRelationship>)
        ensures
            rel_views(r@) == self.rel_seq().filter(relationship_due(now)),
    {
        self.collect_relationships(5, "", now, 0)
    }

    /// Relationships that may be purged at `now` after `grace_period`.
    pub fn purge_eligible_relationships(&self, now: u64, grace_period: u64) -> (r: Vec<
        MemoryRelationship,
    >)
        ensures
            rel_views(r@) == self.rel_seq().filter(relationship_purgeable(now, grace_period)),
    {
        self.collect_relationships(6, "", now, grace_period)
    }

    /// Active nodes whose expiry has passed at `now`, in order of identifier.
    pub fn expired_nodes(&self, now: u64) -> (r: Vec<MemoryNode>)
        ensures
            r@ == self.node_seq().filter(node_due(now)),
    {
        let ghost s = self.node_seq();
        let mut r: Vec<MemoryNode> = Vec::new();
        let mut i: usize = 0;
        while i < self.nodes.len()
            invariant
                s == self.node_seq(),
                i <= s.len(),
                r@ == s.take(i as int).filter(node_due(now)),
            decreases s.len() - i,
        {
            proof {
                lemma_filter_take_step(s, node_due(now), i as int);
            }
            let keep = match self.nodes[i].expires_at {
                Some(x) => x <= now && self.nodes[i].state.is_active_for_reasoning(),
                None => false,
            };
            if keep {
                r.push(self.nodes[i].clone());
            }
            i = i + 1;
        }
        assert(s.take(s.len() as int) =~= s);
        r
    }

    /// Nodes that may be purged at `now` after `grace_period`: expired,
    /// not persistent, and expired at least `grace_period` ago.
    pub fn purge_eligible_nodes(&self, now: u64, grace_period: u64) -> (r: Vec<MemoryNode>)
        ensures
            r@ == self.node_seq().filter(node_purgeable(now, grace_period)),
    {
        let ghost s = self.node_seq();
        let mut r: Vec<MemoryNode> = Vec::new();
        let mut i: usize = 0;
        while i < self.nodes.len()
            invariant
                s == self.node_seq(),
                i <= s.len(),
                r@ == s.take(i as int).filter(node_purgeable(now, grace_period)),
            decreases s.len() - i,
        {
            proof {
                lemma_filter_take_step(s, node_purgeable(now, grace_period), i as int);
            }
            if self.nodes[i].is_purge_eligible(now, grace_period) {
                r.push(self.nodes[i].clone());
            }
            i = i + 1;
        }
        assert(s.take(s.len() as int) =~= s);
        r
    }

    /// The stored and effective strength of every active relationship at
    /// `now`, without changing what is stored.
    pub fn evaluate_decay(&self, now: u64) -> (r: Vec<RelationshipDecayEvaluation>)
        ensures
            r@.len() == self.rel_seq().filter(active_relationship()).len(),
            forall|i: int|
                0 <= i < r@.len() ==> {
                    let f = self.rel_seq().filter(active_relationship());
                    &&& (#[trigger] r@[i]).relationship_id.0@ == f[i].id
                    &&& r@[i].stored_strength == f[i].strength
                    &&& r@[i].effective_strength.view() == effective_strength_of(f[i], now)
                },
    {
        let active = self.collect_relationships(4, "", 0, 0);
        let ghost f = self.rel_seq().filter(active_relationship());
        let mut r: Vec<RelationshipDecayEvaluation> = Vec::new();
        let mut i: usize = 0;
        while i < active.len()
            invariant
                rel_views(active@) == f,
                i <= active@.len(),
                r@.len() == i,
                forall|j: int|
                    0 <= j < i ==> {
                        &&& (#[trigger] r@[j]).relationship_id.0@ == f[j].id
                        &&& r@[j].stored_strength == f[j].strength
                        &&& r@[j].effective_strength.view() == effective_strength_of(f[j], now)
                    },
            decreases active@.len() - i,
        {
            let rel = &active[i];
            assert(f[i as int] == rel@);
            r.push(
                RelationshipDecayEvaluation {
                    relationship_id: rel.id.clone(),
                    stored_strength: rel.strength,
                    effective_strength: rel.effective_strength(now),
                },
            );
            i = i + 1;
        }
        r
    }

    /// Marks every active node and relationship whose expiry has passed as
    /// expired; revoked, contradicted and superseded records keep their state.
    pub fn mark_expired(&mut self, now: u64) -> (r: LifecycleUpdate)
        requires
            old(self).well_formed(),
        ensures
            final(self).well_formed(),
            final(self).node_seq() == old(self).node_seq().map_values(
                |n: MemoryNode| node_after_expiry(n, now),
            ),
            final(self).rel_seq() == old(self).rel_seq().map_values(
                |x: RelationshipView| relationship_after_expiry(x, now),
            ),
            r.nodes_expired == old(self).node_seq().filter(node_due(now)).len(),
            r.relationships_expired == old(self).rel_seq().filter(relationship_due(now)).len(),
    {
        let ghost rs = self.rel_seq();
        let ghost ns = self.node_seq();
        let mut relationships_expired: usize = 0;
        let mut i: usize = 0;
        while i < self.relationships.len()
            invariant
                self.nodes@ == ns,
                rs.len() == self.relationships@.len(),
                i <= rs.len(),
                forall|j: int|
                    0 <= j < i ==> #[trigger] self.relationships@[j]@ == relationship_after_expiry(
                        rs[j],
                        now,
                    ),
                forall|j: int| i <= j < rs.len() ==> #[trigger] self.relationships@[j]@ == rs[j],
                relationships_expired == rs.take(i as int).filter(relationship_due(now)).len(),
                relationships_expired <= i,
            decreases rs.len() - i,
        {
            proof {
                lemma_filter_take_step(rs, relationship_due(now), i as int);
            }
            assert(rs[i as int] == self.relationships@[i as int]@);
            let due = match self.relationships[i].expires_at {
                Some(x) => x <= now && self.relationships[i].state.is_active_for_reasoning(),
                None => false,
            };
            assert(due == relationship_due(now)(rs[i as int]));
            if due {
                let mut rel = self.relationships[i].clone();
                rel.state = MemoryState::Expired;
                self.relationships.set(i, rel);
                relationships_expired = relationships_expired + 1;
            }
            i = i + 1;
        }
        assert(rs.take(rs.len() as int) =~= rs);
        let mut nodes_expired: usize = 0;
        let mut k: usize = 0;
        while k < self.nodes.len()
            invariant
                ns.len() == self.nodes@.len(),
                rs.len() == self.relationships@.len(),
                forall|j: int|
                    0 <= j < rs.len() ==> #[trigger] self.relationships@[j]@
                        == relationship_after_expiry(rs[j], now),
                relationships_expired == rs.filter(relationship_due(now)).len(),
                k <= ns.len(),
                forall|j: int|
                    0 <= j < k ==> #[trigger] self.nodes@[j] == node_after_expiry(ns[j], now),
                forall|j: int| k <= j < ns.len() ==> #[trigger] self.nodes@[j] == ns[j],
                nodes_expired == ns.take(k as int).filter(node_due(now)).len(),
                nodes_expired <= k,
            decreases ns.len() - k,
        {
            proof {
                lemma_filter_take_step(ns, node_due(now), k as int);
            }
            let due = match self.nodes[k].expires_at {
                Some(x) => x <= now && self.nodes[k].state.is_active_for_reasoning(),
                None => false,
            };
            if due {
                let mut node = self.nodes[k].clone();
                node.state = MemoryState::Expired;
                self.nodes.set(k, node);
                nodes_expired = nodes_expired + 1;
            }
            k = k + 1;
        }
        assert(ns.take(ns.len() as int) =~= ns);
        assert(self.node_seq() =~= ns.map_values(|n: MemoryNode| node_after_expiry(n, now)));
        assert forall|j: int| 0 <= j < rs.len() implies #[trigger] self.rel_seq()[j]
            == relationship_after_expiry(rs[j], now) by {
            assert(self.rel_seq()[j] == self.relationships@[j]@);
        }
        assert(self.rel_seq() =~= rs.map_values(
            |x: RelationshipView| relationship_after_expiry(x, now),
        ));
        assert(sorted_by_key(self.node_seq(), node_key())) by {
            let t = self.node_seq();
            assert forall|a: int, b: int| 0 <= a < b < t.len() implies id_lt(
                node_key()(t[a]),
                node_key()(t[b]),
            ) by {
                assert(id_lt(node_key()(ns[a]), node_key()(ns[b])));
            }
        }
        assert(sorted_by_key(self.rel_seq(), rel_key())) by {
            let t = self.rel_seq();
            assert forall|a: int, b: int| 0 <= a < b < t.len() implies id_lt(
                rel_key()(t[a]),
                rel_key()(t[b]),
            ) by {
                assert(id_lt(rel_key()(rs[a]), rel_key()(rs[b])));
            }
        }
        LifecycleUpdate { relationships_expired, nodes_expired }
    }
}


/// A relationship with its reinforcement replaced.
pub open spec fn with_reinforcement(
    r: RelationshipView,
    reinforcement: Option<crate::memory::model::ProvenanceView>,
) -> RelationshipView {
    RelationshipView { reinforcement, ..r }
}

impl MemoryStore {
    /// Replaces the reinforcement of the relationship stored under `id`.
    fn set_reinforcement(
        &mut self,
        id: &MemoryRelationshipId,
        reinforcement: Option<ReinforcementProvenance>,
    ) -> (r: bool)
        requires
            old(self).well_formed(),
        ensures
            final(self).well_formed(),
            final(self).node_seq() == old(self).node_seq(),
            r == old(self).relationship(id.0@) is Some,
            forall|k: Seq<char>|
                #![trigger final(self).relationship(k)]
                final(self).relationship(k) == if r && k == id.0@ {
                    Some(
                        with_reinforcement(
                            old(self).relationship(k)->0,
                            match reinforcement {
                                Some(p) => Some(p@),
                                None => None,
                            },
                        ),
                    )
                } else {
                    old(self).relationship(k)
                },
    {
        let (pos, found) = self.rel_slot(id.0.as_str());
        if !found {
            return false;
        }
        let ghost s = self.rel_seq();
        let mut rel = self.relationships[pos].clone();
        rel.reinforcement = reinforcement;
        proof {
            assert(s[pos as int] == self.relationships@[pos as int]@);
            lemma_entry_at(s, rel_key(), pos as int);
            lemma_update_same_key(s, rel_key(), pos as int, rel@);
            lemma_rel_views_update(self.relationships@, pos as int, rel);
        }
        self.relationships.set(pos, rel);
        true
    }

    /// Attaches reinforcement provenance to a stored relationship; `false` when
    /// no relationship has that identifier.
    pub fn reinforce_relationship(
        &mut self,
        id: &MemoryRelationshipId,
        reinforcement: ReinforcementProvenance,
    ) -> (r: bool)
        requires
            old(self).well_formed(),
        ensures
            final(self).well_formed(),
            final(self).node_seq() == old(self).node_seq(),
            r == old(self).relationship(id.0@) is Some,
            forall|k: Seq<char>|
                #![trigger final(self).relationship(k)]
                final(self).relationship(k) == if r && k == id.0@ {
                    Some(with_reinforcement(old(self).relationship(k)->0, Some(reinforcement@)))
                } else {
                    old(self).relationship(k)
                },
    {
        self.set_reinforcement(id, Some(reinforcement))
    }

    /// Removes the reinforcement of a stored relationship, so that it decays
    /// again; `false` when no relationship has that identifier.
    pub fn revoke_relationship_reinforcement(&mut self, id: &MemoryRelationshipId) -> (r: bool)
        requires
            old(self).well_formed(),
        ensures
            final(self).well_formed(),
            final(self).node_seq() == old(self).node_seq(),
            r == old(self).relationship(id.0@) is Some,
            forall|k: Seq<char>|
                #![trigger final(self).relationship(k)]
                final(self).relationship(k) == if r && k == id.0@ {
                    Some(with_reinforcement(old(self).relationship(k)->0, None))
                } else {
                    old(self).relationship(k)
                },
    {
        self.set_reinforcement(id, None)
    }

    /// Consolidates an observed relationship: when a relationship of the same
    /// kind between the same endpoints exists and is not revoked, the earliest
    /// created one absorbs the observation and its identifier is returned;
    /// otherwise the observation is stored as a new relationship.
    pub fn observe_relationship(&mut self, observation: &MemoryRelationship) -> (r:
        MemoryRelationshipId)
        requires
            old(self).well_formed(),
        ensures
            observation_stored(*old(self), *final(self), observation@, r.0@),
    {
        let ghost s = self.rel_seq();
        let ghost obs = observation@;
        let mut best: Option<usize> = None;
        let mut i: usize = 0;
        while i < self.relationships.len()
            invariant
                s == self.rel_seq(),
                obs == observation@,
                i <= s.len(),
                best matches Some(b) ==> {
                    &&& b < i
                    &&& consolidates_with(s[b as int], obs)
                    &&& forall|j: int|
                        0 <= j < i && #[trigger] consolidates_with(s[j], obs) ==> !created_before(
                            s[j],
                            s[b as int],
                        )
                },
                best is None ==> forall|j: int| 0 <= j < i ==> !#[trigger] consolidates_with(s[j], obs),
            decreases s.len() - i,
        {
            let rel = &self.relationships[i];
            assert(s[i as int] == rel@);
            let matches = rel.kind == observation.kind && str_eq(
                rel.source.0.as_str(),
                observation.source.0.as_str(),
            ) && str_eq(rel.target.0.as_str(), observation.target.0.as_str()) && rel.state
                != MemoryState::Revoked;
            if matches {
                match best {
                    None => {
                        proof {
                            crate::text::lemma_id_lt_irreflexive(s[i as int].id);
                        }
                        best = Some(i);
                    },
                    Some(b) => {
                        let current = &self.relationships[b];
                        assert(s[b as int] == current@);
                        let earlier = rel.created_at < current.created_at || (rel.created_at
                            == current.created_at && str_lt(
                            rel.id.0.as_str(),
                            current.id.0.as_str(),
                        ));
                        if earlier {
                            proof {
                                assert forall|j: int|
                                    0 <= j < i + 1 && #[trigger] consolidates_with(
                                        s[j],
                                        obs,
                                    ) implies !created_before(s[j], s[i as int]) by {
                                    if j == i {
                                        crate::text::lemma_id_lt_irreflexive(s[j].id);
                                    } else {
                                        assert(!created_before(s[j], s[b as int]));
                                        if created_before(s[j], s[i as int]) {
                                            if s[j].created_at == s[i as int].created_at
                                                && s[i as int].created_at == s[b as int].created_at {
                                                crate::text::lemma_id_lt_transitive(
                                                    s[j].id,
                                                    s[i as int].id,
                                                    s[b as int].id,
                                                );
                                            }
                                        }
                                    }
                                }
                            }
                            best = Some(i);
                        } else {
                            proof {
                                if created_before(s[i as int], s[b as int]) {
                                    assert(false);
                                }
                            }
                        }
                    },
                }
            }
            i = i + 1;
        }
        match best {
            Some(b) => {
                proof {
                    assert(is_consolidation_target(s, obs, b as int));
                    let c = choose|c: int| is_consolidation_target(s, obs, c);
                    lemma_consolidation_target_unique(s, obs, b as int, c);
                    assert(consolidation_target(s, obs) == Some(s[b as int]));
                }
                let mut existing = self.relationships[b].clone();
                let ghost m = existing@;
                existing.record_observation(observation.last_seen_at);
                existing.expires_at = match (existing.expires_at, observation.expires_at) {
                    (Some(left), Some(right)) => Some(
                        if left >= right {
                            left
                        } else {
                            right
                        },
                    ),
                    (None, other) => other,
                    (other, None) => other,
                };
                existing.priority = existing.priority.max_of(observation.priority);
                if observation.strength.value() > existing.strength.value() {
                    existing.strength = observation.strength;
                }
                if observation.confidence.value() > existing.confidence.value() {
                    existing.confidence = observation.confidence;
                }
                if existing.state == MemoryState::Expired {
                    existing.state = MemoryState::Observed;
                }
                proof {
                    assert(existing@ == consolidated(m, obs));
                    lemma_entry_at(s, rel_key(), b as int);
                    lemma_update_same_key(s, rel_key(), b as int, existing@);
                    lemma_rel_views_update(self.relationships@, b as int, existing);
                }
                let id = existing.id.clone();
                self.relationships.set(b, existing);
                id
            },
            None => {
                proof {
                    assert forall|c: int| !is_consolidation_target(s, obs, c) by {
                        if 0 <= c < s.len() {
                            assert(!consolidates_with(s[c], obs));
                        }
                    }
                }
                self.save_relationship(observation.clone());
                observation.id.clone()
            },
        }
    }
}


/// Identifier of a node reference, the key neighbour lists are ordered by.
pub open spec fn id_key() -> spec_fn(MemoryNodeId) -> Seq<char> {
    |x: MemoryNodeId| x.0@
}

/// The node at the other end of a relationship that touches `id`; none for a
/// relationship from `id` to itself or one that does not touch `id`.
pub open spec fn other_end(r: RelationshipView, id: Seq<char>) -> Option<Seq<char>> {
    if r.source == id && r.target != id {
        Some(r.target)
    } else if r.target == id && r.source != id {
        Some(r.source)
    } else {
        None
    }
}

/// The identifiers of a sequence of node references.
pub open spec fn id_views(s: Seq<MemoryNodeId>) -> Seq<Seq<char>> {
    s.map_values(|x: MemoryNodeId| x.0@)
}

/// One node of a breadth-first traversal and its distance from the start.
#[derive(Debug, Clone, PartialEq, Eq)]
pub struct TraversalVisit {
    pub node_id: MemoryNodeId,
    pub depth: usize,
}

/// Inserts `x` into a list kept strictly ordered by identifier, unless an
/// entry with its identifier is present.
fn insert_unique(v: &mut Vec<MemoryNodeId>, x: MemoryNodeId)
    requires
        sorted_by_key(old(v)@, id_key()),
    ensures
        sorted_by_key(final(v)@, id_key()),
        forall|k: Seq<char>|
            #![trigger has_key(final(v)@, id_key(), k)]
            has_key(final(v)@, id_key(), k) <==> (has_key(old(v)@, id_key(), k) || k == x.0@),
{
    let ghost s = v@;
    let mut i: usize = 0;
    while i < v.len()
        invariant
            s == v@,
            s == old(v)@,
            sorted_by_key(s, id_key()),
            i <= s.len(),
            forall|j: int| 0 <= j < i ==> id_lt(#[trigger] s[j].0@, x.0@),
        decreases s.len() - i,
    {
        if !str_lt(v[i].0.as_str(), x.0.as_str()) {
            if str_eq(v[i].0.as_str(), x.0.as_str()) {
                proof {
                    assert(key_at(s, id_key(), x.0@, i as int));
                }
                return;
            }
            proof {
                lemma_id_lt_total(s[i as int].0@, x.0@);
                assert forall|j: int| !key_at(s, id_key(), x.0@, j) by {
                    if key_at(s, id_key(), x.0@, j) {
                        if j < i {
                            crate::text::lemma_id_lt_irreflexive(x.0@);
                        } else if j > i {
                            assert(id_lt(s[i as int].0@, s[j].0@));
                            crate::text::lemma_id_lt_asymmetric(s[i as int].0@, x.0@);
                        }
                    }
                }
                lemma_insert_new_key(s, id_key(), i as int, x);
                lemma_entry_presence(s.insert(i as int, x), s, x);
            }
            v.insert(i, x);
            return;
        }
        i = i + 1;
    }
    proof {
        assert forall|j: int| !key_at(s, id_key(), x.0@, j) by {
            if key_at(s, id_key(), x.0@, j) {
                crate::text::lemma_id_lt_irreflexive(x.0@);
            }
        }
        lemma_insert_new_key(s, id_key(), i as int, x);
        assert(s.insert(i as int, x) =~= s.push(x));
        lemma_entry_presence(s.insert(i as int, x), s, x);
    }
    v.push(x);
}

/// Presence of a key after an insertion, from the lookup equations.
proof fn lemma_entry_presence(t: Seq<MemoryNodeId>, s: Seq<MemoryNodeId>, x: MemoryNodeId)
    requires
        forall|k: Seq<char>|
            #![trigger entry_with_key(t, id_key(), k)]
            entry_with_key(t, id_key(), k) == if k == x.0@ {
                Some(x)
            } else {
                entry_with_key(s, id_key(), k)
            },
    ensures
        forall|k: Seq<char>|
            #![trigger has_key(t, id_key(), k)]
            has_key(t, id_key(), k) <==> (has_key(s, id_key(), k) || k == x.0@),
{
    assert forall|k: Seq<char>| #[trigger]
        has_key(t, id_key(), k) <==> (has_key(s, id_key(), k) || k == x.0@) by {
        assert(entry_with_key(t, id_key(), k) is Some <==> has_key(t, id_key(), k));
        assert(entry_with_key(s, id_key(), k) is Some <==> has_key(s, id_key(), k));
    }
}

impl MemoryStore {
    /// Whether `b` is a neighbour of `a`: some relationship joins `a` to a
    /// different node `b`, in either direction.
    pub open spec fn is_neighbour(&self, a: Seq<char>, b: Seq<char>) -> bool {
        exists|i: int| 0 <= i < self.rel_seq().len() && #[trigger] other_end(self.rel_seq()[i], a) == Some(b)
    }

    /// Whether a chain of `n` neighbour steps leads from `a` to `x`.
    pub open spec fn linked(&self, a: Seq<char>, x: Seq<char>, n: nat) -> bool
        decreases n,
    {
        if n == 0 {
            x == a
        } else {
            exists|w: Seq<char>| self.linked(a, w, (n - 1) as nat) && #[trigger] self.is_neighbour(w, x)
        }
    }

    /// Whether a chain of at most `d` neighbour steps leads from `a` to `x`.
    pub open spec fn linked_within(&self, a: Seq<char>, x: Seq<char>, d: nat) -> bool {
        exists|n: nat| n <= d && #[trigger] self.linked(a, x, n)
    }

    /// Every neighbour of `x` is in `v`.
    spec fn neighbours_in(&self, v: Seq<Seq<char>>, x: Seq<char>) -> bool {
        forall|y: Seq<char>| #[trigger] self.is_neighbour(x, y) ==> v.contains(y)
    }

    /// A set holding `a` and the neighbours of each of its members holds
    /// every node linked to `a`.
    proof fn lemma_linked_closed(&self, a: Seq<char>, v: Seq<Seq<char>>, x: Seq<char>, n: nat)
        requires
            v.contains(a),
            forall|u: Seq<char>| v.contains(u) ==> #[trigger] self.neighbours_in(v, u),
            self.linked(a, x, n),
        ensures
            v.contains(x),
        decreases n,
    {
        if n > 0 {
            let w = choose|w: Seq<char>| self.linked(a, w, (n - 1) as nat) && #[trigger] self.is_neighbour(w, x);
            self.lemma_linked_closed(a, v, w, (n - 1) as nat);
            assert(self.neighbours_in(v, w));
        }
    }

    /// Neighbours held by a set are held by any larger set.
    proof fn lemma_neighbours_in_grows(&self, small: Seq<Seq<char>>, large: Seq<Seq<char>>, x: Seq<char>)
        requires
            self.neighbours_in(small, x),
            forall|u: Seq<char>| small.contains(u) ==> #[trigger] large.contains(u),
        ensures
            self.neighbours_in(large, x),
    {
        assert forall|y: Seq<char>| #[trigger] self.is_neighbour(x, y) implies large.contains(y) by {
            assert(small.contains(y));
        }
    }

    /// When every node linked within `d` steps is in `before`, and `after`
    /// holds `before` and the neighbours of its members, every node linked
    /// within `d + 1` steps is in `after`.
    proof fn lemma_linked_within_extends(
        &self,
        a: Seq<char>,
        before: Seq<Seq<char>>,
        after: Seq<Seq<char>>,
        d: nat,
    )
        requires
            forall|x: Seq<char>| #[trigger] self.linked_within(a, x, d) ==> before.contains(x),
            forall|u: Seq<char>| before.contains(u) ==> #[trigger] self.neighbours_in(after, u),
            forall|u: Seq<char>| before.contains(u) ==> #[trigger] after.contains(u),
        ensures
            forall|y: Seq<char>| #[trigger] self.linked_within(a, y, d + 1) ==> after.contains(y),
    {
        assert forall|y: Seq<char>| #[trigger] self.linked_within(a, y, d + 1) implies after.contains(y) by {
            let n = choose|n: nat| n <= d + 1 && #[trigger] self.linked(a, y, n);
            if n <= d {
                assert(self.linked_within(a, y, d));
            } else {
                let w = choose|w: Seq<char>| self.linked(a, w, d) && #[trigger] self.is_neighbour(w, y);
                assert(self.linked_within(a, w, d));
                assert(self.neighbours_in(after, w));
            }
        }
    }

    /// The neighbours of a node, each once, in order of identifier.
    pub fn neighbours(&self, node_id: &MemoryNodeId) -> (r: Vec<MemoryNodeId>)
        ensures
            sorted_by_key(r@, id_key()),
            forall|k: Seq<char>|
                #![trigger has_key(r@, id_key(), k)]
                has_key(r@, id_key(), k) <==> self.is_neighbour(node_id.0@, k),
    {
        let ghost s = self.rel_seq();
        let ghost a = node_id.0@;
        let mut r: Vec<MemoryNodeId> = Vec::new();
        let mut i: usize = 0;
        while i < self.relationships.len()
            invariant
                s == self.rel_seq(),
                a == node_id.0@,
                i <= s.len(),
                sorted_by_key(r@, id_key()),
                forall|k: Seq<char>|
                    #![trigger has_key(r@, id_key(), k)]
                    has_key(r@, id_key(), k) <==> exists|j: int|
                        0 <= j < i && #[trigger] other_end(s[j], a) == Some(k),
            decreases s.len() - i,
        {
            let rel = &self.relationships[i];
            assert(s[i as int] == rel@);
            let from_here = str_eq(rel.source.0.as_str(), node_id.0.as_str());
            let to_here = str_eq(rel.target.0.as_str(), node_id.0.as_str());
            let ghost before = r@;
            if from_here && !to_here {
                insert_unique(&mut r, rel.target.clone());
            } else if to_here && !from_here {
                insert_unique(&mut r, rel.source.clone());
            }
            proof {
                assert forall|k: Seq<char>| #[trigger]
                    has_key(r@, id_key(), k) <==> exists|j: int|
                        0 <= j < i + 1 && #[trigger] other_end(s[j], a) == Some(k) by {
                    if exists|j: int| 0 <= j < i + 1 && #[trigger] other_end(s[j], a) == Some(k) {
                        let j = choose|j: int| 0 <= j < i + 1 && #[trigger] other_end(s[j], a) == Some(k);
                        if j < i {
                            assert(has_key(before, id_key(), k));
                        }
                    }
                    if has_key(before, id_key(), k) {
                        let j = choose|j: int| 0 <= j < i && #[trigger] other_end(s[j], a) == Some(k);
                        assert(0 <= j < i + 1 && other_end(s[j], a) == Some(k));
                    }
                    if other_end(s[i as int], a) == Some(k) {
                        assert(0 <= i < i + 1);
                    }
                }
            }
            i = i + 1;
        }
        r
    }
}


/// The identifiers of the visited nodes of a traversal.
pub open spec fn visit_ids(v: Seq<TraversalVisit>) -> Seq<Seq<char>> {
    v.map_values(|t: TraversalVisit| t.node_id.0@)
}

/// Whether a list of node references holds the identifier `id`.
fn contains_id(v: &Vec<MemoryNodeId>, id: &MemoryNodeId) -> (r: bool)
    ensures
        r == id_views(v@).contains(id.0@),
{
    let mut i: usize = 0;
    while i < v.len()
        invariant
            i <= v@.len(),
            forall|j: int| 0 <= j < i ==> v@[j].0@ != id.0@,
        decreases v@.len() - i,
    {
        if str_eq(v[i].0.as_str(), id.0.as_str()) {
            assert(id_views(v@)[i as int] == id.0@);
            return true;
        }
        i = i + 1;
    }
    proof {
        if id_views(v@).contains(id.0@) {
            let j = choose|j: int| 0 <= j < id_views(v@).len() && id_views(v@)[j] == id.0@;
            assert(v@[j].0@ == id.0@);
        }
    }
    false
}

/// A breadth-first traversal is well founded: visits are distinct nodes other
/// than the start, at depths from 1 to the limit in non-decreasing order, and
/// each visit neighbours the start (at depth 1) or an earlier visit one level
/// closer.
pub open spec fn traversal_sound(
    store: MemoryStore,
    start: Seq<char>,
    max_depth: usize,
    v: Seq<TraversalVisit>,
) -> bool {
    &&& forall|i: int| 0 <= i < v.len() ==> 1 <= (#[trigger] v[i]).depth <= max_depth
    &&& forall|i: int| 0 <= i < v.len() ==> (#[trigger] v[i]).node_id.0@ != start
    &&& visit_ids(v).no_duplicates()
    &&& forall|i: int, j: int|
        #![trigger v[i], v[j]]
        0 <= i < j < v.len() ==> v[i].depth <= v[j].depth
    &&& forall|i: int|
        0 <= i < v.len() ==> {
            ||| (#[trigger] v[i]).depth == 1 && store.is_neighbour(start, v[i].node_id.0@)
            ||| exists|j: int|
                0 <= j < i && v[j].depth + 1 == v[i].depth && store.is_neighbour(
                    #[trigger] v[j].node_id.0@,
                    v[i].node_id.0@,
                )
        }
}

impl MemoryStore {
    /// Breadth-first traversal from `start`, up to `max_depth` steps, visiting
    /// each node once.
    #[verifier::spinoff_prover]
    #[verifier::rlimit(40)]
    pub fn traverse(&self, start: &MemoryNodeId, max_depth: usize) -> (r: Vec<TraversalVisit>)
        ensures
            max_depth == 0 ==> r@.len() == 0,
            traversal_sound(*self, start.0@, max_depth, r@),
            forall|x: Seq<char>|
                x != start.0@ && #[trigger] self.linked_within(start.0@, x, max_depth as nat) ==> visit_ids(
                    r@,
                ).contains(x),
            forall|i: int|
                0 <= i < r@.len() ==> self.linked(start.0@, (#[trigger] r@[i]).node_id.0@, r@[i].depth as nat)
                    && !self.linked_within(start.0@, r@[i].node_id.0@, (r@[i].depth - 1) as nat),
    {
        let mut visits: Vec<TraversalVisit> = Vec::new();
        if max_depth == 0 {
            proof {
                assert forall|x: Seq<char>|
                    x != start.0@ && #[trigger] self.linked_within(start.0@, x, 0) implies visit_ids(
                        visits@,
                    ).contains(x) by {
                    let n = choose|n: nat| n <= 0 && #[trigger] self.linked(start.0@, x, n);
                }
            }
            return visits;
        }
        let ghost a = start.0@;
        let mut visited: Vec<MemoryNodeId> = Vec::new();
        visited.push(start.clone());
        let mut frontier: Vec<MemoryNodeId> = Vec::new();
        frontier.push(start.clone());
        let mut lo: usize = 0;
        let mut depth: usize = 0;
        assert(id_views(visited@) =~= seq![a] + visit_ids(visits@));
        assert(id_views(frontier@) =~= seq![a]);
        proof {
            assert(id_views(visited@)[0] == a);
            assert forall|x: Seq<char>| #[trigger] self.linked_within(a, x, 0) implies id_views(
                visited@,
            ).contains(x) by {
                let n = choose|n: nat| n <= 0 && #[trigger] self.linked(a, x, n);
            }
        }
        while depth < max_depth && frontier.len() > 0
            invariant
                a == start.0@,
                forall|i: int|
                    0 <= i < visits@.len() ==> self.linked(a, (#[trigger] visits@[i]).node_id.0@, visits@[i].depth as nat)
                        && !self.linked_within(a, visits@[i].node_id.0@, (visits@[i].depth - 1) as nat),
                forall|x: Seq<char>|
                    #[trigger] self.linked_within(a, x, depth as nat) ==> id_views(visited@).contains(x),
                forall|x: Seq<char>|
                    id_views(visited@).contains(x) && !id_views(frontier@).contains(x)
                        ==> #[trigger] self.neighbours_in(id_views(visited@), x),
                depth <= max_depth,
                lo <= visits@.len(),
                id_views(visited@) == seq![a] + visit_ids(visits@),
                id_views(visited@).no_duplicates(),
                depth == 0 ==> id_views(frontier@) == seq![a] && visits@.len() == 0,
                depth > 0 ==> id_views(frontier@) == visit_ids(visits@).subrange(
                    lo as int,
                    visits@.len() as int,
                ),
                forall|j: int| lo <= j < visits@.len() ==> (#[trigger] visits@[j]).depth == depth,
                forall|j: int| 0 <= j < lo ==> (#[trigger] visits@[j]).depth < depth,
                traversal_sound(*self, a, max_depth, visits@),
            decreases max_depth - depth,
        {
            let level_start: usize = visits.len();
            let mut next: Vec<MemoryNodeId> = Vec::new();
            let mut f: usize = 0;
            assert(id_views(next@) =~= visit_ids(visits@).subrange(
                level_start as int,
                visits@.len() as int,
            ));
            let ghost v0 = id_views(visited@);
            let ghost fnodes = id_views(frontier@);
            assert(id_views(visited@) =~= v0 + id_views(next@));
            while f < frontier.len()
                invariant
                    a == start.0@,
                    forall|i: int|
                        0 <= i < visits@.len() ==> self.linked(a, (#[trigger] visits@[i]).node_id.0@, visits@[i].depth as nat)
                            && !self.linked_within(a, visits@[i].node_id.0@, (visits@[i].depth - 1) as nat),
                    fnodes == id_views(frontier@),
                    id_views(visited@) == v0 + id_views(next@),
                    forall|x: Seq<char>| #[trigger] self.linked_within(a, x, depth as nat) ==> v0.contains(x),
                    forall|x: Seq<char>|
                        v0.contains(x) && !fnodes.contains(x) ==> #[trigger] self.neighbours_in(v0, x),
                    forall|g: int| 0 <= g < f ==> #[trigger] self.neighbours_in(id_views(visited@), fnodes[g]),
                    depth < max_depth,
                    lo <= level_start <= visits@.len(),
                    id_views(visited@) == seq![a] + visit_ids(visits@),
                    id_views(visited@).no_duplicates(),
                    depth == 0 ==> id_views(frontier@) == seq![a] && level_start == 0,
                    depth > 0 ==> id_views(frontier@) == visit_ids(visits@).subrange(
                        lo as int,
                        level_start as int,
                    ),
                    id_views(next@) == visit_ids(visits@).subrange(
                        level_start as int,
                        visits@.len() as int,
                    ),
                    forall|j: int| lo <= j < level_start ==> (#[trigger] visits@[j]).depth == depth,
                    forall|j: int|
                        level_start <= j < visits@.len() ==> (#[trigger] visits@[j]).depth == depth
                            + 1,
                    forall|j: int| 0 <= j < lo ==> (#[trigger] visits@[j]).depth < depth,
                    traversal_sound(*self, a, max_depth, visits@),
                decreases frontier@.len() - f,
            {
                let from = &frontier[f];
                let ghost from_id = from.0@;
                proof {
                    assert(id_views(frontier@)[f as int] == from_id);
                    if depth > 0 {
                        assert(visit_ids(visits@)[lo + f] == id_views(frontier@)[f as int]);
                        assert(visits@[lo + f].node_id.0@ == from_id);
                    }
                }
                let ns = self.neighbours(from);
                let mut k: usize = 0;
                while k < ns.len()
                    invariant
                        a == start.0@,
                        forall|i: int|
                            0 <= i < visits@.len() ==> self.linked(a, (#[trigger] visits@[i]).node_id.0@, visits@[i].depth as nat)
                                && !self.linked_within(a, visits@[i].node_id.0@, (visits@[i].depth - 1) as nat),
                        forall|x: Seq<char>|
                            #[trigger] self.linked_within(a, x, depth as nat) ==> v0.contains(x),
                        fnodes == id_views(frontier@),
                        from_id == fnodes[f as int],
                        id_views(visited@) == v0 + id_views(next@),
                        forall|g: int|
                            0 <= g < f ==> #[trigger] self.neighbours_in(id_views(visited@), fnodes[g]),
                        forall|j: int| 0 <= j < k ==> id_views(visited@).contains(#[trigger] ns@[j].0@),
                        depth < max_depth,
                        lo <= level_start <= visits@.len(),
                        id_views(visited@) == seq![a] + visit_ids(visits@),
                        id_views(visited@).no_duplicates(),
                        depth == 0 ==> from_id == a && level_start == 0,
                        depth == 0 ==> id_views(frontier@) == seq![a],
                        depth > 0 ==> id_views(frontier@) == visit_ids(visits@).subrange(
                            lo as int,
                            level_start as int,
                        ),
                        f < frontier@.len(),
                        depth > 0 ==> exists|j: int|
                            lo <= j < level_start && #[trigger] visits@[j].node_id.0@ == from_id,
                        forall|x: Seq<char>|
                            #![trigger has_key(ns@, id_key(), x)]
                            has_key(ns@, id_key(), x) <==> self.is_neighbour(from_id, x),
                        id_views(next@) == visit_ids(visits@).subrange(
                            level_start as int,
                            visits@.len() as int,
                        ),
                        forall|j: int|
                            lo <= j < level_start ==> (#[trigger] visits@[j]).depth == depth,
                        forall|j: int|
                            level_start <= j < visits@.len() ==> (#[trigger] visits@[j]).depth
                                == depth + 1,
                        forall|j: int| 0 <= j < lo ==> (#[trigger] visits@[j]).depth < depth,
                        traversal_sound(*self, a, max_depth, visits@),
                    decreases ns@.len() - k,
                {
                    let n = &ns[k];
                    proof {
                        assert(key_at(ns@, id_key(), n.0@, k as int));
                        assert(has_key(ns@, id_key(), n.0@));
                        assert(self.is_neighbour(from_id, n.0@));
                    }
                    if !contains_id(&visited, n) {
                        let ghost old_vis = id_views(visited@);
                        let ghost old_visits = visits@;
                        let ghost old_visited = visited@;
                        let ghost old_next = next@;
                        let visit = TraversalVisit { node_id: n.clone(), depth: depth + 1 };
                        visited.push(n.clone());
                        visits.push(visit);
                        next.push(n.clone());
                        proof {
                            let nv = visits@;
                            let last = nv.len() - 1;
                            assert(visit_ids(nv) =~= visit_ids(old_visits).push(n.0@));
                            assert(id_views(visited@) =~= id_views(old_visited).push(n.0@));
                            assert(id_views(visited@) =~= seq![a] + visit_ids(nv));
                            assert(id_views(next@) =~= id_views(old_next).push(n.0@));
                            let vis = id_views(visited@);
                            assert(vis =~= v0 + id_views(next@));
                            assert forall|u: Seq<char>| old_vis.contains(u) implies #[trigger] vis.contains(u) by {
                                let i = choose|i: int| 0 <= i < old_vis.len() && old_vis[i] == u;
                                assert(vis[i] == u);
                            }
                            assert forall|g: int| 0 <= g < f implies #[trigger] self.neighbours_in(vis, fnodes[g]) by {
                                self.lemma_neighbours_in_grows(old_vis, vis, fnodes[g]);
                            }
                            assert(vis[vis.len() - 1] == n.0@);
                            assert forall|j: int| 0 <= j <= k implies vis.contains(#[trigger] ns@[j].0@) by {
                                if j < k {
                                    assert(old_vis.contains(ns@[j].0@));
                                }
                            }
                            assert(self.linked(a, from_id, depth as nat)) by {
                                if depth > 0 {
                                    let j = choose|j: int|
                                        lo <= j < level_start
                                            && #[trigger] old_visits[j].node_id.0@ == from_id;
                                    assert(old_visits[j].depth == depth);
                                }
                            }
                            assert(self.is_neighbour(from_id, n.0@));
                            assert(self.linked(a, n.0@, (depth + 1) as nat));
                            assert(!self.linked_within(a, n.0@, depth as nat)) by {
                                if self.linked_within(a, n.0@, depth as nat) {
                                    assert(v0.contains(n.0@));
                                    let i = choose|i: int| 0 <= i < v0.len() && v0[i] == n.0@;
                                    assert(old_vis[i] == n.0@);
                                }
                            }
                            assert forall|i: int| 0 <= i < nv.len() implies self.linked(
                                a,
                                (#[trigger] nv[i]).node_id.0@,
                                nv[i].depth as nat,
                            ) && !self.linked_within(a, nv[i].node_id.0@, (nv[i].depth - 1) as nat) by {
                                if i < last {
                                    assert(nv[i] == old_visits[i]);
                                }
                            }
                            assert(id_views(next@) =~= visit_ids(nv).subrange(
                                level_start as int,
                                nv.len() as int,
                            ));
                            assert(id_views(visited@).no_duplicates()) by {
                                let w = id_views(visited@);
                                assert forall|x: int, y: int|
                                    0 <= x < w.len() && 0 <= y < w.len() && x != y implies w[x]
                                    != w[y] by {
                                    if x < w.len() - 1 && y < w.len() - 1 {
                                        assert(w[x] == id_views(old_visited)[x]);
                                        assert(w[y] == id_views(old_visited)[y]);
                                    } else if x == w.len() - 1 {
                                        assert(w[y] == id_views(old_visited)[y]);
                                    } else {
                                        assert(w[x] == id_views(old_visited)[x]);
                                    }
                                }
                            }
                            assert(n.0@ != a) by {
                                assert(id_views(old_visited)[0] == a);
                            }
                            assert(traversal_sound(*self, a, max_depth, nv)) by {
                                assert forall|i: int| 0 <= i < nv.len() implies {
                                    ||| (#[trigger] nv[i]).depth == 1 && self.is_neighbour(
                                        a,
                                        nv[i].node_id.0@,
                                    )
                                    ||| exists|j: int|
                                        0 <= j < i && nv[j].depth + 1 == nv[i].depth
                                            && self.is_neighbour(
                                            #[trigger] nv[j].node_id.0@,
                                            nv[i].node_id.0@,
                                        )
                                } by {
                                    if i < last {
                                        assert(nv[i] == old_visits[i]);
                                        if !(nv[i].depth == 1 && self.is_neighbour(
                                            a,
                                            nv[i].node_id.0@,
                                        )) {
                                            let j = choose|j: int|
                                                0 <= j < i && old_visits[j].depth + 1
                                                    == old_visits[i].depth && self.is_neighbour(
                                                    #[trigger] old_visits[j].node_id.0@,
                                                    old_visits[i].node_id.0@,
                                                );
                                            assert(nv[j] == old_visits[j]);
                                        }
                                    } else {
                                        if depth > 0 {
                                            let j = choose|j: int|
                                                lo <= j < level_start
                                                    && #[trigger] old_visits[j].node_id.0@
                                                    == from_id;
                                            assert(nv[j] == old_visits[j]);
                                            assert(nv[j].depth == depth);
                                        }
                                    }
                                }
                                assert forall|i: int, j: int|
                                    #![trigger nv[i], nv[j]]
                                    0 <= i < j < nv.len() implies nv[i].depth <= nv[j].depth by {
                                    if j < last {
                                        assert(nv[i] == old_visits[i]);
                                        assert(nv[j] == old_visits[j]);
                                    } else {
                                        assert(nv[i] == old_visits[i]);
                                    }
                                }
                                assert forall|i: int| 0 <= i < nv.len() implies (
                                #[trigger] nv[i]).node_id.0@ != a by {
                                    if i < last {
                                        assert(nv[i] == old_visits[i]);
                                    }
                                }
                                assert forall|i: int| 0 <= i < nv.len() implies 1 <= (
                                #[trigger] nv[i]).depth <= max_depth by {
                                    if i < last {
                                        assert(nv[i] == old_visits[i]);
                                    }
                                }
                                assert(visit_ids(nv).no_duplicates()) by {
                                    let w = id_views(visited@);
                                    let vi = visit_ids(nv);
                                    assert forall|x: int, y: int|
                                        0 <= x < vi.len() && 0 <= y < vi.len() && x != y implies vi[x]
                                        != vi[y] by {
                                        assert(vi[x] == w[x + 1]);
                                        assert(vi[y] == w[y + 1]);
                                    }
                                }
                            }
                            assert forall|j: int|
                                level_start <= j < nv.len() implies (#[trigger] nv[j]).depth
                                == depth + 1 by {
                                if j < last {
                                    assert(nv[j] == old_visits[j]);
                                }
                            }
                            assert forall|j: int| lo <= j < level_start implies (
                            #[trigger] nv[j]).depth == depth by {
                                assert(nv[j] == old_visits[j]);
                            }
                            assert forall|j: int| 0 <= j < lo implies (#[trigger] nv[j]).depth
                                < depth by {
                                assert(nv[j] == old_visits[j]);
                            }
                            if depth > 0 {
                                let j = choose|j: int|
                                    lo <= j < level_start && #[trigger] old_visits[j].node_id.0@
                                        == from_id;
                                assert(nv[j] == old_visits[j]);
                                assert(visit_ids(nv).subrange(lo as int, level_start as int)
                                    =~= visit_ids(old_visits).subrange(
                                    lo as int,
                                    level_start as int,
                                ));
                            }
                        }
                    }
                    k = k + 1;
                }
                proof {
                    let vis = id_views(visited@);
                    assert forall|y: Seq<char>| #[trigger] self.is_neighbour(from_id, y) implies vis.contains(y) by {
                        assert(has_key(ns@, id_key(), y));
                        let j = choose|j: int| #[trigger] key_at(ns@, id_key(), y, j);
                        assert(ns@[j].0@ == y);
                    }
                    assert(self.neighbours_in(vis, fnodes[f as int]));
                }
                f = f + 1;
            }
            proof {
                assert forall|j: int| 0 <= j < level_start implies (#[trigger] visits@[j]).depth
                    < depth + 1 by {
                    if j >= lo {
                    }
                }
                let vis = id_views(visited@);
                assert forall|u: Seq<char>| v0.contains(u) implies #[trigger] vis.contains(u) by {
                    let i = choose|i: int| 0 <= i < v0.len() && v0[i] == u;
                    assert(vis[i] == u);
                }
                assert forall|u: Seq<char>| v0.contains(u) implies #[trigger] self.neighbours_in(vis, u) by {
                    if fnodes.contains(u) {
                        let g = choose|g: int| 0 <= g < fnodes.len() && fnodes[g] == u;
                    } else {
                        self.lemma_neighbours_in_grows(v0, vis, u);
                    }
                }
                self.lemma_linked_within_extends(a, v0, vis, depth as nat);
                assert forall|x: Seq<char>|
                    vis.contains(x) && !id_views(next@).contains(x) implies #[trigger] self.neighbours_in(vis, x) by {
                    let i = choose|i: int| 0 <= i < vis.len() && vis[i] == x;
                    if i >= v0.len() {
                        assert(id_views(next@)[i - v0.len()] == x);
                    }
                    assert(v0[i] == x);
                }
            }
            let ghost grown: nat = depth as nat + 1;
            assert forall|x: Seq<char>| #[trigger] self.linked_within(a, x, grown) implies id_views(
                visited@,
            ).contains(x) by {}
            frontier = next;
            lo = level_start;
            depth = depth + 1;
            assert(depth as nat == grown);
        }
        proof {
            let vis = id_views(visited@);
            assert forall|x: Seq<char>|
                x != a && #[trigger] self.linked_within(a, x, max_depth as nat) implies visit_ids(
                    visits@,
                ).contains(x) by {
                if depth < max_depth {
                    assert forall|u: Seq<char>| vis.contains(u) implies #[trigger] self.neighbours_in(vis, u) by {
                        assert(id_views(frontier@).len() == 0);
                    }
                    assert(vis[0] == a);
                    let n = choose|n: nat| n <= max_depth && #[trigger] self.linked(a, x, n);
                    self.lemma_linked_closed(a, vis, x, n);
                }
                let i = choose|i: int| 0 <= i < vis.len() && vis[i] == x;
                assert(i != 0);
                assert(visit_ids(visits@)[i - 1] == x);
            }
        }
        visits
    }
}


/// Which way a path may follow relationships.
#[derive(Debug, Clone, Copy, PartialEq, Eq, Structural)]
pub enum TraversalDirection {
    Any,
    Outgoing,
    Incoming,
}

/// Limits and filters of a path search.
#[derive(Debug, Clone, PartialEq, Eq)]
pub struct PathQuery {
    pub max_depth: usize,
    pub direction: TraversalDirection,
    pub relationship_kinds: Vec<MemoryRelationshipKind>,
    pub minimum_strength: Option<MemoryStrength>,
    pub minimum_confidence: Option<MemoryConfidence>,
    pub evaluation_time: Option<u64>,
}

impl std::default::Default for PathQuery {
    fn default() -> (r: PathQuery)
        ensures
            r.max_depth == 8,
            r.direction == TraversalDirection::Any,
            r.relationship_kinds@.len() == 0,
            r.minimum_strength is None,
            r.minimum_confidence is None,
            r.evaluation_time is None,
    {
        PathQuery {
            max_depth: 8,
            direction: TraversalDirection::Any,
            relationship_kinds: Vec::new(),
            minimum_strength: None,
            minimum_confidence: None,
            evaluation_time: None,
        }
    }
}

/// A path through the graph with its weakest strength and confidence.
#[derive(Debug, Clone, PartialEq, Eq)]
pub struct MemoryPath {
    pub nodes: Vec<MemoryNodeId>,
    pub relationships: Vec<MemoryRelationshipId>,
    pub weakest_strength: MemoryStrength,
    pub weakest_confidence: MemoryConfidence,
}

/// The lower of two percentages.
pub open spec fn lower(a: u8, b: u8) -> u8 {
    if a <= b {
        a
    } else {
        b
    }
}

impl MemoryPath {
    /// The score of a path: its weakest link, strength or confidence.
    pub open spec fn score_spec(&self) -> u8 {
        lower(self.weakest_strength.view(), self.weakest_confidence.view())
    }

    pub fn score(&self) -> (r: u8)
        ensures
            r == self.score_spec(),
    {
        let s = self.weakest_strength.value();
        let c = self.weakest_confidence.value();
        if s <= c {
            s
        } else {
            c
        }
    }
}

/// A path from a start node to a threat node.
#[derive(Debug, Clone, PartialEq, Eq)]
pub struct ThreatPath {
    pub threat: MemoryNodeId,
    pub path: MemoryPath,
}

/// The strength a query sees on a relationship: the stored strength, or the
/// effective strength at the query's evaluation time.
pub open spec fn edge_strength(query: PathQuery, r: RelationshipView) -> u8 {
    match query.evaluation_time {
        None => r.strength.view(),
        Some(now) => effective_strength_of(r, now),
    }
}

/// A relationship a path search may follow from `from`: in the query's
/// direction, reasoning-active, of an allowed kind, and at or above the
/// minimum strength and confidence.
pub open spec fn admits(query: PathQuery, from: Seq<char>, r: RelationshipView) -> bool {
    &&& match query.direction {
        TraversalDirection::Any => r.source == from || r.target == from,
        TraversalDirection::Outgoing => r.source == from,
        TraversalDirection::Incoming => r.target == from,
    }
    &&& r.state.active_spec()
    &&& query.relationship_kinds@.len() == 0 || query.relationship_kinds@.contains(r.kind)
    &&& query.minimum_strength matches Some(m) ==> edge_strength(query, r) >= m.view()
    &&& query.minimum_confidence matches Some(m) ==> r.confidence.view() >= m.view()
}

/// The relationships a path search may follow from `from`.
pub open spec fn admitted(query: PathQuery, from: Seq<char>) -> spec_fn(RelationshipView) -> bool {
    |r: RelationshipView| admits(query, from, r)
}

/// The node a path reaches by following `r` from `from`.
pub open spec fn step_to(direction: TraversalDirection, r: RelationshipView, from: Seq<char>) -> Seq<
    char,
> {
    match direction {
        TraversalDirection::Any => if r.source == from {
            r.target
        } else {
            r.source
        },
        TraversalDirection::Outgoing => r.target,
        TraversalDirection::Incoming => r.source,
    }
}

/// The identifiers of a sequence of relationship references.
pub open spec fn rel_id_views(s: Seq<MemoryRelationshipId>) -> Seq<Seq<char>> {
    s.map_values(|x: MemoryRelationshipId| x.0@)
}

/// The nodes a frontier of candidates has reached.
spec fn frontier_nodes(s: Seq<PathCandidate>) -> Seq<Seq<char>> {
    s.map_values(|c: PathCandidate| c.node.0@)
}

/// The relationship sequences of the candidates of a frontier.
spec fn keys_of(s: Seq<PathCandidate>) -> Seq<Seq<Seq<char>>> {
    s.map_values(|c: PathCandidate| rel_id_views(c.relationships@))
}

/// Whether the relationship sequence `a` comes before `b`, both of one
/// length: compared identifier by identifier from the first, at the first
/// place where they differ.
pub open spec fn ids_before(a: Seq<Seq<char>>, b: Seq<Seq<char>>) -> bool
    decreases a.len(),
{
    if a.len() != b.len() || a.len() == 0 {
        false
    } else {
        ids_before(a.drop_last(), b.drop_last()) || (a.drop_last() == b.drop_last() && id_lt(
            a.last(),
            b.last(),
        ))
    }
}

proof fn lemma_ids_before_push(a: Seq<Seq<char>>, b: Seq<Seq<char>>, x: Seq<char>, y: Seq<char>)
    requires
        a.len() == b.len(),
    ensures
        ids_before(a.push(x), b.push(y)) == (ids_before(a, b) || (a == b && id_lt(x, y))),
{
    assert(a.push(x).drop_last() =~= a);
    assert(b.push(y).drop_last() =~= b);
}

proof fn lemma_ids_before_irreflexive(a: Seq<Seq<char>>)
    ensures
        !ids_before(a, a),
    decreases a.len(),
{
    if a.len() > 0 {
        lemma_ids_before_irreflexive(a.drop_last());
        crate::text::lemma_id_lt_irreflexive(a.last());
    }
}

proof fn lemma_ids_before_transitive(a: Seq<Seq<char>>, b: Seq<Seq<char>>, c: Seq<Seq<char>>)
    requires
        ids_before(a, b),
        ids_before(b, c),
    ensures
        ids_before(a, c),
    decreases a.len(),
{
    let (a0, b0, c0) = (a.drop_last(), b.drop_last(), c.drop_last());
    if ids_before(a0, b0) && ids_before(b0, c0) {
        lemma_ids_before_transitive(a0, b0, c0);
    } else if a0 == b0 && b0 == c0 {
        crate::text::lemma_id_lt_transitive(a.last(), b.last(), c.last());
    }
}

proof fn lemma_ids_before_total(a: Seq<Seq<char>>, b: Seq<Seq<char>>)
    requires
        a.len() == b.len(),
    ensures
        a == b || ids_before(a, b) || ids_before(b, a),
    decreases a.len(),
{
    if a.len() == 0 {
        assert(a =~= b);
    } else {
        let (a0, b0) = (a.drop_last(), b.drop_last());
        lemma_ids_before_total(a0, b0);
        if a0 == b0 {
            lemma_id_lt_total(a.last(), b.last());
            if a.last() == b.last() {
                assert(a =~= a0.push(a.last()));
                assert(b =~= b0.push(b.last()));
            }
        }
    }
}

proof fn lemma_ids_before_asymmetric(a: Seq<Seq<char>>, b: Seq<Seq<char>>)
    requires
        ids_before(a, b),
    ensures
        !ids_before(b, a),
{
    if ids_before(b, a) {
        lemma_ids_before_transitive(a, b, a);
        lemma_ids_before_irreflexive(a);
    }
}

/// A candidate appended to the next frontier comes after every candidate
/// already there: they extend earlier frontier paths, or the same one by an
/// earlier relationship.
proof fn lemma_next_ordered(
    kf: Seq<Seq<Seq<char>>>,
    ko: Seq<Seq<Seq<char>>>,
    f: int,
    k: int,
    fr: Seq<RelationshipView>,
    depth: nat,
)
    requires
        0 <= f < kf.len(),
        0 <= k < fr.len(),
        sorted_by_key(fr, rel_key()),
        forall|g: int| 0 <= g < kf.len() ==> (#[trigger] kf[g]).len() == depth,
        forall|g: int, h: int| #![trigger kf[g], kf[h]] 0 <= g < h < kf.len() ==> ids_before(kf[g], kf[h]),
        forall|g: int, h: int| #![trigger ko[g], ko[h]] 0 <= g < h < ko.len() ==> ids_before(ko[g], ko[h]),
        ko.len() > 0 ==> (exists|g: int, y: Seq<char>| 0 <= g < f && #[trigger] kf[g].push(y) == ko.last())
            || (exists|j: int| 0 <= j < k && #[trigger] kf[f].push(fr[j].id) == ko.last()),
    ensures
        forall|g: int, h: int|
            #![trigger ko.push(kf[f].push(fr[k].id))[g], ko.push(kf[f].push(fr[k].id))[h]]
            0 <= g < h < ko.len() + 1 ==> ids_before(
                ko.push(kf[f].push(fr[k].id))[g],
                ko.push(kf[f].push(fr[k].id))[h],
            ),
{
    let nr = kf[f].push(fr[k].id);
    let kn = ko.push(nr);
    if ko.len() > 0 {
        let last = ko.last();
        if exists|g: int, y: Seq<char>| 0 <= g < f && #[trigger] kf[g].push(y) == last {
            let (g, y) = choose|g: int, y: Seq<char>| 0 <= g < f && #[trigger] kf[g].push(y) == last;
            assert(ids_before(kf[g], kf[f]));
            assert(kf[g].len() == depth && kf[f].len() == depth);
            lemma_ids_before_push(kf[g], kf[f], y, fr[k].id);
        } else {
            let j = choose|j: int| 0 <= j < k && #[trigger] kf[f].push(fr[j].id) == last;
            assert(id_lt(rel_key()(fr[j]), rel_key()(fr[k])));
            lemma_ids_before_push(kf[f], kf[f], fr[j].id, fr[k].id);
        }
        assert(ids_before(last, nr));
    }
    assert forall|g: int, h: int|
        #![trigger kn[g], kn[h]]
        0 <= g < h < kn.len() implies ids_before(kn[g], kn[h]) by {
        if h < ko.len() {
            assert(kn[g] == ko[g] && kn[h] == ko[h]);
        } else if g < ko.len() - 1 {
            assert(kn[g] == ko[g]);
            assert(ids_before(ko[g], ko[ko.len() - 1]));
            lemma_ids_before_transitive(ko[g], ko.last(), nr);
        } else {
            assert(kn[g] == ko.last());
        }
    }
}

/// A private candidate of the breadth-first path search.
struct PathCandidate {
    node: MemoryNodeId,
    nodes: Vec<MemoryNodeId>,
    relationships: Vec<MemoryRelationshipId>,
    weakest_strength: MemoryStrength,
    weakest_confidence: MemoryConfidence,
}

fn clone_node_ids(v: &Vec<MemoryNodeId>) -> (r: Vec<MemoryNodeId>)
    ensures
        r@ == v@,
{
    let mut r: Vec<MemoryNodeId> = Vec::new();
    let mut i: usize = 0;
    while i < v.len()
        invariant
            i <= v@.len(),
            r@ == v@.take(i as int),
        decreases v@.len() - i,
    {
        r.push(v[i].clone());
        i = i + 1;
        assert(r@ =~= v@.take(i as int));
    }
    assert(v@.take(v@.len() as int) =~= v@);
    r
}

fn clone_relationship_ids(v: &Vec<MemoryRelationshipId>) -> (r: Vec<MemoryRelationshipId>)
    ensures
        r@ == v@,
{
    let mut r: Vec<MemoryRelationshipId> = Vec::new();
    let mut i: usize = 0;
    while i < v.len()
        invariant
            i <= v@.len(),
            r@ == v@.take(i as int),
        decreases v@.len() - i,
    {
        r.push(v[i].clone());
        i = i + 1;
        assert(r@ =~= v@.take(i as int));
    }
    assert(v@.take(v@.len() as int) =~= v@);
    r
}

impl MemoryStore {
    /// Every step of a walk follows a stored relationship the query admits.
    pub open spec fn walk_valid(
        &self,
        query: PathQuery,
        nodes: Seq<Seq<char>>,
        rels: Seq<Seq<char>>,
    ) -> bool {
        &&& nodes.len() == rels.len() + 1
        &&& forall|i: int|
            #![trigger rels[i]]
            0 <= i < rels.len() ==> {
                &&& self.relationship(rels[i]) is Some
                &&& admits(query, nodes[i], self.relationship(rels[i])->0)
                &&& step_to(query.direction, self.relationship(rels[i])->0, nodes[i]) == nodes[i
                    + 1]
            }
    }

    /// The weakest strength the query sees along a walk, starting from 100.
    pub open spec fn weakest_strength_along(&self, query: PathQuery, rels: Seq<Seq<char>>) -> u8
        decreases rels.len(),
    {
        if rels.len() == 0 {
            100
        } else {
            lower(
                self.weakest_strength_along(query, rels.drop_last()),
                edge_strength(query, self.relationship(rels.last())->0),
            )
        }
    }

    /// The weakest confidence along a walk, starting from 100.
    pub open spec fn weakest_confidence_along(&self, rels: Seq<Seq<char>>) -> u8
        decreases rels.len(),
    {
        if rels.len() == 0 {
            100
        } else {
            lower(
                self.weakest_confidence_along(rels.drop_last()),
                self.relationship(rels.last())->0.confidence.view(),
            )
        }
    }

    /// `p` is a path the search may report from `start` to `target`: a walk
    /// through distinct nodes along admitted relationships, no longer than the
    /// query allows, carrying its weakest strength and confidence.
    pub open spec fn is_found_path(
        &self,
        query: PathQuery,
        start: Seq<char>,
        target: Seq<char>,
        p: MemoryPath,
    ) -> bool {
        let nodes = id_views(p.nodes@);
        let rels = rel_id_views(p.relationships@);
        &&& self.walk_valid(query, nodes, rels)
        &&& nodes[0] == start
        &&& nodes.last() == target
        &&& nodes.no_duplicates()
        &&& start == target ==> rels.len() == 0
        &&& start != target ==> 1 <= rels.len() <= query.max_depth
        &&& p.weakest_strength.view() == self.weakest_strength_along(query, rels)
        &&& p.weakest_confidence.view() == self.weakest_confidence_along(rels)
    }

    /// No walk shorter than `p` leads from `start` to `target`.
    pub open spec fn shortest(&self, query: PathQuery, start: Seq<char>, target: Seq<char>, p: MemoryPath) -> bool {
        p.relationships@.len() > 0 ==> !self.reaches_within(
            query,
            start,
            target,
            (p.relationships@.len() - 1) as nat,
        )
    }

    spec fn candidate_ok(
        &self,
        query: PathQuery,
        start: Seq<char>,
        visited: Seq<Seq<char>>,
        depth: nat,
        c: PathCandidate,
    ) -> bool {
        let nodes = id_views(c.nodes@);
        let rels = rel_id_views(c.relationships@);
        &&& self.walk_valid(query, nodes, rels)
        &&& nodes[0] == start
        &&& nodes.last() == c.node.0@
        &&& nodes.no_duplicates()
        &&& rels.len() == depth
        &&& c.weakest_strength.view() == self.weakest_strength_along(query, rels)
        &&& c.weakest_confidence.view() == self.weakest_confidence_along(rels)
        &&& forall|i: int| 0 <= i < nodes.len() ==> visited.contains(#[trigger] nodes[i])
    }

    /// The relationships a path search may follow from a node, in order of
    /// identifier.
    pub fn reasoning_relationships(&self, node_id: &MemoryNodeId, query: &PathQuery) -> (r: Vec<
        MemoryRelationship,
    >)
        ensures
            rel_views(r@) == self.rel_seq().filter(admitted(*query, node_id.0@)),
    {
        let ghost s = self.rel_seq();
        let ghost p = admitted(*query, node_id.0@);
        let mut r: Vec<MemoryRelationship> = Vec::new();
        let mut i: usize = 0;
        while i < self.relationships.len()
            invariant
                s == self.rel_seq(),
                p == admitted(*query, node_id.0@),
                i <= s.len(),
                rel_views(r@) == s.take(i as int).filter(p),
            decreases s.len() - i,
        {
            proof {
                lemma_filter_take_step(s, p, i as int);
            }
            let rel = &self.relationships[i];
            assert(s[i as int] == rel@);
            let direction_ok = match query.direction {
                TraversalDirection::Any => str_eq(rel.source.0.as_str(), node_id.0.as_str())
                    || str_eq(rel.target.0.as_str(), node_id.0.as_str()),
                TraversalDirection::Outgoing => str_eq(rel.source.0.as_str(), node_id.0.as_str()),
                TraversalDirection::Incoming => str_eq(rel.target.0.as_str(), node_id.0.as_str()),
            };
            let mut kind_ok = query.relationship_kinds.len() == 0;
            let mut k: usize = 0;
            while k < query.relationship_kinds.len()
                invariant
                    k <= query.relationship_kinds@.len(),
                    kind_ok == (query.relationship_kinds@.len() == 0 || exists|j: int|
                        0 <= j < k && query.relationship_kinds@[j] == rel.kind),
                decreases query.relationship_kinds@.len() - k,
            {
                if query.relationship_kinds[k] == rel.kind {
                    kind_ok = true;
                }
                k = k + 1;
            }
            proof {
                if kind_ok && query.relationship_kinds@.len() > 0 {
                    let j = choose|j: int|
                        0 <= j < query.relationship_kinds@.len() && query.relationship_kinds@[j]
                            == rel.kind;
                    assert(query.relationship_kinds@.contains(rel.kind));
                }
                if query.relationship_kinds@.contains(rel.kind) {
                    let j = choose|j: int|
                        0 <= j < query.relationship_kinds@.len() && query.relationship_kinds@[j]
                            == rel.kind;
                    assert(exists|j: int|
                        0 <= j < query.relationship_kinds@.len() && query.relationship_kinds@[j]
                            == rel.kind);
                }
            }
            let strength = match query.evaluation_time {
                None => rel.strength,
                Some(now) => rel.effective_strength(now),
            };
            let strength_ok = match query.minimum_strength {
                None => true,
                Some(m) => strength.value() >= m.value(),
            };
            let confidence_ok = match query.minimum_confidence {
                None => true,
                Some(m) => rel.confidence.value() >= m.value(),
            };
            if direction_ok && rel.state.is_active_for_reasoning() && kind_ok && strength_ok
                && confidence_ok {
                let c = rel.clone();
                proof {
                    lemma_rel_views_push(r@, c);
                }
                r.push(c);
            }
            i = i + 1;
        }
        assert(s.take(s.len() as int) =~= s);
        r
    }
}


/// The lower of two strengths.
fn min_strength(a: MemoryStrength, b: MemoryStrength) -> (r: MemoryStrength)
    ensures
        r.view() == lower(a.view(), b.view()),
{
    if a.value() <= b.value() {
        a
    } else {
        b
    }
}

/// The lower of two confidences.
fn min_confidence(a: MemoryConfidence, b: MemoryConfidence) -> (r: MemoryConfidence)
    ensures
        r.view() == lower(a.view(), b.view()),
{
    if a.value() <= b.value() {
        a
    } else {
        b
    }
}

impl MemoryStore {
    /// `x` is reached from `start` by a walk of `n` steps along relationships
    /// the query admits.
    pub open spec fn reaches(&self, query: PathQuery, start: Seq<char>, x: Seq<char>, n: nat) -> bool {
        exists|nodes: Seq<Seq<char>>, rels: Seq<Seq<char>>|
            #[trigger] self.walk_valid(query, nodes, rels) && nodes[0] == start && nodes.last() == x
                && rels.len() == n
    }

    /// `x` is reached from `start` by such a walk of at most `d` steps.
    pub open spec fn reaches_within(&self, query: PathQuery, start: Seq<char>, x: Seq<char>, d: nat) -> bool {
        exists|n: nat| n <= d && #[trigger] self.reaches(query, start, x, n)
    }

    /// Every relationship the query admits from `x` leads into `visited`.
    spec fn closed_at(&self, query: PathQuery, visited: Seq<Seq<char>>, x: Seq<char>) -> bool {
        forall|r: RelationshipView|
            #[trigger] self.rel_seq().contains(r) && admits(query, x, r) ==> visited.contains(
                step_to(query.direction, r, x),
            )
    }

    /// No walk of as many steps from `start` to `target` follows a sequence
    /// of relationships that comes before `key`.
    pub open spec fn least_walk(&self, query: PathQuery, start: Seq<char>, target: Seq<char>, key: Seq<Seq<char>>) -> bool {
        forall|nodes: Seq<Seq<char>>, rels: Seq<Seq<char>>|
            #[trigger] self.walk_valid(query, nodes, rels) && nodes[0] == start && nodes.last() == target
                && rels.len() == key.len() ==> !ids_before(rels, key)
    }

    /// A walk of one or more steps is a shorter walk and one last admitted
    /// relationship.
    proof fn lemma_walk_last_step(&self, query: PathQuery, nodes: Seq<Seq<char>>, rels: Seq<Seq<char>>)
        requires
            self.walk_valid(query, nodes, rels),
            rels.len() > 0,
        ensures
            self.walk_valid(query, nodes.drop_last(), rels.drop_last()),
            nodes.drop_last()[0] == nodes[0],
            nodes.drop_last().last() == nodes[rels.len() - 1],
            self.relationship(rels.last()) is Some,
            self.relationship(rels.last())->0.id == rels.last(),
            self.rel_seq().contains(self.relationship(rels.last())->0),
            admits(query, nodes[rels.len() - 1], self.relationship(rels.last())->0),
            step_to(query.direction, self.relationship(rels.last())->0, nodes[rels.len() - 1]) == nodes.last(),
            rels =~= rels.drop_last().push(rels.last()),
    {
        let pn = nodes.drop_last();
        let pr = rels.drop_last();
        assert forall|i: int|
            #![trigger pr[i]]
            0 <= i < pr.len() implies {
            &&& self.relationship(pr[i]) is Some
            &&& admits(query, pn[i], self.relationship(pr[i])->0)
            &&& step_to(query.direction, self.relationship(pr[i])->0, pn[i]) == pn[i + 1]
        } by {
            assert(pr[i] == rels[i]);
            assert(self.relationship(rels[i]) is Some);
        }
        let n = rels.len() - 1;
        assert(self.relationship(rels[n]) is Some);
        self.lemma_relationship_stored(rels[n]);
        let s = self.rel_seq();
        let i = choose|i: int| crate::memory::keyed::key_at(s, rel_key(), rels[n], i);
    }

    /// Breadth-first discovery finds the least walk: when the `k`-th admitted
    /// relationship of the `f`-th frontier node first reaches `x`, every walk
    /// to `x` one step longer than the frontier's follows relationships that
    /// do not come before the frontier path extended by that relationship.
    proof fn lemma_discovery_least(
        &self,
        query: PathQuery,
        a: Seq<char>,
        depth: nat,
        v0: Seq<Seq<char>>,
        visited: Seq<Seq<char>>,
        keys: Seq<Seq<Seq<char>>>,
        fnodes: Seq<Seq<char>>,
        f: int,
        fr: Seq<RelationshipView>,
        k: int,
        x: Seq<char>,
    )
        requires
            self.well_formed(),
            keys.len() == fnodes.len(),
            0 <= f < fnodes.len(),
            forall|g: int| 0 <= g < keys.len() ==> (#[trigger] keys[g]).len() == depth,
            forall|g: int, h: int| #![trigger keys[g], keys[h]] 0 <= g < h < keys.len() ==> ids_before(keys[g], keys[h]),
            forall|g: int| 0 <= g < keys.len() ==> self.least_walk(query, a, fnodes[g], #[trigger] keys[g]),
            forall|y: Seq<char>| #[trigger] self.reaches_within(query, a, y, depth) ==> v0.contains(y),
            forall|y: Seq<char>| v0.contains(y) && !fnodes.contains(y) ==> #[trigger] self.closed_at(query, v0, y),
            forall|y: Seq<char>| v0.contains(y) ==> #[trigger] visited.contains(y),
            forall|g: int| 0 <= g < f ==> #[trigger] self.closed_at(query, visited, fnodes[g]),
            fr == self.rel_seq().filter(admitted(query, fnodes[f])),
            0 <= k < fr.len(),
            x == step_to(query.direction, fr[k], fnodes[f]),
            forall|j: int| 0 <= j < k ==> visited.contains(#[trigger] step_to(query.direction, fr[j], fnodes[f])),
            !visited.contains(x),
        ensures
            self.least_walk(query, a, x, keys[f].push(fr[k].id)),
    {
        let key = keys[f].push(fr[k].id);
        let from = fnodes[f];
        crate::memory::keyed::lemma_filter_sorted(self.rel_seq(), rel_key(), admitted(query, from));
        assert forall|nodes: Seq<Seq<char>>, rels: Seq<Seq<char>>|
            #[trigger] self.walk_valid(query, nodes, rels) && nodes[0] == a && nodes.last() == x
                && rels.len() == key.len() implies !ids_before(rels, key) by {
            self.lemma_walk_last_step(query, nodes, rels);
            let pn = nodes.drop_last();
            let pr = rels.drop_last();
            let u = nodes[depth as int];
            let rv = self.relationship(rels.last())->0;
            assert(self.reaches(query, a, u, depth));
            assert(self.reaches_within(query, a, u, depth));
            assert(v0.contains(u));
            if !fnodes.contains(u) {
                assert(self.closed_at(query, v0, u));
                assert(v0.contains(x));
                assert(false);
            }
            let g = choose|g: int| 0 <= g < fnodes.len() && fnodes[g] == u;
            if g < f {
                assert(self.closed_at(query, visited, fnodes[g]));
                assert(false);
            }
            assert(self.least_walk(query, a, fnodes[g], keys[g]));
            assert(!ids_before(pr, keys[g]));
            lemma_ids_before_total(pr, keys[g]);
            lemma_ids_before_push(keys[f], pr, fr[k].id, rels.last());
            if g > f {
                assert(ids_before(keys[f], keys[g]));
                if pr != keys[g] {
                    lemma_ids_before_transitive(keys[f], keys[g], pr);
                }
                assert(ids_before(key, rels));
                lemma_ids_before_asymmetric(key, rels);
            } else if pr != keys[f] {
                assert(ids_before(keys[f], pr));
                lemma_ids_before_asymmetric(key, rels);
            } else {
                self.rel_seq().lemma_filter_contains_rev(admitted(query, from), rv);
                let i = choose|i: int| 0 <= i < self.rel_seq().len() && self.rel_seq()[i] == rv;
                self.rel_seq().lemma_filter_contains(admitted(query, from), i);
                let j = choose|j: int| 0 <= j < fr.len() && fr[j] == rv;
                if j < k {
                    assert(visited.contains(step_to(query.direction, fr[j], from)));
                    assert(false);
                } else if j == k {
                    assert(rels =~= key);
                    lemma_ids_before_irreflexive(key);
                } else {
                    assert(id_lt(rel_key()(fr[k]), rel_key()(fr[j])));
                    assert(ids_before(key, rels));
                    lemma_ids_before_asymmetric(key, rels);
                }
            }
        }
    }

    /// `p` is the path the search reports from `start` to `target`: a
    /// reportable path, shortest, and among the shortest the one whose
    /// relationship identifiers come first, compared one by one.
    pub open spec fn searched(&self, query: PathQuery, start: Seq<char>, target: Seq<char>, p: MemoryPath) -> bool {
        &&& self.is_found_path(query, start, target, p)
        &&& self.shortest(query, start, target, p)
        &&& self.least_walk(query, start, target, rel_id_views(p.relationships@))
    }

    /// Two walks from one start along the same relationships pass through
    /// the same nodes.
    proof fn lemma_walk_nodes_determined(
        &self,
        query: PathQuery,
        n1: Seq<Seq<char>>,
        n2: Seq<Seq<char>>,
        rels: Seq<Seq<char>>,
    )
        requires
            self.walk_valid(query, n1, rels),
            self.walk_valid(query, n2, rels),
            n1[0] == n2[0],
        ensures
            n1 == n2,
        decreases rels.len(),
    {
        if rels.len() > 0 {
            self.lemma_walk_last_step(query, n1, rels);
            self.lemma_walk_last_step(query, n2, rels);
            self.lemma_walk_nodes_determined(query, n1.drop_last(), n2.drop_last(), rels.drop_last());
            assert(n1 =~= n1.drop_last().push(n1.last()));
            assert(n2 =~= n2.drop_last().push(n2.last()));
        }
    }

    /// The search's answer is determined: two paths that both meet what the
    /// search reports for one start and target agree in their nodes, their
    /// relationships, and their weakest strength and confidence.
    pub proof fn lemma_searched_path_unique(
        &self,
        query: PathQuery,
        start: Seq<char>,
        target: Seq<char>,
        p: MemoryPath,
        q: MemoryPath,
    )
        requires
            self.searched(query, start, target, p),
            self.searched(query, start, target, q),
        ensures
            id_views(p.nodes@) == id_views(q.nodes@),
            rel_id_views(p.relationships@) == rel_id_views(q.relationships@),
            p.weakest_strength.view() == q.weakest_strength.view(),
            p.weakest_confidence.view() == q.weakest_confidence.view(),
    {
        let (pn, pr) = (id_views(p.nodes@), rel_id_views(p.relationships@));
        let (qn, qr) = (id_views(q.nodes@), rel_id_views(q.relationships@));
        if pr.len() < qr.len() {
            assert(self.reaches(query, start, target, pr.len()));
            assert(self.reaches_within(query, start, target, (qr.len() - 1) as nat));
        } else if qr.len() < pr.len() {
            assert(self.reaches(query, start, target, qr.len()));
            assert(self.reaches_within(query, start, target, (pr.len() - 1) as nat));
        } else {
            lemma_ids_before_total(pr, qr);
            assert(!ids_before(qr, pr));
            assert(!ids_before(pr, qr));
            self.lemma_walk_nodes_determined(query, pn, qn, pr);
        }
    }

    proof fn lemma_weakest_bounds(&self, query: PathQuery, rels: Seq<Seq<char>>, i: int)
        requires
            0 <= i < rels.len(),
        ensures
            self.weakest_strength_along(query, rels) <= edge_strength(query, self.relationship(rels[i])->0),
            self.weakest_confidence_along(rels) <= self.relationship(rels[i])->0.confidence.view(),
        decreases rels.len(),
    {
        if i < rels.len() - 1 {
            self.lemma_weakest_bounds(query, rels.drop_last(), i);
            assert(rels.drop_last()[i] == rels[i]);
        }
    }

    /// A reported path's score is its weakest link: it never exceeds the
    /// strength (as the query weighs it) or the confidence of any
    /// relationship on the path.
    pub proof fn lemma_path_score_is_weakest_link(
        &self,
        query: PathQuery,
        start: Seq<char>,
        target: Seq<char>,
        p: MemoryPath,
    )
        requires
            self.is_found_path(query, start, target, p),
        ensures
            forall|i: int|
                0 <= i < p.relationships@.len() ==> {
                    let r = self.relationship(#[trigger] rel_id_views(p.relationships@)[i])->0;
                    &&& p.score_spec() <= edge_strength(query, r)
                    &&& p.score_spec() <= r.confidence.view()
                },
    {
        let rels = rel_id_views(p.relationships@);
        assert forall|i: int| 0 <= i < p.relationships@.len() implies {
            let r = self.relationship(#[trigger] rel_id_views(p.relationships@)[i])->0;
            &&& p.score_spec() <= edge_strength(query, r)
            &&& p.score_spec() <= r.confidence.view()
        } by {
            self.lemma_weakest_bounds(query, rels, i);
            lemma_score_is_weakest_link(p);
        }
    }

    /// A stored relationship is one of the sequence's entries.
    proof fn lemma_relationship_stored(&self, id: Seq<char>)
        requires
            self.relationship(id) is Some,
        ensures
            self.rel_seq().contains(self.relationship(id)->0),
    {
        let s = self.rel_seq();
        let i = choose|i: int| crate::memory::keyed::key_at(s, rel_key(), id, i);
        assert(s[i] == self.relationship(id)->0);
    }

    /// A walk of no steps stays at its start.
    proof fn lemma_reaches_zero(&self, query: PathQuery, start: Seq<char>, x: Seq<char>)
        requires
            self.reaches(query, start, x, 0),
        ensures
            x == start,
    {
        let (nodes, rels) = choose|nodes: Seq<Seq<char>>, rels: Seq<Seq<char>>|
            #[trigger] self.walk_valid(query, nodes, rels) && nodes[0] == start && nodes.last() == x
                && rels.len() == 0;
        assert(nodes.len() == 1);
    }

    /// A walk of `n + 1` steps is a walk of `n` steps followed by one
    /// admitted relationship.
    proof fn lemma_reaches_step(&self, query: PathQuery, start: Seq<char>, y: Seq<char>, n: nat) -> (wr: (
        Seq<char>,
        RelationshipView,
    ))
        requires
            self.reaches(query, start, y, n + 1),
        ensures
            self.reaches(query, start, wr.0, n),
            self.rel_seq().contains(wr.1),
            admits(query, wr.0, wr.1),
            step_to(query.direction, wr.1, wr.0) == y,
    {
        let (nodes, rels) = choose|nodes: Seq<Seq<char>>, rels: Seq<Seq<char>>|
            #[trigger] self.walk_valid(query, nodes, rels) && nodes[0] == start && nodes.last() == y
                && rels.len() == n + 1;
        let pn = nodes.take((n + 1) as int);
        let pr = rels.take(n as int);
        assert(self.walk_valid(query, pn, pr)) by {
            assert forall|i: int|
                #![trigger pr[i]]
                0 <= i < pr.len() implies {
                &&& self.relationship(pr[i]) is Some
                &&& admits(query, pn[i], self.relationship(pr[i])->0)
                &&& step_to(query.direction, self.relationship(pr[i])->0, pn[i]) == pn[i + 1]
            } by {
                assert(pr[i] == rels[i]);
                assert(pn[i] == nodes[i]);
                assert(pn[i + 1] == nodes[i + 1]);
                assert(self.relationship(rels[i]) is Some);
            }
        }
        assert(pn[0] == start);
        let w = nodes[n as int];
        assert(pn.last() == w);
        assert(self.reaches(query, start, w, n));
        assert(self.relationship(rels[n as int]) is Some);
        let r = self.relationship(rels[n as int])->0;
        self.lemma_relationship_stored(rels[n as int]);
        assert(nodes[(n + 1) as int] == y);
        (w, r)
    }

    /// A set of nodes that holds the start and every node one admitted step
    /// from its members holds every node a walk from the start reaches.
    proof fn lemma_closed_holds_walks(
        &self,
        query: PathQuery,
        start: Seq<char>,
        visited: Seq<Seq<char>>,
        x: Seq<char>,
        n: nat,
    )
        requires
            visited.contains(start),
            forall|v: Seq<char>| visited.contains(v) ==> #[trigger] self.closed_at(query, visited, v),
            self.reaches(query, start, x, n),
        ensures
            visited.contains(x),
        decreases n,
    {
        if n == 0 {
            self.lemma_reaches_zero(query, start, x);
        } else {
            let (w, r) = self.lemma_reaches_step(query, start, x, (n - 1) as nat);
            self.lemma_closed_holds_walks(query, start, visited, w, (n - 1) as nat);
            assert(self.closed_at(query, visited, w));
        }
    }

    /// Admitted steps that lead into a set lead into any larger set.
    proof fn lemma_closed_grows(&self, query: PathQuery, small: Seq<Seq<char>>, large: Seq<Seq<char>>, x: Seq<char>)
        requires
            self.closed_at(query, small, x),
            forall|v: Seq<char>| small.contains(v) ==> #[trigger] large.contains(v),
        ensures
            self.closed_at(query, large, x),
    {
        assert forall|r: RelationshipView|
            #[trigger] self.rel_seq().contains(r) && admits(query, x, r) implies large.contains(
            step_to(query.direction, r, x),
        ) by {
            assert(small.contains(step_to(query.direction, r, x)));
        }
    }

    /// When every node reached within `d` steps is in `before`, and every
    /// member of `before` has its admitted steps in `after`, every node reached
    /// within `d + 1` steps is in `after`.
    proof fn lemma_within_extends(
        &self,
        query: PathQuery,
        start: Seq<char>,
        before: Seq<Seq<char>>,
        after: Seq<Seq<char>>,
        d: nat,
    )
        requires
            forall|x: Seq<char>| #[trigger] self.reaches_within(query, start, x, d) ==> before.contains(x),
            forall|v: Seq<char>| before.contains(v) ==> #[trigger] self.closed_at(query, after, v),
            forall|v: Seq<char>| before.contains(v) ==> #[trigger] after.contains(v),
        ensures
            forall|y: Seq<char>| #[trigger] self.reaches_within(query, start, y, d + 1) ==> after.contains(y),
    {
        assert forall|y: Seq<char>| #[trigger] self.reaches_within(query, start, y, d + 1) implies after.contains(
            y,
        ) by {
            let n = choose|n: nat| n <= d + 1 && #[trigger] self.reaches(query, start, y, n);
            if n <= d {
                assert(self.reaches_within(query, start, y, d));
            } else {
                let (w, r) = self.lemma_reaches_step(query, start, y, d);
                assert(self.reaches_within(query, start, w, d));
                assert(before.contains(w));
                assert(self.closed_at(query, after, w));
            }
        }
    }
}

impl MemoryStore {
    /// A relationship the search follows from `from` is stored under its
    /// identifier and admitted by the query.
    proof fn lemma_admitted_member(&self, query: PathQuery, from: Seq<char>, f: Seq<RelationshipView>, k: int)
        requires
            self.well_formed(),
            f == self.rel_seq().filter(admitted(query, from)),
            0 <= k < f.len(),
        ensures
            self.relationship(f[k].id) == Some(f[k]),
            admits(query, from, f[k]),
    {
        let s = self.rel_seq();
        s.lemma_filter_pred(admitted(query, from), k);
        assert(f.contains(f[k]));
        s.lemma_filter_contains_rev(admitted(query, from), f[k]);
        let j = choose|j: int| 0 <= j < s.len() && s[j] == f[k];
        lemma_entry_at(s, rel_key(), j);
    }

    /// Breadth-first search for a path from `start` to `target` under the
    /// query's limits and filters. A reported path is a walk through distinct
    /// nodes along admitted relationships, at most `max_depth` long, with its
    /// weakest strength and confidence; it is a shortest one, and among the
    /// shortest the one whose relationship identifiers come first. `None`
    /// means no walk within the limit reaches the target.
    #[verifier::spinoff_prover]
    #[verifier::rlimit(50)]
    pub fn find_path(&self, start: &MemoryNodeId, target: &MemoryNodeId, query: &PathQuery) -> (r:
        Option<MemoryPath>)
        requires
            self.well_formed(),
        ensures
            r matches Some(p) ==> self.is_found_path(*query, start.0@, target.0@, p),
            start.0@ == target.0@ ==> r is Some,
            r is None ==> !self.reaches_within(*query, start.0@, target.0@, query.max_depth as nat),
            r matches Some(p) ==> self.shortest(*query, start.0@, target.0@, p),
            r matches Some(p) ==> self.least_walk(*query, start.0@, target.0@, rel_id_views(p.relationships@)),
            r matches Some(p) ==> self.searched(*query, start.0@, target.0@, p),
    {
        let full_strength = MemoryStrength::new(100).unwrap();
        let full_confidence = MemoryConfidence::new(100).unwrap();
        if str_eq(start.0.as_str(), target.0.as_str()) {
            let mut nodes: Vec<MemoryNodeId> = Vec::new();
            nodes.push(start.clone());
            let p = MemoryPath {
                nodes,
                relationships: Vec::new(),
                weakest_strength: full_strength,
                weakest_confidence: full_confidence,
            };
            proof {
                assert(id_views(p.nodes@) =~= seq![start.0@]);
                assert(rel_id_views(p.relationships@) =~= Seq::<Seq<char>>::empty());
            }
            return Some(p);
        }
        if query.max_depth == 0 {
            proof {
                if self.reaches_within(*query, start.0@, target.0@, 0) {
                    let n = choose|n: nat| n <= 0 && #[trigger] self.reaches(*query, start.0@, target.0@, n);
                    self.lemma_reaches_zero(*query, start.0@, target.0@);
                }
            }
            return None;
        }
        let ghost a = start.0@;
        let ghost z = target.0@;
        let mut visited: Vec<MemoryNodeId> = Vec::new();
        visited.push(start.clone());
        let mut first_nodes: Vec<MemoryNodeId> = Vec::new();
        first_nodes.push(start.clone());
        let first = PathCandidate {
            node: start.clone(),
            nodes: first_nodes,
            relationships: Vec::new(),
            weakest_strength: full_strength,
            weakest_confidence: full_confidence,
        };
        proof {
            assert(id_views(first.nodes@) =~= seq![a]);
            assert(rel_id_views(first.relationships@) =~= Seq::<Seq<char>>::empty());
            assert(id_views(visited@) =~= seq![a]);
            assert(id_views(visited@)[0] == a);
        }
        let mut frontier: Vec<PathCandidate> = Vec::new();
        frontier.push(first);
        let mut depth: usize = 0;
        proof {
            assert(frontier_nodes(frontier@) =~= seq![a]);
            assert(keys_of(frontier@)[0].len() == 0);
            assert forall|x: Seq<char>| #[trigger] self.reaches_within(*query, a, x, 0) implies id_views(
                visited@,
            ).contains(x) by {
                let n = choose|n: nat| n <= 0 && #[trigger] self.reaches(*query, a, x, n);
                self.lemma_reaches_zero(*query, a, x);
            }
            assert forall|x: Seq<char>|
                id_views(visited@).contains(x) && !frontier_nodes(frontier@).contains(x) implies #[trigger] self.closed_at(
                *query,
                id_views(visited@),
                x,
            ) by {
                assert(frontier_nodes(frontier@)[0] == a);
            }
        }
        while depth < query.max_depth && frontier.len() > 0
            invariant
                self.well_formed(),
                a == start.0@,
                z == target.0@,
                a != z,
                depth <= query.max_depth,
                forall|f: int|
                    0 <= f < frontier@.len() ==> self.candidate_ok(
                        *query,
                        a,
                        id_views(visited@),
                        depth as nat,
                        #[trigger] frontier@[f],
                    ),
                id_views(visited@).contains(a),
                !id_views(visited@).contains(z),
                forall|x: Seq<char>|
                    #[trigger] self.reaches_within(*query, a, x, depth as nat) ==> id_views(visited@).contains(x),
                forall|x: Seq<char>|
                    id_views(visited@).contains(x) && !frontier_nodes(frontier@).contains(x)
                        ==> #[trigger] self.closed_at(*query, id_views(visited@), x),
                forall|g: int, h: int|
                    #![trigger keys_of(frontier@)[g], keys_of(frontier@)[h]]
                    0 <= g < h < frontier@.len() ==> ids_before(keys_of(frontier@)[g], keys_of(frontier@)[h]),
                forall|g: int|
                    0 <= g < frontier@.len() ==> self.least_walk(
                        *query,
                        a,
                        frontier_nodes(frontier@)[g],
                        #[trigger] keys_of(frontier@)[g],
                    ),
            decreases query.max_depth - depth,
        {
            let mut next: Vec<PathCandidate> = Vec::new();
            let mut f: usize = 0;
            let ghost v0 = id_views(visited@);
            let ghost fnodes = frontier_nodes(frontier@);
            assert(id_views(visited@) =~= v0 + frontier_nodes(next@));
            while f < frontier.len()
                invariant
                    self.well_formed(),
                    a == start.0@,
                    z == target.0@,
                    a != z,
                    depth < query.max_depth,
                    forall|g: int|
                        0 <= g < frontier@.len() ==> self.candidate_ok(
                            *query,
                            a,
                            id_views(visited@),
                            depth as nat,
                            #[trigger] frontier@[g],
                        ),
                    forall|g: int|
                        0 <= g < next@.len() ==> self.candidate_ok(
                            *query,
                            a,
                            id_views(visited@),
                            (depth + 1) as nat,
                            #[trigger] next@[g],
                        ),
                    f <= frontier@.len(),
                    v0.contains(a),
                    fnodes == frontier_nodes(frontier@),
                    id_views(visited@) == v0 + frontier_nodes(next@),
                    !id_views(visited@).contains(z),
                    forall|x: Seq<char>| #[trigger] self.reaches_within(*query, a, x, depth as nat) ==> v0.contains(x),
                    forall|x: Seq<char>|
                        v0.contains(x) && !fnodes.contains(x) ==> #[trigger] self.closed_at(*query, v0, x),
                    forall|g: int|
                        0 <= g < f ==> #[trigger] self.closed_at(*query, id_views(visited@), fnodes[g]),
                    forall|g: int, h: int|
                        #![trigger keys_of(frontier@)[g], keys_of(frontier@)[h]]
                        0 <= g < h < frontier@.len() ==> ids_before(keys_of(frontier@)[g], keys_of(frontier@)[h]),
                    forall|g: int|
                        0 <= g < frontier@.len() ==> self.least_walk(
                            *query,
                            a,
                            frontier_nodes(frontier@)[g],
                            #[trigger] keys_of(frontier@)[g],
                        ),
                    forall|g: int, h: int|
                        #![trigger keys_of(next@)[g], keys_of(next@)[h]]
                        0 <= g < h < next@.len() ==> ids_before(keys_of(next@)[g], keys_of(next@)[h]),
                    forall|g: int|
                        0 <= g < next@.len() ==> self.least_walk(
                            *query,
                            a,
                            frontier_nodes(next@)[g],
                            #[trigger] keys_of(next@)[g],
                        ),
                    next@.len() > 0 ==> exists|g: int, y: Seq<char>|
                        0 <= g < f && #[trigger] keys_of(frontier@)[g].push(y) == keys_of(next@).last(),
                decreases frontier@.len() - f,
            {
                let candidate = &frontier[f];
                assert(self.candidate_ok(*query, a, id_views(visited@), depth as nat, frontier@[f as int]));
                let rels = self.reasoning_relationships(&candidate.node, query);
                let ghost from = candidate.node.0@;
                let ghost fr = rel_views(rels@);
                let mut k: usize = 0;
                while k < rels.len()
                    invariant
                        self.well_formed(),
                        a == start.0@,
                        z == target.0@,
                        a != z,
                        depth < query.max_depth,
                        f < frontier@.len(),
                        *candidate == frontier@[f as int],
                        from == candidate.node.0@,
                        fr == rel_views(rels@),
                        fr == self.rel_seq().filter(admitted(*query, from)),
                        forall|g: int|
                            0 <= g < frontier@.len() ==> self.candidate_ok(
                                *query,
                                a,
                                id_views(visited@),
                                depth as nat,
                                #[trigger] frontier@[g],
                            ),
                        forall|g: int|
                            0 <= g < next@.len() ==> self.candidate_ok(
                                *query,
                                a,
                                id_views(visited@),
                                (depth + 1) as nat,
                                #[trigger] next@[g],
                            ),
                        k <= rels@.len(),
                        v0.contains(a),
                        fnodes == frontier_nodes(frontier@),
                        id_views(visited@) == v0 + frontier_nodes(next@),
                        !id_views(visited@).contains(z),
                        forall|x: Seq<char>|
                            #[trigger] self.reaches_within(*query, a, x, depth as nat) ==> v0.contains(x),
                        forall|x: Seq<char>|
                            v0.contains(x) && !fnodes.contains(x) ==> #[trigger] self.closed_at(*query, v0, x),
                        forall|g: int|
                            0 <= g < f ==> #[trigger] self.closed_at(*query, id_views(visited@), fnodes[g]),
                        forall|j: int|
                            0 <= j < k ==> #[trigger] id_views(visited@).contains(
                                step_to(query.direction, fr[j], from),
                            ),
                        forall|g: int, h: int|
                            #![trigger keys_of(frontier@)[g], keys_of(frontier@)[h]]
                            0 <= g < h < frontier@.len() ==> ids_before(keys_of(frontier@)[g], keys_of(frontier@)[h]),
                        forall|g: int|
                            0 <= g < frontier@.len() ==> self.least_walk(
                                *query,
                                a,
                                frontier_nodes(frontier@)[g],
                                #[trigger] keys_of(frontier@)[g],
                            ),
                        forall|g: int, h: int|
                            #![trigger keys_of(next@)[g], keys_of(next@)[h]]
                            0 <= g < h < next@.len() ==> ids_before(keys_of(next@)[g], keys_of(next@)[h]),
                        forall|g: int|
                            0 <= g < next@.len() ==> self.least_walk(
                                *query,
                                a,
                                frontier_nodes(next@)[g],
                                #[trigger] keys_of(next@)[g],
                            ),
                        next@.len() > 0 ==> (exists|g: int, y: Seq<char>|
                            0 <= g < f && #[trigger] keys_of(frontier@)[g].push(y) == keys_of(next@).last())
                            || (exists|j: int|
                            0 <= j < k && #[trigger] keys_of(frontier@)[f as int].push(fr[j].id) == keys_of(
                                next@,
                            ).last()),
                    decreases rels@.len() - k,
                {
                    let rel = &rels[k];
                    proof {
                        assert(fr[k as int] == rel@);
                        self.lemma_admitted_member(*query, from, fr, k as int);
                    }
                    let next_id = match query.direction {
                        TraversalDirection::Any => if str_eq(
                            rel.source.0.as_str(),
                            candidate.node.0.as_str(),
                        ) {
                            rel.target.clone()
                        } else {
                            rel.source.clone()
                        },
                        TraversalDirection::Outgoing => rel.target.clone(),
                        TraversalDirection::Incoming => rel.source.clone(),
                    };
                    assert(next_id.0@ == step_to(query.direction, rel@, from));
                    if !contains_id(&visited, &next_id) {
                        let ghost old_visited = id_views(visited@);
                        proof {
                            assert forall|g: int| 0 <= g < keys_of(frontier@).len() implies (
                            #[trigger] keys_of(frontier@)[g]).len() == depth as nat by {
                                assert(self.candidate_ok(*query, a, old_visited, depth as nat, frontier@[g]));
                            }
                            assert forall|y: Seq<char>| v0.contains(y) implies #[trigger] old_visited.contains(y) by {
                                let i = choose|i: int| 0 <= i < v0.len() && v0[i] == y;
                                assert(old_visited[i] == y);
                            }
                            assert(fnodes[f as int] == from);
                            self.lemma_discovery_least(
                                *query,
                                a,
                                depth as nat,
                                v0,
                                old_visited,
                                keys_of(frontier@),
                                fnodes,
                                f as int,
                                fr,
                                k as int,
                                next_id.0@,
                            );
                            assert(keys_of(frontier@)[f as int] == rel_id_views(candidate.relationships@));
                        }
                        visited.push(next_id.clone());
                        let mut nodes = clone_node_ids(&candidate.nodes);
                        nodes.push(next_id.clone());
                        let mut relationships = clone_relationship_ids(&candidate.relationships);
                        relationships.push(rel.id.clone());
                        let edge = match query.evaluation_time {
                            None => rel.strength,
                            Some(now) => rel.effective_strength(now),
                        };
                        let weakest_strength = min_strength(candidate.weakest_strength, edge);
                        let weakest_confidence = min_confidence(
                            candidate.weakest_confidence,
                            rel.confidence,
                        );
                        let ghost cn = id_views(candidate.nodes@);
                        let ghost cr = rel_id_views(candidate.relationships@);
                        let ghost nn = id_views(nodes@);
                        let ghost nr = rel_id_views(relationships@);
                        proof {
                            assert(nn =~= cn.push(next_id.0@));
                            assert(nr =~= cr.push(rel.id.0@));
                            assert(id_views(visited@) =~= old_visited.push(next_id.0@));
                            assert(self.relationship(rel@.id) == Some(rel@));
                            assert(nr.drop_last() =~= cr);
                            assert(self.walk_valid(*query, nn, nr)) by {
                                assert forall|i: int|
                                    #![trigger nr[i]]
                                    0 <= i < nr.len() implies {
                                    &&& self.relationship(nr[i]) is Some
                                    &&& admits(*query, nn[i], self.relationship(nr[i])->0)
                                    &&& step_to(query.direction, self.relationship(nr[i])->0, nn[i])
                                        == nn[i + 1]
                                } by {
                                    if i < cr.len() {
                                        assert(nr[i] == cr[i]);
                                        assert(nn[i] == cn[i]);
                                        assert(nn[i + 1] == cn[i + 1]);
                                    } else {
                                        assert(nn[i] == cn.last());
                                    }
                                }
                            }
                            assert(nn.no_duplicates()) by {
                                assert forall|x: int, y: int|
                                    0 <= x < nn.len() && 0 <= y < nn.len() && x != y implies nn[x]
                                    != nn[y] by {
                                    if x < cn.len() && y < cn.len() {
                                        assert(nn[x] == cn[x] && nn[y] == cn[y]);
                                    } else if x == cn.len() {
                                        assert(old_visited.contains(cn[y]));
                                    } else {
                                        assert(old_visited.contains(cn[x]));
                                    }
                                }
                            }
                            assert forall|i: int| 0 <= i < nn.len() implies id_views(
                                visited@,
                            ).contains(#[trigger] nn[i]) by {
                                if i < cn.len() {
                                    assert(old_visited.contains(cn[i]));
                                    let j = choose|j: int| 0 <= j < old_visited.len() && old_visited[j] == cn[i];
                                    assert(id_views(visited@)[j] == cn[i]);
                                } else {
                                    assert(id_views(visited@)[old_visited.len() as int] == next_id.0@);
                                }
                            }
                            assert forall|g: int| 0 <= g < frontier@.len() implies self.candidate_ok(
                                *query,
                                a,
                                id_views(visited@),
                                depth as nat,
                                #[trigger] frontier@[g],
                            ) by {
                                let c = frontier@[g];
                                assert(self.candidate_ok(*query, a, old_visited, depth as nat, c));
                                assert forall|i: int| 0 <= i < id_views(c.nodes@).len() implies id_views(
                                    visited@,
                                ).contains(#[trigger] id_views(c.nodes@)[i]) by {
                                    let w = id_views(c.nodes@)[i];
                                    assert(old_visited.contains(w));
                                    let j = choose|j: int| 0 <= j < old_visited.len() && old_visited[j] == w;
                                    assert(id_views(visited@)[j] == w);
                                }
                            }
                            assert forall|g: int| 0 <= g < next@.len() implies self.candidate_ok(
                                *query,
                                a,
                                id_views(visited@),
                                (depth + 1) as nat,
                                #[trigger] next@[g],
                            ) by {
                                let c = next@[g];
                                assert(self.candidate_ok(*query, a, old_visited, (depth + 1) as nat, c));
                                assert forall|i: int| 0 <= i < id_views(c.nodes@).len() implies id_views(
                                    visited@,
                                ).contains(#[trigger] id_views(c.nodes@)[i]) by {
                                    let w = id_views(c.nodes@)[i];
                                    assert(old_visited.contains(w));
                                    let j = choose|j: int| 0 <= j < old_visited.len() && old_visited[j] == w;
                                    assert(id_views(visited@)[j] == w);
                                }
                            }
                        }
                        if str_eq(next_id.0.as_str(), target.0.as_str()) {
                            let p = MemoryPath {
                                nodes,
                                relationships,
                                weakest_strength,
                                weakest_confidence,
                            };
                            proof {
                                assert(nn[0] == cn[0]);
                                assert(nr == keys_of(frontier@)[f as int].push(fr[k as int].id));
                                assert(nr.len() == depth + 1);
                                if self.reaches_within(*query, a, z, depth as nat) {
                                    assert(v0.contains(z));
                                    let i = choose|i: int| 0 <= i < v0.len() && v0[i] == z;
                                    assert(old_visited[i] == z);
                                }
                            }
                            return Some(p);
                        }
                        let c = PathCandidate {
                            node: next_id,
                            nodes,
                            relationships,
                            weakest_strength,
                            weakest_confidence,
                        };
                        proof {
                            assert(nn[0] == cn[0]);
                            assert(self.candidate_ok(*query, a, id_views(visited@), (depth + 1) as nat, c));
                        }
                        let ghost next_before = next@;
                        next.push(c);
                        proof {
                            let kn = keys_of(next@);
                            let ko = keys_of(next_before);
                            let kf = keys_of(frontier@);
                            assert(nr == kf[f as int].push(fr[k as int].id));
                            assert(kn =~= ko.push(nr));
                            crate::memory::keyed::lemma_filter_sorted(self.rel_seq(), rel_key(), admitted(*query, from));
                            assert forall|g: int| 0 <= g < kf.len() implies (#[trigger] kf[g]).len() == depth as nat by {
                                assert(self.candidate_ok(*query, a, old_visited, depth as nat, frontier@[g]));
                            }
                            lemma_next_ordered(kf, ko, f as int, k as int, fr, depth as nat);
                            assert forall|g: int| 0 <= g < next@.len() implies self.least_walk(
                                *query,
                                a,
                                frontier_nodes(next@)[g],
                                #[trigger] kn[g],
                            ) by {
                                if g < ko.len() {
                                    assert(kn[g] == ko[g]);
                                    assert(frontier_nodes(next@)[g] == frontier_nodes(next_before)[g]);
                                } else {
                                    assert(frontier_nodes(next@)[g] == next_id.0@);
                                }
                            }
                            assert(kf[f as int].push(fr[k as int].id) == kn.last());
                            let vis = id_views(visited@);
                            assert(frontier_nodes(next@) =~= frontier_nodes(next_before).push(next_id.0@));
                            assert(vis =~= v0 + frontier_nodes(next@));
                            assert forall|v: Seq<char>| old_visited.contains(v) implies #[trigger] vis.contains(v) by {
                                let i = choose|i: int| 0 <= i < old_visited.len() && old_visited[i] == v;
                                assert(vis[i] == v);
                            }
                            assert forall|g: int| 0 <= g < f implies #[trigger] self.closed_at(*query, vis, fnodes[g]) by {
                                self.lemma_closed_grows(*query, old_visited, vis, fnodes[g]);
                            }
                            assert(vis[old_visited.len() as int] == next_id.0@);
                            assert forall|j: int| 0 <= j <= k implies #[trigger] vis.contains(
                                step_to(query.direction, fr[j], from),
                            ) by {
                                if j < k {
                                    assert(old_visited.contains(step_to(query.direction, fr[j], from)));
                                }
                            }
                            assert(!vis.contains(z)) by {
                                if vis.contains(z) {
                                    let i = choose|i: int| 0 <= i < vis.len() && vis[i] == z;
                                    if i < old_visited.len() {
                                        assert(old_visited[i] == z);
                                    }
                                }
                            }
                        }
                    }
                    k = k + 1;
                }
                proof {
                    let vis = id_views(visited@);
                    assert forall|r: RelationshipView|
                        #[trigger] self.rel_seq().contains(r) && admits(*query, from, r) implies vis.contains(
                        step_to(query.direction, r, from),
                    ) by {
                        let i = choose|i: int| 0 <= i < self.rel_seq().len() && self.rel_seq()[i] == r;
                        self.rel_seq().lemma_filter_contains(admitted(*query, from), i);
                        let j = choose|j: int| 0 <= j < fr.len() && fr[j] == r;
                    }
                    assert(fnodes[f as int] == from);
                    assert(self.closed_at(*query, vis, fnodes[f as int]));
                    if next@.len() > 0 {
                        if exists|j: int|
                            0 <= j < k && #[trigger] keys_of(frontier@)[f as int].push(fr[j].id) == keys_of(
                                next@,
                            ).last() {
                            let j = choose|j: int|
                                0 <= j < k && #[trigger] keys_of(frontier@)[f as int].push(fr[j].id) == keys_of(
                                    next@,
                                ).last();
                            assert(keys_of(frontier@)[f as int].push(fr[j].id) == keys_of(next@).last());
                        }
                    }
                }
                f = f + 1;
            }
            proof {
                let vis = id_views(visited@);
                assert forall|v: Seq<char>| v0.contains(v) implies #[trigger] vis.contains(v) by {
                    let i = choose|i: int| 0 <= i < v0.len() && v0[i] == v;
                    assert(vis[i] == v);
                }
                assert forall|v: Seq<char>| v0.contains(v) implies #[trigger] self.closed_at(*query, vis, v) by {
                    if fnodes.contains(v) {
                        let g = choose|g: int| 0 <= g < fnodes.len() && fnodes[g] == v;
                    } else {
                        self.lemma_closed_grows(*query, v0, vis, v);
                    }
                }
                self.lemma_within_extends(*query, a, v0, vis, depth as nat);
                assert forall|x: Seq<char>|
                    vis.contains(x) && !frontier_nodes(next@).contains(x) implies #[trigger] self.closed_at(
                    *query,
                    vis,
                    x,
                ) by {
                    let i = choose|i: int| 0 <= i < vis.len() && vis[i] == x;
                    if i >= v0.len() {
                        assert(frontier_nodes(next@)[i - v0.len()] == x);
                    }
                    assert(v0[i] == x);
                }
            }
            let ghost grown: nat = depth as nat + 1;
            assert forall|x: Seq<char>| #[trigger] self.reaches_within(*query, a, x, grown) implies id_views(
                visited@,
            ).contains(x) by {}
            frontier = next;
            depth = depth + 1;
            assert(depth as nat == grown);
        }
        proof {
            if self.reaches_within(*query, a, z, query.max_depth as nat) {
                if depth < query.max_depth {
                    let vis = id_views(visited@);
                    assert forall|v: Seq<char>| vis.contains(v) implies #[trigger] self.closed_at(*query, vis, v) by {
                        assert(frontier_nodes(frontier@).len() == 0);
                    }
                    let n = choose|n: nat| n <= query.max_depth && #[trigger] self.reaches(*query, a, z, n);
                    self.lemma_closed_holds_walks(*query, a, vis, z, n);
                }
            }
        }
        None
    }
}


/// Reasoning-active threat nodes.
pub open spec fn active_threat() -> spec_fn(MemoryNode) -> bool {
    |n: MemoryNode| n.kind == MemoryNodeKind::Threat && n.state.active_spec()
}

/// Recently seen nodes come first: later `last_seen_at`, then identifier.
pub open spec fn seen_before(a: MemoryNode, b: MemoryNode) -> bool {
    ||| a.last_seen_at > b.last_seen_at
    ||| a.last_seen_at == b.last_seen_at && id_lt(a.id.0@, b.id.0@)
}

proof fn lemma_seen_before_transitive(a: MemoryNode, b: MemoryNode, c: MemoryNode)
    requires
        seen_before(a, b),
        seen_before(b, c),
    ensures
        seen_before(a, c),
{
    if a.last_seen_at == b.last_seen_at && b.last_seen_at == c.last_seen_at {
        crate::text::lemma_id_lt_transitive(a.id.0@, b.id.0@, c.id.0@);
    }
}

/// Whether `a` is seen before `b`.
fn seen_earlier(a: &MemoryNode, b: &MemoryNode) -> (r: bool)
    ensures
        r == seen_before(*a, *b),
{
    if a.last_seen_at != b.last_seen_at {
        return a.last_seen_at > b.last_seen_at;
    }
    str_lt(a.id.0.as_str(), b.id.0.as_str())
}

/// Whether `listed` are the `limit` most recently seen nodes of `store`, in
/// order: as many as the limit allows, each stored, ordered by `seen_before`,
/// and every node left out seen after all listed ones.
pub open spec fn recent_listing(store: MemoryStore, limit: usize, listed: Seq<MemoryNode>) -> bool {
    &&& listed.len() == if limit < store.node_seq().len() {
        limit as int
    } else {
        store.node_seq().len() as int
    }
    &&& forall|i: int| 0 <= i < listed.len() ==> store.node_seq().contains(#[trigger] listed[i])
    &&& forall|i: int, j: int|
        #![trigger listed[i], listed[j]]
        0 <= i < j < listed.len() ==> seen_before(listed[i], listed[j])
    &&& forall|k: int|
        0 <= k < store.node_seq().len() ==> listed.contains(#[trigger] store.node_seq()[k])
            || forall|i: int| 0 <= i < listed.len() ==> seen_before(listed[i], store.node_seq()[k])
}

impl MemoryStore {
    /// The `limit` most recently seen nodes, latest `last_seen_at` first and
    /// identifiers in ascending order among equals.
    pub fn recent_nodes(&self, limit: usize) -> (r: Vec<MemoryNode>)
        requires
            self.well_formed(),
        ensures
            recent_listing(*self, limit, r@),
    {
        let mut sorted: Vec<MemoryNode> = Vec::new();
        if limit == 0 {
            return sorted;
        }
        let ghost ns = self.node_seq();
        let mut t: usize = 0;
        while t < self.nodes.len()
            invariant
                self.well_formed(),
                ns == self.node_seq(),
                self.nodes@ == ns,
                t <= ns.len(),
                sorted@.len() == t,
                forall|i: int| 0 <= i < sorted@.len() ==> ns.take(t as int).contains(
                    #[trigger] sorted@[i],
                ),
                forall|k: int| 0 <= k < t ==> sorted@.contains(#[trigger] ns[k]),
                forall|i: int, j: int|
                    #![trigger sorted@[i], sorted@[j]]
                    0 <= i < j < sorted@.len() ==> seen_before(sorted@[i], sorted@[j]),
            decreases ns.len() - t,
        {
            let entry = self.nodes[t].clone();
            let mut pos: usize = 0;
            while pos < sorted.len()
                invariant
                    pos <= sorted@.len(),
                    forall|i: int| 0 <= i < pos ==> !seen_before(entry, #[trigger] sorted@[i]),
                ensures
                    pos <= sorted@.len(),
                    forall|i: int| 0 <= i < pos ==> !seen_before(entry, #[trigger] sorted@[i]),
                    pos < sorted@.len() ==> seen_before(entry, sorted@[pos as int]),
                decreases sorted@.len() - pos,
            {
                if seen_earlier(&entry, &sorted[pos]) {
                    break;
                }
                pos = pos + 1;
            }
            let ghost old_s = sorted@;
            proof {
                assert forall|i: int| 0 <= i < old_s.len() implies old_s[i].id.0@ != entry.id.0@ by {
                    let q = choose|q: int| 0 <= q < t && ns.take(t as int)[q] == old_s[i];
                    assert(old_s[i] == ns[q]);
                    assert(id_lt(ns[q].id.0@, ns[t as int].id.0@));
                    crate::text::lemma_id_lt_irreflexive(entry.id.0@);
                }
                assert forall|i: int| 0 <= i < pos implies seen_before(#[trigger] old_s[i], entry) by {
                    lemma_id_lt_total(old_s[i].id.0@, entry.id.0@);
                }
            }
            sorted.insert(pos, entry);
            proof {
                let nsd = sorted@;
                assert forall|i: int, j: int|
                    #![trigger nsd[i], nsd[j]]
                    0 <= i < j < nsd.len() implies seen_before(nsd[i], nsd[j]) by {
                    if j < pos {
                        assert(nsd[i] == old_s[i] && nsd[j] == old_s[j]);
                    } else if j == pos {
                        assert(nsd[i] == old_s[i]);
                    } else if i < pos {
                        assert(nsd[i] == old_s[i] && nsd[j] == old_s[j - 1]);
                        if j - 1 > pos {
                            assert(seen_before(old_s[pos as int], old_s[j - 1]));
                            lemma_seen_before_transitive(entry, old_s[pos as int], old_s[j - 1]);
                        }
                        lemma_seen_before_transitive(old_s[i], entry, old_s[j - 1]);
                    } else if i == pos {
                        assert(nsd[j] == old_s[j - 1]);
                        if j - 1 > pos {
                            assert(seen_before(old_s[pos as int], old_s[j - 1]));
                            lemma_seen_before_transitive(entry, old_s[pos as int], old_s[j - 1]);
                        }
                    } else {
                        assert(nsd[i] == old_s[i - 1] && nsd[j] == old_s[j - 1]);
                    }
                }
                assert forall|i: int| 0 <= i < nsd.len() implies ns.take(t + 1).contains(
                    #[trigger] nsd[i],
                ) by {
                    if i < pos {
                        assert(nsd[i] == old_s[i]);
                        let q = choose|q: int| 0 <= q < t && ns.take(t as int)[q] == old_s[i];
                        assert(ns.take(t + 1)[q] == nsd[i]);
                    } else if i > pos {
                        assert(nsd[i] == old_s[i - 1]);
                        let q = choose|q: int| 0 <= q < t && ns.take(t as int)[q] == old_s[i - 1];
                        assert(ns.take(t + 1)[q] == nsd[i]);
                    } else {
                        assert(ns.take(t + 1)[t as int] == nsd[i]);
                    }
                }
                assert forall|k: int| 0 <= k < t + 1 implies nsd.contains(#[trigger] ns[k]) by {
                    if k == t {
                        assert(nsd[pos as int] == ns[k]);
                    } else {
                        let i = choose|i: int| 0 <= i < old_s.len() && old_s[i] == ns[k];
                        if i < pos {
                            assert(nsd[i] == ns[k]);
                        } else {
                            assert(nsd[i + 1] == ns[k]);
                        }
                    }
                }
            }
            t = t + 1;
        }
        proof {
            assert(ns.take(ns.len() as int) =~= ns);
        }
        let ghost full = sorted@;
        if limit < sorted.len() {
            sorted.truncate(limit);
        }
        proof {
            assert(sorted@ =~= full.take(sorted@.len() as int));
            assert forall|k: int| 0 <= k < ns.len() implies sorted@.contains(#[trigger] ns[k])
                || forall|i: int| 0 <= i < sorted@.len() ==> seen_before(sorted@[i], ns[k]) by {
                let p = choose|p: int| 0 <= p < full.len() && full[p] == ns[k];
                if p < sorted@.len() {
                    assert(sorted@[p] == ns[k]);
                } else {
                    assert forall|i: int| 0 <= i < sorted@.len() implies seen_before(
                        sorted@[i],
                        ns[k],
                    ) by {
                        assert(sorted@[i] == full[i]);
                    }
                }
            }
        }
        sorted
    }
}

/// A path's score is its weakest link: no more than its weakest strength
/// and no more than its weakest confidence, and equal to one of them.
pub proof fn lemma_score_is_weakest_link(p: MemoryPath)
    ensures
        p.score_spec() <= p.weakest_strength.view(),
        p.score_spec() <= p.weakest_confidence.view(),
        p.score_spec() == p.weakest_strength.view() || p.score_spec() == p.weakest_confidence.view(),
{
}

/// Threat paths rank by higher score, then fewer relationships, then threat
/// identifier.
pub open spec fn ranks_before(a: ThreatPath, b: ThreatPath) -> bool {
    ||| a.path.score_spec() > b.path.score_spec()
    ||| a.path.score_spec() == b.path.score_spec() && a.path.relationships@.len()
        < b.path.relationships@.len()
    ||| a.path.score_spec() == b.path.score_spec() && a.path.relationships@.len()
        == b.path.relationships@.len() && id_lt(a.threat.0@, b.threat.0@)
}

proof fn lemma_ranks_before_transitive(a: ThreatPath, b: ThreatPath, c: ThreatPath)
    requires
        ranks_before(a, b),
        ranks_before(b, c),
    ensures
        ranks_before(a, c),
{
    if a.path.score_spec() == b.path.score_spec() && b.path.score_spec() == c.path.score_spec()
        && a.path.relationships@.len() == b.path.relationships@.len()
        && b.path.relationships@.len() == c.path.relationships@.len() {
        crate::text::lemma_id_lt_transitive(a.threat.0@, b.threat.0@, c.threat.0@);
    }
}

proof fn lemma_ranks_before_total(a: ThreatPath, b: ThreatPath)
    requires
        a.threat.0@ != b.threat.0@,
    ensures
        ranks_before(a, b) || ranks_before(b, a),
{
    lemma_id_lt_total(a.threat.0@, b.threat.0@);
}

/// Whether `a` ranks before `b`.
fn rank_before(a: &ThreatPath, b: &ThreatPath) -> (r: bool)
    ensures
        r == ranks_before(*a, *b),
{
    let sa = a.path.score();
    let sb = b.path.score();
    if sa != sb {
        return sa > sb;
    }
    let la = a.path.relationships.len();
    let lb = b.path.relationships.len();
    if la != lb {
        return la < lb;
    }
    str_lt(a.threat.0.as_str(), b.threat.0.as_str())
}

/// Whether `found` lists paths from `start` to reasoning-active threat nodes
/// of `store`, each found under `query`, in rank order.
pub open spec fn threat_paths_found(
    store: MemoryStore,
    start: Seq<char>,
    query: PathQuery,
    found: Seq<ThreatPath>,
) -> bool {
    &&& forall|i: int|
        0 <= i < found.len() ==> {
            &&& store.node_seq().filter(active_threat()).map_values(|n: MemoryNode| n.id.0@).contains(
                (#[trigger] found[i]).threat.0@,
            )
            &&& store.is_found_path(query, start, found[i].threat.0@, found[i].path)
            &&& store.shortest(query, start, found[i].threat.0@, found[i].path)
            &&& store.searched(query, start, found[i].threat.0@, found[i].path)
        }
    &&& forall|i: int, j: int|
        #![trigger found[i], found[j]]
        0 <= i < j < found.len() ==> ranks_before(found[i], found[j]) && found[i].threat.0@
            != found[j].threat.0@
    &&& forall|x: Seq<char>|
        store.node_seq().filter(active_threat()).map_values(|n: MemoryNode| n.id.0@).contains(x)
            && #[trigger] store.reaches_within(query, start, x, query.max_depth as nat) ==> exists|i: int|
            0 <= i < found.len() && found[i].threat.0@ == x
}

impl MemoryStore {
    /// Paths from `start` to every reasoning-active threat node the search
    /// reaches, ranked by weakest-link score (highest first), then by length
    /// (shortest first), then by threat identifier.
    #[verifier::spinoff_prover]
    #[verifier::rlimit(40)]
    pub fn threat_paths_from(&self, start: &MemoryNodeId, query: &PathQuery) -> (r: Vec<
        ThreatPath,
    >)
        requires
            self.well_formed(),
        ensures
            threat_paths_found(*self, start.0@, *query, r@),
    {
        let threats = self.nodes(Some(MemoryNodeKind::Threat));
        let ghost all = self.node_seq().filter(active_threat()).map_values(|n: MemoryNode| n.id.0@);
        let ghost kinds = self.node_seq().filter(kind_filter(Some(MemoryNodeKind::Threat)));
        proof {
            crate::memory::keyed::lemma_filter_sorted(self.node_seq(), node_key(), kind_filter(Some(MemoryNodeKind::Threat)));
        }
        let mut r: Vec<ThreatPath> = Vec::new();
        let mut t: usize = 0;
        while t < threats.len()
            invariant
                self.well_formed(),
                threats@ == kinds,
                kinds == self.node_seq().filter(kind_filter(Some(MemoryNodeKind::Threat))),
                sorted_by_key(kinds, node_key()),
                all == self.node_seq().filter(active_threat()).map_values(|n: MemoryNode| n.id.0@),
                t <= kinds.len(),
                forall|i: int|
                    0 <= i < r@.len() ==> {
                        &&& all.contains((#[trigger] r@[i]).threat.0@)
                        &&& self.is_found_path(*query, start.0@, r@[i].threat.0@, r@[i].path)
                        &&& self.shortest(*query, start.0@, r@[i].threat.0@, r@[i].path)
                        &&& self.searched(*query, start.0@, r@[i].threat.0@, r@[i].path)
                        &&& exists|j: int| 0 <= j < t && kinds[j].id.0@ == r@[i].threat.0@
                    },
                forall|i: int, j: int|
                    #![trigger r@[i], r@[j]]
                    0 <= i < j < r@.len() ==> ranks_before(r@[i], r@[j]) && r@[i].threat.0@
                        != r@[j].threat.0@,
                forall|j: int|
                    0 <= j < t && active_threat()(#[trigger] kinds[j]) && self.reaches_within(
                        *query,
                        start.0@,
                        kinds[j].id.0@,
                        query.max_depth as nat,
                    ) ==> exists|i: int| 0 <= i < r@.len() && r@[i].threat.0@ == kinds[j].id.0@,
            decreases kinds.len() - t,
        {
            let node = &threats[t];
            if node.state.is_active_for_reasoning() {
                let found = self.find_path(start, &node.id, query);
                match found {
                    Some(path) => {
                        let entry = ThreatPath { threat: node.id.clone(), path };
                        proof {
                            let s = self.node_seq();
                            self.node_seq().lemma_filter_pred(kind_filter(Some(MemoryNodeKind::Threat)), t as int);
                            assert(kinds.contains(kinds[t as int]));
                            s.lemma_filter_contains_rev(kind_filter(Some(MemoryNodeKind::Threat)), kinds[t as int]);
                            let j = choose|j: int| 0 <= j < s.len() && s[j] == kinds[t as int];
                            assert(active_threat()(s[j]));
                            s.lemma_filter_contains(active_threat(), j);
                            let fa = s.filter(active_threat());
                            let q = choose|q: int| 0 <= q < fa.len() && fa[q] == s[j];
                            assert(all[q] == entry.threat.0@);
                        }
                        let mut pos: usize = 0;
                        while pos < r.len()
                            invariant
                                pos <= r@.len(),
                                forall|i: int| 0 <= i < pos ==> !ranks_before(entry, #[trigger] r@[i]),
                            ensures
                                pos <= r@.len(),
                                forall|i: int| 0 <= i < pos ==> !ranks_before(entry, #[trigger] r@[i]),
                                pos < r@.len() ==> ranks_before(entry, r@[pos as int]),
                            decreases r@.len() - pos,
                        {
                            if rank_before(&entry, &r[pos]) {
                                break;
                            }
                            pos = pos + 1;
                        }
                        let ghost old_r = r@;
                        proof {
                            assert forall|i: int| 0 <= i < old_r.len() implies old_r[i].threat.0@
                                != entry.threat.0@ by {
                                let j = choose|j: int| 0 <= j < t && kinds[j].id.0@ == old_r[i].threat.0@;
                                assert(id_lt(kinds[j].id.0@, kinds[t as int].id.0@));
                                crate::text::lemma_id_lt_irreflexive(entry.threat.0@);
                            }
                            assert forall|i: int| 0 <= i < pos implies ranks_before(
                                #[trigger] old_r[i],
                                entry,
                            ) by {
                                lemma_ranks_before_total(old_r[i], entry);
                            }
                        }
                        r.insert(pos, entry);
                        proof {
                            let nr = r@;
                            assert forall|i: int, j: int|
                                #![trigger nr[i], nr[j]]
                                0 <= i < j < nr.len() implies ranks_before(nr[i], nr[j]) && nr[i].threat.0@
                                != nr[j].threat.0@ by {
                                if j < pos {
                                    assert(nr[i] == old_r[i] && nr[j] == old_r[j]);
                                } else if j == pos {
                                    assert(nr[i] == old_r[i]);
                                } else if i < pos {
                                    assert(nr[i] == old_r[i] && nr[j] == old_r[j - 1]);
                                    assert(ranks_before(entry, old_r[pos as int]));
                                    if j - 1 > pos {
                                        assert(ranks_before(old_r[pos as int], old_r[j - 1]));
                                        lemma_ranks_before_transitive(entry, old_r[pos as int], old_r[j - 1]);
                                    }
                                    lemma_ranks_before_transitive(old_r[i], entry, old_r[j - 1]);
                                } else if i == pos {
                                    assert(nr[j] == old_r[j - 1]);
                                    if j - 1 > pos {
                                        assert(ranks_before(old_r[pos as int], old_r[j - 1]));
                                        lemma_ranks_before_transitive(entry, old_r[pos as int], old_r[j - 1]);
                                    }
                                } else {
                                    assert(nr[i] == old_r[i - 1] && nr[j] == old_r[j - 1]);
                                }
                            }
                            assert forall|i: int| 0 <= i < nr.len() implies {
                                &&& all.contains((#[trigger] nr[i]).threat.0@)
                                &&& self.is_found_path(*query, start.0@, nr[i].threat.0@, nr[i].path)
                                &&& self.shortest(*query, start.0@, nr[i].threat.0@, nr[i].path)
                                &&& self.searched(*query, start.0@, nr[i].threat.0@, nr[i].path)
                                &&& exists|j: int| 0 <= j < t + 1 && kinds[j].id.0@ == nr[i].threat.0@
                            } by {
                                if i < pos {
                                    assert(nr[i] == old_r[i]);
                                } else if i > pos {
                                    assert(nr[i] == old_r[i - 1]);
                                } else {
                                    assert(kinds[t as int].id.0@ == nr[i].threat.0@);
                                }
                            }
                            assert forall|j: int|
                                0 <= j < t + 1 && active_threat()(#[trigger] kinds[j]) && self.reaches_within(
                                    *query,
                                    start.0@,
                                    kinds[j].id.0@,
                                    query.max_depth as nat,
                                ) implies exists|i: int| 0 <= i < nr.len() && nr[i].threat.0@ == kinds[j].id.0@ by {
                                if j == t {
                                    assert(nr[pos as int].threat.0@ == kinds[j].id.0@);
                                } else {
                                    let i = choose|i: int| 0 <= i < old_r.len() && old_r[i].threat.0@ == kinds[j].id.0@;
                                    if i < pos {
                                        assert(nr[i] == old_r[i]);
                                    } else {
                                        assert(nr[i + 1] == old_r[i]);
                                    }
                                }
                            }
                        }
                    },
                    None => {},
                }
            }
            t = t + 1;
        }
        proof {
            let s = self.node_seq();
            let fa = s.filter(active_threat());
            assert forall|x: Seq<char>|
                all.contains(x) && #[trigger] self.reaches_within(*query, start.0@, x, query.max_depth as nat)
                    implies exists|i: int| 0 <= i < r@.len() && r@[i].threat.0@ == x by {
                let q = choose|q: int| 0 <= q < all.len() && all[q] == x;
                assert(fa.contains(fa[q]));
                s.lemma_filter_contains_rev(active_threat(), fa[q]);
                let m = choose|m: int| 0 <= m < s.len() && s[m] == fa[q];
                s.lemma_filter_pred(active_threat(), q);
                s.lemma_filter_contains(kind_filter(Some(MemoryNodeKind::Threat)), m);
                let j = choose|j: int| 0 <= j < kinds.len() && kinds[j] == s[m];
                assert(kinds[j].id.0@ == x);
            }
        }
        r
    }
}


/// Reinforcement is removable and decay resumes: while a relationship is
/// reinforced its effective strength at any time is its stored strength; once
/// the reinforcement is revoked it decays again exactly as a relationship that
/// was never reinforced.
pub proof fn lemma_revoking_reinforcement_resumes_decay(
    before: MemoryStore,
    reinforced: MemoryStore,
    revoked: MemoryStore,
    id: Seq<char>,
    provenance: crate::memory::model::ProvenanceView,
    now: u64,
)
    requires
        before.relationship(id) is Some,
        reinforced.relationship(id) == Some(
            with_reinforcement(before.relationship(id)->0, Some(provenance)),
        ),
        revoked.relationship(id) == Some(with_reinforcement(reinforced.relationship(id)->0, None)),
    ensures
        effective_strength_of(reinforced.relationship(id)->0, now)
            == before.relationship(id)->0.strength.view(),
        effective_strength_of(revoked.relationship(id)->0, now) == decayed_value(
            before.relationship(id)->0.strength.view(),
            before.relationship(id)->0.decay_policy,
            false,
            elapsed_percent_spec(
                before.relationship(id)->0.created_at,
                before.relationship(id)->0.expires_at,
                now,
            ),
        ),
{
}


/// A read gives back what a write wrote: once a node is saved, its
/// identifier reads back that node, keeping the creation time of a node it
/// replaced, and every other identifier reads back what it did before.
pub proof fn lemma_saved_node_reads_back(before: MemoryStore, after: MemoryStore, node: MemoryNode)
    requires
        node_stored(before, after, node),
    ensures
        before.node(node.id.0@) is None ==> after.node(node.id.0@) == Some(node),
        before.node(node.id.0@) matches Some(e) ==> after.node(node.id.0@) == Some(
            MemoryNode { created_at: e.created_at, ..node },
        ),
        forall|id: Seq<char>| id != node.id.0@ ==> #[trigger] after.node(id) == before.node(id),
{
    assert(after.node(node.id.0@) == Some(saved_node(before.node(node.id.0@), node)));
}

/// A read gives back what a write wrote: once a relationship is saved, its
/// identifier reads back that relationship, keeping the creation time of one
/// it replaced, and every other identifier reads back what it did before.
pub proof fn lemma_saved_relationship_reads_back(
    before: MemoryStore,
    after: MemoryStore,
    relationship: RelationshipView,
)
    requires
        forall|id: Seq<char>|
            #![trigger after.relationship(id)]
            after.relationship(id) == if id == relationship.id {
                Some(saved_relationship(before.relationship(id), relationship))
            } else {
                before.relationship(id)
            },
    ensures
        before.relationship(relationship.id) is None ==> after.relationship(relationship.id) == Some(
            relationship,
        ),
        before.relationship(relationship.id) matches Some(e) ==> after.relationship(relationship.id)
            == Some(RelationshipView { created_at: e.created_at, ..relationship }),
        forall|id: Seq<char>| id != relationship.id ==> #[trigger] after.relationship(id)
            == before.relationship(id),
{
    assert(after.relationship(relationship.id) == Some(
        saved_relationship(before.relationship(relationship.id), relationship),
    ));
}

/// Persistent memory is never purge-eligible: whatever the time and grace
/// period, no node or relationship of persistent retention is listed for
/// purging, and everything listed has expired.
pub proof fn lemma_persistent_memory_never_purged(store: MemoryStore, now: u64, grace_period: u64)
    ensures
        forall|i: int|
            0 <= i < store.node_seq().filter(node_purgeable(now, grace_period)).len() ==> {
                let n = #[trigger] store.node_seq().filter(node_purgeable(now, grace_period))[i];
                n.retention != crate::memory::model::RetentionClass::Persistent && n.state == MemoryState::Expired
            },
        forall|i: int|
            0 <= i < store.rel_seq().filter(relationship_purgeable(now, grace_period)).len() ==> {
                let r = #[trigger] store.rel_seq().filter(relationship_purgeable(now, grace_period))[i];
                r.retention != crate::memory::model::RetentionClass::Persistent && r.state == MemoryState::Expired
            },
{
    assert forall|i: int|
        0 <= i < store.node_seq().filter(node_purgeable(now, grace_period)).len() implies {
            let n = #[trigger] store.node_seq().filter(node_purgeable(now, grace_period))[i];
            n.retention != crate::memory::model::RetentionClass::Persistent && n.state == MemoryState::Expired
        } by {
        store.node_seq().lemma_filter_pred(node_purgeable(now, grace_period), i);
    }
    assert forall|i: int|
        0 <= i < store.rel_seq().filter(relationship_purgeable(now, grace_period)).len() implies {
            let r = #[trigger] store.rel_seq().filter(relationship_purgeable(now, grace_period))[i];
            r.retention != crate::memory::model::RetentionClass::Persistent && r.state == MemoryState::Expired
        } by {
        store.rel_seq().lemma_filter_pred(relationship_purgeable(now, grace_period), i);
    }
}

/// Consolidation keeps the stronger: when an observation repeats a stored
/// relationship, that relationship afterwards holds the larger of its own
/// and the observation's strength, and likewise of confidence; it has been
/// seen at least as late as either; its count of observations grows by one
/// (saturating); and its creation time stays.
pub proof fn lemma_consolidation_keeps_the_stronger(
    before: MemoryStore,
    after: MemoryStore,
    observation: RelationshipView,
    id: Seq<char>,
)
    requires
        before.well_formed(),
        observation_stored(before, after, observation, id),
        consolidation_target(before.rel_seq(), observation) is Some,
    ensures
        before.relationship(id) is Some,
        after.relationship(id) is Some,
        ({
            let old_r = before.relationship(id)->0;
            let new_r = after.relationship(id)->0;
            &&& new_r.strength.view() >= old_r.strength.view()
            &&& new_r.strength.view() >= observation.strength.view()
            &&& (new_r.strength.view() == old_r.strength.view() || new_r.strength.view()
                == observation.strength.view())
            &&& new_r.confidence.view() >= old_r.confidence.view()
            &&& new_r.confidence.view() >= observation.confidence.view()
            &&& (new_r.confidence.view() == old_r.confidence.view() || new_r.confidence.view()
                == observation.confidence.view())
            &&& new_r.last_seen_at >= old_r.last_seen_at
            &&& new_r.last_seen_at >= observation.last_seen_at
            &&& new_r.created_at == old_r.created_at
            &&& old_r.observation_count < u64::MAX ==> new_r.observation_count == old_r.observation_count + 1
            &&& new_r.id == old_r.id && new_r.source == old_r.source && new_r.target == old_r.target
        }),
{
    let sq = before.rel_seq();
    let i = choose|i: int| is_consolidation_target(sq, observation, i);
    let m = sq[i];
    lemma_entry_at(sq, rel_key(), i);
    assert(before.relationship(id) == Some(m));
}

} // verus!
