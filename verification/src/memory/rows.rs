//! The stored form of nodes and relationships: one row of plain columns each,
//! written from a value and read back with every column checked.
use vstd::prelude::*;
use crate::memory::model::{
    DecayPolicy, DecayRate, MemoryConfidence, MemoryNode, MemoryNodeId, MemoryNodeKind, MemoryPriority,
    MemoryRelationship, MemoryRelationshipId, MemoryRelationshipKind, MemoryState,
    MemoryStrength, ProvenanceView, ReinforcementProvenance, ReinforcementReason, RelationshipView,
    RetentionClass,
    lemma_memory_node_kind_name_round_trip, lemma_memory_priority_name_round_trip,
    lemma_memory_relationship_kind_name_round_trip, lemma_memory_state_name_round_trip,
    lemma_retention_class_name_round_trip, lemma_reinforcement_reason_name_round_trip,
};
use crate::protocol::ids::{EvidenceId, IncidentId};
use crate::text::{debug_quoted, debug_quoted_spec, decimal, decimal_spec};
use vstd::string::StringExecFns;

verus! {

#[verifier::external_type_specification]
#[verifier::external_body]
pub struct ExJsonError(serde_json::Error);

/// What a stored column held that does not describe a value of the model.
#[derive(Debug)]
pub enum StorageError {
    InvalidNodeKind(String),
    InvalidRelationshipKind(String),
    InvalidMemoryState(String),
    InvalidPriority(String),
    InvalidRetentionClass(String),
    InvalidDecayPolicy { kind: String, rate: Option<u8> },
    InvalidStrength(u8),
    InvalidConfidence(u8),
    InvalidReinforcementReason(String),
    InvalidReinforcementEvidenceJson(serde_json::Error),
}

/// The list of strings that a JSON text denotes, or `None` where the text is
/// not a JSON array of strings.
pub uninterp spec fn json_string_list(text: Seq<char>) -> Option<Seq<Seq<char>>>;

/// The JSON text that serde_json writes for a list of strings.
pub uninterp spec fn string_list_json(items: Seq<Seq<char>>) -> Seq<char>;

/// The views of a list of strings.
pub open spec fn string_views(s: Seq<String>) -> Seq<Seq<char>> {
    s.map_values(|x: String| x@)
}

/// Calls `serde_json::from_str::<Vec<String>>`. The contract names the
/// outcome, a function of the text alone, and says nothing of the error value.
#[verifier::external_body]
fn parse_string_list(text: &str) -> (r: Result<Vec<String>, serde_json::Error>)
    ensures
        r is Ok <==> json_string_list(text@) is Some,
        r matches Ok(v) ==> json_string_list(text@) == Some(string_views(v@)),
{
    serde_json::from_str::<Vec<String>>(text)
}

/// Calls `serde_json::to_string` on a list of strings. Serialisation fails
/// only where a value's `Serialize` impl fails or a map has a key that is no
/// string, neither of which a list of strings has, so the call succeeds; the
/// text written is named, and serde_json reads it back as the same list.
#[verifier::external_body]
fn write_string_list(items: &Vec<String>) -> (r: Result<String, serde_json::Error>)
    ensures
        r is Ok,
        r matches Ok(s) ==> s@ == string_list_json(string_views(items@)),
        r matches Ok(s) ==> json_string_list(s@) == Some(string_views(items@)),
{
    serde_json::to_string(items)
}

/// Calls `format!("{:?}", e)` on a serde_json error. Nothing is promised of
/// the text, which names the error's category and position.
#[verifier::external_body]
fn json_error_debug(e: &serde_json::Error) -> (r: String) {
    format!("{:?}", e)
}

/// `name(inner)`, the debug form of a tuple variant.
pub open spec fn tuple_form(name: Seq<char>, inner: Seq<char>) -> Seq<char> {
    name + "("@ + inner + ")"@
}

/// `name(inner)` for a variant and its rendered field.
pub fn tuple_text(name: &str, inner: &str) -> (r: String)
    ensures
        r@ == tuple_form(name@, inner@),
{
    proof {
        reveal_strlit("(");
        reveal_strlit(")");
    }
    String::from_str(name).concat("(").concat(inner).concat(")")
}

/// The debug form of an optional percentage.
pub open spec fn option_form(v: Option<u8>) -> Seq<char> {
    match v {
        Some(n) => tuple_form("Some"@, decimal_spec(n as nat)),
        None => "None"@,
    }
}

impl StorageError {
    /// The debug form of the error, as `{:?}` renders it; the text of a
    /// malformed evidence list's JSON error is left to serde_json.
    pub open spec fn describe_spec(&self) -> Seq<char> {
        match self {
            StorageError::InvalidNodeKind(s) => tuple_form("InvalidNodeKind"@, debug_quoted_spec(s@)),
            StorageError::InvalidRelationshipKind(s) => tuple_form(
                "InvalidRelationshipKind"@,
                debug_quoted_spec(s@),
            ),
            StorageError::InvalidMemoryState(s) => tuple_form("InvalidMemoryState"@, debug_quoted_spec(s@)),
            StorageError::InvalidPriority(s) => tuple_form("InvalidPriority"@, debug_quoted_spec(s@)),
            StorageError::InvalidRetentionClass(s) => tuple_form(
                "InvalidRetentionClass"@,
                debug_quoted_spec(s@),
            ),
            StorageError::InvalidDecayPolicy { kind, rate } => "InvalidDecayPolicy { kind: "@
                + debug_quoted_spec(kind@) + ", rate: "@ + option_form(*rate) + " }"@,
            StorageError::InvalidStrength(n) => tuple_form("InvalidStrength"@, decimal_spec(*n as nat)),
            StorageError::InvalidConfidence(n) => tuple_form("InvalidConfidence"@, decimal_spec(*n as nat)),
            StorageError::InvalidReinforcementReason(s) => tuple_form(
                "InvalidReinforcementReason"@,
                debug_quoted_spec(s@),
            ),
            StorageError::InvalidReinforcementEvidenceJson(_) => "InvalidReinforcementEvidenceJson("@,
        }
    }

    /// Renders the error in its debug form.
    pub fn describe(&self) -> (r: String)
        ensures
            !(self is InvalidReinforcementEvidenceJson) ==> r@ == self.describe_spec(),
            self is InvalidReinforcementEvidenceJson ==> r@.len() >= self.describe_spec().len()
                && r@.take(self.describe_spec().len() as int) == self.describe_spec(),
    {
        match self {
            StorageError::InvalidNodeKind(s) => tuple_text("InvalidNodeKind", debug_quoted(s.as_str()).as_str()),
            StorageError::InvalidRelationshipKind(s) => tuple_text(
                "InvalidRelationshipKind",
                debug_quoted(s.as_str()).as_str(),
            ),
            StorageError::InvalidMemoryState(s) => tuple_text(
                "InvalidMemoryState",
                debug_quoted(s.as_str()).as_str(),
            ),
            StorageError::InvalidPriority(s) => tuple_text("InvalidPriority", debug_quoted(s.as_str()).as_str()),
            StorageError::InvalidRetentionClass(s) => tuple_text(
                "InvalidRetentionClass",
                debug_quoted(s.as_str()).as_str(),
            ),
            StorageError::InvalidDecayPolicy { kind, rate } => {
                proof {
                    reveal_strlit("InvalidDecayPolicy { kind: ");
                    reveal_strlit(", rate: ");
                    reveal_strlit(" }");
                    reveal_strlit("None");
                }
                let rate_text = match rate {
                    Some(n) => tuple_text("Some", decimal(*n as u64).as_str()),
                    None => String::from_str("None"),
                };
                String::from_str("InvalidDecayPolicy { kind: ").concat(debug_quoted(kind.as_str()).as_str()).concat(
                    ", rate: ",
                ).concat(rate_text.as_str()).concat(" }")
            },
            StorageError::InvalidStrength(n) => tuple_text("InvalidStrength", decimal(*n as u64).as_str()),
            StorageError::InvalidConfidence(n) => tuple_text("InvalidConfidence", decimal(*n as u64).as_str()),
            StorageError::InvalidReinforcementReason(s) => tuple_text(
                "InvalidReinforcementReason",
                debug_quoted(s.as_str()).as_str(),
            ),
            StorageError::InvalidReinforcementEvidenceJson(e) => {
                let head = String::from_str("InvalidReinforcementEvidenceJson(");
                let r = head.concat(json_error_debug(e).as_str()).concat(")");
                assert(r@.take(head@.len() as int) =~= head@);
                r
            },
        }
    }
}

/// The stored columns of a node.
pub struct NodeRow {
    pub id: String,
    pub kind: String,
    pub label: String,
    pub created_at: u64,
    pub last_seen_at: u64,
    pub expires_at: Option<u64>,
    pub state: String,
    pub priority: String,
    pub retention: String,
    pub decay_policy: String,
    pub decay_rate: Option<u8>,
}

/// The stored columns of a relationship.
pub struct RelationshipRow {
    pub id: String,
    pub kind: String,
    pub source: String,
    pub target: String,
    pub created_at: u64,
    pub last_seen_at: u64,
    pub observation_count: u64,
    pub expires_at: Option<u64>,
    pub state: String,
    pub priority: String,
    pub retention: String,
    pub decay_policy: String,
    pub decay_rate: Option<u8>,
    pub strength: u8,
    pub confidence: u8,
    pub reinforcement_reason: Option<String>,
    pub reinforcement_incident_id: Option<String>,
    pub reinforcement_evidence_ids: Option<String>,
}

/// The rate column of a decay policy.
pub open spec fn rate_column(p: DecayPolicy) -> Option<u8> {
    match p.rate_spec() {
        Some(rate) => Some(rate.view()),
        None => None,
    }
}

/// Whether every column of a node row describes a value of the model.
pub open spec fn node_row_valid(row: NodeRow) -> bool {
    &&& MemoryNodeKind::from_name_spec(row.kind@) is Some
    &&& MemoryState::from_name_spec(row.state@) is Some
    &&& MemoryPriority::from_name_spec(row.priority@) is Some
    &&& RetentionClass::from_name_spec(row.retention@) is Some
    &&& DecayPolicy::parts_valid(row.decay_policy@, row.decay_rate)
}

/// Whether `n` is the node a valid row describes.
pub open spec fn node_from_row(row: NodeRow, n: MemoryNode) -> bool {
    &&& n.id.0@ == row.id@
    &&& Some(n.kind) == MemoryNodeKind::from_name_spec(row.kind@)
    &&& n.label@ == row.label@
    &&& n.created_at == row.created_at
    &&& n.last_seen_at == row.last_seen_at
    &&& n.expires_at == row.expires_at
    &&& Some(n.state) == MemoryState::from_name_spec(row.state@)
    &&& Some(n.priority) == MemoryPriority::from_name_spec(row.priority@)
    &&& Some(n.retention) == RetentionClass::from_name_spec(row.retention@)
    &&& DecayPolicy::stored_as(n.decay_policy, row.decay_policy@, row.decay_rate)
}

/// Whether `row` holds the columns written for `n`.
pub open spec fn node_written(n: MemoryNode, row: NodeRow) -> bool {
    &&& row.id@ == n.id.0@
    &&& row.kind@ == n.kind.name()
    &&& row.label@ == n.label@
    &&& row.created_at == n.created_at
    &&& row.last_seen_at == n.last_seen_at
    &&& row.expires_at == n.expires_at
    &&& row.state@ == n.state.name()
    &&& row.priority@ == n.priority.name()
    &&& row.retention@ == n.retention.name()
    &&& row.decay_policy@ == n.decay_policy.name()
    &&& row.decay_rate == rate_column(n.decay_policy)
}

/// The columns of a node.
pub fn node_row(node: &MemoryNode) -> (r: NodeRow)
    ensures
        node_written(*node, r),
{
    let decay_rate = match node.decay_policy.rate() {
        Some(rate) => Some(rate.value()),
        None => None,
    };
    NodeRow {
        id: node.id.0.clone(),
        kind: String::from_str(node.kind.as_str()),
        label: node.label.clone(),
        created_at: node.created_at,
        last_seen_at: node.last_seen_at,
        expires_at: node.expires_at,
        state: String::from_str(node.state.as_str()),
        priority: String::from_str(node.priority.as_str()),
        retention: String::from_str(node.retention.as_str()),
        decay_policy: String::from_str(node.decay_policy.as_str()),
        decay_rate,
    }
}

/// Reads a node back from its columns, checking the kind, the state, the
/// priority, the retention class and the decay policy in that order.
pub fn decode_node(row: NodeRow) -> (r: Result<MemoryNode, StorageError>)
    ensures
        r is Ok <==> node_row_valid(row),
        r matches Ok(n) ==> node_from_row(row, n),
        MemoryNodeKind::from_name_spec(row.kind@) is None ==> (r matches Err(
            StorageError::InvalidNodeKind(s),
        ) && s@ == row.kind@),
        MemoryNodeKind::from_name_spec(row.kind@) is Some && MemoryState::from_name_spec(
            row.state@,
        ) is None ==> (r matches Err(StorageError::InvalidMemoryState(s)) && s@ == row.state@),
        MemoryNodeKind::from_name_spec(row.kind@) is Some && MemoryState::from_name_spec(
            row.state@,
        ) is Some && MemoryPriority::from_name_spec(row.priority@) is None ==> (r matches Err(
            StorageError::InvalidPriority(s),
        ) && s@ == row.priority@),
        MemoryNodeKind::from_name_spec(row.kind@) is Some && MemoryState::from_name_spec(
            row.state@,
        ) is Some && MemoryPriority::from_name_spec(row.priority@) is Some
            && RetentionClass::from_name_spec(row.retention@) is None ==> (r matches Err(
            StorageError::InvalidRetentionClass(s),
        ) && s@ == row.retention@),
        MemoryNodeKind::from_name_spec(row.kind@) is Some && MemoryState::from_name_spec(
            row.state@,
        ) is Some && MemoryPriority::from_name_spec(row.priority@) is Some
            && RetentionClass::from_name_spec(row.retention@) is Some && !DecayPolicy::parts_valid(
            row.decay_policy@,
            row.decay_rate,
        ) ==> (r matches Err(StorageError::InvalidDecayPolicy { kind, rate }) && kind@
            == row.decay_policy@ && rate == row.decay_rate),
{
    let ghost g = row;
    let kind = match MemoryNodeKind::from_name(row.kind.as_str()) {
        Some(k) => k,
        None => {
            return Err(StorageError::InvalidNodeKind(row.kind));
        },
    };
    let state = match MemoryState::from_name(row.state.as_str()) {
        Some(s) => s,
        None => {
            return Err(StorageError::InvalidMemoryState(row.state));
        },
    };
    let priority = match MemoryPriority::from_name(row.priority.as_str()) {
        Some(p) => p,
        None => {
            return Err(StorageError::InvalidPriority(row.priority));
        },
    };
    let retention = match RetentionClass::from_name(row.retention.as_str()) {
        Some(c) => c,
        None => {
            return Err(StorageError::InvalidRetentionClass(row.retention));
        },
    };
    let decay_policy = match DecayPolicy::from_parts(row.decay_policy.as_str(), row.decay_rate) {
        Some(p) => p,
        None => {
            return Err(
                StorageError::InvalidDecayPolicy { kind: row.decay_policy, rate: row.decay_rate },
            );
        },
    };
    Ok(
        MemoryNode {
            id: MemoryNodeId(row.id),
            kind,
            label: row.label,
            created_at: row.created_at,
            last_seen_at: row.last_seen_at,
            expires_at: row.expires_at,
            state,
            priority,
            retention,
            decay_policy,
        },
    )
}

/// The evidence list that a stored evidence column denotes: none stored is an
/// empty list, and a stored text must be a JSON array of strings.
pub open spec fn evidence_column_list(json: Option<String>) -> Option<Seq<Seq<char>>> {
    match json {
        None => Some(Seq::empty()),
        Some(j) => json_string_list(j@),
    }
}

/// Whether the reinforcement columns describe a reinforcement or its absence.
pub open spec fn reinforcement_columns_valid(
    reason: Option<String>,
    json: Option<String>,
) -> bool {
    reason matches Some(r) ==> (evidence_column_list(json) is Some
        && ReinforcementReason::from_name_spec(r@) is Some)
}

/// The reinforcement that valid reinforcement columns describe.
pub open spec fn reinforcement_from_columns(
    reason: Option<String>,
    incident_id: Option<String>,
    json: Option<String>,
) -> Option<ProvenanceView> {
    match reason {
        None => None,
        Some(r) => Some(
            ProvenanceView {
                reason: ReinforcementReason::from_name_spec(r@)->0,
                incident_id: match incident_id {
                    Some(i) => Some(i@),
                    None => None,
                },
                evidence_ids: evidence_column_list(json)->0,
            },
        ),
    }
}

/// Whether `e` is the error that invalid reinforcement columns are refused
/// with: a malformed evidence list first, then an unknown reason.
pub open spec fn reinforcement_error(reason: Option<String>, json: Option<String>, e: StorageError) -> bool {
    if evidence_column_list(json) is None {
        e is InvalidReinforcementEvidenceJson
    } else {
        e matches StorageError::InvalidReinforcementReason(s) && reason matches Some(r) && s@ == r@
    }
}

/// Reads a reinforcement back from its columns: no reason means none; with a
/// reason, the evidence list is parsed first and the reason checked next.
pub fn decode_reinforcement(
    reason: Option<String>,
    incident_id: Option<String>,
    evidence_ids_json: Option<String>,
) -> (r: Result<Option<ReinforcementProvenance>, StorageError>)
    ensures
        r is Ok <==> reinforcement_columns_valid(reason, evidence_ids_json),
        r matches Ok(p) ==> (match p {
            Some(v) => Some(v@),
            None => None,
        }) == reinforcement_from_columns(reason, incident_id, evidence_ids_json),
        r matches Err(e) ==> reinforcement_error(reason, evidence_ids_json, e),
{
    let reason = match reason {
        Some(value) => value,
        None => {
            return Ok(None);
        },
    };
    let listed: Vec<String> = match &evidence_ids_json {
        Some(json) => match parse_string_list(json.as_str()) {
            Ok(list) => list,
            Err(error) => {
                return Err(StorageError::InvalidReinforcementEvidenceJson(error));
            },
        },
        None => Vec::new(),
    };
    let parsed = match ReinforcementReason::from_name(reason.as_str()) {
        Some(value) => value,
        None => {
            return Err(StorageError::InvalidReinforcementReason(reason));
        },
    };
    let mut evidence_ids: Vec<EvidenceId> = Vec::new();
    let mut i: usize = 0;
    while i < listed.len()
        invariant
            i <= listed@.len(),
            evidence_ids@.len() == i,
            forall|j: int| 0 <= j < i ==> #[trigger] evidence_ids@[j].0@ == listed@[j]@,
        decreases listed@.len() - i,
    {
        evidence_ids.push(EvidenceId(listed[i].clone()));
        i = i + 1;
    }
    let incident = match incident_id {
        Some(id) => Some(IncidentId(id)),
        None => None,
    };
    let provenance = ReinforcementProvenance { reason: parsed, incident_id: incident, evidence_ids };
    proof {
        assert(provenance@.evidence_ids =~= evidence_column_list(evidence_ids_json)->0);
    }
    Ok(Some(provenance))
}

/// Whether column `i` of a relationship row is valid, in the order the row is
/// read: kind, state, priority, retention class, decay policy, strength,
/// confidence and reinforcement.
pub open spec fn relationship_column_valid(row: RelationshipRow, i: int) -> bool {
    if i == 0 {
        MemoryRelationshipKind::from_name_spec(row.kind@) is Some
    } else if i == 1 {
        MemoryState::from_name_spec(row.state@) is Some
    } else if i == 2 {
        MemoryPriority::from_name_spec(row.priority@) is Some
    } else if i == 3 {
        RetentionClass::from_name_spec(row.retention@) is Some
    } else if i == 4 {
        DecayPolicy::parts_valid(row.decay_policy@, row.decay_rate)
    } else if i == 5 {
        row.strength <= 100
    } else if i == 6 {
        row.confidence <= 100
    } else {
        reinforcement_columns_valid(row.reinforcement_reason, row.reinforcement_evidence_ids)
    }
}

/// Whether the columns before `k` of a relationship row are valid.
pub open spec fn relationship_columns_valid(row: RelationshipRow, k: int) -> bool {
    forall|i: int| 0 <= i < k ==> #[trigger] relationship_column_valid(row, i)
}

/// Whether `e` is the error that column `i` of a relationship row is refused
/// with.
pub open spec fn relationship_column_error(row: RelationshipRow, i: int, e: StorageError) -> bool {
    if i == 0 {
        e matches StorageError::InvalidRelationshipKind(s) && s@ == row.kind@
    } else if i == 1 {
        e matches StorageError::InvalidMemoryState(s) && s@ == row.state@
    } else if i == 2 {
        e matches StorageError::InvalidPriority(s) && s@ == row.priority@
    } else if i == 3 {
        e matches StorageError::InvalidRetentionClass(s) && s@ == row.retention@
    } else if i == 4 {
        e matches StorageError::InvalidDecayPolicy { kind, rate } && kind@ == row.decay_policy@
            && rate == row.decay_rate
    } else if i == 5 {
        e == StorageError::InvalidStrength(row.strength)
    } else if i == 6 {
        e == StorageError::InvalidConfidence(row.confidence)
    } else {
        reinforcement_error(row.reinforcement_reason, row.reinforcement_evidence_ids, e)
    }
}

/// Whether `r` is the relationship a valid row describes.
pub open spec fn relationship_from_row(row: RelationshipRow, r: RelationshipView) -> bool {
    &&& r.id == row.id@
    &&& Some(r.kind) == MemoryRelationshipKind::from_name_spec(row.kind@)
    &&& r.source == row.source@
    &&& r.target == row.target@
    &&& r.created_at == row.created_at
    &&& r.last_seen_at == row.last_seen_at
    &&& r.observation_count == row.observation_count
    &&& r.expires_at == row.expires_at
    &&& Some(r.state) == MemoryState::from_name_spec(row.state@)
    &&& Some(r.priority) == MemoryPriority::from_name_spec(row.priority@)
    &&& Some(r.retention) == RetentionClass::from_name_spec(row.retention@)
    &&& DecayPolicy::stored_as(r.decay_policy, row.decay_policy@, row.decay_rate)
    &&& r.strength.view() == row.strength
    &&& r.confidence.view() == row.confidence
    &&& r.reinforcement == reinforcement_from_columns(
        row.reinforcement_reason,
        row.reinforcement_incident_id,
        row.reinforcement_evidence_ids,
    )
}

/// Whether `row` holds the columns written for `r`, its evidence list as the
/// JSON text serde_json writes for it, which reads back as that list.
pub open spec fn relationship_written(r: RelationshipView, row: RelationshipRow) -> bool {
    &&& row.id@ == r.id
    &&& row.kind@ == r.kind.name()
    &&& row.source@ == r.source
    &&& row.target@ == r.target
    &&& row.created_at == r.created_at
    &&& row.last_seen_at == r.last_seen_at
    &&& row.observation_count == r.observation_count
    &&& row.expires_at == r.expires_at
    &&& row.state@ == r.state.name()
    &&& row.priority@ == r.priority.name()
    &&& row.retention@ == r.retention.name()
    &&& row.decay_policy@ == r.decay_policy.name()
    &&& row.decay_rate == rate_column(r.decay_policy)
    &&& row.strength == r.strength.view()
    &&& row.confidence == r.confidence.view()
    &&& match r.reinforcement {
        None => row.reinforcement_reason is None && row.reinforcement_incident_id is None
            && row.reinforcement_evidence_ids is None,
        Some(p) => {
            &&& row.reinforcement_reason matches Some(s) && s@ == p.reason.name()
            &&& match p.incident_id {
                Some(i) => row.reinforcement_incident_id matches Some(s) && s@ == i,
                None => row.reinforcement_incident_id is None,
            }
            &&& row.reinforcement_evidence_ids matches Some(s) && s@ == string_list_json(
                p.evidence_ids,
            ) && json_string_list(s@) == Some(p.evidence_ids)
        },
    }
}

/// The columns of a relationship, its evidence list written as JSON.
pub fn relationship_row(relationship: &MemoryRelationship) -> (r: Result<
    RelationshipRow,
    serde_json::Error,
>)
    ensures
        r is Ok,
        r matches Ok(row) ==> relationship_written(relationship@, row),
{
    let decay_rate = match relationship.decay_policy.rate() {
        Some(rate) => Some(rate.value()),
        None => None,
    };
    let (reason, incident, evidence) = match &relationship.reinforcement {
        None => (None, None, None),
        Some(p) => {
            let mut ids: Vec<String> = Vec::new();
            let mut i: usize = 0;
            while i < p.evidence_ids.len()
                invariant
                    i <= p.evidence_ids@.len(),
                    ids@.len() == i,
                    forall|j: int| 0 <= j < i ==> #[trigger] ids@[j]@ == p.evidence_ids@[j].0@,
                decreases p.evidence_ids@.len() - i,
            {
                ids.push(p.evidence_ids[i].0.clone());
                i = i + 1;
            }
            let json = match write_string_list(&ids) {
                Ok(text) => text,
                Err(error) => {
                    return Err(error);
                },
            };
            proof {
                assert(string_views(ids@) =~= p@.evidence_ids);
            }
            let incident = match &p.incident_id {
                Some(id) => Some(id.0.clone()),
                None => None,
            };
            (Some(String::from_str(p.reason.as_str())), incident, Some(json))
        },
    };
    Ok(
        RelationshipRow {
            id: relationship.id.0.clone(),
            kind: String::from_str(relationship.kind.as_str()),
            source: relationship.source.0.clone(),
            target: relationship.target.0.clone(),
            created_at: relationship.created_at,
            last_seen_at: relationship.last_seen_at,
            observation_count: relationship.observation_count,
            expires_at: relationship.expires_at,
            state: String::from_str(relationship.state.as_str()),
            priority: String::from_str(relationship.priority.as_str()),
            retention: String::from_str(relationship.retention.as_str()),
            decay_policy: String::from_str(relationship.decay_policy.as_str()),
            decay_rate,
            strength: relationship.strength.value(),
            confidence: relationship.confidence.value(),
            reinforcement_reason: reason,
            reinforcement_incident_id: incident,
            reinforcement_evidence_ids: evidence,
        },
    )
}

/// Reads a relationship back from its columns, checking them in the order
/// kind, state, priority, retention class, decay policy, strength, confidence
/// and reinforcement, and refusing the row with the first invalid one.
pub fn decode_relationship(row: RelationshipRow) -> (r: Result<MemoryRelationship, StorageError>)
    ensures
        r is Ok <==> relationship_columns_valid(row, 8),
        r matches Ok(m) ==> relationship_from_row(row, m@),
        forall|i: int|
            0 <= i < 8 && relationship_columns_valid(row, i) && !relationship_column_valid(row, i)
                ==> (r matches Err(e) && relationship_column_error(row, i, e)),
{
    let ghost g = row;
    let kind = match MemoryRelationshipKind::from_name(row.kind.as_str()) {
        Some(k) => k,
        None => {
            proof { assert(!relationship_column_valid(g, 0)); }
            return Err(StorageError::InvalidRelationshipKind(row.kind));
        },
    };
    assert(relationship_column_valid(g, 0));
    let state = match MemoryState::from_name(row.state.as_str()) {
        Some(s) => s,
        None => {
            proof { assert(!relationship_column_valid(g, 1)); }
            return Err(StorageError::InvalidMemoryState(row.state));
        },
    };
    assert(relationship_column_valid(g, 1));
    let priority = match MemoryPriority::from_name(row.priority.as_str()) {
        Some(p) => p,
        None => {
            proof { assert(!relationship_column_valid(g, 2)); }
            return Err(StorageError::InvalidPriority(row.priority));
        },
    };
    assert(relationship_column_valid(g, 2));
    let retention = match RetentionClass::from_name(row.retention.as_str()) {
        Some(c) => c,
        None => {
            proof { assert(!relationship_column_valid(g, 3)); }
            return Err(StorageError::InvalidRetentionClass(row.retention));
        },
    };
    assert(relationship_column_valid(g, 3));
    let decay_policy = match DecayPolicy::from_parts(row.decay_policy.as_str(), row.decay_rate) {
        Some(p) => p,
        None => {
            proof { assert(!relationship_column_valid(g, 4)); }
            return Err(
                StorageError::InvalidDecayPolicy { kind: row.decay_policy, rate: row.decay_rate },
            );
        },
    };
    assert(relationship_column_valid(g, 4));
    let strength = match MemoryStrength::new(row.strength) {
        Some(v) => v,
        None => {
            proof { assert(!relationship_column_valid(g, 5)); }
            return Err(StorageError::InvalidStrength(row.strength));
        },
    };
    assert(relationship_column_valid(g, 5));
    let confidence = match MemoryConfidence::new(row.confidence) {
        Some(v) => v,
        None => {
            proof { assert(!relationship_column_valid(g, 6)); }
            return Err(StorageError::InvalidConfidence(row.confidence));
        },
    };
    assert(relationship_column_valid(g, 6));
    let reinforcement = match decode_reinforcement(
        row.reinforcement_reason,
        row.reinforcement_incident_id,
        row.reinforcement_evidence_ids,
    ) {
        Ok(p) => p,
        Err(e) => {
            proof { assert(!relationship_column_valid(g, 7)); }
            return Err(e);
        },
    };
    assert(relationship_column_valid(g, 7));
    Ok(
        MemoryRelationship {
            id: MemoryRelationshipId(row.id),
            kind,
            source: MemoryNodeId(row.source),
            target: MemoryNodeId(row.target),
            created_at: row.created_at,
            last_seen_at: row.last_seen_at,
            observation_count: row.observation_count,
            expires_at: row.expires_at,
            state,
            priority,
            retention,
            decay_policy,
            strength,
            confidence,
            reinforcement,
        },
    )
}

/// A stored decay policy read back is the policy that was written.
proof fn lemma_decay_policy_column_round_trip(p: DecayPolicy)
    requires
        rate_column(p) matches Some(x) ==> x <= 100,
    ensures
        DecayPolicy::parts_valid(p.name(), rate_column(p)),
        forall|q: DecayPolicy|
            DecayPolicy::stored_as(q, p.name(), rate_column(p)) ==> q == p,
{
    reveal_strlit("none");
    reveal_strlit("linear");
    reveal_strlit("exponential");
    assert("none"@.len() == 4 && "linear"@.len() == 6 && "exponential"@.len() == 11);
    match p {
        DecayPolicy::NoDecay => {},
        DecayPolicy::Linear { rate } => {
            assert forall|q: DecayPolicy|
                DecayPolicy::stored_as(q, p.name(), rate_column(p)) implies q == p by {
                match q {
                    DecayPolicy::Linear { rate: r } => {
                        DecayRate::lemma_view_injective(r, rate);
                    },
                    _ => {},
                }
            }
        },
        DecayPolicy::Exponential { rate } => {
            assert forall|q: DecayPolicy|
                DecayPolicy::stored_as(q, p.name(), rate_column(p)) implies q == p by {
                match q {
                    DecayPolicy::Exponential { rate: r } => {
                        DecayRate::lemma_view_injective(r, rate);
                    },
                    _ => {},
                }
            }
        },
    }
}

/// Whether two nodes hold the same values.
pub open spec fn same_node(a: MemoryNode, b: MemoryNode) -> bool {
    &&& a.id.0@ == b.id.0@
    &&& a.kind == b.kind
    &&& a.label@ == b.label@
    &&& a.created_at == b.created_at
    &&& a.last_seen_at == b.last_seen_at
    &&& a.expires_at == b.expires_at
    &&& a.state == b.state
    &&& a.priority == b.priority
    &&& a.retention == b.retention
    &&& a.decay_policy == b.decay_policy
}

/// A node written to its row and read back holds the values it was written
/// with.
pub proof fn lemma_node_row_round_trip(n: MemoryNode, row: NodeRow, m: MemoryNode)
    requires
        node_written(n, row),
        rate_column(n.decay_policy) matches Some(x) ==> x <= 100,
    ensures
        node_row_valid(row),
        node_from_row(row, m) ==> same_node(m, n),
{
    lemma_memory_node_kind_name_round_trip(n.kind);
    lemma_memory_state_name_round_trip(n.state);
    lemma_memory_priority_name_round_trip(n.priority);
    lemma_retention_class_name_round_trip(n.retention);
    lemma_decay_policy_column_round_trip(n.decay_policy);
}

/// A relationship written to its row and read back is the same
/// relationship, its reinforcement and evidence list included.
pub proof fn lemma_relationship_row_round_trip(
    r: RelationshipView,
    row: RelationshipRow,
    m: RelationshipView,
)
    requires
        relationship_written(r, row),
        rate_column(r.decay_policy) matches Some(x) ==> x <= 100,
        r.strength.view() <= 100,
        r.confidence.view() <= 100,
    ensures
        relationship_columns_valid(row, 8),
        relationship_from_row(row, m) ==> m == r,
{
    lemma_memory_relationship_kind_name_round_trip(r.kind);
    lemma_memory_state_name_round_trip(r.state);
    lemma_memory_priority_name_round_trip(r.priority);
    lemma_retention_class_name_round_trip(r.retention);
    lemma_decay_policy_column_round_trip(r.decay_policy);
    if let Some(p) = r.reinforcement {
        lemma_reinforcement_reason_name_round_trip(p.reason);
    }
    assert forall|i: int| 0 <= i < 8 implies #[trigger] relationship_column_valid(row, i) by {}
    if relationship_from_row(row, m) {
        MemoryStrength::lemma_view_injective(m.strength, r.strength);
        MemoryConfidence::lemma_view_injective(m.confidence, r.confidence);
    }
}

} // verus!
