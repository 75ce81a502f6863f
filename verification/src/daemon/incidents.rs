//! Incidents and their evidence: candidates that share a correlation key
//! while an incident is open are recorded against that one incident, whose
//! severity only rises.
use vstd::prelude::*;
use vstd::string::StringExecFns;
use crate::memory::rows::{tuple_form, tuple_text};
use crate::text::{debug_quoted, debug_quoted_spec};
use crate::daemon::ordered::{
    inserted_in_order, is_insertion_point, lemma_insert_contains, lemma_insert_keeps_order, lemma_take_from_back, lemma_remove_keeps_order,
    strictly_ordered, transitive,
};
use crate::protocol::detection::{EvidenceCandidate, EvidenceSource, Severity};
use crate::protocol::ids::{EvidenceId, IncidentId, ObjectId};
use crate::protocol::ipc::{EvidenceDto, IncidentDetailDto, IncidentSummaryDto};
use crate::text::{decimal_spec, id_lt, lemma_id_lt_total, pad_left, str_eq, str_lt, zero_padded};

verus! {

/// Why the incident store refused a request.
#[derive(Debug)]
pub enum IncidentStoreError {
    /// A stored severity that names none.
    InvalidSeverity(String),
    /// An identifier the store would assign is already taken.
    IdentifierTaken(String),
}

impl IncidentStoreError {
    /// The debug form of the error, as `{:?}` renders it.
    pub open spec fn describe_spec(&self) -> Seq<char> {
        match self {
            IncidentStoreError::InvalidSeverity(s) => tuple_form("InvalidSeverity"@, debug_quoted_spec(s@)),
            IncidentStoreError::IdentifierTaken(s) => tuple_form("IdentifierTaken"@, debug_quoted_spec(s@)),
        }
    }

    /// Renders the error in its debug form.
    pub fn describe(&self) -> (r: String)
        ensures
            r@ == self.describe_spec(),
    {
        match self {
            IncidentStoreError::InvalidSeverity(s) => tuple_text("InvalidSeverity", debug_quoted(s.as_str()).as_str()),
            IncidentStoreError::IdentifierTaken(s) => tuple_text("IdentifierTaken", debug_quoted(s.as_str()).as_str()),
        }
    }
}

/// The stored name of a severity.
pub open spec fn severity_name(value: Severity) -> Seq<char> {
    match value {
        Severity::Low => "low"@,
        Severity::Medium => "medium"@,
        Severity::High => "high"@,
        Severity::Critical => "critical"@,
    }
}

pub fn severity_as_str(value: Severity) -> (r: &'static str)
    ensures
        r@ == severity_name(value),
{
    match value {
        Severity::Low => "low",
        Severity::Medium => "medium",
        Severity::High => "high",
        Severity::Critical => "critical",
    }
}

/// Reads a stored severity back.
pub fn decode_severity(value: &str) -> (r: Result<Severity, IncidentStoreError>)
    ensures
        r is Ok <==> exists|s: Severity| severity_name(s) == value@,
        r matches Ok(s) ==> severity_name(s) == value@,
        r matches Err(e) ==> (e matches IncidentStoreError::InvalidSeverity(t) && t@ == value@),
{
    proof {
        reveal_strlit("low");
        reveal_strlit("medium");
        reveal_strlit("high");
        reveal_strlit("critical");
    }
    if str_eq(value, "low") {
        assert(severity_name(Severity::Low) == value@);
        Ok(Severity::Low)
    } else if str_eq(value, "medium") {
        assert(severity_name(Severity::Medium) == value@);
        Ok(Severity::Medium)
    } else if str_eq(value, "high") {
        assert(severity_name(Severity::High) == value@);
        Ok(Severity::High)
    } else if str_eq(value, "critical") {
        assert(severity_name(Severity::Critical) == value@);
        Ok(Severity::Critical)
    } else {
        proof {
            assert forall|s: Severity| severity_name(s) != value@ by {
                match s {
                    Severity::Low => {},
                    Severity::Medium => {},
                    Severity::High => {},
                    Severity::Critical => {},
                }
            }
        }
        Err(IncidentStoreError::InvalidSeverity(String::from_str(value)))
    }
}

/// The stored name of an evidence source.
pub open spec fn evidence_source_name(value: EvidenceSource) -> Seq<char> {
    match value {
        EvidenceSource::Rule => "rule"@,
        EvidenceSource::SelfModel => "self_model"@,
        EvidenceSource::MemoryGraph => "memory_graph"@,
        EvidenceSource::MachineLearning => "machine_learning"@,
        EvidenceSource::KernelTelemetry => "kernel_telemetry"@,
        EvidenceSource::FilesystemTelemetry => "filesystem_telemetry"@,
        EvidenceSource::NetworkTelemetry => "network_telemetry"@,
    }
}

pub fn evidence_source_as_str(value: EvidenceSource) -> (r: &'static str)
    ensures
        r@ == evidence_source_name(value),
{
    match value {
        EvidenceSource::Rule => "rule",
        EvidenceSource::SelfModel => "self_model",
        EvidenceSource::MemoryGraph => "memory_graph",
        EvidenceSource::MachineLearning => "machine_learning",
        EvidenceSource::KernelTelemetry => "kernel_telemetry",
        EvidenceSource::FilesystemTelemetry => "filesystem_telemetry",
        EvidenceSource::NetworkTelemetry => "network_telemetry",
    }
}

/// The evidence source a stored name names, if any.
pub fn decode_evidence_source(value: &str) -> (r: Option<EvidenceSource>)
    ensures
        r matches Some(x) ==> evidence_source_name(x) == value@,
        r is None ==> forall|x: EvidenceSource| #[trigger] evidence_source_name(x) != value@,
{
    if str_eq(value, evidence_source_as_str(EvidenceSource::Rule)) {
        return Some(EvidenceSource::Rule);
    }
    if str_eq(value, evidence_source_as_str(EvidenceSource::SelfModel)) {
        return Some(EvidenceSource::SelfModel);
    }
    if str_eq(value, evidence_source_as_str(EvidenceSource::MemoryGraph)) {
        return Some(EvidenceSource::MemoryGraph);
    }
    if str_eq(value, evidence_source_as_str(EvidenceSource::MachineLearning)) {
        return Some(EvidenceSource::MachineLearning);
    }
    if str_eq(value, evidence_source_as_str(EvidenceSource::KernelTelemetry)) {
        return Some(EvidenceSource::KernelTelemetry);
    }
    if str_eq(value, evidence_source_as_str(EvidenceSource::FilesystemTelemetry)) {
        return Some(EvidenceSource::FilesystemTelemetry);
    }
    if str_eq(value, evidence_source_as_str(EvidenceSource::NetworkTelemetry)) {
        return Some(EvidenceSource::NetworkTelemetry);
    }
    proof {
        assert forall|x: EvidenceSource| #[trigger] evidence_source_name(x) != value@ by {
            match x {
                EvidenceSource::Rule => {},
                EvidenceSource::SelfModel => {},
                EvidenceSource::MemoryGraph => {},
                EvidenceSource::MachineLearning => {},
                EvidenceSource::KernelTelemetry => {},
                EvidenceSource::FilesystemTelemetry => {},
                EvidenceSource::NetworkTelemetry => {},
            }
        }
    }
    None
}

/// A stored incident.
pub struct IncidentRecord {
    pub id: String,
    pub correlation_key: String,
    pub severity: Severity,
    pub summary: String,
    pub status: String,
    pub first_seen_at: u64,
    pub last_seen_at: u64,
}

/// The value of a stored incident.
pub struct IncidentView {
    pub id: Seq<char>,
    pub correlation_key: Seq<char>,
    pub severity: Severity,
    pub summary: Seq<char>,
    pub status: Seq<char>,
    pub first_seen_at: u64,
    pub last_seen_at: u64,
}

impl View for IncidentRecord {
    type V = IncidentView;

    open spec fn view(&self) -> IncidentView {
        IncidentView {
            id: self.id@,
            correlation_key: self.correlation_key@,
            severity: self.severity,
            summary: self.summary@,
            status: self.status@,
            first_seen_at: self.first_seen_at,
            last_seen_at: self.last_seen_at,
        }
    }
}

/// A stored piece of evidence.
pub struct EvidenceRecord {
    pub id: String,
    pub incident_id: String,
    pub source: EvidenceSource,
    pub description: String,
    pub confidence: u8,
    pub observed_at: u64,
}

/// The value of a stored piece of evidence.
pub struct EvidenceView {
    pub id: Seq<char>,
    pub incident_id: Seq<char>,
    pub source: EvidenceSource,
    pub description: Seq<char>,
    pub confidence: u8,
    pub observed_at: u64,
}

impl View for EvidenceRecord {
    type V = EvidenceView;

    open spec fn view(&self) -> EvidenceView {
        EvidenceView {
            id: self.id@,
            incident_id: self.incident_id@,
            source: self.source,
            description: self.description@,
            confidence: self.confidence,
            observed_at: self.observed_at,
        }
    }
}

/// An object related to an incident.
pub struct IncidentObject {
    pub incident_id: String,
    pub object_id: String,
}

impl View for IncidentObject {
    type V = (Seq<char>, Seq<char>);

    open spec fn view(&self) -> (Seq<char>, Seq<char>) {
        (self.incident_id@, self.object_id@)
    }
}

/// Incidents are kept most recently seen first, then by identifier.
pub open spec fn incident_first() -> spec_fn(IncidentView, IncidentView) -> bool {
    |a: IncidentView, b: IncidentView|
        a.last_seen_at > b.last_seen_at || (a.last_seen_at == b.last_seen_at && id_lt(a.id, b.id))
}

/// Evidence is kept in order of observation, then by identifier.
pub open spec fn evidence_first() -> spec_fn(EvidenceView, EvidenceView) -> bool {
    |a: EvidenceView, b: EvidenceView|
        a.observed_at < b.observed_at || (a.observed_at == b.observed_at && id_lt(a.id, b.id))
}

/// Related objects are kept by incident, then by object identifier.
pub open spec fn object_first() -> spec_fn((Seq<char>, Seq<char>), (Seq<char>, Seq<char>)) -> bool {
    |a: (Seq<char>, Seq<char>), b: (Seq<char>, Seq<char>)|
        id_lt(a.0, b.0) || (a.0 == b.0 && id_lt(a.1, b.1))
}

/// The identifier given to the incident counted `n`: `inc_` and eight digits.
pub open spec fn incident_id_text(n: u64) -> Seq<char> {
    "inc_"@ + pad_left(decimal_spec(n as nat), '0', 8)
}

/// The identifier given to the evidence counted `n`: `evi_` and eight digits.
pub open spec fn evidence_id_text(n: u64) -> Seq<char> {
    "evi_"@ + pad_left(decimal_spec(n as nat), '0', 8)
}

/// Whether `i` is the first open incident of `s` under correlation key `key`.
pub open spec fn is_first_open(s: Seq<IncidentView>, key: Seq<char>, i: int) -> bool {
    &&& 0 <= i < s.len()
    &&& s[i].correlation_key == key && s[i].status == "open"@
    &&& forall|j: int| 0 <= j < i ==> !(#[trigger] s[j].correlation_key == key && s[j].status == "open"@)
}

/// The open incident a candidate with correlation key `key` joins: the most
/// recently seen one.
pub open spec fn open_incident_for(s: Seq<IncidentView>, key: Seq<char>) -> Option<int> {
    if exists|i: int| is_first_open(s, key, i) {
        Some(choose|i: int| is_first_open(s, key, i))
    } else {
        None
    }
}

/// Whether an incident with identifier `id` is stored in `s`.
pub open spec fn has_incident(s: Seq<IncidentView>, id: Seq<char>) -> bool {
    exists|i: int| 0 <= i < s.len() && s[i].id == id
}

/// The identifier of an incident.
pub open spec fn incident_key() -> spec_fn(IncidentView) -> Seq<char> {
    |v: IncidentView| v.id
}

/// The identifier of a piece of evidence.
pub open spec fn evidence_key() -> spec_fn(EvidenceView) -> Seq<char> {
    |v: EvidenceView| v.id
}

/// Whether evidence with identifier `id` is stored in `s`.
pub open spec fn has_evidence(s: Seq<EvidenceView>, id: Seq<char>) -> bool {
    exists|i: int| 0 <= i < s.len() && s[i].id == id
}

/// `a + 1`, saturating.
pub open spec fn next_count(a: u64) -> u64 {
    if a == u64::MAX {
        a
    } else {
        (a + 1) as u64
    }
}

/// The stored incidents, pieces of evidence and related objects, and the
/// counters the next identifiers are drawn from.
pub struct IncidentService {
    incidents: Vec<IncidentRecord>,
    evidence: Vec<EvidenceRecord>,
    objects: Vec<IncidentObject>,
    next_incident: u64,
    next_evidence: u64,
}

impl IncidentService {
    /// The stored incidents.
    pub closed spec fn incidents_view(&self) -> Seq<IncidentView> {
        self.incidents@.map_values(|r: IncidentRecord| r@)
    }

    /// The stored evidence.
    pub closed spec fn evidence_view(&self) -> Seq<EvidenceView> {
        self.evidence@.map_values(|r: EvidenceRecord| r@)
    }

    /// The stored pairs of incident and related object.
    pub closed spec fn objects_view(&self) -> Seq<(Seq<char>, Seq<char>)> {
        self.objects@.map_values(|r: IncidentObject| r@)
    }

    /// The counter of the next incident.
    pub closed spec fn next_incident_count(&self) -> u64 {
        self.next_incident
    }

    /// The counter of the next piece of evidence.
    pub closed spec fn next_evidence_count(&self) -> u64 {
        self.next_evidence
    }

    /// Every table is kept in its order, and so holds no identifier twice.
    pub open spec fn well_formed(&self) -> bool {
        &&& strictly_ordered(self.incidents_view(), incident_first())
        &&& strictly_ordered(self.evidence_view(), evidence_first())
        &&& strictly_ordered(self.objects_view(), object_first())
        &&& forall|i: int, j: int|
            0 <= i < self.incidents_view().len() && 0 <= j < self.incidents_view().len() && i
                != j ==> #[trigger] self.incidents_view()[i].id != #[trigger] self.incidents_view()[j].id
        &&& forall|i: int, j: int|
            0 <= i < self.evidence_view().len() && 0 <= j < self.evidence_view().len() && i != j
                ==> #[trigger] self.evidence_view()[i].id != #[trigger] self.evidence_view()[j].id
    }

    /// An empty store whose counters start at 1.
    pub fn new() -> (r: IncidentService)
        ensures
            r.well_formed(),
            r.incidents_view().len() == 0,
            r.evidence_view().len() == 0,
            r.objects_view().len() == 0,
            r.next_incident_count() == 1,
            r.next_evidence_count() == 1,
    {
        let r = IncidentService {
            incidents: Vec::new(),
            evidence: Vec::new(),
            objects: Vec::new(),
            next_incident: 1,
            next_evidence: 1,
        };
        assert(r.incidents_view() =~= Seq::empty());
        assert(r.evidence_view() =~= Seq::empty());
        assert(r.objects_view() =~= Seq::empty());
        r
    }
}

proof fn lemma_incident_order()
    ensures
        transitive(incident_first()),
        forall|a: IncidentView, b: IncidentView|
            a.id != b.id ==> #[trigger] incident_first()(a, b) || #[trigger] incident_first()(b, a),
{
    assert forall|a: IncidentView, b: IncidentView, c: IncidentView|
        #[trigger] incident_first()(a, b) && #[trigger] incident_first()(b, c) implies incident_first()(
        a,
        c,
    ) by {
        if a.last_seen_at == b.last_seen_at && b.last_seen_at == c.last_seen_at {
            crate::text::lemma_id_lt_transitive(a.id, b.id, c.id);
        }
    }
    assert forall|a: IncidentView, b: IncidentView|
        a.id != b.id implies #[trigger] incident_first()(a, b) || #[trigger] incident_first()(b, a) by {
        lemma_id_lt_total(a.id, b.id);
    }
}

proof fn lemma_evidence_order()
    ensures
        transitive(evidence_first()),
        forall|a: EvidenceView, b: EvidenceView|
            a.id != b.id ==> #[trigger] evidence_first()(a, b) || #[trigger] evidence_first()(b, a),
{
    assert forall|a: EvidenceView, b: EvidenceView, c: EvidenceView|
        #[trigger] evidence_first()(a, b) && #[trigger] evidence_first()(b, c) implies evidence_first()(
        a,
        c,
    ) by {
        if a.observed_at == b.observed_at && b.observed_at == c.observed_at {
            crate::text::lemma_id_lt_transitive(a.id, b.id, c.id);
        }
    }
    assert forall|a: EvidenceView, b: EvidenceView|
        a.id != b.id implies #[trigger] evidence_first()(a, b) || #[trigger] evidence_first()(b, a) by {
        lemma_id_lt_total(a.id, b.id);
    }
}

proof fn lemma_object_order()
    ensures
        transitive(object_first()),
        forall|a: (Seq<char>, Seq<char>), b: (Seq<char>, Seq<char>)|
            a != b ==> #[trigger] object_first()(a, b) || #[trigger] object_first()(b, a),
        forall|a: (Seq<char>, Seq<char>)| !#[trigger] object_first()(a, a),
{
    assert forall|a: (Seq<char>, Seq<char>), b: (Seq<char>, Seq<char>), c: (Seq<char>, Seq<char>)|
        #[trigger] object_first()(a, b) && #[trigger] object_first()(b, c) implies object_first()(
        a,
        c,
    ) by {
        if id_lt(a.0, b.0) && id_lt(b.0, c.0) {
            crate::text::lemma_id_lt_transitive(a.0, b.0, c.0);
        } else if a.0 == b.0 && b.0 == c.0 {
            crate::text::lemma_id_lt_transitive(a.1, b.1, c.1);
        }
    }
    assert forall|a: (Seq<char>, Seq<char>), b: (Seq<char>, Seq<char>)|
        a != b implies #[trigger] object_first()(a, b) || #[trigger] object_first()(b, a) by {
        lemma_id_lt_total(a.0, b.0);
        lemma_id_lt_total(a.1, b.1);
    }
    assert forall|a: (Seq<char>, Seq<char>)| !#[trigger] object_first()(a, a) by {
        crate::text::lemma_id_lt_irreflexive(a.0);
        crate::text::lemma_id_lt_irreflexive(a.1);
    }
}

impl IncidentRecord {
    fn duplicate(&self) -> (r: IncidentRecord)
        ensures
            r@ == self@,
    {
        IncidentRecord {
            id: self.id.clone(),
            correlation_key: self.correlation_key.clone(),
            severity: self.severity,
            summary: self.summary.clone(),
            status: self.status.clone(),
            first_seen_at: self.first_seen_at,
            last_seen_at: self.last_seen_at,
        }
    }
}

/// Whether `a` comes before `b` among incidents.
fn incident_precedes(a: &IncidentRecord, b: &IncidentRecord) -> (r: bool)
    ensures
        r == incident_first()(a@, b@),
{
    if a.last_seen_at != b.last_seen_at {
        a.last_seen_at > b.last_seen_at
    } else {
        str_lt(a.id.as_str(), b.id.as_str())
    }
}

/// Whether `a` comes before `b` among evidence.
fn evidence_precedes(a: &EvidenceRecord, b: &EvidenceRecord) -> (r: bool)
    ensures
        r == evidence_first()(a@, b@),
{
    if a.observed_at != b.observed_at {
        a.observed_at < b.observed_at
    } else {
        str_lt(a.id.as_str(), b.id.as_str())
    }
}

/// Whether `a` comes before `b` among related objects.
fn object_precedes(a: &IncidentObject, b: &IncidentObject) -> (r: bool)
    ensures
        r == object_first()(a@, b@),
{
    if str_lt(a.incident_id.as_str(), b.incident_id.as_str()) {
        true
    } else if str_eq(a.incident_id.as_str(), b.incident_id.as_str()) {
        str_lt(a.object_id.as_str(), b.object_id.as_str())
    } else {
        false
    }
}

impl IncidentService {
    /// The first open incident under `key`.
    fn find_open(&self, key: &str) -> (r: Option<usize>)
        ensures
            match r {
                Some(i) => open_incident_for(self.incidents_view(), key@) == Some(i as int),
                None => open_incident_for(self.incidents_view(), key@) is None,
            },
    {
        let ghost v = self.incidents_view();
        let mut i: usize = 0;
        while i < self.incidents.len()
            invariant
                v == self.incidents_view(),
                i <= v.len(),
                forall|j: int| 0 <= j < i ==> !(#[trigger] v[j].correlation_key == key@ && v[j].status == "open"@),
            decreases v.len() - i,
        {
            proof {
                reveal_strlit("open");
            }
            if str_eq(self.incidents[i].correlation_key.as_str(), key) && str_eq(
                self.incidents[i].status.as_str(),
                "open",
            ) {
                assert(is_first_open(v, key@, i as int));
                proof {
                    let c = choose|c: int| is_first_open(v, key@, c);
                    if c < i {
                        assert(v[c].correlation_key == key@ && v[c].status == "open"@);
                    } else if c > i {
                        assert(!(v[i as int].correlation_key == key@ && v[i as int].status == "open"@));
                    }
                }
                return Some(i);
            }
            i = i + 1;
        }
        assert forall|c: int| !is_first_open(v, key@, c) by {
            if 0 <= c < v.len() {
                assert(!(v[c].correlation_key == key@ && v[c].status == "open"@));
            }
        }
        None
    }

    /// Whether an incident with identifier `id` is stored.
    fn incident_taken(&self, id: &str) -> (r: bool)
        ensures
            r == has_incident(self.incidents_view(), id@),
    {
        let ghost v = self.incidents_view();
        let mut i: usize = 0;
        while i < self.incidents.len()
            invariant
                v == self.incidents_view(),
                i <= v.len(),
                forall|j: int| 0 <= j < i ==> #[trigger] v[j].id != id@,
            decreases v.len() - i,
        {
            if str_eq(self.incidents[i].id.as_str(), id) {
                assert(v[i as int].id == id@);
                return true;
            }
            i = i + 1;
        }
        false
    }

    /// Whether evidence with identifier `id` is stored.
    fn evidence_taken(&self, id: &str) -> (r: bool)
        ensures
            r == has_evidence(self.evidence_view(), id@),
    {
        let ghost v = self.evidence_view();
        let mut i: usize = 0;
        while i < self.evidence.len()
            invariant
                v == self.evidence_view(),
                i <= v.len(),
                forall|j: int| 0 <= j < i ==> #[trigger] v[j].id != id@,
            decreases v.len() - i,
        {
            if str_eq(self.evidence[i].id.as_str(), id) {
                assert(v[i as int].id == id@);
                return true;
            }
            i = i + 1;
        }
        false
    }

    /// Stores an incident whose identifier is new, where it goes.
    fn insert_incident(&mut self, record: IncidentRecord)
        requires
            old(self).well_formed(),
            !has_incident(old(self).incidents_view(), record.id@),
        ensures
            final(self).well_formed(),
            inserted_in_order(
                old(self).incidents_view(),
                record@,
                incident_first(),
                final(self).incidents_view(),
            ),
            final(self).evidence_view() == old(self).evidence_view(),
            final(self).objects_view() == old(self).objects_view(),
            final(self).next_incident_count() == old(self).next_incident_count(),
            final(self).next_evidence_count() == old(self).next_evidence_count(),
    {
        let ghost v = self.incidents_view();
        let mut pos: usize = 0;
        while pos < self.incidents.len()
            invariant
                v == self.incidents_view(),
                pos <= v.len(),
                forall|i: int| 0 <= i < pos ==> !incident_first()(record@, #[trigger] v[i]),
            ensures
                pos <= v.len(),
                forall|i: int| 0 <= i < pos ==> !incident_first()(record@, #[trigger] v[i]),
                pos < v.len() ==> incident_first()(record@, v[pos as int]),
            decreases v.len() - pos,
        {
            if incident_precedes(&record, &self.incidents[pos]) {
                break;
            }
            pos = pos + 1;
        }
        let ghost e = record@;
        self.incidents.insert(pos, record);
        proof {
            let t = self.incidents_view();
            assert(t =~= v.insert(pos as int, e));
            assert(is_insertion_point(v, e, incident_first(), pos as int));
            lemma_incident_order();
            assert forall|i: int| 0 <= i < v.len() implies incident_first()(#[trigger] v[i], e)
                || incident_first()(e, v[i]) by {
                assert(v[i].id != e.id);
            }
            lemma_insert_keeps_order(v, e, incident_first(), pos as int);
            assert forall|i: int, j: int|
                0 <= i < t.len() && 0 <= j < t.len() && i != j implies #[trigger] t[i].id
                != #[trigger] t[j].id by {
                if i != pos && j != pos {
                    let a = if i < pos { i } else { i - 1 };
                    let b = if j < pos { j } else { j - 1 };
                    assert(t[i] == v[a] && t[j] == v[b]);
                } else if i == pos {
                    let b = if j < pos { j } else { j - 1 };
                    assert(t[j] == v[b]);
                } else {
                    let a = if i < pos { i } else { i - 1 };
                    assert(t[i] == v[a]);
                }
            }
        }
    }

    /// Stores a piece of evidence whose identifier is new, where it goes.
    fn insert_evidence(&mut self, record: EvidenceRecord)
        requires
            old(self).well_formed(),
            !has_evidence(old(self).evidence_view(), record.id@),
        ensures
            final(self).well_formed(),
            inserted_in_order(
                old(self).evidence_view(),
                record@,
                evidence_first(),
                final(self).evidence_view(),
            ),
            final(self).incidents_view() == old(self).incidents_view(),
            final(self).objects_view() == old(self).objects_view(),
            final(self).next_incident_count() == old(self).next_incident_count(),
            final(self).next_evidence_count() == old(self).next_evidence_count(),
    {
        let ghost v = self.evidence_view();
        let mut pos: usize = 0;
        while pos < self.evidence.len()
            invariant
                v == self.evidence_view(),
                pos <= v.len(),
                forall|i: int| 0 <= i < pos ==> !evidence_first()(record@, #[trigger] v[i]),
            ensures
                pos <= v.len(),
                forall|i: int| 0 <= i < pos ==> !evidence_first()(record@, #[trigger] v[i]),
                pos < v.len() ==> evidence_first()(record@, v[pos as int]),
            decreases v.len() - pos,
        {
            if evidence_precedes(&record, &self.evidence[pos]) {
                break;
            }
            pos = pos + 1;
        }
        let ghost e = record@;
        self.evidence.insert(pos, record);
        proof {
            let t = self.evidence_view();
            assert(t =~= v.insert(pos as int, e));
            assert(is_insertion_point(v, e, evidence_first(), pos as int));
            lemma_evidence_order();
            assert forall|i: int| 0 <= i < v.len() implies evidence_first()(#[trigger] v[i], e)
                || evidence_first()(e, v[i]) by {
                assert(v[i].id != e.id);
            }
            lemma_insert_keeps_order(v, e, evidence_first(), pos as int);
            assert forall|i: int, j: int|
                0 <= i < t.len() && 0 <= j < t.len() && i != j implies #[trigger] t[i].id
                != #[trigger] t[j].id by {
                if i != pos && j != pos {
                    let a = if i < pos { i } else { i - 1 };
                    let b = if j < pos { j } else { j - 1 };
                    assert(t[i] == v[a] && t[j] == v[b]);
                } else if i == pos {
                    let b = if j < pos { j } else { j - 1 };
                    assert(t[j] == v[b]);
                } else {
                    let a = if i < pos { i } else { i - 1 };
                    assert(t[i] == v[a]);
                }
            }
        }
    }

    /// Relates an object to an incident, unless it already is.
    fn add_object(&mut self, incident_id: &str, object_id: &str)
        requires
            old(self).well_formed(),
        ensures
            final(self).well_formed(),
            old(self).objects_view().contains((incident_id@, object_id@)) ==> final(self).objects_view()
                == old(self).objects_view(),
            !old(self).objects_view().contains((incident_id@, object_id@)) ==> inserted_in_order(
                old(self).objects_view(),
                (incident_id@, object_id@),
                object_first(),
                final(self).objects_view(),
            ),
            final(self).incidents_view() == old(self).incidents_view(),
            final(self).evidence_view() == old(self).evidence_view(),
            final(self).next_incident_count() == old(self).next_incident_count(),
            final(self).next_evidence_count() == old(self).next_evidence_count(),
    {
        let record = IncidentObject {
            incident_id: String::from_str(incident_id),
            object_id: String::from_str(object_id),
        };
        let ghost e = record@;
        let ghost v = self.objects_view();
        let mut pos: usize = 0;
        while pos < self.objects.len()
            invariant
                v == self.objects_view(),
                e == record@,
                pos <= v.len(),
                forall|i: int| 0 <= i < pos ==> !object_first()(e, #[trigger] v[i]) && v[i] != e,
            ensures
                pos <= v.len(),
                forall|i: int| 0 <= i < pos ==> !object_first()(e, #[trigger] v[i]) && v[i] != e,
                pos < v.len() ==> object_first()(e, v[pos as int]) || v[pos as int] == e,
            decreases v.len() - pos,
        {
            if object_precedes(&record, &self.objects[pos]) {
                break;
            }
            if str_eq(record.incident_id.as_str(), self.objects[pos].incident_id.as_str()) && str_eq(
                record.object_id.as_str(),
                self.objects[pos].object_id.as_str(),
            ) {
                break;
            }
            pos = pos + 1;
        }
        proof {
            lemma_object_order();
        }
        if pos < self.objects.len() && str_eq(
            record.incident_id.as_str(),
            self.objects[pos].incident_id.as_str(),
        ) && str_eq(record.object_id.as_str(), self.objects[pos].object_id.as_str()) {
            assert(v[pos as int] == e);
            return;
        }
        proof {
            if pos < v.len() {
                assert(v[pos as int] != e);
                assert(object_first()(e, v[pos as int]));
            }
            assert forall|i: int| 0 <= i < v.len() implies v[i] != e by {
                if i > pos {
                    assert(object_first()(v[pos as int], v[i]));
                    if v[i] == e {
                        assert(object_first()(e, e));
                    }
                }
            }
            assert(!v.contains(e));
        }
        self.objects.insert(pos, record);
        proof {
            let t = self.objects_view();
            assert(t =~= v.insert(pos as int, e));
            assert(is_insertion_point(v, e, object_first(), pos as int));
            lemma_insert_keeps_order(v, e, object_first(), pos as int);
        }
    }
}

/// An incident after a candidate joined it: the severity rises to the
/// candidate's if higher, and the summary and last sighting are the
/// candidate's.
pub open spec fn joined(i: IncidentView, severity: Severity, summary: Seq<char>, at: u64) -> IncidentView {
    IncidentView { severity: i.severity.max_spec(severity), summary, last_seen_at: at, ..i }
}

/// An incident opened for a candidate.
pub open spec fn opened(
    id: Seq<char>,
    key: Seq<char>,
    severity: Severity,
    summary: Seq<char>,
    at: u64,
) -> IncidentView {
    IncidentView {
        id,
        correlation_key: key,
        severity,
        summary,
        status: "open"@,
        first_seen_at: at,
        last_seen_at: at,
    }
}

/// Whether `after` is `before` once a candidate under correlation key `key`,
/// observed at `at`, was recorded as evidence `evidence` of incident
/// `incident`: the incident joined or opened, the evidence stored where it
/// goes, and the related objects added.
pub open spec fn candidate_recorded(
    before: IncidentService,
    after: IncidentService,
    key: Seq<char>,
    source: EvidenceSource,
    summary: Seq<char>,
    description: Seq<char>,
    severity: Severity,
    confidence: u8,
    related: Seq<Seq<char>>,
    at: u64,
    incident: Seq<char>,
    evidence: Seq<char>,
) -> bool {
    &&& incident == before.candidate_incident_id(key)
    &&& evidence == evidence_id_text(before.next_evidence_count())
    &&& match open_incident_for(before.incidents_view(), key) {
        Some(i) => {
            &&& inserted_in_order(
                before.incidents_view().remove(i),
                joined(before.incidents_view()[i], severity, summary, at),
                incident_first(),
                after.incidents_view(),
            )
            &&& after.next_incident_count() == before.next_incident_count()
        },
        None => {
            &&& inserted_in_order(
                before.incidents_view(),
                opened(incident, key, severity, summary, at),
                incident_first(),
                after.incidents_view(),
            )
            &&& after.next_incident_count() == next_count(before.next_incident_count())
        },
    }
    &&& inserted_in_order(
        before.evidence_view(),
        EvidenceView {
            id: evidence,
            incident_id: incident,
            source,
            description,
            confidence,
            observed_at: at,
        },
        evidence_first(),
        after.evidence_view(),
    )
    &&& after.next_evidence_count() == next_count(before.next_evidence_count())
    &&& forall|x: (Seq<char>, Seq<char>)|
        #[trigger] after.objects_view().contains(x) <==> (before.objects_view().contains(x) || (x.0
            == incident && related.contains(x.1)))
}

impl IncidentService {
    /// The identifier of the incident a candidate under `key` is recorded
    /// against: the open one it joins, or the next identifier.
    pub open spec fn candidate_incident_id(&self, key: Seq<char>) -> Seq<char> {
        match open_incident_for(self.incidents_view(), key) {
            Some(i) => self.incidents_view()[i].id,
            None => incident_id_text(self.next_incident_count()),
        }
    }

    /// Whether recording a candidate under `key` is refused because an
    /// identifier it would assign is taken.
    pub open spec fn candidate_refused(&self, key: Seq<char>) -> bool {
        ||| open_incident_for(self.incidents_view(), key) is None && has_incident(
            self.incidents_view(),
            incident_id_text(self.next_incident_count()),
        )
        ||| has_evidence(self.evidence_view(), evidence_id_text(self.next_evidence_count()))
    }

    /// Records a candidate against the open incident with the same correlation
    /// key, raising its severity, or opens a new incident; then stores the
    /// evidence and relates the candidate's objects to the incident.
    pub fn record_candidate(
        &mut self,
        candidate: EvidenceCandidate,
        correlation_key: &str,
        observed_at: u64,
    ) -> (r: Result<(IncidentId, EvidenceId), IncidentStoreError>)
        requires
            old(self).well_formed(),
        ensures
            final(self).well_formed(),
            r is Err <==> old(self).candidate_refused(correlation_key@),
            r matches Err(e) ==> {
                &&& e matches IncidentStoreError::IdentifierTaken(t) && (if open_incident_for(
                    old(self).incidents_view(),
                    correlation_key@,
                ) is None && has_incident(
                    old(self).incidents_view(),
                    incident_id_text(old(self).next_incident_count()),
                ) {
                    t@ == incident_id_text(old(self).next_incident_count())
                } else {
                    t@ == evidence_id_text(old(self).next_evidence_count())
                })
                &&& final(self).incidents_view() == old(self).incidents_view()
                &&& final(self).evidence_view() == old(self).evidence_view()
                &&& final(self).objects_view() == old(self).objects_view()
                &&& final(self).next_incident_count() == old(self).next_incident_count()
                &&& final(self).next_evidence_count() == old(self).next_evidence_count()
            },
            r matches Ok((incident, evidence)) ==> candidate_recorded(
                *old(self),
                *final(self),
                correlation_key@,
                candidate.source,
                candidate.summary@,
                candidate.description@,
                candidate.severity,
                candidate.confidence.view(),
                candidate.related_objects@.map_values(|o: ObjectId| o.0@),
                observed_at,
                incident.0@,
                evidence.0@,
            ),
    {
        let found = self.find_open(correlation_key);
        let mut incident_id = match found {
            Some(i) => self.incidents[i].id.clone(),
            None => {
                let id = String::from_str("inc_");
                let digits = zero_padded(self.next_incident, 8);
                proof {
                    reveal_strlit("inc_");
                }
                id.concat(digits.as_str())
            },
        };
        if found.is_none() && self.incident_taken(incident_id.as_str()) {
            return Err(IncidentStoreError::IdentifierTaken(incident_id));
        }
        let evidence_id = {
            let id = String::from_str("evi_");
            let digits = zero_padded(self.next_evidence, 8);
            proof {
                reveal_strlit("evi_");
            }
            id.concat(digits.as_str())
        };
        if self.evidence_taken(evidence_id.as_str()) {
            return Err(IncidentStoreError::IdentifierTaken(evidence_id));
        }
        let ghost old_incidents = self.incidents_view();
        match found {
            Some(i) => {
                let previous = self.incidents.remove(i);
                proof {
                    assert(self.incidents_view() =~= old_incidents.remove(i as int));
                    lemma_remove_keeps_order(old_incidents, incident_first(), i as int);
                    let t = self.incidents_view();
                    assert forall|a: int, b: int|
                        0 <= a < t.len() && 0 <= b < t.len() && a != b implies #[trigger] t[a].id
                        != #[trigger] t[b].id by {
                        let x = if a < i { a } else { a + 1 };
                        let y = if b < i { b } else { b + 1 };
                        assert(t[a] == old_incidents[x] && t[b] == old_incidents[y]);
                    }
                    assert(!has_incident(t, previous.id@)) by {
                        if has_incident(t, previous.id@) {
                            let a = choose|a: int| 0 <= a < t.len() && t[a].id == previous.id@;
                            let x = if a < i { a } else { a + 1 };
                            assert(t[a] == old_incidents[x]);
                            assert(old_incidents[x].id == old_incidents[i as int].id);
                        }
                    }
                }
                let updated = IncidentRecord {
                    id: previous.id,
                    correlation_key: previous.correlation_key,
                    severity: previous.severity.max_of(candidate.severity),
                    summary: candidate.summary.clone(),
                    status: previous.status,
                    first_seen_at: previous.first_seen_at,
                    last_seen_at: observed_at,
                };
                self.insert_incident(updated);
            },
            None => {
                proof {
                    reveal_strlit("open");
                }
                let record = IncidentRecord {
                    id: incident_id.clone(),
                    correlation_key: String::from_str(correlation_key),
                    severity: candidate.severity,
                    summary: candidate.summary.clone(),
                    status: String::from_str("open"),
                    first_seen_at: observed_at,
                    last_seen_at: observed_at,
                };
                self.insert_incident(record);
                self.next_incident = self.next_incident.saturating_add(1);
            },
        }
        let record = EvidenceRecord {
            id: evidence_id.clone(),
            incident_id: incident_id.clone(),
            source: candidate.source,
            description: candidate.description.clone(),
            confidence: candidate.confidence.value(),
            observed_at,
        };
        self.insert_evidence(record);
        self.next_evidence = self.next_evidence.saturating_add(1);
        let ghost objects_before = self.objects_view();
        let ghost incidents_after = self.incidents_view();
        let ghost evidence_after = self.evidence_view();
        let ghost counts = (self.next_incident_count(), self.next_evidence_count());
        let related = &candidate.related_objects;
        let mut k: usize = 0;
        while k < related.len()
            invariant
                self.well_formed(),
                k <= related@.len(),
                forall|x: (Seq<char>, Seq<char>)|
                    #[trigger] self.objects_view().contains(x) <==> (objects_before.contains(x) || (
                    x.0 == incident_id@ && exists|j: int| 0 <= j < k && related@[j].0@ == x.1)),
                self.incidents_view() == incidents_after,
                self.evidence_view() == evidence_after,
                counts == (self.next_incident_count(), self.next_evidence_count()),
            decreases related@.len() - k,
        {
            let ghost before = self.objects_view();
            self.add_object(incident_id.as_str(), related[k].0.as_str());
            proof {
                let after = self.objects_view();
                let e = (incident_id@, related@[k as int].0@);
                if !before.contains(e) {
                    let p = choose|p: int| is_insertion_point(before, e, object_first(), p)
                        && after == before.insert(p, e);
                    assert forall|x: (Seq<char>, Seq<char>)| #[trigger] after.contains(x) <==> (
                    before.contains(x) || x == e) by {
                        if after.contains(x) {
                            let q = choose|q: int| 0 <= q < after.len() && after[q] == x;
                            if q < p {
                                assert(before[q] == x);
                            } else if q > p {
                                assert(before[q - 1] == x);
                            }
                        }
                        if before.contains(x) {
                            let q = choose|q: int| 0 <= q < before.len() && before[q] == x;
                            if q < p {
                                assert(after[q] == x);
                            } else {
                                assert(after[q + 1] == x);
                            }
                        }
                        if x == e {
                            assert(after[p] == x);
                        }
                    }
                }
                assert forall|x: (Seq<char>, Seq<char>)| #[trigger] after.contains(x) <==> (
                objects_before.contains(x) || (x.0 == incident_id@ && exists|j: int|
                    0 <= j < k + 1 && related@[j].0@ == x.1)) by {
                    if x.0 == incident_id@ && x.1 == related@[k as int].0@ {
                        assert(x == e);
                    }
                    if x.0 == incident_id@ && (exists|j: int| 0 <= j < k + 1 && related@[j].0@ == x.1) {
                        let j = choose|j: int| 0 <= j < k + 1 && related@[j].0@ == x.1;
                        if j == k {
                            assert(x == e);
                        }
                    }
                }
            }
            k = k + 1;
        }
        proof {
            let related_ids = candidate.related_objects@.map_values(|o: ObjectId| o.0@);
            assert forall|x: (Seq<char>, Seq<char>)| #[trigger] self.objects_view().contains(x) <==> (
            objects_before.contains(x) || (x.0 == incident_id@ && related_ids.contains(x.1))) by {
                if exists|j: int| 0 <= j < related@.len() && related@[j].0@ == x.1 {
                    let j = choose|j: int| 0 <= j < related@.len() && related@[j].0@ == x.1;
                    assert(related_ids[j] == x.1);
                }
                if related_ids.contains(x.1) {
                    let j = choose|j: int| 0 <= j < related_ids.len() && related_ids[j] == x.1;
                    assert(related@[j].0@ == x.1);
                }
            }
        }
        Ok((IncidentId(incident_id), EvidenceId(evidence_id)))
    }
}

/// The evidence recorded against the incident `id`, in stored order.
pub open spec fn evidence_of(e: Seq<EvidenceView>, id: Seq<char>) -> Seq<EvidenceView> {
    e.filter(|x: EvidenceView| x.incident_id == id)
}

/// The objects related to the incident `id`, in stored order.
pub open spec fn objects_of(o: Seq<(Seq<char>, Seq<char>)>, id: Seq<char>) -> Seq<Seq<char>> {
    o.filter(|x: (Seq<char>, Seq<char>)| x.0 == id).map_values(|x: (Seq<char>, Seq<char>)| x.1)
}

/// Whether `d` reports the incident `i` with `count` pieces of evidence.
pub open spec fn summary_reports(d: IncidentSummaryDto, i: IncidentView, count: nat) -> bool {
    &&& d.id@ == i.id
    &&& d.severity@ == severity_name(i.severity)
    &&& d.summary@ == i.summary
    &&& d.status@ == i.status
    &&& d.first_seen_at == i.first_seen_at
    &&& d.last_seen_at == i.last_seen_at
    &&& d.evidence_count == count
}

/// Whether `d` reports the evidence `e`.
pub open spec fn evidence_reports(d: EvidenceDto, e: EvidenceView) -> bool {
    &&& d.id@ == e.id
    &&& d.source@ == evidence_source_name(e.source)
    &&& d.description@ == e.description
    &&& d.confidence == e.confidence
    &&& d.observed_at == e.observed_at
}

impl IncidentService {
    /// The reported form of the evidence of incident `id`.
    fn evidence_dtos(&self, id: &str) -> (r: Vec<EvidenceDto>)
        ensures
            r@.len() == evidence_of(self.evidence_view(), id@).len(),
            forall|k: int|
                0 <= k < r@.len() ==> evidence_reports(
                    #[trigger] r@[k],
                    evidence_of(self.evidence_view(), id@)[k],
                ),
    {
        let ghost v = self.evidence_view();
        let ghost p = |x: EvidenceView| x.incident_id == id@;
        let mut out: Vec<EvidenceDto> = Vec::new();
        let mut i: usize = 0;
        while i < self.evidence.len()
            invariant
                v == self.evidence_view(),
                p == (|x: EvidenceView| x.incident_id == id@),
                i <= v.len(),
                out@.len() == v.take(i as int).filter(p).len(),
                forall|k: int|
                    0 <= k < out@.len() ==> evidence_reports(
                        #[trigger] out@[k],
                        v.take(i as int).filter(p)[k],
                    ),
            decreases v.len() - i,
        {
            proof {
                crate::memory::keyed::lemma_filter_take_step(v, p, i as int);
            }
            let e = &self.evidence[i];
            if str_eq(e.incident_id.as_str(), id) {
                out.push(
                    EvidenceDto {
                        id: e.id.clone(),
                        source: String::from_str(evidence_source_as_str(e.source)),
                        description: e.description.clone(),
                        confidence: e.confidence,
                        observed_at: e.observed_at,
                    },
                );
            }
            i = i + 1;
        }
        assert(v.take(v.len() as int) =~= v);
        out
    }

    /// The objects related to incident `id`.
    fn related_objects(&self, id: &str) -> (r: Vec<String>)
        ensures
            r@.map_values(|x: String| x@) == objects_of(self.objects_view(), id@),
    {
        let ghost v = self.objects_view();
        let ghost p = |x: (Seq<char>, Seq<char>)| x.0 == id@;
        let mut out: Vec<String> = Vec::new();
        let mut i: usize = 0;
        while i < self.objects.len()
            invariant
                v == self.objects_view(),
                p == (|x: (Seq<char>, Seq<char>)| x.0 == id@),
                i <= v.len(),
                out@.map_values(|x: String| x@) == v.take(i as int).filter(p).map_values(
                    |x: (Seq<char>, Seq<char>)| x.1,
                ),
            decreases v.len() - i,
        {
            proof {
                crate::memory::keyed::lemma_filter_take_step(v, p, i as int);
            }
            let o = &self.objects[i];
            let ghost prev = out@;
            if str_eq(o.incident_id.as_str(), id) {
                out.push(o.object_id.clone());
                proof {
                    assert(out@.map_values(|x: String| x@) =~= prev.map_values(|x: String| x@).push(
                        o.object_id@,
                    ));
                    let f = v.take(i as int).filter(p);
                    assert(v.take(i + 1).filter(p) == f.push(v[i as int]));
                    assert(f.push(v[i as int]).map_values(|x: (Seq<char>, Seq<char>)| x.1)
                        =~= f.map_values(|x: (Seq<char>, Seq<char>)| x.1).push(v[i as int].1));
                }
            }
            i = i + 1;
        }
        assert(v.take(v.len() as int) =~= v);
        out
    }

    /// The reported form of the stored incident at `i`.
    fn summary_at(&self, i: usize) -> (r: IncidentSummaryDto)
        requires
            i < self.incidents_view().len(),
        ensures
            summary_reports(
                r,
                self.incidents_view()[i as int],
                evidence_of(self.evidence_view(), self.incidents_view()[i as int].id).len(),
            ),
    {
        let record = &self.incidents[i];
        let count = self.evidence_dtos(record.id.as_str()).len();
        IncidentSummaryDto {
            id: record.id.clone(),
            severity: String::from_str(severity_as_str(record.severity)),
            summary: record.summary.clone(),
            status: record.status.clone(),
            first_seen_at: record.first_seen_at,
            last_seen_at: record.last_seen_at,
            evidence_count: count as u64,
        }
    }

    /// Every incident with its evidence count, most recently seen first and
    /// then by identifier.
    pub fn list(&self) -> (r: Vec<IncidentSummaryDto>)
        ensures
            r@.len() == self.incidents_view().len(),
            forall|k: int|
                0 <= k < r@.len() ==> summary_reports(
                    #[trigger] r@[k],
                    self.incidents_view()[k],
                    evidence_of(self.evidence_view(), self.incidents_view()[k].id).len(),
                ),
    {
        let mut out: Vec<IncidentSummaryDto> = Vec::new();
        let mut i: usize = 0;
        while i < self.incidents.len()
            invariant
                i <= self.incidents_view().len(),
                out@.len() == i,
                forall|k: int|
                    0 <= k < i ==> summary_reports(
                        #[trigger] out@[k],
                        self.incidents_view()[k],
                        evidence_of(self.evidence_view(), self.incidents_view()[k].id).len(),
                    ),
            decreases self.incidents_view().len() - i,
        {
            out.push(self.summary_at(i));
            i = i + 1;
        }
        out
    }

    /// The incident `id` with its evidence, in order of observation, and its
    /// related objects in ascending order; `None` when no such incident is
    /// stored.
    pub fn detail(&self, id: &str) -> (r: Option<IncidentDetailDto>)
        requires
            self.well_formed(),
        ensures
            r is Some <==> has_incident(self.incidents_view(), id@),
            r matches Some(d) ==> {
                &&& exists|i: int|
                    0 <= i < self.incidents_view().len() && self.incidents_view()[i].id == id@
                        && summary_reports(
                        d.incident,
                        self.incidents_view()[i],
                        evidence_of(self.evidence_view(), id@).len(),
                    )
                &&& d.evidence@.len() == evidence_of(self.evidence_view(), id@).len()
                &&& forall|k: int|
                    0 <= k < d.evidence@.len() ==> evidence_reports(
                        #[trigger] d.evidence@[k],
                        evidence_of(self.evidence_view(), id@)[k],
                    )
                &&& d.related_objects@.map_values(|x: String| x@) == objects_of(
                    self.objects_view(),
                    id@,
                )
            },
    {
        let ghost v = self.incidents_view();
        let mut i: usize = 0;
        while i < self.incidents.len()
            invariant
                v == self.incidents_view(),
                i <= v.len(),
                forall|j: int| 0 <= j < i ==> #[trigger] v[j].id != id@,
            decreases v.len() - i,
        {
            if str_eq(self.incidents[i].id.as_str(), id) {
                let incident = self.summary_at(i);
                let evidence = self.evidence_dtos(id);
                let related_objects = self.related_objects(id);
                return Some(IncidentDetailDto { incident, evidence, related_objects });
            }
            i = i + 1;
        }
        None
    }

    /// The number of open incidents.
    pub fn open_count(&self) -> (r: u64)
        ensures
            r == self.incidents_view().filter(|i: IncidentView| i.status == "open"@).len(),
    {
        let ghost v = self.incidents_view();
        let ghost p = |i: IncidentView| i.status == "open"@;
        let mut count: u64 = 0;
        let mut i: usize = 0;
        while i < self.incidents.len()
            invariant
                v == self.incidents_view(),
                p == (|i: IncidentView| i.status == "open"@),
                i <= v.len(),
                count == v.take(i as int).filter(p).len(),
            decreases v.len() - i,
        {
            proof {
                crate::memory::keyed::lemma_filter_take_step(v, p, i as int);
                reveal_strlit("open");
                v.take(i as int).lemma_filter_len(p);
            }
            if str_eq(self.incidents[i].status.as_str(), "open") {
                count = count + 1;
            }
            i = i + 1;
        }
        assert(v.take(v.len() as int) =~= v);
        count
    }
}

impl IncidentService {
    /// The stored incidents, in their order.
    pub fn incident_records(&self) -> (r: &Vec<IncidentRecord>)
        ensures
            r@.map_values(|x: IncidentRecord| x@) == self.incidents_view(),
    {
        &self.incidents
    }

    /// The stored evidence, in its order.
    pub fn evidence_records(&self) -> (r: &Vec<EvidenceRecord>)
        ensures
            r@.map_values(|x: EvidenceRecord| x@) == self.evidence_view(),
    {
        &self.evidence
    }

    /// The stored pairs of incident and related object, in their order.
    pub fn object_records(&self) -> (r: &Vec<IncidentObject>)
        ensures
            r@.map_values(|x: IncidentObject| x@) == self.objects_view(),
    {
        &self.objects
    }

    /// The counters of the next incident and the next piece of evidence.
    pub fn counters(&self) -> (r: (u64, u64))
        ensures
            r == (self.next_incident_count(), self.next_evidence_count()),
    {
        (self.next_incident, self.next_evidence)
    }

    /// Rebuilds a store from stored records and counters, putting each table
    /// in its order; `None` when an incident or evidence identifier occurs
    /// twice.
    #[verifier::loop_isolation(false)]
    pub fn restore(
        incidents: Vec<IncidentRecord>,
        evidence: Vec<EvidenceRecord>,
        objects: Vec<IncidentObject>,
        next_incident: u64,
        next_evidence: u64,
    ) -> (r: Option<IncidentService>)
        ensures
            r is Some <==> incidents@.map_values(|x: IncidentRecord| x@).map_values(incident_key()).no_duplicates()
                && evidence@.map_values(|x: EvidenceRecord| x@).map_values(evidence_key()).no_duplicates(),
            r matches Some(s) ==> {
                &&& s.well_formed()
                &&& s.incidents_view().len() == incidents@.len()
                &&& s.evidence_view().len() == evidence@.len()
                &&& s.next_incident_count() == next_incident
                &&& s.next_evidence_count() == next_evidence
                &&& forall|x: IncidentView|
                    s.incidents_view().contains(x) <==> incidents@.map_values(
                        |i: IncidentRecord| i@,
                    ).contains(x)
                &&& forall|x: EvidenceView|
                    s.evidence_view().contains(x) <==> evidence@.map_values(
                        |e: EvidenceRecord| e@,
                    ).contains(x)
                &&& forall|x: (Seq<char>, Seq<char>)|
                    s.objects_view().contains(x) <==> objects@.map_values(
                        |o: IncidentObject| o@,
                    ).contains(x)
            },
    {
        let mut s = IncidentService::new();
        let mut incidents = incidents;
        let mut evidence = evidence;
        let ghost total = incidents@.len();
        let ghost irecs = incidents@;
        let ghost iv = incidents@.map_values(|x: IncidentRecord| x@);
        let ghost erecs = evidence@;
        let ghost ev = evidence@.map_values(|x: EvidenceRecord| x@);
        proof {
            assert(iv.skip(total as int) =~= Seq::<IncidentView>::empty());
            assert(iv.skip(total as int).map_values(incident_key()) =~= Seq::<Seq<char>>::empty());
        }
        while incidents.len() > 0
            invariant
                s.well_formed(),
                s.incidents_view().len() + incidents@.len() == total,
                s.evidence_view().len() == 0,
                s.objects_view().len() == 0,
                total == irecs.len(),
                incidents@ == irecs.take(incidents@.len() as int),
                iv == irecs.map_values(|x: IncidentRecord| x@),
                forall|x: IncidentView|
                    #[trigger] s.incidents_view().contains(x) <==> iv.skip(incidents@.len() as int).contains(x),
                iv.skip(incidents@.len() as int).map_values(incident_key()).no_duplicates(),
            decreases incidents@.len(),
        {
            let ghost n = incidents@.len() as int;
            let record = incidents.pop().unwrap();
            proof {
                assert(irecs.take(n)[n - 1] == record);
                assert(incidents@ =~= irecs.take(n - 1));
                assert(iv[n - 1] == record@);
                lemma_take_from_back(iv, incident_key(), n, s.incidents_view());
            }
            if s.incident_taken(record.id.as_str()) {
                return None;
            }
            let ghost before = s.incidents_view();
            s.insert_incident(record);
            proof {
                let p = choose|p: int| is_insertion_point(before, record@, incident_first(), p)
                    && s.incidents_view() == before.insert(p, record@);
                lemma_insert_contains(before, p, record@);
            }
        }
        proof {
            assert(iv.skip(0) =~= iv);
            assert(ev.skip(erecs.len() as int) =~= Seq::<EvidenceView>::empty());
            assert(ev.skip(erecs.len() as int).map_values(evidence_key()) =~= Seq::<Seq<char>>::empty());
        }
        let ghost etotal = evidence@.len();
        while evidence.len() > 0
            invariant
                s.well_formed(),
                s.incidents_view().len() == total,
                s.evidence_view().len() + evidence@.len() == etotal,
                s.objects_view().len() == 0,
                forall|x: IncidentView| #[trigger] s.incidents_view().contains(x) <==> iv.contains(x),
                iv.map_values(incident_key()).no_duplicates(),
                etotal == erecs.len(),
                evidence@ == erecs.take(evidence@.len() as int),
                ev == erecs.map_values(|x: EvidenceRecord| x@),
                forall|x: EvidenceView|
                    #[trigger] s.evidence_view().contains(x) <==> ev.skip(evidence@.len() as int).contains(x),
                ev.skip(evidence@.len() as int).map_values(evidence_key()).no_duplicates(),
            decreases evidence@.len(),
        {
            let ghost n = evidence@.len() as int;
            let record = evidence.pop().unwrap();
            proof {
                assert(erecs.take(n)[n - 1] == record);
                assert(evidence@ =~= erecs.take(n - 1));
                assert(ev[n - 1] == record@);
                lemma_take_from_back(ev, evidence_key(), n, s.evidence_view());
            }
            if s.evidence_taken(record.id.as_str()) {
                return None;
            }
            let ghost before = s.evidence_view();
            s.insert_evidence(record);
            proof {
                let p = choose|p: int| is_insertion_point(before, record@, evidence_first(), p)
                    && s.evidence_view() == before.insert(p, record@);
                lemma_insert_contains(before, p, record@);
            }
        }
        proof {
            assert(ev.skip(0) =~= ev);
        }
        let ghost ov = objects@.map_values(|o: IncidentObject| o@);
        let mut k: usize = 0;
        while k < objects.len()
            invariant
                s.well_formed(),
                s.incidents_view().len() == total,
                s.evidence_view().len() == etotal,
                forall|x: IncidentView| #[trigger] s.incidents_view().contains(x) <==> iv.contains(x),
                forall|x: EvidenceView| #[trigger] s.evidence_view().contains(x) <==> ev.contains(x),
                k <= objects@.len(),
                ov == objects@.map_values(|o: IncidentObject| o@),
                forall|x: (Seq<char>, Seq<char>)|
                    #[trigger] s.objects_view().contains(x) <==> ov.take(k as int).contains(x),
            decreases objects@.len() - k,
        {
            let ghost before = s.objects_view();
            s.add_object(objects[k].incident_id.as_str(), objects[k].object_id.as_str());
            proof {
                let after = s.objects_view();
                let e = ov[k as int];
                assert(ov.take(k + 1) =~= ov.take(k as int).push(e));
                if !before.contains(e) {
                    let p = choose|p: int| is_insertion_point(before, e, object_first(), p)
                        && after == before.insert(p, e);
                    assert forall|x: (Seq<char>, Seq<char>)| #[trigger] after.contains(x) <==> (
                    before.contains(x) || x == e) by {
                        if after.contains(x) {
                            let q = choose|q: int| 0 <= q < after.len() && after[q] == x;
                            if q < p {
                                assert(before[q] == x);
                            } else if q > p {
                                assert(before[q - 1] == x);
                            }
                        }
                        if before.contains(x) {
                            let q = choose|q: int| 0 <= q < before.len() && before[q] == x;
                            if q < p {
                                assert(after[q] == x);
                            } else {
                                assert(after[q + 1] == x);
                            }
                        }
                        if x == e {
                            assert(after[p] == x);
                        }
                    }
                }
                let t0 = ov.take(k as int);
                let t1 = ov.take(k + 1);
                assert forall|x: (Seq<char>, Seq<char>)| #[trigger] t1.contains(x) <==> (t0.contains(x)
                    || x == e) by {
                    if t1.contains(x) {
                        let q = choose|q: int| 0 <= q < t1.len() && t1[q] == x;
                        if q < k {
                            assert(t0[q] == x);
                        }
                    }
                    if t0.contains(x) {
                        let q = choose|q: int| 0 <= q < t0.len() && t0[q] == x;
                        assert(t1[q] == x);
                    }
                    if x == e {
                        assert(t1[k as int] == x);
                    }
                }
            }
            k = k + 1;
        }
        assert(ov.take(objects@.len() as int) =~= ov);
        s.next_incident = next_incident;
        s.next_evidence = next_evidence;
        Some(s)
    }
}


/// Correlation: evidence recorded under the correlation key of an open
/// incident joins that incident, which keeps its identifier, its key and its
/// first sighting, and whose severity becomes the higher of its own and the
/// evidence's, so that joining never lowers an incident's severity.
pub proof fn lemma_correlation_joins_without_lowering_severity(
    before: IncidentService,
    after: IncidentService,
    key: Seq<char>,
    source: EvidenceSource,
    summary: Seq<char>,
    description: Seq<char>,
    severity: Severity,
    confidence: u8,
    related: Seq<Seq<char>>,
    at: u64,
    incident: Seq<char>,
    evidence: Seq<char>,
)
    requires
        candidate_recorded(
            before,
            after,
            key,
            source,
            summary,
            description,
            severity,
            confidence,
            related,
            at,
            incident,
            evidence,
        ),
        open_incident_for(before.incidents_view(), key) is Some,
    ensures
        ({
            let old_incident = before.incidents_view()[open_incident_for(before.incidents_view(), key)->0];
            &&& incident == old_incident.id
            &&& exists|j: int|
                0 <= j < after.incidents_view().len() && #[trigger] after.incidents_view()[j].id == incident
                    && after.incidents_view()[j].correlation_key == key
                    && after.incidents_view()[j].first_seen_at == old_incident.first_seen_at
                    && after.incidents_view()[j].last_seen_at == at
                    && after.incidents_view()[j].severity == old_incident.severity.max_spec(severity)
                    && after.incidents_view()[j].severity.rank() >= old_incident.severity.rank()
                    && after.incidents_view()[j].severity.rank() >= severity.rank()
        }),
{
    let i = open_incident_for(before.incidents_view(), key)->0;
    let e = joined(before.incidents_view()[i], severity, summary, at);
    let p = choose|p: int|
        is_insertion_point(before.incidents_view().remove(i), e, incident_first(), p)
            && after.incidents_view() == before.incidents_view().remove(i).insert(p, e);
    assert(is_first_open(before.incidents_view(), key, i));
    assert(0 <= p < after.incidents_view().len());
    assert(after.incidents_view()[p] == e);
    assert(incident == before.candidate_incident_id(key));
    assert(after.incidents_view()[p].id == incident);
}

} // verus!
