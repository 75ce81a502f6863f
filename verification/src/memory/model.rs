//! Memory Graph values: identifiers, bounded percentages, kinds, lifecycle
//! states, retention, decay policies and reinforcement.
use vstd::prelude::*;
use crate::protocol::ids::{EvidenceId, IncidentId};
use crate::text::str_eq;
use crate::memory::decay::{exponential_decay, exponential_decay_spec};

verus! {

/// Identifier of a memory node.
#[derive(Debug, PartialEq, Eq, Hash)]
pub struct MemoryNodeId(pub String);

impl Clone for MemoryNodeId {
    fn clone(&self) -> (r: MemoryNodeId)
        ensures
            r == *self,
    {
        MemoryNodeId(self.0.clone())
    }
}

/// Identifier of a memory relationship.
#[derive(Debug, PartialEq, Eq, Hash)]
pub struct MemoryRelationshipId(pub String);

impl Clone for MemoryRelationshipId {
    fn clone(&self) -> (r: MemoryRelationshipId)
        ensures
            r == *self,
    {
        MemoryRelationshipId(self.0.clone())
    }
}

/// Strength of a memory, a percentage within `0..=100`.
#[derive(Debug, Clone, Copy, PartialEq, Eq, PartialOrd, Ord, Structural)]
pub struct MemoryStrength(u8);

impl MemoryStrength {
    /// Two values with the same percentage are equal.
    pub proof fn lemma_view_injective(a: MemoryStrength, b: MemoryStrength)
        requires
            a.view() == b.view(),
        ensures
            a == b,
    {
    }

    #[verifier::type_invariant]
    spec fn bounded(self) -> bool {
        self.0 <= 100
    }

    /// The percentage held.
    pub closed spec fn view(self) -> u8 {
        self.0
    }

    /// A value of `value` percent; `None` above 100.
    pub fn new(value: u8) -> (r: Option<MemoryStrength>)
        ensures
            value <= 100 ==> r is Some && r->0.view() == value,
            value > 100 ==> r is None,
    {
        if value <= 100 {
            Some(MemoryStrength(value))
        } else {
            None
        }
    }

    pub fn value(self) -> (r: u8)
        ensures
            r == self.view(),
            r <= 100,
    {
        proof {
            use_type_invariant(self);
        }
        self.0
    }
}

/// Confidence in a memory, a percentage within `0..=100`.
#[derive(Debug, Clone, Copy, PartialEq, Eq, PartialOrd, Ord, Structural)]
pub struct MemoryConfidence(u8);

impl MemoryConfidence {
    /// Two values with the same percentage are equal.
    pub proof fn lemma_view_injective(a: MemoryConfidence, b: MemoryConfidence)
        requires
            a.view() == b.view(),
        ensures
            a == b,
    {
    }

    #[verifier::type_invariant]
    spec fn bounded(self) -> bool {
        self.0 <= 100
    }

    /// The percentage held.
    pub closed spec fn view(self) -> u8 {
        self.0
    }

    /// A value of `value` percent; `None` above 100.
    pub fn new(value: u8) -> (r: Option<MemoryConfidence>)
        ensures
            value <= 100 ==> r is Some && r->0.view() == value,
            value > 100 ==> r is None,
    {
        if value <= 100 {
            Some(MemoryConfidence(value))
        } else {
            None
        }
    }

    pub fn value(self) -> (r: u8)
        ensures
            r == self.view(),
            r <= 100,
    {
        proof {
            use_type_invariant(self);
        }
        self.0
    }
}

/// Rate of decay, a percentage within `0..=100`.
#[derive(Debug, Clone, Copy, PartialEq, Eq, PartialOrd, Ord, Structural)]
pub struct DecayRate(u8);

impl DecayRate {
    /// Two values with the same percentage are equal.
    pub proof fn lemma_view_injective(a: DecayRate, b: DecayRate)
        requires
            a.view() == b.view(),
        ensures
            a == b,
    {
    }

    #[verifier::type_invariant]
    spec fn bounded(self) -> bool {
        self.0 <= 100
    }

    /// The percentage held.
    pub closed spec fn view(self) -> u8 {
        self.0
    }

    /// A value of `value` percent; `None` above 100.
    pub fn new(value: u8) -> (r: Option<DecayRate>)
        ensures
            value <= 100 ==> r is Some && r->0.view() == value,
            value > 100 ==> r is None,
    {
        if value <= 100 {
            Some(DecayRate(value))
        } else {
            None
        }
    }

    pub fn value(self) -> (r: u8)
        ensures
            r == self.view(),
            r <= 100,
    {
        proof {
            use_type_invariant(self);
        }
        self.0
    }
}

/// The kind of a memory node.
#[derive(Debug, Clone, Copy, PartialEq, Eq, Structural)]
pub enum MemoryNodeKind {
    Process,
    File,
    User,
    Host,
    NetworkEndpoint,
    Service,
    Container,
    Incident,
    Threat,
}

impl MemoryNodeKind {
    /// The stored name of the value.
    pub open spec fn name(self) -> Seq<char> {
        match self {
            MemoryNodeKind::Process => "process"@,
            MemoryNodeKind::File => "file"@,
            MemoryNodeKind::User => "user"@,
            MemoryNodeKind::Host => "host"@,
            MemoryNodeKind::NetworkEndpoint => "network_endpoint"@,
            MemoryNodeKind::Service => "service"@,
            MemoryNodeKind::Container => "container"@,
            MemoryNodeKind::Incident => "incident"@,
            MemoryNodeKind::Threat => "threat"@,
        }
    }

    pub fn as_str(self) -> (r: &'static str)
        ensures
            r@ == self.name(),
    {
        match self {
            MemoryNodeKind::Process => "process",
            MemoryNodeKind::File => "file",
            MemoryNodeKind::User => "user",
            MemoryNodeKind::Host => "host",
            MemoryNodeKind::NetworkEndpoint => "network_endpoint",
            MemoryNodeKind::Service => "service",
            MemoryNodeKind::Container => "container",
            MemoryNodeKind::Incident => "incident",
            MemoryNodeKind::Threat => "threat",
        }
    }

    /// The value whose stored name is `s`, if any.
    pub open spec fn from_name_spec(s: Seq<char>) -> Option<MemoryNodeKind> {
        if s == "process"@ {
            Some(MemoryNodeKind::Process)
        } else if s == "file"@ {
            Some(MemoryNodeKind::File)
        } else if s == "user"@ {
            Some(MemoryNodeKind::User)
        } else if s == "host"@ {
            Some(MemoryNodeKind::Host)
        } else if s == "network_endpoint"@ {
            Some(MemoryNodeKind::NetworkEndpoint)
        } else if s == "service"@ {
            Some(MemoryNodeKind::Service)
        } else if s == "container"@ {
            Some(MemoryNodeKind::Container)
        } else if s == "incident"@ {
            Some(MemoryNodeKind::Incident)
        } else if s == "threat"@ {
            Some(MemoryNodeKind::Threat)
        } else {
            None
        }
    }

    /// Parses a stored name.
    pub fn from_name(value: &str) -> (r: Option<MemoryNodeKind>)
        ensures
            r == MemoryNodeKind::from_name_spec(value@),
    {
        if str_eq(value, "process") {
            Some(MemoryNodeKind::Process)
        } else if str_eq(value, "file") {
            Some(MemoryNodeKind::File)
        } else if str_eq(value, "user") {
            Some(MemoryNodeKind::User)
        } else if str_eq(value, "host") {
            Some(MemoryNodeKind::Host)
        } else if str_eq(value, "network_endpoint") {
            Some(MemoryNodeKind::NetworkEndpoint)
        } else if str_eq(value, "service") {
            Some(MemoryNodeKind::Service)
        } else if str_eq(value, "container") {
            Some(MemoryNodeKind::Container)
        } else if str_eq(value, "incident") {
            Some(MemoryNodeKind::Incident)
        } else if str_eq(value, "threat") {
            Some(MemoryNodeKind::Threat)
        } else {
            None
        }
    }
}

/// Parsing the stored name of any value gives that value back.
pub proof fn lemma_memory_node_kind_name_round_trip(x: MemoryNodeKind)
    ensures
        MemoryNodeKind::from_name_spec(x.name()) == Some(x),
{
    reveal_strlit("process");
    reveal_strlit("file");
    reveal_strlit("user");
    reveal_strlit("host");
    reveal_strlit("network_endpoint");
    reveal_strlit("service");
    reveal_strlit("container");
    reveal_strlit("incident");
    reveal_strlit("threat");
    match x {
        MemoryNodeKind::Process => {},
        MemoryNodeKind::File => {
            assert("file"@.len() != "process"@.len());
        },
        MemoryNodeKind::User => {
            assert("user"@.len() != "process"@.len());
            assert("user"@[0] != "file"@[0]);
        },
        MemoryNodeKind::Host => {
            assert("host"@.len() != "process"@.len());
            assert("host"@[0] != "file"@[0]);
            assert("host"@[0] != "user"@[0]);
        },
        MemoryNodeKind::NetworkEndpoint => {
            assert("network_endpoint"@.len() != "process"@.len());
            assert("network_endpoint"@.len() != "file"@.len());
            assert("network_endpoint"@.len() != "user"@.len());
            assert("network_endpoint"@.len() != "host"@.len());
        },
        MemoryNodeKind::Service => {
            assert("service"@[0] != "process"@[0]);
            assert("service"@.len() != "file"@.len());
            assert("service"@.len() != "user"@.len());
            assert("service"@.len() != "host"@.len());
            assert("service"@.len() != "network_endpoint"@.len());
        },
        MemoryNodeKind::Container => {
            assert("container"@.len() != "process"@.len());
            assert("container"@.len() != "file"@.len());
            assert("container"@.len() != "user"@.len());
            assert("container"@.len() != "host"@.len());
            assert("container"@.len() != "network_endpoint"@.len());
            assert("container"@.len() != "service"@.len());
        },
        MemoryNodeKind::Incident => {
            assert("incident"@.len() != "process"@.len());
            assert("incident"@.len() != "file"@.len());
            assert("incident"@.len() != "user"@.len());
            assert("incident"@.len() != "host"@.len());
            assert("incident"@.len() != "network_endpoint"@.len());
            assert("incident"@.len() != "service"@.len());
            assert("incident"@.len() != "container"@.len());
        },
        MemoryNodeKind::Threat => {
            assert("threat"@.len() != "process"@.len());
            assert("threat"@.len() != "file"@.len());
            assert("threat"@.len() != "user"@.len());
            assert("threat"@.len() != "host"@.len());
            assert("threat"@.len() != "network_endpoint"@.len());
            assert("threat"@.len() != "service"@.len());
            assert("threat"@.len() != "container"@.len());
            assert("threat"@.len() != "incident"@.len());
        },
    }
}

impl std::str::FromStr for MemoryNodeKind {
    type Err = ();

    fn from_str(value: &str) -> (r: Result<MemoryNodeKind, ()>)
        ensures
            r is Ok <==> MemoryNodeKind::from_name_spec(value@) is Some,
            r matches Ok(x) ==> MemoryNodeKind::from_name_spec(value@) == Some(x),
    {
        match MemoryNodeKind::from_name(value) {
            Some(x) => Ok(x),
            None => Err(()),
        }
    }
}

/// The kind of a memory relationship.
#[derive(Debug, Clone, Copy, PartialEq, Eq, Structural)]
pub enum MemoryRelationshipKind {
    Spawned,
    Executed,
    Read,
    Wrote,
    ConnectedTo,
    BelongsTo,
    AssociatedWith,
}

impl MemoryRelationshipKind {
    /// The stored name of the value.
    pub open spec fn name(self) -> Seq<char> {
        match self {
            MemoryRelationshipKind::Spawned => "spawned"@,
            MemoryRelationshipKind::Executed => "executed"@,
            MemoryRelationshipKind::Read => "read"@,
            MemoryRelationshipKind::Wrote => "wrote"@,
            MemoryRelationshipKind::ConnectedTo => "connected_to"@,
            MemoryRelationshipKind::BelongsTo => "belongs_to"@,
            MemoryRelationshipKind::AssociatedWith => "associated_with"@,
        }
    }

    pub fn as_str(self) -> (r: &'static str)
        ensures
            r@ == self.name(),
    {
        match self {
            MemoryRelationshipKind::Spawned => "spawned",
            MemoryRelationshipKind::Executed => "executed",
            MemoryRelationshipKind::Read => "read",
            MemoryRelationshipKind::Wrote => "wrote",
            MemoryRelationshipKind::ConnectedTo => "connected_to",
            MemoryRelationshipKind::BelongsTo => "belongs_to",
            MemoryRelationshipKind::AssociatedWith => "associated_with",
        }
    }

    /// The value whose stored name is `s`, if any.
    pub open spec fn from_name_spec(s: Seq<char>) -> Option<MemoryRelationshipKind> {
        if s == "spawned"@ {
            Some(MemoryRelationshipKind::Spawned)
        } else if s == "executed"@ {
            Some(MemoryRelationshipKind::Executed)
        } else if s == "read"@ {
            Some(MemoryRelationshipKind::Read)
        } else if s == "wrote"@ {
            Some(MemoryRelationshipKind::Wrote)
        } else if s == "connected_to"@ {
            Some(MemoryRelationshipKind::ConnectedTo)
        } else if s == "belongs_to"@ {
            Some(MemoryRelationshipKind::BelongsTo)
        } else if s == "associated_with"@ {
            Some(MemoryRelationshipKind::AssociatedWith)
        } else {
            None
        }
    }

    /// Parses a stored name.
    pub fn from_name(value: &str) -> (r: Option<MemoryRelationshipKind>)
        ensures
            r == MemoryRelationshipKind::from_name_spec(value@),
    {
        if str_eq(value, "spawned") {
            Some(MemoryRelationshipKind::Spawned)
        } else if str_eq(value, "executed") {
            Some(MemoryRelationshipKind::Executed)
        } else if str_eq(value, "read") {
            Some(MemoryRelationshipKind::Read)
        } else if str_eq(value, "wrote") {
            Some(MemoryRelationshipKind::Wrote)
        } else if str_eq(value, "connected_to") {
            Some(MemoryRelationshipKind::ConnectedTo)
        } else if str_eq(value, "belongs_to") {
            Some(MemoryRelationshipKind::BelongsTo)
        } else if str_eq(value, "associated_with") {
            Some(MemoryRelationshipKind::AssociatedWith)
        } else {
            None
        }
    }
}

/// Parsing the stored name of any value gives that value back.
pub proof fn lemma_memory_relationship_kind_name_round_trip(x: MemoryRelationshipKind)
    ensures
        MemoryRelationshipKind::from_name_spec(x.name()) == Some(x),
{
    reveal_strlit("spawned");
    reveal_strlit("executed");
    reveal_strlit("read");
    reveal_strlit("wrote");
    reveal_strlit("connected_to");
    reveal_strlit("belongs_to");
    reveal_strlit("associated_with");
    match x {
        MemoryRelationshipKind::Spawned => {},
        MemoryRelationshipKind::Executed => {
            assert("executed"@.len() != "spawned"@.len());
        },
        MemoryRelationshipKind::Read => {
            assert("read"@.len() != "spawned"@.len());
            assert("read"@.len() != "executed"@.len());
        },
        MemoryRelationshipKind::Wrote => {
            assert("wrote"@.len() != "spawned"@.len());
            assert("wrote"@.len() != "executed"@.len());
            assert("wrote"@.len() != "read"@.len());
        },
        MemoryRelationshipKind::ConnectedTo => {
            assert("connected_to"@.len() != "spawned"@.len());
            assert("connected_to"@.len() != "executed"@.len());
            assert("connected_to"@.len() != "read"@.len());
            assert("connected_to"@.len() != "wrote"@.len());
        },
        MemoryRelationshipKind::BelongsTo => {
            assert("belongs_to"@.len() != "spawned"@.len());
            assert("belongs_to"@.len() != "executed"@.len());
            assert("belongs_to"@.len() != "read"@.len());
            assert("belongs_to"@.len() != "wrote"@.len());
            assert("belongs_to"@.len() != "connected_to"@.len());
        },
        MemoryRelationshipKind::AssociatedWith => {
            assert("associated_with"@.len() != "spawned"@.len());
            assert("associated_with"@.len() != "executed"@.len());
            assert("associated_with"@.len() != "read"@.len());
            assert("associated_with"@.len() != "wrote"@.len());
            assert("associated_with"@.len() != "connected_to"@.len());
            assert("associated_with"@.len() != "belongs_to"@.len());
        },
    }
}

impl std::str::FromStr for MemoryRelationshipKind {
    type Err = ();

    fn from_str(value: &str) -> (r: Result<MemoryRelationshipKind, ()>)
        ensures
            r is Ok <==> MemoryRelationshipKind::from_name_spec(value@) is Some,
            r matches Ok(x) ==> MemoryRelationshipKind::from_name_spec(value@) == Some(x),
    {
        match MemoryRelationshipKind::from_name(value) {
            Some(x) => Ok(x),
            None => Err(()),
        }
    }
}

/// Lifecycle state of a memory.
#[derive(Debug, Clone, Copy, PartialEq, Eq, Structural)]
pub enum MemoryState {
    Observed,
    Correlated,
    Supported,
    Established,
    Contradicted,
    Superseded,
    Expired,
    Revoked,
}

impl MemoryState {
    /// The stored name of the value.
    pub open spec fn name(self) -> Seq<char> {
        match self {
            MemoryState::Observed => "observed"@,
            MemoryState::Correlated => "correlated"@,
            MemoryState::Supported => "supported"@,
            MemoryState::Established => "established"@,
            MemoryState::Contradicted => "contradicted"@,
            MemoryState::Superseded => "superseded"@,
            MemoryState::Expired => "expired"@,
            MemoryState::Revoked => "revoked"@,
        }
    }

    pub fn as_str(self) -> (r: &'static str)
        ensures
            r@ == self.name(),
    {
        match self {
            MemoryState::Observed => "observed",
            MemoryState::Correlated => "correlated",
            MemoryState::Supported => "supported",
            MemoryState::Established => "established",
            MemoryState::Contradicted => "contradicted",
            MemoryState::Superseded => "superseded",
            MemoryState::Expired => "expired",
            MemoryState::Revoked => "revoked",
        }
    }

    /// The value whose stored name is `s`, if any.
    pub open spec fn from_name_spec(s: Seq<char>) -> Option<MemoryState> {
        if s == "observed"@ {
            Some(MemoryState::Observed)
        } else if s == "correlated"@ {
            Some(MemoryState::Correlated)
        } else if s == "supported"@ {
            Some(MemoryState::Supported)
        } else if s == "established"@ {
            Some(MemoryState::Established)
        } else if s == "contradicted"@ {
            Some(MemoryState::Contradicted)
        } else if s == "superseded"@ {
            Some(MemoryState::Superseded)
        } else if s == "expired"@ {
            Some(MemoryState::Expired)
        } else if s == "revoked"@ {
            Some(MemoryState::Revoked)
        } else {
            None
        }
    }

    /// Parses a stored name.
    pub fn from_name(value: &str) -> (r: Option<MemoryState>)
        ensures
            r == MemoryState::from_name_spec(value@),
    {
        if str_eq(value, "observed") {
            Some(MemoryState::Observed)
        } else if str_eq(value, "correlated") {
            Some(MemoryState::Correlated)
        } else if str_eq(value, "supported") {
            Some(MemoryState::Supported)
        } else if str_eq(value, "established") {
            Some(MemoryState::Established)
        } else if str_eq(value, "contradicted") {
            Some(MemoryState::Contradicted)
        } else if str_eq(value, "superseded") {
            Some(MemoryState::Superseded)
        } else if str_eq(value, "expired") {
            Some(MemoryState::Expired)
        } else if str_eq(value, "revoked") {
            Some(MemoryState::Revoked)
        } else {
            None
        }
    }
}

/// Parsing the stored name of any value gives that value back.
pub proof fn lemma_memory_state_name_round_trip(x: MemoryState)
    ensures
        MemoryState::from_name_spec(x.name()) == Some(x),
{
    reveal_strlit("observed");
    reveal_strlit("correlated");
    reveal_strlit("supported");
    reveal_strlit("established");
    reveal_strlit("contradicted");
    reveal_strlit("superseded");
    reveal_strlit("expired");
    reveal_strlit("revoked");
    match x {
        MemoryState::Observed => {},
        MemoryState::Correlated => {
            assert("correlated"@.len() != "observed"@.len());
        },
        MemoryState::Supported => {
            assert("supported"@.len() != "observed"@.len());
            assert("supported"@.len() != "correlated"@.len());
        },
        MemoryState::Established => {
            assert("established"@.len() != "observed"@.len());
            assert("established"@.len() != "correlated"@.len());
            assert("established"@.len() != "supported"@.len());
        },
        MemoryState::Contradicted => {
            assert("contradicted"@.len() != "observed"@.len());
            assert("contradicted"@.len() != "correlated"@.len());
            assert("contradicted"@.len() != "supported"@.len());
            assert("contradicted"@.len() != "established"@.len());
        },
        MemoryState::Superseded => {
            assert("superseded"@.len() != "observed"@.len());
            assert("superseded"@[0] != "correlated"@[0]);
            assert("superseded"@.len() != "supported"@.len());
            assert("superseded"@.len() != "established"@.len());
            assert("superseded"@.len() != "contradicted"@.len());
        },
        MemoryState::Expired => {
            assert("expired"@.len() != "observed"@.len());
            assert("expired"@.len() != "correlated"@.len());
            assert("expired"@.len() != "supported"@.len());
            assert("expired"@.len() != "established"@.len());
            assert("expired"@.len() != "contradicted"@.len());
            assert("expired"@.len() != "superseded"@.len());
        },
        MemoryState::Revoked => {
            assert("revoked"@.len() != "observed"@.len());
            assert("revoked"@.len() != "correlated"@.len());
            assert("revoked"@.len() != "supported"@.len());
            assert("revoked"@.len() != "established"@.len());
            assert("revoked"@.len() != "contradicted"@.len());
            assert("revoked"@.len() != "superseded"@.len());
            assert("revoked"@[0] != "expired"@[0]);
        },
    }
}

impl std::str::FromStr for MemoryState {
    type Err = ();

    fn from_str(value: &str) -> (r: Result<MemoryState, ()>)
        ensures
            r is Ok <==> MemoryState::from_name_spec(value@) is Some,
            r matches Ok(x) ==> MemoryState::from_name_spec(value@) == Some(x),
    {
        match MemoryState::from_name(value) {
            Some(x) => Ok(x),
            None => Err(()),
        }
    }
}

/// Priority of a memory, in increasing order.
#[derive(Debug, Clone, Copy, PartialEq, Eq, PartialOrd, Ord, Structural)]
pub enum MemoryPriority {
    Low,
    Normal,
    Elevated,
    High,
    Critical,
}

impl MemoryPriority {
    /// The stored name of the value.
    pub open spec fn name(self) -> Seq<char> {
        match self {
            MemoryPriority::Low => "low"@,
            MemoryPriority::Normal => "normal"@,
            MemoryPriority::Elevated => "elevated"@,
            MemoryPriority::High => "high"@,
            MemoryPriority::Critical => "critical"@,
        }
    }

    pub fn as_str(self) -> (r: &'static str)
        ensures
            r@ == self.name(),
    {
        match self {
            MemoryPriority::Low => "low",
            MemoryPriority::Normal => "normal",
            MemoryPriority::Elevated => "elevated",
            MemoryPriority::High => "high",
            MemoryPriority::Critical => "critical",
        }
    }

    /// The value whose stored name is `s`, if any.
    pub open spec fn from_name_spec(s: Seq<char>) -> Option<MemoryPriority> {
        if s == "low"@ {
            Some(MemoryPriority::Low)
        } else if s == "normal"@ {
            Some(MemoryPriority::Normal)
        } else if s == "elevated"@ {
            Some(MemoryPriority::Elevated)
        } else if s == "high"@ {
            Some(MemoryPriority::High)
        } else if s == "critical"@ {
            Some(MemoryPriority::Critical)
        } else {
            None
        }
    }

    /// Parses a stored name.
    pub fn from_name(value: &str) -> (r: Option<MemoryPriority>)
        ensures
            r == MemoryPriority::from_name_spec(value@),
    {
        if str_eq(value, "low") {
            Some(MemoryPriority::Low)
        } else if str_eq(value, "normal") {
            Some(MemoryPriority::Normal)
        } else if str_eq(value, "elevated") {
            Some(MemoryPriority::Elevated)
        } else if str_eq(value, "high") {
            Some(MemoryPriority::High)
        } else if str_eq(value, "critical") {
            Some(MemoryPriority::Critical)
        } else {
            None
        }
    }
}

/// Parsing the stored name of any value gives that value back.
pub proof fn lemma_memory_priority_name_round_trip(x: MemoryPriority)
    ensures
        MemoryPriority::from_name_spec(x.name()) == Some(x),
{
    reveal_strlit("low");
    reveal_strlit("normal");
    reveal_strlit("elevated");
    reveal_strlit("high");
    reveal_strlit("critical");
    match x {
        MemoryPriority::Low => {},
        MemoryPriority::Normal => {
            assert("normal"@.len() != "low"@.len());
        },
        MemoryPriority::Elevated => {
            assert("elevated"@.len() != "low"@.len());
            assert("elevated"@.len() != "normal"@.len());
        },
        MemoryPriority::High => {
            assert("high"@.len() != "low"@.len());
            assert("high"@.len() != "normal"@.len());
            assert("high"@.len() != "elevated"@.len());
        },
        MemoryPriority::Critical => {
            assert("critical"@.len() != "low"@.len());
            assert("critical"@.len() != "normal"@.len());
            assert("critical"@[0] != "elevated"@[0]);
            assert("critical"@.len() != "high"@.len());
        },
    }
}

impl std::str::FromStr for MemoryPriority {
    type Err = ();

    fn from_str(value: &str) -> (r: Result<MemoryPriority, ()>)
        ensures
            r is Ok <==> MemoryPriority::from_name_spec(value@) is Some,
            r matches Ok(x) ==> MemoryPriority::from_name_spec(value@) == Some(x),
    {
        match MemoryPriority::from_name(value) {
            Some(x) => Ok(x),
            None => Err(()),
        }
    }
}

/// How long a memory is retained.
#[derive(Debug, Clone, Copy, PartialEq, Eq, Structural)]
pub enum RetentionClass {
    ShortTerm,
    LongTerm,
    Persistent,
}

impl RetentionClass {
    /// The stored name of the value.
    pub open spec fn name(self) -> Seq<char> {
        match self {
            RetentionClass::ShortTerm => "short_term"@,
            RetentionClass::LongTerm => "long_term"@,
            RetentionClass::Persistent => "persistent"@,
        }
    }

    pub fn as_str(self) -> (r: &'static str)
        ensures
            r@ == self.name(),
    {
        match self {
            RetentionClass::ShortTerm => "short_term",
            RetentionClass::LongTerm => "long_term",
            RetentionClass::Persistent => "persistent",
        }
    }

    /// The value whose stored name is `s`, if any.
    pub open spec fn from_name_spec(s: Seq<char>) -> Option<RetentionClass> {
        if s == "short_term"@ {
            Some(RetentionClass::ShortTerm)
        } else if s == "long_term"@ {
            Some(RetentionClass::LongTerm)
        } else if s == "persistent"@ {
            Some(RetentionClass::Persistent)
        } else {
            None
        }
    }

    /// Parses a stored name.
    pub fn from_name(value: &str) -> (r: Option<RetentionClass>)
        ensures
            r == RetentionClass::from_name_spec(value@),
    {
        if str_eq(value, "short_term") {
            Some(RetentionClass::ShortTerm)
        } else if str_eq(value, "long_term") {
            Some(RetentionClass::LongTerm)
        } else if str_eq(value, "persistent") {
            Some(RetentionClass::Persistent)
        } else {
            None
        }
    }
}

/// Parsing the stored name of any value gives that value back.
pub proof fn lemma_retention_class_name_round_trip(x: RetentionClass)
    ensures
        RetentionClass::from_name_spec(x.name()) == Some(x),
{
    reveal_strlit("short_term");
    reveal_strlit("long_term");
    reveal_strlit("persistent");
    match x {
        RetentionClass::ShortTerm => {},
        RetentionClass::LongTerm => {
            assert("long_term"@.len() != "short_term"@.len());
        },
        RetentionClass::Persistent => {
            assert("persistent"@[0] != "short_term"@[0]);
            assert("persistent"@.len() != "long_term"@.len());
        },
    }
}

impl std::str::FromStr for RetentionClass {
    type Err = ();

    fn from_str(value: &str) -> (r: Result<RetentionClass, ()>)
        ensures
            r is Ok <==> RetentionClass::from_name_spec(value@) is Some,
            r matches Ok(x) ==> RetentionClass::from_name_spec(value@) == Some(x),
    {
        match RetentionClass::from_name(value) {
            Some(x) => Ok(x),
            None => Err(()),
        }
    }
}

/// Why a relationship was reinforced.
#[derive(Debug, Clone, Copy, PartialEq, Eq, Structural)]
pub enum ReinforcementReason {
    ConfirmedHighRisk,
    RepeatedObservation,
    OperatorConfirmed,
}

impl ReinforcementReason {
    /// The stored name of the value.
    pub open spec fn name(self) -> Seq<char> {
        match self {
            ReinforcementReason::ConfirmedHighRisk => "confirmed_high_risk"@,
            ReinforcementReason::RepeatedObservation => "repeated_observation"@,
            ReinforcementReason::OperatorConfirmed => "operator_confirmed"@,
        }
    }

    pub fn as_str(self) -> (r: &'static str)
        ensures
            r@ == self.name(),
    {
        match self {
            ReinforcementReason::ConfirmedHighRisk => "confirmed_high_risk",
            ReinforcementReason::RepeatedObservation => "repeated_observation",
            ReinforcementReason::OperatorConfirmed => "operator_confirmed",
        }
    }

    /// The value whose stored name is `s`, if any.
    pub open spec fn from_name_spec(s: Seq<char>) -> Option<ReinforcementReason> {
        if s == "confirmed_high_risk"@ {
            Some(ReinforcementReason::ConfirmedHighRisk)
        } else if s == "repeated_observation"@ {
            Some(ReinforcementReason::RepeatedObservation)
        } else if s == "operator_confirmed"@ {
            Some(ReinforcementReason::OperatorConfirmed)
        } else {
            None
        }
    }

    /// Parses a stored name.
    pub fn from_name(value: &str) -> (r: Option<ReinforcementReason>)
        ensures
            r == ReinforcementReason::from_name_spec(value@),
    {
        if str_eq(value, "confirmed_high_risk") {
            Some(ReinforcementReason::ConfirmedHighRisk)
        } else if str_eq(value, "repeated_observation") {
            Some(ReinforcementReason::RepeatedObservation)
        } else if str_eq(value, "operator_confirmed") {
            Some(ReinforcementReason::OperatorConfirmed)
        } else {
            None
        }
    }
}

/// Parsing the stored name of any value gives that value back.
pub proof fn lemma_reinforcement_reason_name_round_trip(x: ReinforcementReason)
    ensures
        ReinforcementReason::from_name_spec(x.name()) == Some(x),
{
    reveal_strlit("confirmed_high_risk");
    reveal_strlit("repeated_observation");
    reveal_strlit("operator_confirmed");
    match x {
        ReinforcementReason::ConfirmedHighRisk => {},
        ReinforcementReason::RepeatedObservation => {
            assert("repeated_observation"@.len() != "confirmed_high_risk"@.len());
        },
        ReinforcementReason::OperatorConfirmed => {
            assert("operator_confirmed"@.len() != "confirmed_high_risk"@.len());
            assert("operator_confirmed"@.len() != "repeated_observation"@.len());
        },
    }
}

impl std::str::FromStr for ReinforcementReason {
    type Err = ();

    fn from_str(value: &str) -> (r: Result<ReinforcementReason, ()>)
        ensures
            r is Ok <==> ReinforcementReason::from_name_spec(value@) is Some,
            r matches Ok(x) ==> ReinforcementReason::from_name_spec(value@) == Some(x),
    {
        match ReinforcementReason::from_name(value) {
            Some(x) => Ok(x),
            None => Err(()),
        }
    }
}
impl MemoryState {
    /// The states that take part in ordinary graph reasoning.
    pub open spec fn active_spec(self) -> bool {
        ||| self == MemoryState::Observed
        ||| self == MemoryState::Correlated
        ||| self == MemoryState::Supported
        ||| self == MemoryState::Established
    }

    pub fn is_active_for_reasoning(self) -> (r: bool)
        ensures
            r == self.active_spec(),
    {
        match self {
            MemoryState::Observed
            | MemoryState::Correlated
            | MemoryState::Supported
            | MemoryState::Established => true,
            _ => false,
        }
    }
}

impl MemoryPriority {
    /// Position of the priority in its order.
    pub open spec fn rank(self) -> nat {
        match self {
            MemoryPriority::Low => 0,
            MemoryPriority::Normal => 1,
            MemoryPriority::Elevated => 2,
            MemoryPriority::High => 3,
            MemoryPriority::Critical => 4,
        }
    }

    /// The greater of two priorities.
    pub open spec fn max_spec(self, other: MemoryPriority) -> MemoryPriority {
        if self.rank() >= other.rank() {
            self
        } else {
            other
        }
    }

    fn rank_of(p: MemoryPriority) -> (r: u8)
        ensures
            r == p.rank(),
    {
        match p {
            MemoryPriority::Low => 0,
            MemoryPriority::Normal => 1,
            MemoryPriority::Elevated => 2,
            MemoryPriority::High => 3,
            MemoryPriority::Critical => 4,
        }
    }

    pub fn max_of(self, other: MemoryPriority) -> (r: MemoryPriority)
        ensures
            r == self.max_spec(other),
    {
        if MemoryPriority::rank_of(self) >= MemoryPriority::rank_of(other) {
            self
        } else {
            other
        }
    }
}

/// How the strength of a relationship decays over its lifetime.
#[derive(Debug, Clone, Copy, PartialEq, Eq, Structural)]
pub enum DecayPolicy {
    NoDecay,
    Linear { rate: DecayRate },
    Exponential { rate: DecayRate },
}

impl DecayPolicy {
    /// The stored name of the policy.
    pub open spec fn name(self) -> Seq<char> {
        match self {
            DecayPolicy::NoDecay => "none"@,
            DecayPolicy::Linear { .. } => "linear"@,
            DecayPolicy::Exponential { .. } => "exponential"@,
        }
    }

    pub fn as_str(self) -> (r: &'static str)
        ensures
            r@ == self.name(),
    {
        match self {
            DecayPolicy::NoDecay => "none",
            DecayPolicy::Linear { .. } => "linear",
            DecayPolicy::Exponential { .. } => "exponential",
        }
    }

    /// The rate of a decaying policy.
    pub open spec fn rate_spec(self) -> Option<DecayRate> {
        match self {
            DecayPolicy::NoDecay => None,
            DecayPolicy::Linear { rate } => Some(rate),
            DecayPolicy::Exponential { rate } => Some(rate),
        }
    }

    pub fn rate(self) -> (r: Option<DecayRate>)
        ensures
            r == self.rate_spec(),
    {
        match self {
            DecayPolicy::NoDecay => None,
            DecayPolicy::Linear { rate } => Some(rate),
            DecayPolicy::Exponential { rate } => Some(rate),
        }
    }

    /// Whether `p` is the policy stored as `kind` with `rate`.
    pub open spec fn stored_as(p: DecayPolicy, kind: Seq<char>, rate: Option<u8>) -> bool {
        match p {
            DecayPolicy::NoDecay => kind == "none"@,
            DecayPolicy::Linear { rate: r } => kind == "linear"@ && rate == Some(r.view()),
            DecayPolicy::Exponential { rate: r } => kind == "exponential"@ && rate == Some(
                r.view(),
            ),
        }
    }

    /// Whether a stored kind and rate describe a policy: `none` with any rate,
    /// or `linear`/`exponential` with a rate within `0..=100`.
    pub open spec fn parts_valid(kind: Seq<char>, rate: Option<u8>) -> bool {
        ||| kind == "none"@
        ||| (kind == "linear"@ || kind == "exponential"@) && rate is Some && rate->0 <= 100
    }

    /// Rebuilds a policy from its stored kind and rate.
    pub fn from_parts(kind: &str, rate: Option<u8>) -> (r: Option<DecayPolicy>)
        ensures
            r is Some <==> DecayPolicy::parts_valid(kind@, rate),
            r matches Some(p) ==> (DecayPolicy::stored_as(p, kind@, rate) && (kind@ == "none"@
                ==> p == DecayPolicy::NoDecay)),
    {
        if str_eq(kind, "none") {
            Some(DecayPolicy::NoDecay)
        } else if str_eq(kind, "linear") {
            match rate {
                Some(value) => match DecayRate::new(value) {
                    Some(rate) => Some(DecayPolicy::Linear { rate }),
                    None => None,
                },
                None => None,
            }
        } else if str_eq(kind, "exponential") {
            match rate {
                Some(value) => match DecayRate::new(value) {
                    Some(rate) => Some(DecayPolicy::Exponential { rate }),
                    None => None,
                },
                None => None,
            }
        } else {
            None
        }
    }
}

/// Where a reinforcement came from.
#[derive(Debug, PartialEq, Eq)]
pub struct ReinforcementProvenance {
    pub reason: ReinforcementReason,
    pub incident_id: Option<IncidentId>,
    pub evidence_ids: Vec<EvidenceId>,
}

/// The value of a reinforcement provenance.
pub struct ProvenanceView {
    pub reason: ReinforcementReason,
    pub incident_id: Option<Seq<char>>,
    pub evidence_ids: Seq<Seq<char>>,
}

impl View for ReinforcementProvenance {
    type V = ProvenanceView;

    open spec fn view(&self) -> ProvenanceView {
        ProvenanceView {
            reason: self.reason,
            incident_id: match self.incident_id {
                Some(id) => Some(id.0@),
                None => None,
            },
            evidence_ids: self.evidence_ids@.map_values(|e: EvidenceId| e.0@),
        }
    }
}

impl Clone for ReinforcementProvenance {
    fn clone(&self) -> (r: ReinforcementProvenance)
        ensures
            r@ == self@,
    {
        let incident_id = match &self.incident_id {
            Some(id) => Some(id.clone()),
            None => None,
        };
        let mut evidence_ids: Vec<EvidenceId> = Vec::new();
        let mut i: usize = 0;
        while i < self.evidence_ids.len()
            invariant
                i <= self.evidence_ids@.len(),
                evidence_ids@ == self.evidence_ids@.take(i as int),
            decreases self.evidence_ids@.len() - i,
        {
            evidence_ids.push(self.evidence_ids[i].clone());
            i = i + 1;
            assert(evidence_ids@ =~= self.evidence_ids@.take(i as int));
        }
        assert(evidence_ids@ =~= self.evidence_ids@);
        assert(evidence_ids@.map_values(|e: EvidenceId| e.0@) =~= self.evidence_ids@.map_values(
            |e: EvidenceId| e.0@,
        ));
        ReinforcementProvenance { reason: self.reason, incident_id, evidence_ids }
    }
}

/// `a + b`, saturating at `u64::MAX`.
pub open spec fn saturating_add_spec(a: u64, b: u64) -> u64 {
    if a + b > u64::MAX {
        u64::MAX
    } else {
        (a + b) as u64
    }
}

/// `a * b`, saturating at `u64::MAX`.
pub open spec fn saturating_mul_spec(a: u64, b: u64) -> u64 {
    if a * b > u64::MAX {
        u64::MAX
    } else {
        (a * b) as u64
    }
}

/// Whether a memory with this expiry has expired at `now`.
pub open spec fn expired_at(expires_at: Option<u64>, now: u64) -> bool {
    expires_at matches Some(x) && now >= x
}

/// Whether a memory may be purged at `now`: it is not persistent, it is in
/// the expired state, and its expiry lies at least `grace_period` in the past.
pub open spec fn purge_eligible_at(
    retention: RetentionClass,
    state: MemoryState,
    expires_at: Option<u64>,
    now: u64,
    grace_period: u64,
) -> bool {
    &&& retention != RetentionClass::Persistent
    &&& state == MemoryState::Expired
    &&& expires_at matches Some(x) && now >= saturating_add_spec(x, grace_period)
}

fn purge_eligible(
    retention: RetentionClass,
    state: MemoryState,
    expires_at: Option<u64>,
    now: u64,
    grace_period: u64,
) -> (r: bool)
    ensures
        r == purge_eligible_at(retention, state, expires_at, now, grace_period),
{
    if retention == RetentionClass::Persistent || state != MemoryState::Expired {
        return false;
    }
    match expires_at {
        Some(x) => now >= x.saturating_add(grace_period),
        None => false,
    }
}

/// A node of the Memory Graph.
#[derive(Debug, PartialEq, Eq)]
pub struct MemoryNode {
    pub id: MemoryNodeId,
    pub kind: MemoryNodeKind,
    pub label: String,
    pub created_at: u64,
    pub last_seen_at: u64,
    pub expires_at: Option<u64>,
    pub state: MemoryState,
    pub priority: MemoryPriority,
    pub retention: RetentionClass,
    pub decay_policy: DecayPolicy,
}

impl Clone for MemoryNode {
    fn clone(&self) -> (r: MemoryNode)
        ensures
            r == *self,
    {
        MemoryNode {
            id: self.id.clone(),
            kind: self.kind,
            label: self.label.clone(),
            created_at: self.created_at,
            last_seen_at: self.last_seen_at,
            expires_at: self.expires_at,
            state: self.state,
            priority: self.priority,
            retention: self.retention,
            decay_policy: self.decay_policy,
        }
    }
}

impl MemoryNode {
    pub fn is_expired(&self, now: u64) -> (r: bool)
        ensures
            r == expired_at(self.expires_at, now),
    {
        match self.expires_at {
            Some(x) => now >= x,
            None => false,
        }
    }

    pub fn is_purge_eligible(&self, now: u64, grace_period: u64) -> (r: bool)
        ensures
            r == purge_eligible_at(self.retention, self.state, self.expires_at, now, grace_period),
    {
        purge_eligible(self.retention, self.state, self.expires_at, now, grace_period)
    }

    /// Records a sighting: the node was last seen no earlier than `observed_at`.
    pub fn record_observation(&mut self, observed_at: u64)
        ensures
            final(self).last_seen_at == if old(self).last_seen_at >= observed_at {
                old(self).last_seen_at
            } else {
                observed_at
            },
            *final(self) == (MemoryNode { last_seen_at: final(self).last_seen_at, ..*old(self) }),
    {
        if observed_at > self.last_seen_at {
            self.last_seen_at = observed_at;
        }
    }
}

/// A relationship of the Memory Graph, consolidating repeated observations.
#[derive(Debug, PartialEq, Eq)]
pub struct MemoryRelationship {
    pub id: MemoryRelationshipId,
    pub kind: MemoryRelationshipKind,
    pub source: MemoryNodeId,
    pub target: MemoryNodeId,
    pub created_at: u64,
    pub last_seen_at: u64,
    pub observation_count: u64,
    pub expires_at: Option<u64>,
    pub state: MemoryState,
    pub priority: MemoryPriority,
    pub retention: RetentionClass,
    pub decay_policy: DecayPolicy,
    pub strength: MemoryStrength,
    pub confidence: MemoryConfidence,
    pub reinforcement: Option<ReinforcementProvenance>,
}

/// The share of a lifetime from `created_at` to `expires_at` that has passed
/// at `now`, as a percentage: 0 without an expiry or before creation, 100 at or
/// after expiry or when the lifetime is empty.
pub open spec fn elapsed_percent_spec(created_at: u64, expires_at: Option<u64>, now: u64) -> u8 {
    match expires_at {
        None => 0,
        Some(x) => if x <= created_at || now >= x {
            100
        } else if now <= created_at {
            0
        } else {
            let p = saturating_mul_spec((now - created_at) as u64, 100) / ((x - created_at) as u64);
            if p > 100 {
                100
            } else {
                p as u8
            }
        },
    }
}

/// The strength of a relationship of `strength` after `elapsed` percent of its
/// lifetime: unchanged when reinforced or without decay; reduced by
/// `strength * rate * elapsed / 10000` under linear decay; and the exact
/// exponential value under exponential decay. Elapsed shares above 100 count
/// as 100.
pub open spec fn decayed_value(
    strength: u8,
    policy: DecayPolicy,
    reinforced: bool,
    elapsed: u8,
) -> u8 {
    let e: u8 = if elapsed > 100 {
        100
    } else {
        elapsed
    };
    if reinforced {
        strength
    } else {
        match policy {
            DecayPolicy::NoDecay => strength,
            DecayPolicy::Linear { rate } => (strength - (strength * rate.view() * e) / 10000) as u8,
            DecayPolicy::Exponential { rate } => exponential_decay_spec(
                strength as nat,
                rate.view() as nat,
                e as nat,
            ) as u8,
        }
    }
}

/// The value of a memory relationship.
pub struct RelationshipView {
    pub id: Seq<char>,
    pub kind: MemoryRelationshipKind,
    pub source: Seq<char>,
    pub target: Seq<char>,
    pub created_at: u64,
    pub last_seen_at: u64,
    pub observation_count: u64,
    pub expires_at: Option<u64>,
    pub state: MemoryState,
    pub priority: MemoryPriority,
    pub retention: RetentionClass,
    pub decay_policy: DecayPolicy,
    pub strength: MemoryStrength,
    pub confidence: MemoryConfidence,
    pub reinforcement: Option<ProvenanceView>,
}

impl View for MemoryRelationship {
    type V = RelationshipView;

    open spec fn view(&self) -> RelationshipView {
        RelationshipView {
            id: self.id.0@,
            kind: self.kind,
            source: self.source.0@,
            target: self.target.0@,
            created_at: self.created_at,
            last_seen_at: self.last_seen_at,
            observation_count: self.observation_count,
            expires_at: self.expires_at,
            state: self.state,
            priority: self.priority,
            retention: self.retention,
            decay_policy: self.decay_policy,
            strength: self.strength,
            confidence: self.confidence,
            reinforcement: match self.reinforcement {
                Some(p) => Some(p@),
                None => None,
            },
        }
    }
}

impl Clone for MemoryRelationship {
    fn clone(&self) -> (r: MemoryRelationship)
        ensures
            r@ == self@,
    {
        let reinforcement = match &self.reinforcement {
            Some(p) => Some(p.clone()),
            None => None,
        };
        MemoryRelationship {
            id: self.id.clone(),
            kind: self.kind,
            source: self.source.clone(),
            target: self.target.clone(),
            created_at: self.created_at,
            last_seen_at: self.last_seen_at,
            observation_count: self.observation_count,
            expires_at: self.expires_at,
            state: self.state,
            priority: self.priority,
            retention: self.retention,
            decay_policy: self.decay_policy,
            strength: self.strength,
            confidence: self.confidence,
            reinforcement,
        }
    }
}

/// The strength a relationship has at `now`, decayed from its stored strength.
pub open spec fn effective_strength_of(r: RelationshipView, now: u64) -> u8 {
    decayed_value(
        r.strength.view(),
        r.decay_policy,
        r.reinforcement is Some,
        elapsed_percent_spec(r.created_at, r.expires_at, now),
    )
}

impl MemoryRelationship {
    pub fn is_expired(&self, now: u64) -> (r: bool)
        ensures
            r == expired_at(self.expires_at, now),
    {
        match self.expires_at {
            Some(x) => now >= x,
            None => false,
        }
    }

    pub fn is_purge_eligible(&self, now: u64, grace_period: u64) -> (r: bool)
        ensures
            r == purge_eligible_at(self.retention, self.state, self.expires_at, now, grace_period),
    {
        purge_eligible(self.retention, self.state, self.expires_at, now, grace_period)
    }

    pub fn elapsed_percent(&self, now: u64) -> (r: u8)
        ensures
            r == elapsed_percent_spec(self.created_at, self.expires_at, now),
            r <= 100,
    {
        let expires_at = match self.expires_at {
            Some(x) => x,
            None => return 0,
        };
        if expires_at <= self.created_at || now >= expires_at {
            return 100;
        }
        if now <= self.created_at {
            return 0;
        }
        let elapsed = now - self.created_at;
        let lifetime = expires_at - self.created_at;
        let scaled: u64 = if elapsed > u64::MAX / 100 {
            u64::MAX
        } else {
            elapsed * 100
        };
        let p = scaled / lifetime;
        if p > 100 {
            100
        } else {
            p as u8
        }
    }

    /// The strength the relationship has at `now`, decayed non-destructively
    /// from the stored strength.
    pub open spec fn effective_strength_spec(&self, now: u64) -> u8 {
        effective_strength_of(self@, now)
    }

    pub fn effective_strength(&self, now: u64) -> (r: MemoryStrength)
        ensures
            r.view() == self.effective_strength_spec(now),
    {
        self.decayed_strength(self.elapsed_percent(now))
    }

    pub fn decayed_strength(&self, elapsed_percent: u8) -> (r: MemoryStrength)
        ensures
            r.view() == decayed_value(
                self.strength.view(),
                self.decay_policy,
                self.reinforcement is Some,
                elapsed_percent,
            ),
            r.view() <= self.strength.view(),
    {
        let e: u8 = if elapsed_percent > 100 {
            100
        } else {
            elapsed_percent
        };
        if self.reinforcement.is_some() {
            return self.strength;
        }
        let s = self.strength.value();
        match self.decay_policy {
            DecayPolicy::NoDecay => self.strength,
            DecayPolicy::Linear { rate } => {
                let r = rate.value();
                assert((s as int) * (r as int) <= 10_000) by (nonlinear_arith)
                    requires
                        s <= 100,
                        r <= 100,
                ;
                assert((s as int) * (r as int) * (e as int) <= 1_000_000) by (nonlinear_arith)
                    requires
                        s <= 100,
                        r <= 100,
                        e <= 100,
                ;
                let reduction: u32 = ((s as u32) * (r as u32) * (e as u32)) / 10_000;
                assert(reduction <= s) by (nonlinear_arith)
                    requires
                        reduction == ((s as int) * (r as int) * (e as int)) / 10_000,
                        s <= 100,
                        r <= 100,
                        e <= 100,
                ;
                let value: u8 = s - (reduction as u8);
                match MemoryStrength::new(value) {
                    Some(strength) => strength,
                    None => self.strength,
                }
            },
            DecayPolicy::Exponential { rate } => {
                let value = exponential_decay(s, rate.value(), e);
                match MemoryStrength::new(value) {
                    Some(strength) => strength,
                    None => self.strength,
                }
            },
        }
    }

    /// Records a repeated observation: one more sighting, last seen no
    /// earlier than `observed_at`.
    pub fn record_observation(&mut self, observed_at: u64)
        ensures
            final(self).observation_count == if old(self).observation_count == u64::MAX {
                u64::MAX
            } else {
                (old(self).observation_count + 1) as u64
            },
            final(self).last_seen_at == if old(self).last_seen_at >= observed_at {
                old(self).last_seen_at
            } else {
                observed_at
            },
            final(self)@ == (RelationshipView {
                observation_count: final(self).observation_count,
                last_seen_at: final(self).last_seen_at,
                ..old(self)@
            }),
    {
        self.observation_count = self.observation_count.saturating_add(1);
        if observed_at > self.last_seen_at {
            self.last_seen_at = observed_at;
        }
    }
}

/// A later time has elapsed at least as large a share of a lifetime.
pub proof fn lemma_elapsed_grows(created_at: u64, expires_at: Option<u64>, earlier: u64, later: u64)
    requires
        earlier <= later,
    ensures
        elapsed_percent_spec(created_at, expires_at, earlier) <= elapsed_percent_spec(
            created_at,
            expires_at,
            later,
        ),
{
    match expires_at {
        None => {},
        Some(x) => {
            if x <= created_at || later >= x || earlier <= created_at {
            } else {
                let a1 = (earlier - created_at) as u64;
                let a2 = (later - created_at) as u64;
                let m1 = saturating_mul_spec(a1, 100);
                let m2 = saturating_mul_spec(a2, 100);
                assert(m1 <= m2);
                let l = (x - created_at) as u64;
                vstd::arithmetic::div_mod::lemma_div_is_ordered(m1 as int, m2 as int, l as int);
            }
        },
    }
}

/// Decay of a stored strength by elapsed share: shares above 100 count as
/// 100; nothing has decayed at share 0; a larger share leaves no more
/// strength than a smaller one; and decay never exceeds the stored strength,
/// which reinforcement or the absence of decay keep whole.
pub proof fn lemma_decay_by_elapsed_share(strength: u8, policy: DecayPolicy, reinforced: bool, e1: u8, e2: u8)
    requires
        e1 <= e2,
        strength <= 100,
        policy matches DecayPolicy::Linear { rate } ==> rate.view() <= 100,
        policy matches DecayPolicy::Exponential { rate } ==> rate.view() <= 100,
    ensures
        decayed_value(strength, policy, reinforced, e2) <= decayed_value(strength, policy, reinforced, e1),
        decayed_value(strength, policy, reinforced, e1) <= strength,
        decayed_value(strength, policy, reinforced, 0) == strength,
        e2 > 100 ==> decayed_value(strength, policy, reinforced, e2) == decayed_value(
            strength,
            policy,
            reinforced,
            100,
        ),
        reinforced || policy is NoDecay ==> decayed_value(strength, policy, reinforced, e2) == strength,
{
    if let DecayPolicy::Exponential { rate } = policy {
        crate::memory::decay::lemma_exponential_decay_at_start(strength as nat, rate.view() as nat);
    }
    let c1: u8 = if e1 > 100 {
        100
    } else {
        e1
    };
    let c2: u8 = if e2 > 100 {
        100
    } else {
        e2
    };
    assert(c1 <= c2 <= 100);
    if !reinforced {
        match policy {
            DecayPolicy::NoDecay => {},
            DecayPolicy::Linear { rate } => {
                let v = rate.view();
                let p1 = strength * v * c1;
                let p2 = strength * v * c2;
                assert(0 <= p1 <= p2 <= strength * 10000) by (nonlinear_arith)
                    requires
                        p1 == strength * v * c1,
                        p2 == strength * v * c2,
                        c1 <= c2 <= 100,
                        v <= 100,
                        0 <= strength,
                        0 <= c1,
                        0 <= v,
                ;
                vstd::arithmetic::div_mod::lemma_div_is_ordered(p1, p2, 10000);
                vstd::arithmetic::div_mod::lemma_div_is_ordered(p2, strength * 10000, 10000);
                assert((strength * 10000) / 10000 == strength as int);
                assert(0 <= p1 / 10000);
            },
            DecayPolicy::Exponential { rate } => {
                crate::memory::decay::lemma_exponential_decay_antitone(
                    strength as nat,
                    rate.view() as nat,
                    c1 as nat,
                    c2 as nat,
                );
            },
        }
    }
}

/// Decay never strengthens a relationship: its effective strength never
/// exceeds its stored strength, and never rises as time passes.
pub proof fn lemma_decay_never_strengthens(r: RelationshipView, earlier: u64, later: u64)
    requires
        earlier <= later,
        r.strength.view() <= 100,
        r.decay_policy matches DecayPolicy::Linear { rate } ==> rate.view() <= 100,
        r.decay_policy matches DecayPolicy::Exponential { rate } ==> rate.view() <= 100,
    ensures
        effective_strength_of(r, later) <= effective_strength_of(r, earlier),
        effective_strength_of(r, earlier) <= r.strength.view(),
{
    let e1 = elapsed_percent_spec(r.created_at, r.expires_at, earlier);
    let e2 = elapsed_percent_spec(r.created_at, r.expires_at, later);
    lemma_elapsed_grows(r.created_at, r.expires_at, earlier, later);
    lemma_decay_by_elapsed_share(r.strength.view(), r.decay_policy, r.reinforcement is Some, e1, e2);
}

/// Decay by rate: under linear or exponential decay a higher rate never
/// leaves more strength than a lower one; a rate of 0 leaves the strength
/// whole; and the full rate over the whole lifetime leaves nothing.
pub proof fn lemma_decay_by_rate(strength: u8, low: DecayRate, high: DecayRate, elapsed: u8)
    requires
        strength <= 100,
        low.view() <= high.view() <= 100,
    ensures
        decayed_value(strength, DecayPolicy::Linear { rate: high }, false, elapsed) <= decayed_value(
            strength,
            DecayPolicy::Linear { rate: low },
            false,
            elapsed,
        ),
        decayed_value(strength, DecayPolicy::Exponential { rate: high }, false, elapsed)
            <= decayed_value(strength, DecayPolicy::Exponential { rate: low }, false, elapsed),
        low.view() == 0 ==> decayed_value(strength, DecayPolicy::Linear { rate: low }, false, elapsed)
            == strength,
        low.view() == 0 ==> decayed_value(strength, DecayPolicy::Exponential { rate: low }, false, elapsed)
            == strength,
        high.view() == 100 ==> decayed_value(strength, DecayPolicy::Linear { rate: high }, false, 100) == 0,
        high.view() == 100 ==> decayed_value(strength, DecayPolicy::Exponential { rate: high }, false, 100)
            == 0,
{
    let e: u8 = if elapsed > 100 {
        100
    } else {
        elapsed
    };
    let (l, h) = (low.view(), high.view());
    let ph = strength * h * e;
    let pl = strength * l * e;
    assert(0 <= pl <= ph <= strength * 10000) by (nonlinear_arith)
        requires
            ph == strength * h * e,
            pl == strength * l * e,
            l <= h <= 100,
            e <= 100,
            0 <= strength,
            0 <= e,
            0 <= l,
    ;
    vstd::arithmetic::div_mod::lemma_div_is_ordered(pl, ph, 10000);
    vstd::arithmetic::div_mod::lemma_div_is_ordered(ph, strength * 10000, 10000);
    assert((strength * 10000) / 10000 == strength as int);
    assert(0 <= pl / 10000);
    if l == 0 {
        assert(pl == 0) by (nonlinear_arith)
            requires
                pl == strength * l * e,
                l == 0,
        ;
    }
    if h == 100 {
        assert(strength * h * 100 == strength * 10000) by (nonlinear_arith)
            requires
                h == 100,
        ;
    }
    crate::memory::decay::lemma_exponential_decay_by_rate(strength as nat, l as nat, h as nat, e as nat);
    crate::memory::decay::lemma_exponential_decay_by_rate(strength as nat, l as nat, l as nat, e as nat);
    crate::memory::decay::lemma_exponential_decay_antitone(strength as nat, l as nat, e as nat, e as nat);
    crate::memory::decay::lemma_exponential_decay_at_full_rate(strength as nat, 100);
    crate::memory::decay::lemma_exponential_decay_antitone(strength as nat, h as nat, 100, 100);
}

} // verus!
