//! Trust states of the Guard, integrity findings and Guard decisions.
use vstd::prelude::*;
use crate::protocol::ids::ObjectId;
use crate::text::str_eq;

verus! {

/// The trust state the Guard holds for the platform.
#[derive(Debug, Clone, Copy, PartialEq, Eq, Structural)]
pub enum TrustState {
    Trusted,
    Degraded,
    Suspected,
    Quarantined,
    Compromised,
    Recovering,
}

impl TrustState {
    /// The stored name of the value.
    pub open spec fn name(self) -> Seq<char> {
        match self {
            TrustState::Trusted => "trusted"@,
            TrustState::Degraded => "degraded"@,
            TrustState::Suspected => "suspected"@,
            TrustState::Quarantined => "quarantined"@,
            TrustState::Compromised => "compromised"@,
            TrustState::Recovering => "recovering"@,
        }
    }

    pub fn as_str(self) -> (r: &'static str)
        ensures
            r@ == self.name(),
    {
        match self {
            TrustState::Trusted => "trusted",
            TrustState::Degraded => "degraded",
            TrustState::Suspected => "suspected",
            TrustState::Quarantined => "quarantined",
            TrustState::Compromised => "compromised",
            TrustState::Recovering => "recovering",
        }
    }

    /// The value whose stored name is `s`, if any.
    pub open spec fn from_name_spec(s: Seq<char>) -> Option<TrustState> {
        if s == "trusted"@ {
            Some(TrustState::Trusted)
        } else if s == "degraded"@ {
            Some(TrustState::Degraded)
        } else if s == "suspected"@ {
            Some(TrustState::Suspected)
        } else if s == "quarantined"@ {
            Some(TrustState::Quarantined)
        } else if s == "compromised"@ {
            Some(TrustState::Compromised)
        } else if s == "recovering"@ {
            Some(TrustState::Recovering)
        } else {
            None
        }
    }

    /// Parses a stored name.
    pub fn from_name(value: &str) -> (r: Option<TrustState>)
        ensures
            r == TrustState::from_name_spec(value@),
    {
        if str_eq(value, "trusted") {
            Some(TrustState::Trusted)
        } else if str_eq(value, "degraded") {
            Some(TrustState::Degraded)
        } else if str_eq(value, "suspected") {
            Some(TrustState::Suspected)
        } else if str_eq(value, "quarantined") {
            Some(TrustState::Quarantined)
        } else if str_eq(value, "compromised") {
            Some(TrustState::Compromised)
        } else if str_eq(value, "recovering") {
            Some(TrustState::Recovering)
        } else {
            None
        }
    }
}

/// Parsing the stored name of any value gives that value back.
pub proof fn lemma_trust_state_name_round_trip(x: TrustState)
    ensures
        TrustState::from_name_spec(x.name()) == Some(x),
{
    reveal_strlit("trusted");
    reveal_strlit("degraded");
    reveal_strlit("suspected");
    reveal_strlit("quarantined");
    reveal_strlit("compromised");
    reveal_strlit("recovering");
    match x {
        TrustState::Trusted => {},
        TrustState::Degraded => {
            assert("degraded"@.len() != "trusted"@.len());
        },
        TrustState::Suspected => {
            assert("suspected"@.len() != "trusted"@.len());
            assert("suspected"@.len() != "degraded"@.len());
        },
        TrustState::Quarantined => {
            assert("quarantined"@.len() != "trusted"@.len());
            assert("quarantined"@.len() != "degraded"@.len());
            assert("quarantined"@.len() != "suspected"@.len());
        },
        TrustState::Compromised => {
            assert("compromised"@.len() != "trusted"@.len());
            assert("compromised"@.len() != "degraded"@.len());
            assert("compromised"@.len() != "suspected"@.len());
            assert("compromised"@[0] != "quarantined"@[0]);
        },
        TrustState::Recovering => {
            assert("recovering"@.len() != "trusted"@.len());
            assert("recovering"@.len() != "degraded"@.len());
            assert("recovering"@.len() != "suspected"@.len());
            assert("recovering"@.len() != "quarantined"@.len());
            assert("recovering"@.len() != "compromised"@.len());
        },
    }
}

impl std::str::FromStr for TrustState {
    type Err = ();

    fn from_str(value: &str) -> (r: Result<TrustState, ()>)
        ensures
            r is Ok <==> TrustState::from_name_spec(value@) is Some,
            r matches Ok(x) ==> TrustState::from_name_spec(value@) == Some(x),
    {
        match TrustState::from_name(value) {
            Some(x) => Ok(x),
            None => Err(()),
        }
    }
}

/// Severity of an integrity finding, in increasing order.
#[derive(Debug, Clone, Copy, PartialEq, Eq, PartialOrd, Ord, Structural)]
pub enum IntegritySeverity {
    Informational,
    Warning,
    High,
    Critical,
}

impl IntegritySeverity {
    /// The stored name of the value.
    pub open spec fn name(self) -> Seq<char> {
        match self {
            IntegritySeverity::Informational => "informational"@,
            IntegritySeverity::Warning => "warning"@,
            IntegritySeverity::High => "high"@,
            IntegritySeverity::Critical => "critical"@,
        }
    }

    pub fn as_str(self) -> (r: &'static str)
        ensures
            r@ == self.name(),
    {
        match self {
            IntegritySeverity::Informational => "informational",
            IntegritySeverity::Warning => "warning",
            IntegritySeverity::High => "high",
            IntegritySeverity::Critical => "critical",
        }
    }

    /// The value whose stored name is `s`, if any.
    pub open spec fn from_name_spec(s: Seq<char>) -> Option<IntegritySeverity> {
        if s == "informational"@ {
            Some(IntegritySeverity::Informational)
        } else if s == "warning"@ {
            Some(IntegritySeverity::Warning)
        } else if s == "high"@ {
            Some(IntegritySeverity::High)
        } else if s == "critical"@ {
            Some(IntegritySeverity::Critical)
        } else {
            None
        }
    }

    /// Parses a stored name.
    pub fn from_name(value: &str) -> (r: Option<IntegritySeverity>)
        ensures
            r == IntegritySeverity::from_name_spec(value@),
    {
        if str_eq(value, "informational") {
            Some(IntegritySeverity::Informational)
        } else if str_eq(value, "warning") {
            Some(IntegritySeverity::Warning)
        } else if str_eq(value, "high") {
            Some(IntegritySeverity::High)
        } else if str_eq(value, "critical") {
            Some(IntegritySeverity::Critical)
        } else {
            None
        }
    }
}

/// Parsing the stored name of any value gives that value back.
pub proof fn lemma_integrity_severity_name_round_trip(x: IntegritySeverity)
    ensures
        IntegritySeverity::from_name_spec(x.name()) == Some(x),
{
    reveal_strlit("informational");
    reveal_strlit("warning");
    reveal_strlit("high");
    reveal_strlit("critical");
    match x {
        IntegritySeverity::Informational => {},
        IntegritySeverity::Warning => {
            assert("warning"@.len() != "informational"@.len());
        },
        IntegritySeverity::High => {
            assert("high"@.len() != "informational"@.len());
            assert("high"@.len() != "warning"@.len());
        },
        IntegritySeverity::Critical => {
            assert("critical"@.len() != "informational"@.len());
            assert("critical"@.len() != "warning"@.len());
            assert("critical"@.len() != "high"@.len());
        },
    }
}

impl std::str::FromStr for IntegritySeverity {
    type Err = ();

    fn from_str(value: &str) -> (r: Result<IntegritySeverity, ()>)
        ensures
            r is Ok <==> IntegritySeverity::from_name_spec(value@) is Some,
            r matches Ok(x) ==> IntegritySeverity::from_name_spec(value@) == Some(x),
    {
        match IntegritySeverity::from_name(value) {
            Some(x) => Ok(x),
            None => Err(()),
        }
    }
}

/// An integrity problem the Guard has found in a protected target.
#[derive(Debug, Clone, PartialEq, Eq)]
pub struct IntegrityFinding {
    pub target: ObjectId,
    pub severity: IntegritySeverity,
    pub description: String,
}

/// Whether the Guard grants action authority.
#[derive(Debug, Clone, Copy, PartialEq, Eq, Structural)]
pub enum GuardDecision {
    Allow,
    Deny,
}

impl GuardDecision {
    /// The stored name of the value.
    pub open spec fn name(self) -> Seq<char> {
        match self {
            GuardDecision::Allow => "allow"@,
            GuardDecision::Deny => "deny"@,
        }
    }

    pub fn as_str(self) -> (r: &'static str)
        ensures
            r@ == self.name(),
    {
        match self {
            GuardDecision::Allow => "allow",
            GuardDecision::Deny => "deny",
        }
    }
}

} // verus!
