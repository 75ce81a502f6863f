//! The daemon's Guard service: the Guard's trust state as kept across
//! restarts, and the integrity findings recorded against it.
use vstd::prelude::*;
use vstd::string::StringExecFns;
use crate::memory::rows::{tuple_form, tuple_text};
use crate::text::{debug_quoted, debug_quoted_spec};
use crate::guard::{authority_for, Guard};
use crate::protocol::action::ActionProposal;
use crate::protocol::ids::ObjectId;
use crate::protocol::ipc::{GuardStatusDto, IntegrityFindingDto};
use crate::protocol::trust::{GuardDecision, IntegrityFinding, IntegritySeverity, TrustState};

verus! {

/// Why the Guard service refused a request.
#[derive(Debug)]
pub enum GuardStoreError {
    /// A trust state that names none.
    InvalidTrustState(String),
    /// An integrity severity that names none.
    InvalidSeverity(String),
}

impl GuardStoreError {
    /// The debug form of the error, as `{:?}` renders it.
    pub open spec fn describe_spec(&self) -> Seq<char> {
        match self {
            GuardStoreError::InvalidTrustState(s) => tuple_form("InvalidTrustState"@, debug_quoted_spec(s@)),
            GuardStoreError::InvalidSeverity(s) => tuple_form("InvalidSeverity"@, debug_quoted_spec(s@)),
        }
    }

    /// Renders the error in its debug form.
    pub fn describe(&self) -> (r: String)
        ensures
            r@ == self.describe_spec(),
    {
        match self {
            GuardStoreError::InvalidTrustState(s) => tuple_text("InvalidTrustState", debug_quoted(s.as_str()).as_str()),
            GuardStoreError::InvalidSeverity(s) => tuple_text("InvalidSeverity", debug_quoted(s.as_str()).as_str()),
        }
    }
}

/// A recorded integrity finding.
pub struct FindingRecord {
    pub id: u64,
    pub target: String,
    pub severity: IntegritySeverity,
    pub description: String,
    pub recorded_at: u64,
}

/// The value of a recorded integrity finding.
pub struct FindingView {
    pub id: u64,
    pub target: Seq<char>,
    pub severity: IntegritySeverity,
    pub description: Seq<char>,
    pub recorded_at: u64,
}

impl View for FindingRecord {
    type V = FindingView;

    open spec fn view(&self) -> FindingView {
        FindingView {
            id: self.id,
            target: self.target@,
            severity: self.severity,
            description: self.description@,
            recorded_at: self.recorded_at,
        }
    }
}

/// The authority the status reports for a trust state.
pub open spec fn authority_name(state: TrustState) -> Seq<char> {
    if state == TrustState::Trusted {
        "available"@
    } else {
        "removed"@
    }
}

/// Whether `d` reports the finding `f`.
pub open spec fn finding_reports(d: IntegrityFindingDto, f: FindingView) -> bool {
    &&& d.id == f.id
    &&& d.target@ == f.target
    &&& d.severity@ == f.severity.name()
    &&& d.description@ == f.description
    &&& d.recorded_at == f.recorded_at
}

/// The Guard with its trust state, when that state was last set, and the
/// recorded findings in the order they were recorded.
pub struct GuardService {
    guard: Guard,
    updated_at: u64,
    findings: Vec<FindingRecord>,
    next_finding: u64,
}

impl GuardService {
    /// The trust state held.
    pub closed spec fn state(&self) -> TrustState {
        self.guard.trust_state_spec()
    }

    /// When the trust state was last set.
    pub closed spec fn state_updated_at(&self) -> u64 {
        self.updated_at
    }

    /// The recorded findings, oldest first.
    pub closed spec fn findings_view(&self) -> Seq<FindingView> {
        self.findings@.map_values(|f: FindingRecord| f@)
    }

    /// The identifier the next finding receives.
    pub closed spec fn next_finding_id(&self) -> u64 {
        self.next_finding
    }

    /// A fresh service: trusted, set at time 0, with no findings.
    pub fn new() -> (r: GuardService)
        ensures
            r.state() == TrustState::Trusted,
            r.state_updated_at() == 0,
            r.findings_view().len() == 0,
            r.next_finding_id() == 1,
    {
        let r = GuardService {
            guard: Guard::new(TrustState::Trusted),
            updated_at: 0,
            findings: Vec::new(),
            next_finding: 1,
        };
        assert(r.findings_view() =~= Seq::empty());
        r
    }

    /// Rebuilds the service from its stored trust state, which must name a
    /// trust state, and its stored findings.
    pub fn restore(state: &str, updated_at: u64, findings: Vec<FindingRecord>, next_finding: u64) -> (r:
        Result<GuardService, GuardStoreError>)
        ensures
            r is Ok <==> TrustState::from_name_spec(state@) is Some,
            r matches Ok(s) ==> {
                &&& Some(s.state()) == TrustState::from_name_spec(state@)
                &&& s.state_updated_at() == updated_at
                &&& s.findings_view() == findings@.map_values(|f: FindingRecord| f@)
                &&& s.next_finding_id() == next_finding
            },
            r matches Err(e) ==> (e matches GuardStoreError::InvalidTrustState(t) && t@ == state@),
    {
        match TrustState::from_name(state) {
            Some(trust_state) => Ok(
                GuardService { guard: Guard::new(trust_state), updated_at, findings, next_finding },
            ),
            None => Err(GuardStoreError::InvalidTrustState(String::from_str(state))),
        }
    }

    pub fn trust_state(&self) -> (r: TrustState)
        ensures
            r == self.state(),
    {
        self.guard.trust_state()
    }

    /// The Guard's decision on a proposal: authority only while trusted.
    pub fn evaluate_authority(&self, proposal: &ActionProposal) -> (r: GuardDecision)
        ensures
            r == authority_for(self.state()),
    {
        self.guard.evaluate_authority(proposal)
    }

    /// The trust state, whether authority is available, and the number of
    /// recorded findings.
    pub fn status(&self) -> (r: GuardStatusDto)
        ensures
            r.trust_state@ == self.state().name(),
            r.authority@ == authority_name(self.state()),
            r.findings_count == self.findings_view().len(),
    {
        let state = self.guard.trust_state();
        let authority = match state {
            TrustState::Trusted => "available",
            _ => "removed",
        };
        proof {
            reveal_strlit("available");
            reveal_strlit("removed");
        }
        GuardStatusDto {
            trust_state: String::from_str(state.as_str()),
            authority: String::from_str(authority),
            findings_count: self.findings.len() as u64,
        }
    }

    /// The recorded findings, most recent first.
    pub fn findings(&self) -> (r: Vec<IntegrityFindingDto>)
        ensures
            r@.len() == self.findings_view().len(),
            forall|k: int|
                0 <= k < r@.len() ==> finding_reports(
                    #[trigger] r@[k],
                    self.findings_view()[self.findings_view().len() - 1 - k],
                ),
    {
        let ghost v = self.findings_view();
        let mut out: Vec<IntegrityFindingDto> = Vec::new();
        let mut i: usize = self.findings.len();
        while i > 0
            invariant
                v == self.findings_view(),
                i <= v.len(),
                out@.len() == v.len() - i,
                forall|k: int| 0 <= k < out@.len() ==> finding_reports(#[trigger] out@[k], v[v.len() - 1 - k]),
            decreases i,
        {
            i = i - 1;
            let f = &self.findings[i];
            out.push(
                IntegrityFindingDto {
                    id: f.id,
                    target: f.target.clone(),
                    severity: String::from_str(f.severity.as_str()),
                    description: f.description.clone(),
                    recorded_at: f.recorded_at,
                },
            );
        }
        out
    }

    /// Sets the trust state named `state` at `now`.
    pub fn debug_set_state(&mut self, state: &str, now: u64) -> (r: Result<(), GuardStoreError>)
        ensures
            r is Ok <==> TrustState::from_name_spec(state@) is Some,
            r is Ok ==> Some(final(self).state()) == TrustState::from_name_spec(state@)
                && final(self).state_updated_at() == now,
            r matches Err(e) ==> {
                &&& e matches GuardStoreError::InvalidTrustState(t) && t@ == state@
                &&& final(self).state() == old(self).state()
                &&& final(self).state_updated_at() == old(self).state_updated_at()
            },
            final(self).findings_view() == old(self).findings_view(),
            final(self).next_finding_id() == old(self).next_finding_id(),
    {
        match TrustState::from_name(state) {
            Some(parsed) => {
                self.guard.set_trust_state(parsed);
                self.updated_at = now;
                Ok(())
            },
            None => Err(GuardStoreError::InvalidTrustState(String::from_str(state))),
        }
    }

    /// Records a finding of the severity named `severity` against `target`.
    pub fn debug_record_finding(
        &mut self,
        target: &str,
        severity: &str,
        description: &str,
        now: u64,
    ) -> (r: Result<(), GuardStoreError>)
        ensures
            r is Ok <==> IntegritySeverity::from_name_spec(severity@) is Some,
            r is Ok ==> final(self).findings_view() == old(self).findings_view().push(
                FindingView {
                    id: old(self).next_finding_id(),
                    target: target@,
                    severity: IntegritySeverity::from_name_spec(severity@)->0,
                    description: description@,
                    recorded_at: now,
                },
            ) && final(self).next_finding_id() == (if old(self).next_finding_id() == u64::MAX {
                u64::MAX
            } else {
                (old(self).next_finding_id() + 1) as u64
            }),
            r matches Err(e) ==> {
                &&& e matches GuardStoreError::InvalidSeverity(t) && t@ == severity@
                &&& final(self).findings_view() == old(self).findings_view()
                &&& final(self).next_finding_id() == old(self).next_finding_id()
            },
            final(self).state() == old(self).state(),
            final(self).state_updated_at() == old(self).state_updated_at(),
    {
        let parsed = match IntegritySeverity::from_name(severity) {
            Some(s) => s,
            None => {
                return Err(GuardStoreError::InvalidSeverity(String::from_str(severity)));
            },
        };
        self.guard.record_finding(
            IntegrityFinding {
                target: ObjectId(String::from_str(target)),
                severity: parsed,
                description: String::from_str(description),
            },
        );
        let record = FindingRecord {
            id: self.next_finding,
            target: String::from_str(target),
            severity: parsed,
            description: String::from_str(description),
            recorded_at: now,
        };
        let ghost before = self.findings_view();
        self.findings.push(record);
        assert(self.findings_view() =~= before.push(record@));
        self.next_finding = self.next_finding.saturating_add(1);
        Ok(())
    }

    /// The recorded findings, oldest first.
    pub fn finding_records(&self) -> (r: &Vec<FindingRecord>)
        ensures
            r@.map_values(|f: FindingRecord| f@) == self.findings_view(),
    {
        &self.findings
    }

    /// When the trust state was last set, and the identifier of the next
    /// finding.
    pub fn counters(&self) -> (r: (u64, u64))
        ensures
            r == (self.state_updated_at(), self.next_finding_id()),
    {
        (self.updated_at, self.next_finding)
    }
}

} // verus!
