//! The Guard: the independent trust boundary that grants or removes action
//! authority.
use vstd::prelude::*;
use crate::protocol::action::ActionProposal;
use crate::protocol::trust::{GuardDecision, IntegrityFinding, TrustState};

verus! {

/// Holds the platform's trust state and the integrity findings recorded so far.
pub struct Guard {
    trust_state: TrustState,
    findings: Vec<IntegrityFinding>,
}

/// The authority the Guard grants in a trust state: only a trusted platform
/// keeps authority; every other state fails closed.
pub open spec fn authority_for(state: TrustState) -> GuardDecision {
    if state == TrustState::Trusted {
        GuardDecision::Allow
    } else {
        GuardDecision::Deny
    }
}

impl Guard {
    pub closed spec fn trust_state_spec(&self) -> TrustState {
        self.trust_state
    }

    pub closed spec fn findings_spec(&self) -> Seq<IntegrityFinding> {
        self.findings@
    }

    pub fn new(trust_state: TrustState) -> (r: Guard)
        ensures
            r.trust_state_spec() == trust_state,
            r.findings_spec() == Seq::<IntegrityFinding>::empty(),
    {
        Guard { trust_state, findings: Vec::new() }
    }

    pub fn trust_state(&self) -> (r: TrustState)
        ensures
            r == self.trust_state_spec(),
    {
        self.trust_state
    }

    pub fn set_trust_state(&mut self, state: TrustState)
        ensures
            final(self).trust_state_spec() == state,
            final(self).findings_spec() == old(self).findings_spec(),
    {
        self.trust_state = state;
    }

    pub fn record_finding(&mut self, finding: IntegrityFinding)
        ensures
            final(self).trust_state_spec() == old(self).trust_state_spec(),
            final(self).findings_spec() == old(self).findings_spec().push(finding),
    {
        self.findings.push(finding);
    }

    pub fn findings(&self) -> (r: &[IntegrityFinding])
        ensures
            r@ == self.findings_spec(),
    {
        self.findings.as_slice()
    }

    /// Grants authority only while the platform is trusted.
    pub fn evaluate_authority(&self, _proposal: &ActionProposal) -> (r: GuardDecision)
        ensures
            r == authority_for(self.trust_state_spec()),
    {
        match self.trust_state {
            TrustState::Trusted => GuardDecision::Allow,
            TrustState::Degraded
            | TrustState::Suspected
            | TrustState::Quarantined
            | TrustState::Compromised
            | TrustState::Recovering => GuardDecision::Deny,
        }
    }
}

/// Compromise can remove authority but cannot create it: in any state other
/// than trusted, whatever findings are recorded afterwards, the Guard denies
/// authority for every proposal.
pub proof fn lemma_untrusted_guard_never_grants_authority(state: TrustState)
    requires
        state != TrustState::Trusted,
    ensures
        authority_for(state) == GuardDecision::Deny,
{
}

} // verus!
