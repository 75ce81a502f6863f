//! Action proposals, MAGI evaluations, quorum, policy and authorisation.
use vstd::prelude::*;
use crate::protocol::ids::{ActionProposalId, IncidentId, ObjectId};
use crate::protocol::trust::GuardDecision;
use crate::text::str_eq;

verus! {

/// The kinds of response action the platform can represent.
#[derive(Debug, Clone, Copy, PartialEq, Eq, Structural)]
pub enum ActionType {
    Observe,
    Warn,
    RestrictProcess,
    SuspendProcess,
    TerminateProcess,
    QuarantineObject,
    BlockNetworkDestination,
    IsolateHost,
}

impl ActionType {
    /// The stored name of the action type.
    pub open spec fn name(self) -> Seq<char> {
        match self {
            ActionType::Observe => "observe"@,
            ActionType::Warn => "warn"@,
            ActionType::RestrictProcess => "restrict_process"@,
            ActionType::SuspendProcess => "suspend_process"@,
            ActionType::TerminateProcess => "terminate_process"@,
            ActionType::QuarantineObject => "quarantine_object"@,
            ActionType::BlockNetworkDestination => "block_network_destination"@,
            ActionType::IsolateHost => "isolate_host"@,
        }
    }

    /// The action type whose stored name is `s`, if any.
    pub open spec fn from_name_spec(s: Seq<char>) -> Option<ActionType> {
        if s == "observe"@ {
            Some(ActionType::Observe)
        } else if s == "warn"@ {
            Some(ActionType::Warn)
        } else if s == "restrict_process"@ {
            Some(ActionType::RestrictProcess)
        } else if s == "suspend_process"@ {
            Some(ActionType::SuspendProcess)
        } else if s == "terminate_process"@ {
            Some(ActionType::TerminateProcess)
        } else if s == "quarantine_object"@ {
            Some(ActionType::QuarantineObject)
        } else if s == "block_network_destination"@ {
            Some(ActionType::BlockNetworkDestination)
        } else if s == "isolate_host"@ {
            Some(ActionType::IsolateHost)
        } else {
            None
        }
    }

    pub fn as_str(self) -> (r: &'static str)
        ensures
            r@ == self.name(),
    {
        match self {
            ActionType::Observe => "observe",
            ActionType::Warn => "warn",
            ActionType::RestrictProcess => "restrict_process",
            ActionType::SuspendProcess => "suspend_process",
            ActionType::TerminateProcess => "terminate_process",
            ActionType::QuarantineObject => "quarantine_object",
            ActionType::BlockNetworkDestination => "block_network_destination",
            ActionType::IsolateHost => "isolate_host",
        }
    }

    /// Parses a stored action name.
    pub fn from_name(value: &str) -> (r: Option<ActionType>)
        ensures
            r == ActionType::from_name_spec(value@),
    {
        if str_eq(value, "observe") {
            Some(ActionType::Observe)
        } else if str_eq(value, "warn") {
            Some(ActionType::Warn)
        } else if str_eq(value, "restrict_process") {
            Some(ActionType::RestrictProcess)
        } else if str_eq(value, "suspend_process") {
            Some(ActionType::SuspendProcess)
        } else if str_eq(value, "terminate_process") {
            Some(ActionType::TerminateProcess)
        } else if str_eq(value, "quarantine_object") {
            Some(ActionType::QuarantineObject)
        } else if str_eq(value, "block_network_destination") {
            Some(ActionType::BlockNetworkDestination)
        } else if str_eq(value, "isolate_host") {
            Some(ActionType::IsolateHost)
        } else {
            None
        }
    }

    /// Only observation and warning run without privileged authority.
    pub open spec fn safe_spec(self) -> bool {
        self == ActionType::Observe || self == ActionType::Warn
    }

    pub fn is_safe_non_privileged(self) -> (r: bool)
        ensures
            r == self.safe_spec(),
    {
        match self {
            ActionType::Observe | ActionType::Warn => true,
            _ => false,
        }
    }
}

/// Parsing the stored name of any action type gives that action type back.
pub proof fn lemma_action_type_name_round_trip(a: ActionType)
    ensures
        ActionType::from_name_spec(a.name()) == Some(a),
{
    reveal_strlit("observe");
    reveal_strlit("warn");
    reveal_strlit("restrict_process");
    reveal_strlit("suspend_process");
    reveal_strlit("terminate_process");
    reveal_strlit("quarantine_object");
    reveal_strlit("block_network_destination");
    reveal_strlit("isolate_host");
    match a {
        ActionType::Observe => {},
        ActionType::Warn => {
            assert("warn"@.len() != "observe"@.len());
        },
        ActionType::RestrictProcess => {
            assert("restrict_process"@.len() != "observe"@.len());
            assert("restrict_process"@.len() != "warn"@.len());
        },
        ActionType::SuspendProcess => {
            assert("suspend_process"@.len() != "observe"@.len());
            assert("suspend_process"@.len() != "warn"@.len());
            assert("suspend_process"@.len() != "restrict_process"@.len());
        },
        ActionType::TerminateProcess => {
            assert("terminate_process"@.len() != "observe"@.len());
            assert("terminate_process"@.len() != "warn"@.len());
            assert("terminate_process"@.len() != "restrict_process"@.len());
            assert("terminate_process"@.len() != "suspend_process"@.len());
        },
        ActionType::QuarantineObject => {
            assert("quarantine_object"@.len() != "observe"@.len());
            assert("quarantine_object"@.len() != "warn"@.len());
            assert("quarantine_object"@.len() != "restrict_process"@.len());
            assert("quarantine_object"@.len() != "suspend_process"@.len());
            assert("quarantine_object"@[0] != "terminate_process"@[0]);
        },
        ActionType::BlockNetworkDestination => {
            assert("block_network_destination"@.len() != "observe"@.len());
            assert("block_network_destination"@.len() != "warn"@.len());
            assert("block_network_destination"@.len() != "restrict_process"@.len());
            assert("block_network_destination"@.len() != "suspend_process"@.len());
            assert("block_network_destination"@.len() != "terminate_process"@.len());
            assert("block_network_destination"@.len() != "quarantine_object"@.len());
        },
        ActionType::IsolateHost => {
            assert("isolate_host"@.len() != "observe"@.len());
            assert("isolate_host"@.len() != "warn"@.len());
            assert("isolate_host"@.len() != "restrict_process"@.len());
            assert("isolate_host"@.len() != "suspend_process"@.len());
            assert("isolate_host"@.len() != "terminate_process"@.len());
            assert("isolate_host"@.len() != "quarantine_object"@.len());
            assert("isolate_host"@.len() != "block_network_destination"@.len());
        },
    }
}

impl std::str::FromStr for ActionType {
    type Err = ();

    fn from_str(value: &str) -> (r: Result<ActionType, ()>)
        ensures
            r is Ok <==> ActionType::from_name_spec(value@) is Some,
            r matches Ok(x) ==> ActionType::from_name_spec(value@) == Some(x),
    {
        match ActionType::from_name(value) {
            Some(action) => Ok(action),
            None => Err(()),
        }
    }
}

/// A proposal to perform an action against a target, raised by an incident.
#[derive(Debug, Clone, PartialEq, Eq)]
pub struct ActionProposal {
    pub id: ActionProposalId,
    pub incident_id: IncidentId,
    pub action: ActionType,
    pub target: ObjectId,
}

/// The three MAGI evaluators.
#[derive(Debug, Clone, Copy, PartialEq, Eq, Structural)]
pub enum Evaluator {
    Host,
    User,
    Environment,
}

impl Evaluator {
    pub open spec fn name(self) -> Seq<char> {
        match self {
            Evaluator::Host => "host"@,
            Evaluator::User => "user"@,
            Evaluator::Environment => "environment"@,
        }
    }

    pub fn as_str(self) -> (r: &'static str)
        ensures
            r@ == self.name(),
    {
        match self {
            Evaluator::Host => "host",
            Evaluator::User => "user",
            Evaluator::Environment => "environment",
        }
    }

    /// The evaluator a stored name names, if any.
    pub fn from_name(value: &str) -> (r: Option<Evaluator>)
        ensures
            r matches Some(x) ==> x.name() == value@,
            r is None ==> forall|x: Evaluator| #[trigger] x.name() != value@,
    {
        if str_eq(value, Evaluator::Host.as_str()) {
            return Some(Evaluator::Host);
        }
        if str_eq(value, Evaluator::User.as_str()) {
            return Some(Evaluator::User);
        }
        if str_eq(value, Evaluator::Environment.as_str()) {
            return Some(Evaluator::Environment);
        }
        proof {
            assert forall|x: Evaluator| #[trigger] x.name() != value@ by {
                match x {
                    Evaluator::Host => {},
                    Evaluator::User => {},
                    Evaluator::Environment => {},
                }
            }
        }
        None
    }
}

/// A verdict of one evaluator.
#[derive(Debug, Clone, Copy, PartialEq, Eq, Structural)]
pub enum EvaluatorVerdict {
    Approve,
    Deny,
    Abstain,
    Veto,
}

impl EvaluatorVerdict {
    pub open spec fn name(self) -> Seq<char> {
        match self {
            EvaluatorVerdict::Approve => "approve"@,
            EvaluatorVerdict::Deny => "deny"@,
            EvaluatorVerdict::Abstain => "abstain"@,
            EvaluatorVerdict::Veto => "veto"@,
        }
    }

    pub fn as_str(self) -> (r: &'static str)
        ensures
            r@ == self.name(),
    {
        match self {
            EvaluatorVerdict::Approve => "approve",
            EvaluatorVerdict::Deny => "deny",
            EvaluatorVerdict::Abstain => "abstain",
            EvaluatorVerdict::Veto => "veto",
        }
    }

    /// The evaluatorverdict a stored name names, if any.
    pub fn from_name(value: &str) -> (r: Option<EvaluatorVerdict>)
        ensures
            r matches Some(x) ==> x.name() == value@,
            r is None ==> forall|x: EvaluatorVerdict| #[trigger] x.name() != value@,
    {
        if str_eq(value, EvaluatorVerdict::Approve.as_str()) {
            return Some(EvaluatorVerdict::Approve);
        }
        if str_eq(value, EvaluatorVerdict::Deny.as_str()) {
            return Some(EvaluatorVerdict::Deny);
        }
        if str_eq(value, EvaluatorVerdict::Abstain.as_str()) {
            return Some(EvaluatorVerdict::Abstain);
        }
        if str_eq(value, EvaluatorVerdict::Veto.as_str()) {
            return Some(EvaluatorVerdict::Veto);
        }
        proof {
            assert forall|x: EvaluatorVerdict| #[trigger] x.name() != value@ by {
                match x {
                    EvaluatorVerdict::Approve => {},
                    EvaluatorVerdict::Deny => {},
                    EvaluatorVerdict::Abstain => {},
                    EvaluatorVerdict::Veto => {},
                }
            }
        }
        None
    }
}

/// One evaluator's verdict on a proposal.
#[derive(Debug, Clone, PartialEq, Eq, Structural)]
pub struct Evaluation {
    pub evaluator: Evaluator,
    pub verdict: EvaluatorVerdict,
}

/// The outcome of a MAGI quorum.
#[derive(Debug, Clone, Copy, PartialEq, Eq, Structural)]
pub enum QuorumDecision {
    Approved,
    Denied,
    Blocked,
}

impl QuorumDecision {
    pub open spec fn name(self) -> Seq<char> {
        match self {
            QuorumDecision::Approved => "approved"@,
            QuorumDecision::Denied => "denied"@,
            QuorumDecision::Blocked => "blocked"@,
        }
    }

    pub fn as_str(self) -> (r: &'static str)
        ensures
            r@ == self.name(),
    {
        match self {
            QuorumDecision::Approved => "approved",
            QuorumDecision::Denied => "denied",
            QuorumDecision::Blocked => "blocked",
        }
    }
}

/// How many approvals a quorum needs and whether a denial or a veto blocks it.
#[derive(Debug, Clone, Copy, PartialEq, Eq, Structural)]
pub struct QuorumPolicy {
    pub approvals_required: usize,
    pub deny_blocks: bool,
    pub veto_blocks: bool,
}

/// Whether any evaluation carries the verdict `v`.
pub open spec fn has_verdict(evaluations: Seq<Evaluation>, v: EvaluatorVerdict) -> bool {
    exists|i: int| 0 <= i < evaluations.len() && #[trigger] evaluations[i].verdict == v
}

/// The number of evaluations that carry the verdict `v`.
pub open spec fn count_verdict(evaluations: Seq<Evaluation>, v: EvaluatorVerdict) -> nat
    decreases evaluations.len(),
{
    if evaluations.len() == 0 {
        0
    } else {
        count_verdict(evaluations.drop_last(), v) + if evaluations.last().verdict == v {
            1nat
        } else {
            0nat
        }
    }
}

/// The quorum decision that a policy gives for a set of evaluations.
pub open spec fn quorum_outcome(policy: QuorumPolicy, evaluations: Seq<Evaluation>) -> QuorumDecision {
    if policy.veto_blocks && has_verdict(evaluations, EvaluatorVerdict::Veto) {
        QuorumDecision::Blocked
    } else if policy.deny_blocks && has_verdict(evaluations, EvaluatorVerdict::Deny) {
        QuorumDecision::Denied
    } else if count_verdict(evaluations, EvaluatorVerdict::Approve) >= policy.approvals_required {
        QuorumDecision::Approved
    } else {
        QuorumDecision::Denied
    }
}

pub proof fn lemma_count_verdict_bound(evaluations: Seq<Evaluation>, v: EvaluatorVerdict)
    ensures
        count_verdict(evaluations, v) <= evaluations.len(),
    decreases evaluations.len(),
{
    if evaluations.len() > 0 {
        lemma_count_verdict_bound(evaluations.drop_last(), v);
    }
}

impl std::default::Default for QuorumPolicy {
    fn default() -> (r: QuorumPolicy)
        ensures
            r.approvals_required == 2,
            r.deny_blocks,
            r.veto_blocks,
    {
        QuorumPolicy { approvals_required: 2, deny_blocks: true, veto_blocks: true }
    }
}

impl QuorumPolicy {
    fn any_verdict(evaluations: &[Evaluation], v: EvaluatorVerdict) -> (r: bool)
        ensures
            r == has_verdict(evaluations@, v),
    {
        let mut i: usize = 0;
        while i < evaluations.len()
            invariant
                i <= evaluations@.len(),
                forall|j: int| 0 <= j < i ==> evaluations@[j].verdict != v,
            decreases evaluations@.len() - i,
        {
            if evaluations[i].verdict == v {
                return true;
            }
            i = i + 1;
        }
        false
    }

    /// Decides a quorum: a veto blocks (when vetoes block), a denial denies
    /// (when denials block), otherwise enough approvals approve.
    pub fn evaluate(self, evaluations: &[Evaluation]) -> (r: QuorumDecision)
        ensures
            r == quorum_outcome(self, evaluations@),
    {
        if self.veto_blocks && QuorumPolicy::any_verdict(evaluations, EvaluatorVerdict::Veto) {
            return QuorumDecision::Blocked;
        }
        if self.deny_blocks && QuorumPolicy::any_verdict(evaluations, EvaluatorVerdict::Deny) {
            return QuorumDecision::Denied;
        }
        let mut approvals: usize = 0;
        let mut i: usize = 0;
        while i < evaluations.len()
            invariant
                i <= evaluations@.len(),
                approvals == count_verdict(evaluations@.take(i as int), EvaluatorVerdict::Approve),
            decreases evaluations@.len() - i,
        {
            proof {
                assert(evaluations@.take(i + 1).drop_last() =~= evaluations@.take(i as int));
                lemma_count_verdict_bound(evaluations@.take(i as int), EvaluatorVerdict::Approve);
            }
            if evaluations[i].verdict == EvaluatorVerdict::Approve {
                approvals = approvals + 1;
            }
            i = i + 1;
        }
        assert(evaluations@.take(evaluations@.len() as int) =~= evaluations@);
        if approvals >= self.approvals_required {
            QuorumDecision::Approved
        } else {
            QuorumDecision::Denied
        }
    }
}

/// Under a policy where vetoes block, a single veto blocks the quorum
/// whatever the approvals.
pub proof fn lemma_quorum_veto_overrides_approvals(policy: QuorumPolicy, evaluations: Seq<Evaluation>)
    requires
        policy.veto_blocks,
        has_verdict(evaluations, EvaluatorVerdict::Veto),
    ensures
        quorum_outcome(policy, evaluations) == QuorumDecision::Blocked,
{
}

/// The verdicts of a list of evaluations, in order.
pub open spec fn verdicts(evaluations: Seq<Evaluation>) -> Seq<EvaluatorVerdict> {
    evaluations.map_values(|e: Evaluation| e.verdict)
}

proof fn lemma_count_verdict_is_multiplicity(evaluations: Seq<Evaluation>, v: EvaluatorVerdict)
    ensures
        count_verdict(evaluations, v) == verdicts(evaluations).to_multiset().count(v),
        has_verdict(evaluations, v) <==> verdicts(evaluations).to_multiset().count(v) > 0,
    decreases evaluations.len(),
{
    let vs = verdicts(evaluations);
    if evaluations.len() == 0 {
        assert(vs =~= Seq::<EvaluatorVerdict>::empty());
        vs.to_multiset_ensures();
    } else {
        let init = evaluations.drop_last();
        lemma_count_verdict_is_multiplicity(init, v);
        assert(vs =~= verdicts(init).push(evaluations.last().verdict));
        verdicts(init).to_multiset_ensures();
    }
    vs.to_multiset_ensures();
    if has_verdict(evaluations, v) {
        let i = choose|i: int| 0 <= i < evaluations.len() && #[trigger] evaluations[i].verdict == v;
        assert(vs[i] == v);
    }
    if vs.contains(v) {
        let i = choose|i: int| 0 <= i < vs.len() && vs[i] == v;
        assert(evaluations[i].verdict == v);
    }
}

/// The quorum decision depends on the verdicts alone, not on their order nor
/// on which evaluator gave which: evaluations with the same verdicts, counted
/// with their repetitions, get the same decision.
pub proof fn lemma_quorum_ignores_order(policy: QuorumPolicy, a: Seq<Evaluation>, b: Seq<Evaluation>)
    requires
        verdicts(a).to_multiset() == verdicts(b).to_multiset(),
    ensures
        quorum_outcome(policy, a) == quorum_outcome(policy, b),
{
    lemma_count_verdict_is_multiplicity(a, EvaluatorVerdict::Veto);
    lemma_count_verdict_is_multiplicity(b, EvaluatorVerdict::Veto);
    lemma_count_verdict_is_multiplicity(a, EvaluatorVerdict::Deny);
    lemma_count_verdict_is_multiplicity(b, EvaluatorVerdict::Deny);
    lemma_count_verdict_is_multiplicity(a, EvaluatorVerdict::Approve);
    lemma_count_verdict_is_multiplicity(b, EvaluatorVerdict::Approve);
}

/// A denial blocks the quorum: under a policy where denials block, a single
/// denial, with no blocking veto, denies the proposal whatever the number of
/// approvals.
pub proof fn lemma_quorum_denial_blocks(policy: QuorumPolicy, evaluations: Seq<Evaluation>)
    requires
        policy.deny_blocks,
        exists|i: int| 0 <= i < evaluations.len() && evaluations[i].verdict == EvaluatorVerdict::Deny,
        !(policy.veto_blocks && exists|i: int|
            0 <= i < evaluations.len() && evaluations[i].verdict == EvaluatorVerdict::Veto),
    ensures
        quorum_outcome(policy, evaluations) == QuorumDecision::Denied,
{
    let i = choose|i: int| 0 <= i < evaluations.len() && evaluations[i].verdict == EvaluatorVerdict::Deny;
    assert(has_verdict(evaluations, EvaluatorVerdict::Deny));
}

/// The approving evaluations counted from `count_verdict` are those with the
/// verdict `Approve`, each once.
proof fn lemma_count_is_filter(evaluations: Seq<Evaluation>, v: EvaluatorVerdict)
    ensures
        count_verdict(evaluations, v) == evaluations.filter(|e: Evaluation| e.verdict == v).len(),
    decreases evaluations.len(),
{
    reveal(Seq::filter);
    if evaluations.len() > 0 {
        lemma_count_is_filter(evaluations.drop_last(), v);
    }
}

/// A quorum approves exactly when no blocking veto or denial was given and
/// at least the required number of evaluations approve; abstentions,
/// denials and vetoes never count as approvals.
pub proof fn lemma_quorum_approval(policy: QuorumPolicy, evaluations: Seq<Evaluation>)
    ensures
        (quorum_outcome(policy, evaluations) == QuorumDecision::Approved) == (!(policy.veto_blocks
            && exists|i: int|
            0 <= i < evaluations.len() && evaluations[i].verdict == EvaluatorVerdict::Veto)
            && !(policy.deny_blocks && exists|i: int|
            0 <= i < evaluations.len() && evaluations[i].verdict == EvaluatorVerdict::Deny)
            && evaluations.filter(|e: Evaluation| e.verdict == EvaluatorVerdict::Approve).len()
            >= policy.approvals_required),
{
    lemma_count_is_filter(evaluations, EvaluatorVerdict::Approve);
    if exists|i: int| 0 <= i < evaluations.len() && evaluations[i].verdict == EvaluatorVerdict::Veto {
        let i = choose|i: int| 0 <= i < evaluations.len() && evaluations[i].verdict == EvaluatorVerdict::Veto;
        assert(has_verdict(evaluations, EvaluatorVerdict::Veto));
    }
    if exists|i: int| 0 <= i < evaluations.len() && evaluations[i].verdict == EvaluatorVerdict::Deny {
        let i = choose|i: int| 0 <= i < evaluations.len() && evaluations[i].verdict == EvaluatorVerdict::Deny;
        assert(has_verdict(evaluations, EvaluatorVerdict::Deny));
    }
}

/// An abstention changes nothing: adding an abstaining evaluation leaves
/// the quorum decision as it was.
pub proof fn lemma_abstention_changes_nothing(policy: QuorumPolicy, evaluations: Seq<Evaluation>, e: Evaluation)
    requires
        e.verdict == EvaluatorVerdict::Abstain,
    ensures
        quorum_outcome(policy, evaluations.push(e)) == quorum_outcome(policy, evaluations),
{
    let t = evaluations.push(e);
    assert(t.drop_last() =~= evaluations);
    assert(has_verdict(t, EvaluatorVerdict::Veto) == has_verdict(evaluations, EvaluatorVerdict::Veto)) by {
        if has_verdict(t, EvaluatorVerdict::Veto) {
            let i = choose|i: int| 0 <= i < t.len() && #[trigger] t[i].verdict == EvaluatorVerdict::Veto;
            assert(evaluations[i].verdict == EvaluatorVerdict::Veto);
        }
        if has_verdict(evaluations, EvaluatorVerdict::Veto) {
            let i = choose|i: int| 0 <= i < evaluations.len() && #[trigger] evaluations[i].verdict == EvaluatorVerdict::Veto;
            assert(t[i].verdict == EvaluatorVerdict::Veto);
        }
    }
    assert(has_verdict(t, EvaluatorVerdict::Deny) == has_verdict(evaluations, EvaluatorVerdict::Deny)) by {
        if has_verdict(t, EvaluatorVerdict::Deny) {
            let i = choose|i: int| 0 <= i < t.len() && #[trigger] t[i].verdict == EvaluatorVerdict::Deny;
            assert(evaluations[i].verdict == EvaluatorVerdict::Deny);
        }
        if has_verdict(evaluations, EvaluatorVerdict::Deny) {
            let i = choose|i: int| 0 <= i < evaluations.len() && #[trigger] evaluations[i].verdict == EvaluatorVerdict::Deny;
            assert(t[i].verdict == EvaluatorVerdict::Deny);
        }
    }
}

/// The outcome of the policy gate.
#[derive(Debug, Clone, Copy, PartialEq, Eq, Structural)]
pub enum PolicyDecision {
    Allow,
    Deny,
}

impl PolicyDecision {
    pub open spec fn name(self) -> Seq<char> {
        match self {
            PolicyDecision::Allow => "allow"@,
            PolicyDecision::Deny => "deny"@,
        }
    }

    pub fn as_str(self) -> (r: &'static str)
        ensures
            r@ == self.name(),
    {
        match self {
            PolicyDecision::Allow => "allow",
            PolicyDecision::Deny => "deny",
        }
    }
}

/// The states of the action transaction lifecycle.
#[derive(Debug, Clone, Copy, PartialEq, Eq, Structural)]
pub enum ActionTransactionState {
    Proposal,
    Prepared,
    Revalidated,
    Committed,
    Verified,
    Failed,
}

impl ActionTransactionState {
    pub open spec fn name(self) -> Seq<char> {
        match self {
            ActionTransactionState::Proposal => "proposal"@,
            ActionTransactionState::Prepared => "prepared"@,
            ActionTransactionState::Revalidated => "revalidated"@,
            ActionTransactionState::Committed => "committed"@,
            ActionTransactionState::Verified => "verified"@,
            ActionTransactionState::Failed => "failed"@,
        }
    }

    pub fn as_str(self) -> (r: &'static str)
        ensures
            r@ == self.name(),
    {
        match self {
            ActionTransactionState::Proposal => "proposal",
            ActionTransactionState::Prepared => "prepared",
            ActionTransactionState::Revalidated => "revalidated",
            ActionTransactionState::Committed => "committed",
            ActionTransactionState::Verified => "verified",
            ActionTransactionState::Failed => "failed",
        }
    }

    /// The actiontransactionstate a stored name names, if any.
    pub fn from_name(value: &str) -> (r: Option<ActionTransactionState>)
        ensures
            r matches Some(x) ==> x.name() == value@,
            r is None ==> forall|x: ActionTransactionState| #[trigger] x.name() != value@,
    {
        if str_eq(value, ActionTransactionState::Proposal.as_str()) {
            return Some(ActionTransactionState::Proposal);
        }
        if str_eq(value, ActionTransactionState::Prepared.as_str()) {
            return Some(ActionTransactionState::Prepared);
        }
        if str_eq(value, ActionTransactionState::Revalidated.as_str()) {
            return Some(ActionTransactionState::Revalidated);
        }
        if str_eq(value, ActionTransactionState::Committed.as_str()) {
            return Some(ActionTransactionState::Committed);
        }
        if str_eq(value, ActionTransactionState::Verified.as_str()) {
            return Some(ActionTransactionState::Verified);
        }
        if str_eq(value, ActionTransactionState::Failed.as_str()) {
            return Some(ActionTransactionState::Failed);
        }
        proof {
            assert forall|x: ActionTransactionState| #[trigger] x.name() != value@ by {
                match x {
                    ActionTransactionState::Proposal => {},
                    ActionTransactionState::Prepared => {},
                    ActionTransactionState::Revalidated => {},
                    ActionTransactionState::Committed => {},
                    ActionTransactionState::Verified => {},
                    ActionTransactionState::Failed => {},
                }
            }
        }
        None
    }
}

/// The outcome of an attempted execution.
#[derive(Debug, Clone, Copy, PartialEq, Eq, Structural)]
pub enum ActionExecutionStatus {
    NotAuthorised,
    Completed,
    Failed,
}

impl ActionExecutionStatus {
    pub open spec fn name(self) -> Seq<char> {
        match self {
            ActionExecutionStatus::NotAuthorised => "not_authorised"@,
            ActionExecutionStatus::Completed => "completed"@,
            ActionExecutionStatus::Failed => "failed"@,
        }
    }

    pub fn as_str(self) -> (r: &'static str)
        ensures
            r@ == self.name(),
    {
        match self {
            ActionExecutionStatus::NotAuthorised => "not_authorised",
            ActionExecutionStatus::Completed => "completed",
            ActionExecutionStatus::Failed => "failed",
        }
    }
}

/// The three gates an action passes: quorum, policy and Guard authority.
#[derive(Debug, Clone, Copy, PartialEq, Eq, Structural)]
pub struct ActionAuthorization {
    pub quorum: QuorumDecision,
    pub policy: PolicyDecision,
    pub guard: GuardDecision,
}

impl ActionAuthorization {
    /// All three gates pass.
    pub open spec fn authorised_spec(self) -> bool {
        &&& self.quorum == QuorumDecision::Approved
        &&& self.policy == PolicyDecision::Allow
        &&& self.guard == GuardDecision::Allow
    }

    pub fn is_authorised(self) -> (r: bool)
        ensures
            r == self.authorised_spec(),
    {
        self.quorum == QuorumDecision::Approved && self.policy == PolicyDecision::Allow
            && self.guard == GuardDecision::Allow
    }
}

} // verus!
