//! Action proposals: each is evaluated by the MAGI, gated by quorum, policy
//! and the Guard, run through the transactional coordinator, and kept with
//! its evaluations and transaction events.
use vstd::prelude::*;
use vstd::string::StringExecFns;
use crate::action::{ActionCoordinator, SafeExecutor, TransactionReport, completed, refused_report, transaction_ran};
use crate::daemon::incidents::next_count;
use crate::memory::rows::{tuple_form, tuple_text};
use crate::text::{debug_quoted, debug_quoted_spec};
use crate::daemon::ordered::{
    inserted_in_order, is_insertion_point, lemma_insert_contains, lemma_insert_keeps_order, lemma_take_from_back, lemma_remove_keeps_order,
    strictly_ordered, transitive,
};
use crate::protocol::action::{
    ActionAuthorization, ActionExecutionStatus, ActionProposal, ActionTransactionState,
    ActionType, Evaluation, Evaluator, EvaluatorVerdict, PolicyDecision, QuorumDecision,
    QuorumPolicy, quorum_outcome,
};
use crate::protocol::ids::{ActionProposalId, IncidentId, ObjectId};
use crate::protocol::ipc::{ActionDetailDto, ActionSummaryDto, EvaluationDto, TransactionEventDto};
use crate::protocol::trust::{GuardDecision, TrustState};
use crate::text::{decimal_spec, id_lt, lemma_id_lt_total, pad_left, str_eq, str_lt, zero_padded};

verus! {

/// Why the action store refused a request.
#[derive(Debug)]
pub enum ActionStoreError {
    /// An action name that names no action.
    InvalidAction(String),
    /// A proposal that cannot be found or created.
    InvalidProposal(String),
    /// An identifier the store would assign is already taken.
    IdentifierTaken(String),
}

impl ActionStoreError {
    /// The debug form of the error, as `{:?}` renders it.
    pub open spec fn describe_spec(&self) -> Seq<char> {
        match self {
            ActionStoreError::InvalidAction(s) => tuple_form("InvalidAction"@, debug_quoted_spec(s@)),
            ActionStoreError::InvalidProposal(s) => tuple_form("InvalidProposal"@, debug_quoted_spec(s@)),
            ActionStoreError::IdentifierTaken(s) => tuple_form("IdentifierTaken"@, debug_quoted_spec(s@)),
        }
    }

    /// Renders the error in its debug form.
    pub fn describe(&self) -> (r: String)
        ensures
            r@ == self.describe_spec(),
    {
        match self {
            ActionStoreError::InvalidAction(s) => tuple_text("InvalidAction", debug_quoted(s.as_str()).as_str()),
            ActionStoreError::InvalidProposal(s) => tuple_text("InvalidProposal", debug_quoted(s.as_str()).as_str()),
            ActionStoreError::IdentifierTaken(s) => tuple_text("IdentifierTaken", debug_quoted(s.as_str()).as_str()),
        }
    }
}

/// The reason each MAGI evaluator gives for its verdict.
pub open spec fn magi_reason(evaluator: Evaluator, safe: bool) -> Seq<char> {
    match evaluator {
        Evaluator::Host => if safe {
            "Balthasar: action is non-privileged and does not mutate protected host state"@
        } else {
            "Balthasar: privileged host mutation is deferred until Guard integration"@
        },
        Evaluator::User => "Casper: no interactive user preference source is connected yet"@,
        Evaluator::Environment => if safe {
            "Melchior: action is safe for the current development environment"@
        } else {
            "Melchior: privileged environmental action is not enabled in Batch 3"@
        },
    }
}

/// The verdict each MAGI evaluator gives: the host and environment approve a
/// non-privileged action and abstain otherwise; the user always abstains.
pub open spec fn magi_verdict(evaluator: Evaluator, safe: bool) -> EvaluatorVerdict {
    match evaluator {
        Evaluator::User => EvaluatorVerdict::Abstain,
        _ => if safe {
            EvaluatorVerdict::Approve
        } else {
            EvaluatorVerdict::Abstain
        },
    }
}

/// The evaluators in the order they evaluate and are reported.
pub open spec fn magi_order() -> Seq<Evaluator> {
    seq![Evaluator::Host, Evaluator::User, Evaluator::Environment]
}

/// The evaluations of the MAGI for an action.
pub open spec fn magi_evaluations(action: ActionType) -> Seq<Evaluation> {
    magi_order().map_values(
        |e: Evaluator| Evaluation { evaluator: e, verdict: magi_verdict(e, action.safe_spec()) },
    )
}

/// The MAGI's evaluation of an action, each verdict with its reason.
pub fn evaluate_magi(action: ActionType) -> (r: Vec<(Evaluation, String)>)
    ensures
        r@.len() == 3,
        forall|k: int|
            0 <= k < 3 ==> {
                &&& (#[trigger] r@[k]).0.evaluator == magi_order()[k]
                &&& r@[k].0.verdict == magi_verdict(magi_order()[k], action.safe_spec())
                &&& r@[k].1@ == magi_reason(magi_order()[k], action.safe_spec())
            },
{
    let safe = action.is_safe_non_privileged();
    let mut r: Vec<(Evaluation, String)> = Vec::new();
    let host = if safe {
        EvaluatorVerdict::Approve
    } else {
        EvaluatorVerdict::Abstain
    };
    let host_reason = if safe {
        "Balthasar: action is non-privileged and does not mutate protected host state"
    } else {
        "Balthasar: privileged host mutation is deferred until Guard integration"
    };
    r.push((Evaluation { evaluator: Evaluator::Host, verdict: host }, String::from_str(host_reason)));
    r.push(
        (
            Evaluation { evaluator: Evaluator::User, verdict: EvaluatorVerdict::Abstain },
            String::from_str("Casper: no interactive user preference source is connected yet"),
        ),
    );
    let environment_reason = if safe {
        "Melchior: action is safe for the current development environment"
    } else {
        "Melchior: privileged environmental action is not enabled in Batch 3"
    };
    r.push(
        (
            Evaluation { evaluator: Evaluator::Environment, verdict: host },
            String::from_str(environment_reason),
        ),
    );
    r
}

/// The policy decision on an action: only non-privileged actions are allowed.
pub open spec fn policy_for(action: ActionType) -> PolicyDecision {
    if action.safe_spec() {
        PolicyDecision::Allow
    } else {
        PolicyDecision::Deny
    }
}

pub fn evaluate_policy(action: ActionType) -> (r: PolicyDecision)
    ensures
        r == policy_for(action),
{
    if action.is_safe_non_privileged() {
        PolicyDecision::Allow
    } else {
        PolicyDecision::Deny
    }
}

/// The stored status of a proposal after an execution.
pub open spec fn status_name(status: ActionExecutionStatus) -> Seq<char> {
    match status {
        ActionExecutionStatus::Completed => "completed"@,
        ActionExecutionStatus::NotAuthorised => "not_authorised"@,
        ActionExecutionStatus::Failed => "failed"@,
    }
}

fn status_text(status: ActionExecutionStatus) -> (r: &'static str)
    ensures
        r@ == status_name(status),
{
    match status {
        ActionExecutionStatus::Completed => "completed",
        ActionExecutionStatus::NotAuthorised => "not_authorised",
        ActionExecutionStatus::Failed => "failed",
    }
}

/// The status recorded for a transaction stage: the proposal stage is
/// `not_authorised`, `accepted` or `pending` by the outcome, a failure is
/// `failed`, verification carries the outcome, and every other stage is `ok`.
pub open spec fn event_status(state: ActionTransactionState, status: ActionExecutionStatus) -> Seq<
    char,
> {
    match state {
        ActionTransactionState::Proposal => match status {
            ActionExecutionStatus::NotAuthorised => "not_authorised"@,
            ActionExecutionStatus::Completed => "accepted"@,
            ActionExecutionStatus::Failed => "pending"@,
        },
        ActionTransactionState::Failed => "failed"@,
        ActionTransactionState::Verified => status_name(status),
        _ => "ok"@,
    }
}

pub fn transaction_event_status(state: ActionTransactionState, status: ActionExecutionStatus) -> (r:
    &'static str)
    ensures
        r@ == event_status(state, status),
{
    match state {
        ActionTransactionState::Proposal => match status {
            ActionExecutionStatus::NotAuthorised => "not_authorised",
            ActionExecutionStatus::Completed => "accepted",
            ActionExecutionStatus::Failed => "pending",
        },
        ActionTransactionState::Failed => "failed",
        ActionTransactionState::Verified => status_text(status),
        _ => "ok",
    }
}

/// A stored proposal, its columns as text.
pub struct ProposalRecord {
    pub id: String,
    pub incident_id: String,
    pub action: String,
    pub target: String,
    pub status: String,
    pub quorum: Option<String>,
    pub policy: Option<String>,
    pub guard: Option<String>,
    pub trust_state: Option<String>,
    pub created_at: u64,
    pub updated_at: u64,
}

/// The value of an optional text column.
pub open spec fn opt_view(s: Option<String>) -> Option<Seq<char>> {
    match s {
        Some(t) => Some(t@),
        None => None,
    }
}

fn opt_clone(s: &Option<String>) -> (r: Option<String>)
    ensures
        opt_view(r) == opt_view(*s),
{
    match s {
        Some(t) => Some(t.clone()),
        None => None,
    }
}

/// The value of a stored proposal.
pub struct ProposalView {
    pub id: Seq<char>,
    pub incident_id: Seq<char>,
    pub action: Seq<char>,
    pub target: Seq<char>,
    pub status: Seq<char>,
    pub quorum: Option<Seq<char>>,
    pub policy: Option<Seq<char>>,
    pub guard: Option<Seq<char>>,
    pub trust_state: Option<Seq<char>>,
    pub created_at: u64,
    pub updated_at: u64,
}

impl View for ProposalRecord {
    type V = ProposalView;

    open spec fn view(&self) -> ProposalView {
        ProposalView {
            id: self.id@,
            incident_id: self.incident_id@,
            action: self.action@,
            target: self.target@,
            status: self.status@,
            quorum: opt_view(self.quorum),
            policy: opt_view(self.policy),
            guard: opt_view(self.guard),
            trust_state: opt_view(self.trust_state),
            created_at: self.created_at,
            updated_at: self.updated_at,
        }
    }
}

/// A stored evaluation.
pub struct EvaluationRecord {
    pub proposal_id: String,
    pub evaluator: Evaluator,
    pub verdict: EvaluatorVerdict,
    pub reason: String,
    pub evaluated_at: u64,
}

/// The value of a stored evaluation.
pub struct EvaluationView {
    pub proposal_id: Seq<char>,
    pub evaluator: Evaluator,
    pub verdict: EvaluatorVerdict,
    pub reason: Seq<char>,
    pub evaluated_at: u64,
}

impl View for EvaluationRecord {
    type V = EvaluationView;

    open spec fn view(&self) -> EvaluationView {
        EvaluationView {
            proposal_id: self.proposal_id@,
            evaluator: self.evaluator,
            verdict: self.verdict,
            reason: self.reason@,
            evaluated_at: self.evaluated_at,
        }
    }
}

/// A stored transaction event.
pub struct TransactionRecord {
    pub sequence: u64,
    pub proposal_id: String,
    pub state: ActionTransactionState,
    pub status: String,
    pub message: Option<String>,
    pub recorded_at: u64,
}

/// The value of a stored transaction event.
pub struct TransactionView {
    pub sequence: u64,
    pub proposal_id: Seq<char>,
    pub state: ActionTransactionState,
    pub status: Seq<char>,
    pub message: Option<Seq<char>>,
    pub recorded_at: u64,
}

impl View for TransactionRecord {
    type V = TransactionView;

    open spec fn view(&self) -> TransactionView {
        TransactionView {
            sequence: self.sequence,
            proposal_id: self.proposal_id@,
            state: self.state,
            status: self.status@,
            message: opt_view(self.message),
            recorded_at: self.recorded_at,
        }
    }
}

/// Proposals are kept most recently updated first, then by identifier.
pub open spec fn proposal_first() -> spec_fn(ProposalView, ProposalView) -> bool {
    |a: ProposalView, b: ProposalView|
        a.updated_at > b.updated_at || (a.updated_at == b.updated_at && id_lt(a.id, b.id))
}

proof fn lemma_proposal_order()
    ensures
        transitive(proposal_first()),
        forall|a: ProposalView, b: ProposalView|
            a.id != b.id ==> #[trigger] proposal_first()(a, b) || #[trigger] proposal_first()(b, a),
{
    assert forall|a: ProposalView, b: ProposalView, c: ProposalView|
        #[trigger] proposal_first()(a, b) && #[trigger] proposal_first()(b, c) implies proposal_first()(
        a,
        c,
    ) by {
        if a.updated_at == b.updated_at && b.updated_at == c.updated_at {
            crate::text::lemma_id_lt_transitive(a.id, b.id, c.id);
        }
    }
    assert forall|a: ProposalView, b: ProposalView|
        a.id != b.id implies #[trigger] proposal_first()(a, b) || #[trigger] proposal_first()(b, a) by {
        lemma_id_lt_total(a.id, b.id);
    }
}

/// The identifier given to the proposal counted `n`: `act_` and eight digits.
pub open spec fn proposal_id_text(n: u64) -> Seq<char> {
    "act_"@ + pad_left(decimal_spec(n as nat), '0', 8)
}

/// Whether a proposal with identifier `id` is stored in `s`.
pub open spec fn has_proposal(s: Seq<ProposalView>, id: Seq<char>) -> bool {
    exists|i: int| 0 <= i < s.len() && s[i].id == id
}

/// The evaluations of proposal `id`, reported host, user, environment.
pub open spec fn evaluations_of(e: Seq<EvaluationView>, id: Seq<char>) -> Seq<EvaluationView> {
    e.filter(|x: EvaluationView| x.proposal_id == id && x.evaluator == Evaluator::Host) + e.filter(
        |x: EvaluationView| x.proposal_id == id && x.evaluator == Evaluator::User,
    ) + e.filter(|x: EvaluationView| x.proposal_id == id && x.evaluator == Evaluator::Environment)
}

/// The transaction events of proposal `id`, in the order they were recorded.
pub open spec fn transactions_of(t: Seq<TransactionView>, id: Seq<char>) -> Seq<TransactionView> {
    t.filter(|x: TransactionView| x.proposal_id == id)
}

/// Whether `d` reports the proposal `p`.
pub open spec fn proposal_reports(d: ActionSummaryDto, p: ProposalView) -> bool {
    &&& d.id@ == p.id
    &&& d.incident_id@ == p.incident_id
    &&& d.action@ == p.action
    &&& d.target@ == p.target
    &&& d.status@ == p.status
    &&& opt_view(d.quorum) == p.quorum
    &&& opt_view(d.policy) == p.policy
    &&& opt_view(d.guard) == p.guard
    &&& opt_view(d.trust_state) == p.trust_state
    &&& d.created_at == p.created_at
    &&& d.updated_at == p.updated_at
}

/// Whether `d` reports the evaluation `e`.
pub open spec fn evaluation_reports(d: EvaluationDto, e: EvaluationView) -> bool {
    &&& d.evaluator@ == e.evaluator.name()
    &&& d.verdict@ == e.verdict.name()
    &&& d.reason@ == e.reason
    &&& d.evaluated_at == e.evaluated_at
}

/// Whether `d` reports the transaction event `t`.
pub open spec fn transaction_reports(d: TransactionEventDto, t: TransactionView) -> bool {
    &&& d.state@ == t.state.name()
    &&& d.status@ == t.status
    &&& opt_view(d.message) == t.message
    &&& d.recorded_at == t.recorded_at
}

/// Whether `d` reports the stored proposal `p` with its evaluations and
/// transaction events.
pub open spec fn detail_reports(
    d: ActionDetailDto,
    p: ProposalView,
    evaluations: Seq<EvaluationView>,
    transactions: Seq<TransactionView>,
) -> bool {
    &&& proposal_reports(d.proposal, p)
    &&& d.evaluations@.len() == evaluations.len()
    &&& forall|k: int|
        0 <= k < evaluations.len() ==> evaluation_reports(#[trigger] d.evaluations@[k], evaluations[k])
    &&& d.transactions@.len() == transactions.len()
    &&& forall|k: int|
        0 <= k < transactions.len() ==> transaction_reports(
            #[trigger] d.transactions@[k],
            transactions[k],
        )
    &&& d.guard_requirement@ == "required_for_execution"@
}

/// The stored proposals, evaluations and transaction events, and the counters
/// the next proposal identifier and event sequence are drawn from.
pub struct ActionService {
    proposals: Vec<ProposalRecord>,
    evaluations: Vec<EvaluationRecord>,
    transactions: Vec<TransactionRecord>,
    next_proposal: u64,
    next_sequence: u64,
}

impl ActionService {
    pub closed spec fn proposals_view(&self) -> Seq<ProposalView> {
        self.proposals@.map_values(|r: ProposalRecord| r@)
    }

    pub closed spec fn evaluations_view(&self) -> Seq<EvaluationView> {
        self.evaluations@.map_values(|r: EvaluationRecord| r@)
    }

    pub closed spec fn transactions_view(&self) -> Seq<TransactionView> {
        self.transactions@.map_values(|r: TransactionRecord| r@)
    }

    pub closed spec fn next_proposal_count(&self) -> u64 {
        self.next_proposal
    }

    pub closed spec fn next_sequence_number(&self) -> u64 {
        self.next_sequence
    }

    /// Proposals are kept in their order with unique identifiers, and each
    /// evaluator evaluates a proposal at most once.
    pub open spec fn well_formed(&self) -> bool {
        &&& strictly_ordered(self.proposals_view(), proposal_first())
        &&& forall|i: int, j: int|
            0 <= i < self.proposals_view().len() && 0 <= j < self.proposals_view().len() && i
                != j ==> #[trigger] self.proposals_view()[i].id != #[trigger] self.proposals_view()[j].id
        &&& forall|i: int, j: int|
            0 <= i < self.evaluations_view().len() && 0 <= j < self.evaluations_view().len() && i
                != j ==> !(#[trigger] self.evaluations_view()[i].proposal_id
                == #[trigger] self.evaluations_view()[j].proposal_id
                && self.evaluations_view()[i].evaluator == self.evaluations_view()[j].evaluator)
    }

    /// An empty store whose counters start at 1.
    pub fn new() -> (r: ActionService)
        ensures
            r.well_formed(),
            r.proposals_view().len() == 0,
            r.evaluations_view().len() == 0,
            r.transactions_view().len() == 0,
            r.next_proposal_count() == 1,
            r.next_sequence_number() == 1,
    {
        let r = ActionService {
            proposals: Vec::new(),
            evaluations: Vec::new(),
            transactions: Vec::new(),
            next_proposal: 1,
            next_sequence: 1,
        };
        assert(r.proposals_view() =~= Seq::empty());
        assert(r.evaluations_view() =~= Seq::empty());
        assert(r.transactions_view() =~= Seq::empty());
        r
    }
}

/// Whether the proposal `id` is stored at `i`.
pub open spec fn proposal_at(s: Seq<ProposalView>, id: Seq<char>, i: int) -> bool {
    0 <= i < s.len() && s[i].id == id
}

/// Whether `a` comes before `b` among proposals.
fn proposal_precedes(a: &ProposalRecord, b: &ProposalRecord) -> (r: bool)
    ensures
        r == proposal_first()(a@, b@),
{
    if a.updated_at != b.updated_at {
        a.updated_at > b.updated_at
    } else {
        str_lt(a.id.as_str(), b.id.as_str())
    }
}

impl ProposalRecord {
    fn summary(&self) -> (r: ActionSummaryDto)
        ensures
            proposal_reports(r, self@),
    {
        ActionSummaryDto {
            id: self.id.clone(),
            incident_id: self.incident_id.clone(),
            action: self.action.clone(),
            target: self.target.clone(),
            status: self.status.clone(),
            quorum: opt_clone(&self.quorum),
            policy: opt_clone(&self.policy),
            guard: opt_clone(&self.guard),
            trust_state: opt_clone(&self.trust_state),
            created_at: self.created_at,
            updated_at: self.updated_at,
        }
    }
}

/// Whether `after` is `before` once a proposal to apply `action` to `target`
/// for the incident `incident_id` was created at `now` under the next
/// proposal identifier, with its pending proposal event, and `d` reports it.
pub open spec fn proposal_created(
    before: ActionService,
    after: ActionService,
    incident_id: Seq<char>,
    action: Seq<char>,
    target: Seq<char>,
    now: u64,
    d: ActionDetailDto,
) -> bool {
    let id = proposal_id_text(before.next_proposal_count());
    &&& inserted_in_order(
        before.proposals_view(),
        ProposalView {
            id,
            incident_id,
            action: ActionType::from_name_spec(action)->0.name(),
            target,
            status: "proposed"@,
            quorum: None,
            policy: None,
            guard: None,
            trust_state: None,
            created_at: now,
            updated_at: now,
        },
        proposal_first(),
        after.proposals_view(),
    )
    &&& after.next_proposal_count() == next_count(before.next_proposal_count())
    &&& after.evaluations_view() == before.evaluations_view()
    &&& after.transactions_view() == before.transactions_view().push(
        TransactionView {
            sequence: before.next_sequence_number(),
            proposal_id: id,
            state: ActionTransactionState::Proposal,
            status: "pending"@,
            message: None,
            recorded_at: now,
        },
    )
    &&& after.next_sequence_number() == next_count(
        before.next_sequence_number(),
    )
    &&& exists|i: int|
        proposal_at(after.proposals_view(), id, i) && detail_reports(
            d,
            after.proposals_view()[i],
            evaluations_of(after.evaluations_view(), id),
            transactions_of(after.transactions_view(), id),
        )
}

impl ActionService {
    /// Where the proposal `id` is stored.
    fn proposal_index(&self, id: &str) -> (r: Option<usize>)
        requires
            self.well_formed(),
        ensures
            r is Some <==> has_proposal(self.proposals_view(), id@),
            r matches Some(i) ==> proposal_at(self.proposals_view(), id@, i as int),
    {
        let ghost v = self.proposals_view();
        let mut i: usize = 0;
        while i < self.proposals.len()
            invariant
                v == self.proposals_view(),
                i <= v.len(),
                forall|j: int| 0 <= j < i ==> #[trigger] v[j].id != id@,
            decreases v.len() - i,
        {
            if str_eq(self.proposals[i].id.as_str(), id) {
                assert(v[i as int].id == id@);
                return Some(i);
            }
            i = i + 1;
        }
        None
    }

    /// Stores a proposal whose identifier is new, where it goes.
    fn insert_proposal(&mut self, record: ProposalRecord)
        requires
            old(self).well_formed(),
            !has_proposal(old(self).proposals_view(), record.id@),
        ensures
            final(self).well_formed(),
            inserted_in_order(
                old(self).proposals_view(),
                record@,
                proposal_first(),
                final(self).proposals_view(),
            ),
            final(self).evaluations_view() == old(self).evaluations_view(),
            final(self).transactions_view() == old(self).transactions_view(),
            final(self).next_proposal_count() == old(self).next_proposal_count(),
            final(self).next_sequence_number() == old(self).next_sequence_number(),
    {
        let ghost v = self.proposals_view();
        let mut pos: usize = 0;
        while pos < self.proposals.len()
            invariant
                v == self.proposals_view(),
                pos <= v.len(),
                forall|i: int| 0 <= i < pos ==> !proposal_first()(record@, #[trigger] v[i]),
            ensures
                pos <= v.len(),
                forall|i: int| 0 <= i < pos ==> !proposal_first()(record@, #[trigger] v[i]),
                pos < v.len() ==> proposal_first()(record@, v[pos as int]),
            decreases v.len() - pos,
        {
            if proposal_precedes(&record, &self.proposals[pos]) {
                break;
            }
            pos = pos + 1;
        }
        let ghost e = record@;
        self.proposals.insert(pos, record);
        proof {
            let t = self.proposals_view();
            assert(t =~= v.insert(pos as int, e));
            assert(is_insertion_point(v, e, proposal_first(), pos as int));
            lemma_proposal_order();
            assert forall|i: int| 0 <= i < v.len() implies proposal_first()(#[trigger] v[i], e)
                || proposal_first()(e, v[i]) by {
                assert(v[i].id != e.id);
            }
            lemma_insert_keeps_order(v, e, proposal_first(), pos as int);
            assert forall|i: int, j: int|
                0 <= i < t.len() && 0 <= j < t.len() && i != j implies #[trigger] t[i].id
                != #[trigger] t[j].id by {
                if i != pos && j != pos {
                    let a = if i < pos { i } else { i - 1 };
                    let b = if j < pos { j } else { j - 1 };
                    assert(t[i] == v[a] && t[j] == v[b]);
                } else if i == pos {
                    let b = if j < pos { j } else { j - 1 };
                    assert(t[j] == v[b]);
                } else {
                    let a = if i < pos { i } else { i - 1 };
                    assert(t[i] == v[a]);
                }
            }
        }
    }

    /// Appends a transaction event to proposal `proposal_id` under the next
    /// sequence number.
    fn record_transaction(
        &mut self,
        proposal_id: &str,
        state: ActionTransactionState,
        status: &str,
        message: Option<&str>,
        now: u64,
    )
        requires
            old(self).well_formed(),
        ensures
            final(self).well_formed(),
            final(self).transactions_view() == old(self).transactions_view().push(
                TransactionView {
                    sequence: old(self).next_sequence_number(),
                    proposal_id: proposal_id@,
                    state,
                    status: status@,
                    message: match message {
                        Some(m) => Some(m@),
                        None => None,
                    },
                    recorded_at: now,
                },
            ),
            final(self).next_sequence_number() == next_count(old(self).next_sequence_number()),
            final(self).proposals_view() == old(self).proposals_view(),
            final(self).evaluations_view() == old(self).evaluations_view(),
            final(self).next_proposal_count() == old(self).next_proposal_count(),
    {
        let record = TransactionRecord {
            sequence: self.next_sequence,
            proposal_id: String::from_str(proposal_id),
            state,
            status: String::from_str(status),
            message: match message {
                Some(m) => Some(String::from_str(m)),
                None => None,
            },
            recorded_at: now,
        };
        let ghost before = self.transactions_view();
        self.transactions.push(record);
        assert(self.transactions_view() =~= before.push(record@));
        self.next_sequence = self.next_sequence.saturating_add(1);
    }

    /// The evaluations of proposal `id`, host, user, environment.
    fn evaluation_dtos(&self, id: &str) -> (r: Vec<EvaluationDto>)
        ensures
            r@.len() == evaluations_of(self.evaluations_view(), id@).len(),
            forall|k: int|
                0 <= k < r@.len() ==> evaluation_reports(
                    #[trigger] r@[k],
                    evaluations_of(self.evaluations_view(), id@)[k],
                ),
    {
        let ghost v = self.evaluations_view();
        let mut out: Vec<EvaluationDto> = Vec::new();
        let ghost mut done: Seq<EvaluationView> = Seq::empty();
        let mut round: usize = 0;
        while round < 3
            invariant
                v == self.evaluations_view(),
                round <= 3,
                done == if round == 0 {
                    Seq::<EvaluationView>::empty()
                } else if round == 1 {
                    v.filter(|x: EvaluationView| x.proposal_id == id@ && x.evaluator == Evaluator::Host)
                } else if round == 2 {
                    v.filter(|x: EvaluationView| x.proposal_id == id@ && x.evaluator == Evaluator::Host)
                        + v.filter(
                        |x: EvaluationView| x.proposal_id == id@ && x.evaluator == Evaluator::User,
                    )
                } else {
                    evaluations_of(v, id@)
                },
                out@.len() == done.len(),
                forall|k: int| 0 <= k < out@.len() ==> evaluation_reports(#[trigger] out@[k], done[k]),
            decreases 3 - round,
        {
            let evaluator = if round == 0 {
                Evaluator::Host
            } else if round == 1 {
                Evaluator::User
            } else {
                Evaluator::Environment
            };
            let ghost p = |x: EvaluationView| x.proposal_id == id@ && x.evaluator == evaluator;
            let ghost start = done;
            let ghost start_len = out@.len();
            let mut i: usize = 0;
            while i < self.evaluations.len()
                invariant
                    v == self.evaluations_view(),
                    p == (|x: EvaluationView| x.proposal_id == id@ && x.evaluator == evaluator),
                    i <= v.len(),
                    out@.len() == start.len() + v.take(i as int).filter(p).len(),
                    start.len() == start_len,
                    forall|k: int|
                        0 <= k < out@.len() ==> evaluation_reports(
                            #[trigger] out@[k],
                            (start + v.take(i as int).filter(p))[k],
                        ),
                decreases v.len() - i,
            {
                proof {
                    crate::memory::keyed::lemma_filter_take_step(v, p, i as int);
                }
                let e = &self.evaluations[i];
                if str_eq(e.proposal_id.as_str(), id) && e.evaluator == evaluator {
                    out.push(
                        EvaluationDto {
                            evaluator: String::from_str(e.evaluator.as_str()),
                            verdict: String::from_str(e.verdict.as_str()),
                            reason: e.reason.clone(),
                            evaluated_at: e.evaluated_at,
                        },
                    );
                }
                i = i + 1;
            }
            proof {
                assert(v.take(v.len() as int) =~= v);
                done = start + v.filter(p);
                if round == 0 {
                    assert(done =~= v.filter(
                        |x: EvaluationView| x.proposal_id == id@ && x.evaluator == Evaluator::Host,
                    ));
                }
            }
            round = round + 1;
        }
        out
    }

    /// The transaction events of proposal `id`, in recorded order.
    fn transaction_dtos(&self, id: &str) -> (r: Vec<TransactionEventDto>)
        ensures
            r@.len() == transactions_of(self.transactions_view(), id@).len(),
            forall|k: int|
                0 <= k < r@.len() ==> transaction_reports(
                    #[trigger] r@[k],
                    transactions_of(self.transactions_view(), id@)[k],
                ),
    {
        let ghost v = self.transactions_view();
        let ghost p = |x: TransactionView| x.proposal_id == id@;
        let mut out: Vec<TransactionEventDto> = Vec::new();
        let mut i: usize = 0;
        while i < self.transactions.len()
            invariant
                v == self.transactions_view(),
                p == (|x: TransactionView| x.proposal_id == id@),
                i <= v.len(),
                out@.len() == v.take(i as int).filter(p).len(),
                forall|k: int|
                    0 <= k < out@.len() ==> transaction_reports(
                        #[trigger] out@[k],
                        v.take(i as int).filter(p)[k],
                    ),
            decreases v.len() - i,
        {
            proof {
                crate::memory::keyed::lemma_filter_take_step(v, p, i as int);
            }
            let t = &self.transactions[i];
            if str_eq(t.proposal_id.as_str(), id) {
                out.push(
                    TransactionEventDto {
                        state: String::from_str(t.state.as_str()),
                        status: t.status.clone(),
                        message: opt_clone(&t.message),
                        recorded_at: t.recorded_at,
                    },
                );
            }
            i = i + 1;
        }
        assert(v.take(v.len() as int) =~= v);
        out
    }

    /// Every proposal, most recently updated first and then by identifier.
    pub fn list(&self) -> (r: Vec<ActionSummaryDto>)
        ensures
            r@.len() == self.proposals_view().len(),
            forall|k: int| 0 <= k < r@.len() ==> proposal_reports(#[trigger] r@[k], self.proposals_view()[k]),
    {
        let mut out: Vec<ActionSummaryDto> = Vec::new();
        let mut i: usize = 0;
        while i < self.proposals.len()
            invariant
                i <= self.proposals_view().len(),
                out@.len() == i,
                forall|k: int| 0 <= k < i ==> proposal_reports(#[trigger] out@[k], self.proposals_view()[k]),
            decreases self.proposals_view().len() - i,
        {
            out.push(self.proposals[i].summary());
            i = i + 1;
        }
        out
    }

    /// The proposal `id` with its evaluations and transaction events; `None`
    /// when no such proposal is stored.
    pub fn detail(&self, id: &str) -> (r: Option<ActionDetailDto>)
        requires
            self.well_formed(),
        ensures
            r is Some <==> has_proposal(self.proposals_view(), id@),
            r matches Some(d) ==> exists|i: int|
                proposal_at(self.proposals_view(), id@, i) && detail_reports(
                    d,
                    self.proposals_view()[i],
                    evaluations_of(self.evaluations_view(), id@),
                    transactions_of(self.transactions_view(), id@),
                ),
    {
        match self.proposal_index(id) {
            None => None,
            Some(i) => {
                proof {
                    reveal_strlit("required_for_execution");
                }
                let proposal = self.proposals[i].summary();
                let evaluations = self.evaluation_dtos(id);
                let transactions = self.transaction_dtos(id);
                let d = ActionDetailDto {
                    proposal,
                    evaluations,
                    transactions,
                    guard_requirement: String::from_str("required_for_execution"),
                };
                assert(proposal_at(self.proposals_view(), id@, i as int));
                Some(d)
            },
        }
    }

    /// Records a proposal to apply `action` to `target` for an incident, with
    /// its pending proposal event.
    pub fn create(&mut self, incident_id: &str, action: &str, target: &str, now: u64) -> (r: Result<
        ActionDetailDto,
        ActionStoreError,
    >)
        requires
            old(self).well_formed(),
        ensures
            final(self).well_formed(),
            ActionType::from_name_spec(action@) is None ==> (r matches Err(
                ActionStoreError::InvalidAction(t),
            ) && t@ == action@),
            ActionType::from_name_spec(action@) is Some && has_proposal(
                old(self).proposals_view(),
                proposal_id_text(old(self).next_proposal_count()),
            ) ==> (r matches Err(ActionStoreError::IdentifierTaken(t)) && t@ == proposal_id_text(
                old(self).next_proposal_count(),
            )),
            r is Err ==> {
                &&& final(self).proposals_view() == old(self).proposals_view()
                &&& final(self).evaluations_view() == old(self).evaluations_view()
                &&& final(self).transactions_view() == old(self).transactions_view()
                &&& final(self).next_proposal_count() == old(self).next_proposal_count()
                &&& final(self).next_sequence_number() == old(self).next_sequence_number()
            },
            r matches Ok(d) ==> proposal_created(
                *old(self),
                *final(self),
                incident_id@,
                action@,
                target@,
                now,
                d,
            ),
            r is Ok <==> ActionType::from_name_spec(action@) is Some && !has_proposal(
                old(self).proposals_view(),
                proposal_id_text(old(self).next_proposal_count()),
            ),
    {
        let action_type = match ActionType::from_name(action) {
            Some(a) => a,
            None => {
                return Err(ActionStoreError::InvalidAction(String::from_str(action)));
            },
        };
        let id = String::from_str("act_");
        let digits = zero_padded(self.next_proposal, 8);
        proof {
            reveal_strlit("act_");
            reveal_strlit("proposed");
            reveal_strlit("pending");
        }
        let id = id.concat(digits.as_str());
        if self.proposal_index(id.as_str()).is_some() {
            return Err(ActionStoreError::IdentifierTaken(id));
        }
        self.next_proposal = self.next_proposal.saturating_add(1);
        let record = ProposalRecord {
            id: id.clone(),
            incident_id: String::from_str(incident_id),
            action: String::from_str(action_type.as_str()),
            target: String::from_str(target),
            status: String::from_str("proposed"),
            quorum: None,
            policy: None,
            guard: None,
            trust_state: None,
            created_at: now,
            updated_at: now,
        };
        self.insert_proposal(record);
        self.record_transaction(id.as_str(), ActionTransactionState::Proposal, "pending", None, now);
        match self.detail(id.as_str()) {
            Some(d) => Ok(d),
            None => {
                proof {
                    let p = choose|p: int|
                        is_insertion_point(
                            old(self).proposals_view(),
                            record@,
                            proposal_first(),
                            p,
                        ) && self.proposals_view() == old(self).proposals_view().insert(p, record@);
                    assert(self.proposals_view()[p].id == id@);
                }
                Err(ActionStoreError::InvalidProposal(id))
            },
        }
    }
}

/// The MAGI quorum policy the daemon applies: two approvals, and any denial or
/// veto blocks.
pub open spec fn daemon_quorum_policy() -> QuorumPolicy {
    QuorumPolicy { approvals_required: 2, deny_blocks: true, veto_blocks: true }
}

/// Whether `i` holds the evaluation of proposal `id` by `evaluator`.
pub open spec fn evaluation_at(e: Seq<EvaluationView>, id: Seq<char>, evaluator: Evaluator, i: int) -> bool {
    0 <= i < e.len() && e[i].proposal_id == id && e[i].evaluator == evaluator
}

/// `e` with the evaluation of `v.proposal_id` by `v.evaluator` replaced by
/// `v`, or with `v` appended when there was none.
pub open spec fn upserted(e: Seq<EvaluationView>, v: EvaluationView) -> Seq<EvaluationView> {
    if exists|i: int| evaluation_at(e, v.proposal_id, v.evaluator, i) {
        e.update(choose|i: int| evaluation_at(e, v.proposal_id, v.evaluator, i), v)
    } else {
        e.push(v)
    }
}

/// The evaluations `es` upserted one after another into `e`.
pub open spec fn upserted_all(e: Seq<EvaluationView>, es: Seq<EvaluationView>) -> Seq<EvaluationView>
    decreases es.len(),
{
    if es.len() == 0 {
        e
    } else {
        upserted(upserted_all(e, es.drop_last()), es.last())
    }
}

/// The identifier of a proposal.
pub open spec fn proposal_key() -> spec_fn(ProposalView) -> Seq<char> {
    |v: ProposalView| v.id
}

/// The MAGI evaluation by `evaluator` of a proposal recorded at `now`.
pub open spec fn magi_record(id: Seq<char>, evaluator: Evaluator, action: ActionType, now: u64) -> EvaluationView {
    EvaluationView {
        proposal_id: id,
        evaluator,
        verdict: magi_verdict(evaluator, action.safe_spec()),
        reason: magi_reason(evaluator, action.safe_spec()),
        evaluated_at: now,
    }
}

/// The stored evaluations after the MAGI evaluated proposal `id`.
pub open spec fn after_magi(e: Seq<EvaluationView>, id: Seq<char>, action: ActionType, now: u64) -> Seq<
    EvaluationView,
> {
    upserted(
        upserted(upserted(e, magi_record(id, Evaluator::Host, action, now)), magi_record(id, Evaluator::User, action, now)),
        magi_record(id, Evaluator::Environment, action, now),
    )
}

/// `n + k`, saturating at `u64::MAX`.
pub open spec fn counted(n: u64, k: int) -> u64 {
    if n + k > u64::MAX {
        u64::MAX
    } else {
        (n + k) as u64
    }
}

/// The transaction events recorded for a report, numbered from `start`.
pub open spec fn report_events(rep: TransactionReport, id: Seq<char>, now: u64, start: u64) -> Seq<
    TransactionView,
> {
    Seq::new(
        rep.transitions@.len(),
        |k: int|
            TransactionView {
                sequence: counted(start, k),
                proposal_id: id,
                state: rep.transitions@[k],
                status: event_status(rep.transitions@[k], rep.status),
                message: if rep.transitions@[k] == rep.state {
                    opt_view(rep.message)
                } else {
                    None
                },
                recorded_at: now,
            },
    )
}

/// Whether `rep` is a report the coordinator gives under `authorization`: a
/// refusal before the executor when a gate fails; otherwise the safe
/// executor's every stage passes and the transaction completes.
pub open spec fn coordinated(rep: TransactionReport, authorization: ActionAuthorization) -> bool {
    if authorization.authorised_spec() {
        completed(rep)
    } else {
        refused_report(rep, "action proposal did not pass every authorisation gate"@)
    }
}

impl ActionService {
    /// Records the evaluation `v` of a proposal, replacing the evaluator's
    /// earlier evaluation of it.
    fn upsert_evaluation(
        &mut self,
        proposal_id: &str,
        evaluator: Evaluator,
        verdict: EvaluatorVerdict,
        reason: &str,
        now: u64,
    )
        requires
            old(self).well_formed(),
        ensures
            final(self).well_formed(),
            final(self).evaluations_view() == upserted(
                old(self).evaluations_view(),
                EvaluationView { proposal_id: proposal_id@, evaluator, verdict, reason: reason@, evaluated_at: now },
            ),
            final(self).proposals_view() == old(self).proposals_view(),
            final(self).transactions_view() == old(self).transactions_view(),
            final(self).next_proposal_count() == old(self).next_proposal_count(),
            final(self).next_sequence_number() == old(self).next_sequence_number(),
    {
        let ghost v = self.evaluations_view();
        let record = EvaluationRecord {
            proposal_id: String::from_str(proposal_id),
            evaluator,
            verdict,
            reason: String::from_str(reason),
            evaluated_at: now,
        };
        let ghost nv = record@;
        let mut i: usize = 0;
        while i < self.evaluations.len()
            invariant
                v == self.evaluations_view(),
                self.well_formed(),
                nv == record@,
                nv == (EvaluationView { proposal_id: proposal_id@, evaluator, verdict, reason: reason@, evaluated_at: now }),
                self.proposals_view() == old(self).proposals_view(),
                self.transactions_view() == old(self).transactions_view(),
                self.evaluations_view() == old(self).evaluations_view(),
                self.next_proposal_count() == old(self).next_proposal_count(),
                self.next_sequence_number() == old(self).next_sequence_number(),
                i <= v.len(),
                forall|j: int| 0 <= j < i ==> !evaluation_at(v, proposal_id@, evaluator, j),
            decreases v.len() - i,
        {
            if str_eq(self.evaluations[i].proposal_id.as_str(), proposal_id)
                && self.evaluations[i].evaluator == evaluator {
                assert(evaluation_at(v, proposal_id@, evaluator, i as int));
                proof {
                    assert(evaluation_at(v, nv.proposal_id, nv.evaluator, i as int));
                    let c = choose|c: int| evaluation_at(v, nv.proposal_id, nv.evaluator, c);
                    assert(c == i) by {
                        if c != i {
                            assert(v[c].proposal_id == v[i as int].proposal_id);
                        }
                    }
                    assert(upserted(v, nv) == v.update(i as int, nv));
                }
                self.evaluations.set(i, record);
                proof {
                    let t = self.evaluations_view();
                    assert(t =~= v.update(i as int, nv));
                    assert forall|a: int, b: int|
                        0 <= a < t.len() && 0 <= b < t.len() && a != b implies !(
                        #[trigger] t[a].proposal_id == #[trigger] t[b].proposal_id && t[a].evaluator
                            == t[b].evaluator) by {
                        if a != i && b != i {
                            assert(t[a] == v[a] && t[b] == v[b]);
                        } else if a == i {
                            assert(t[b] == v[b]);
                        } else {
                            assert(t[a] == v[a]);
                        }
                    }
                }
                return;
            }
            i = i + 1;
        }
        self.evaluations.push(record);
        proof {
            let t = self.evaluations_view();
            assert(t =~= v.push(nv));
            assert forall|a: int, b: int|
                0 <= a < t.len() && 0 <= b < t.len() && a != b implies !(
                #[trigger] t[a].proposal_id == #[trigger] t[b].proposal_id && t[a].evaluator
                    == t[b].evaluator) by {
                if a < v.len() && b < v.len() {
                    assert(t[a] == v[a] && t[b] == v[b]);
                } else if a == v.len() {
                    assert(t[b] == v[b]);
                    assert(!evaluation_at(v, proposal_id@, evaluator, b));
                } else {
                    assert(t[a] == v[a]);
                    assert(!evaluation_at(v, proposal_id@, evaluator, a));
                }
            }
        }
    }

    /// Removes every transaction event of proposal `id`.
    fn remove_transactions(&mut self, id: &str)
        requires
            old(self).well_formed(),
        ensures
            final(self).well_formed(),
            final(self).transactions_view() == old(self).transactions_view().filter(
                |x: TransactionView| x.proposal_id != id@,
            ),
            final(self).proposals_view() == old(self).proposals_view(),
            final(self).evaluations_view() == old(self).evaluations_view(),
            final(self).next_proposal_count() == old(self).next_proposal_count(),
            final(self).next_sequence_number() == old(self).next_sequence_number(),
    {
        let ghost v = self.transactions_view();
        let ghost p = |x: TransactionView| x.proposal_id != id@;
        let mut kept: Vec<TransactionRecord> = Vec::new();
        let mut old_transactions: Vec<TransactionRecord> = Vec::new();
        std::mem::swap(&mut old_transactions, &mut self.transactions);
        assert(old_transactions@.map_values(|r: TransactionRecord| r@) == v);
        let mut i: usize = 0;
        let n = old_transactions.len();
        let mut rest = old_transactions;
        while rest.len() > 0
            invariant
                i + rest@.len() == n,
                n == v.len(),
                forall|k: int| 0 <= k < rest@.len() ==> #[trigger] rest@[k]@ == v[i + k],
                kept@.map_values(|r: TransactionRecord| r@) == v.take(i as int).filter(p),
                p == (|x: TransactionView| x.proposal_id != id@),
            decreases rest@.len(),
        {
            proof {
                crate::memory::keyed::lemma_filter_take_step(v, p, i as int);
            }
            let ghost rest_before = rest@;
            let record = rest.remove(0);
            assert(record@ == v[i as int]);
            assert forall|k: int| 0 <= k < rest@.len() implies #[trigger] rest@[k]@ == v[i + 1 + k] by {
                assert(rest@[k] == rest_before[k + 1]);
            }
            let ghost before = kept@;
            if !str_eq(record.proposal_id.as_str(), id) {
                kept.push(record);
                assert(kept@.map_values(|r: TransactionRecord| r@) =~= before.map_values(
                    |r: TransactionRecord| r@,
                ).push(v[i as int]));
            }
            i = i + 1;
        }
        assert(v.take(v.len() as int) =~= v);
        self.transactions = kept;
    }
}

/// The authorisation a proposal of `action` receives under the Guard's
/// decision: the MAGI quorum, the policy and the Guard.
pub open spec fn authorization_for(action: ActionType, guard: GuardDecision) -> ActionAuthorization {
    ActionAuthorization {
        quorum: quorum_outcome(daemon_quorum_policy(), magi_evaluations(action)),
        policy: policy_for(action),
        guard,
    }
}

/// A proposal after an evaluation: its outcome, the gates' decisions, the
/// trust state and the time.
pub open spec fn evaluated(
    p: ProposalView,
    rep: TransactionReport,
    authorization: ActionAuthorization,
    trust: TrustState,
    now: u64,
) -> ProposalView {
    ProposalView {
        status: status_name(rep.status),
        quorum: Some(authorization.quorum.name()),
        policy: Some(authorization.policy.name()),
        guard: Some(authorization.guard.name()),
        trust_state: Some(trust.name()),
        updated_at: now,
        ..p
    }
}

/// Whether `after` is `before` once the proposal `id`, stored at `i`, was
/// evaluated at `now` under the Guard's decision and trust state with the
/// coordinator's report `rep`, and `d` reports it.
pub open spec fn evaluation_recorded(
    before: ActionService,
    after: ActionService,
    id: Seq<char>,
    guard_decision: GuardDecision,
    trust_state: TrustState,
    now: u64,
    d: ActionDetailDto,
    i: int,
    rep: TransactionReport,
) -> bool {
    let p = before.proposals_view()[i];
    let action = ActionType::from_name_spec(p.action)->0;
    let authorization = authorization_for(action, guard_decision);
    &&& proposal_at(before.proposals_view(), id, i)
    &&& ActionType::from_name_spec(p.action) is Some
    &&& coordinated(rep, authorization)
    &&& inserted_in_order(
        before.proposals_view().remove(i),
        evaluated(p, rep, authorization, trust_state, now),
        proposal_first(),
        after.proposals_view(),
    )
    &&& after.evaluations_view() == after_magi(before.evaluations_view(), id, action, now)
    &&& after.transactions_view() == before.transactions_view().filter(
        |x: TransactionView| x.proposal_id != id,
    ) + report_events(rep, id, now, before.next_sequence_number())
    &&& after.next_sequence_number() == counted(
        before.next_sequence_number(),
        rep.transitions@.len() as int,
    )
    &&& after.next_proposal_count() == before.next_proposal_count()
    &&& exists|j: int|
        proposal_at(after.proposals_view(), id, j) && detail_reports(
            d,
            after.proposals_view()[j],
            evaluations_of(after.evaluations_view(), id),
            transactions_of(after.transactions_view(), id),
        )
}

impl ActionService {
    /// Evaluates the proposal `id` by the MAGI, gates it on quorum, policy and
    /// the Guard's decision, runs it through the safe executor when every gate
    /// passes, and records the evaluations, the outcome and the transaction
    /// events in place of the earlier ones.
    pub fn evaluate_and_execute(
        &mut self,
        id: &str,
        guard_decision: GuardDecision,
        trust_state: TrustState,
        now: u64,
    ) -> (r: Result<ActionDetailDto, ActionStoreError>)
        requires
            old(self).well_formed(),
        ensures
            final(self).well_formed(),
            !has_proposal(old(self).proposals_view(), id@) ==> (r matches Err(
                ActionStoreError::InvalidProposal(m),
            ) && m@ == "proposal "@ + id@ + " not found"@),
            forall|i: int|
                proposal_at(old(self).proposals_view(), id@, i) && ActionType::from_name_spec(
                    old(self).proposals_view()[i].action,
                ) is None ==> (r matches Err(ActionStoreError::InvalidAction(a)) && a@ == old(
                    self,
                ).proposals_view()[i].action),
            r is Err ==> {
                &&& final(self).proposals_view() == old(self).proposals_view()
                &&& final(self).evaluations_view() == old(self).evaluations_view()
                &&& final(self).transactions_view() == old(self).transactions_view()
                &&& final(self).next_proposal_count() == old(self).next_proposal_count()
                &&& final(self).next_sequence_number() == old(self).next_sequence_number()
            },
            r matches Ok(d) ==> exists|i: int, rep: TransactionReport|
                #[trigger] evaluation_recorded(
                    *old(self),
                    *final(self),
                    id@,
                    guard_decision,
                    trust_state,
                    now,
                    d,
                    i,
                    rep,
                ),
            r is Ok <==> exists|i: int|
                proposal_at(old(self).proposals_view(), id@, i) && ActionType::from_name_spec(
                    old(self).proposals_view()[i].action,
                ) is Some,
    {
        let index = match self.proposal_index(id) {
            Some(i) => i,
            None => {
                let message = String::from_str("proposal ");
                let message = message.concat(id);
                let message = message.concat(" not found");
                proof {
                    assert forall|i: int| !proposal_at(old(self).proposals_view(), id@, i) by {}
                }
                return Err(ActionStoreError::InvalidProposal(message));
            },
        };
        let ghost p = self.proposals_view()[index as int];
        let action = match ActionType::from_name(self.proposals[index].action.as_str()) {
            Some(a) => a,
            None => {
                proof {
                    assert forall|i: int|
                        proposal_at(old(self).proposals_view(), id@, i) implies i == index by {
                        if i != index {
                            assert(self.proposals_view()[i].id != self.proposals_view()[index as int].id);
                        }
                    }
                }
                return Err(ActionStoreError::InvalidAction(self.proposals[index].action.clone()));
            },
        };
        let proposal = ActionProposal {
            id: ActionProposalId(self.proposals[index].id.clone()),
            incident_id: IncidentId(self.proposals[index].incident_id.clone()),
            action,
            target: ObjectId(self.proposals[index].target.clone()),
        };
        let ghost e0 = self.evaluations_view();
        let evaluations = evaluate_magi(action);
        let mut plain: Vec<Evaluation> = Vec::new();
        let mut k: usize = 0;
        while k < 3
            invariant
                self.well_formed(),
                evaluations@.len() == 3,
                forall|m: int|
                    0 <= m < 3 ==> {
                        &&& (#[trigger] evaluations@[m]).0.evaluator == magi_order()[m]
                        &&& evaluations@[m].0.verdict == magi_verdict(magi_order()[m], action.safe_spec())
                        &&& evaluations@[m].1@ == magi_reason(magi_order()[m], action.safe_spec())
                    },
                k <= 3,
                plain@ == magi_evaluations(action).take(k as int),
                self.evaluations_view() == if k == 0 {
                    e0
                } else if k == 1 {
                    upserted(e0, magi_record(id@, Evaluator::Host, action, now))
                } else if k == 2 {
                    upserted(
                        upserted(e0, magi_record(id@, Evaluator::Host, action, now)),
                        magi_record(id@, Evaluator::User, action, now),
                    )
                } else {
                    after_magi(e0, id@, action, now)
                },
                self.proposals_view() == old(self).proposals_view(),
                self.transactions_view() == old(self).transactions_view(),
                self.next_proposal_count() == old(self).next_proposal_count(),
                self.next_sequence_number() == old(self).next_sequence_number(),
            decreases 3 - k,
        {
            let (evaluation, reason) = (&evaluations[k].0, &evaluations[k].1);
            self.upsert_evaluation(id, evaluation.evaluator, evaluation.verdict, reason.as_str(), now);
            plain.push(Evaluation { evaluator: evaluation.evaluator, verdict: evaluation.verdict });
            proof {
                assert(plain@ =~= magi_evaluations(action).take(k + 1));
            }
            k = k + 1;
        }
        assert(plain@ =~= magi_evaluations(action));
        let quorum = QuorumPolicy::default().evaluate(plain.as_slice());
        let policy = evaluate_policy(action);
        let authorization = ActionAuthorization { quorum, policy, guard: guard_decision };
        assert(authorization == authorization_for(action, guard_decision));
        let mut coordinator = ActionCoordinator::new(SafeExecutor::default());
        let ghost before_run = coordinator.executor_spec();
        let report = coordinator.execute(&proposal, authorization);
        proof {
            if authorization.authorised_spec() {
                crate::action::lemma_safe_run_completes(
                    before_run,
                    proposal,
                    coordinator.executor_spec(),
                    report,
                );
            }
            reveal_strlit("action proposal did not pass every authorisation gate");
        }
        let status = status_text(report.status);
        let mut record = self.proposals.remove(index);
        let ghost after_remove = self.proposals_view();
        proof {
            assert(after_remove =~= old(self).proposals_view().remove(index as int));
            lemma_remove_keeps_order(old(self).proposals_view(), proposal_first(), index as int);
            let t = after_remove;
            let o = old(self).proposals_view();
            assert forall|a: int, b: int|
                0 <= a < t.len() && 0 <= b < t.len() && a != b implies #[trigger] t[a].id
                != #[trigger] t[b].id by {
                let x = if a < index { a } else { a + 1 };
                let y = if b < index { b } else { b + 1 };
                assert(t[a] == o[x] && t[b] == o[y]);
            }
            assert(!has_proposal(t, p.id)) by {
                if has_proposal(t, p.id) {
                    let a = choose|a: int| 0 <= a < t.len() && t[a].id == p.id;
                    let x = if a < index { a } else { a + 1 };
                    assert(t[a] == o[x]);
                }
            }
        }
        record.status = String::from_str(status);
        record.quorum = Some(String::from_str(quorum.as_str()));
        record.policy = Some(String::from_str(policy.as_str()));
        record.guard = Some(String::from_str(guard_decision.as_str()));
        record.trust_state = Some(String::from_str(trust_state.as_str()));
        record.updated_at = now;
        assert(record@ == evaluated(p, report, authorization, trust_state, now));
        self.insert_proposal(record);
        let ghost p_after = self.proposals_view();
        let ghost t0 = self.transactions_view();
        let ghost s0 = self.next_sequence_number();
        self.remove_transactions(id);
        let mut n: usize = 0;
        while n < report.transitions.len()
            invariant
                self.well_formed(),
                n <= report.transitions@.len(),
                self.transactions_view() == t0.filter(|x: TransactionView| x.proposal_id != id@)
                    + report_events(report, id@, now, s0).take(n as int),
                self.next_sequence_number() == counted(s0, n as int),
                self.proposals_view() == p_after,
                self.evaluations_view() == after_magi(e0, id@, action, now),
                self.next_proposal_count() == old(self).next_proposal_count(),
            decreases report.transitions@.len() - n,
        {
            let state = report.transitions[n];
            let event = transaction_event_status(state, report.status);
            let message: Option<&str> = if state == report.state {
                match &report.message {
                    Some(m) => Some(m.as_str()),
                    None => None,
                }
            } else {
                None
            };
            let ghost before = self.transactions_view();
            self.record_transaction(id, state, event, message, now);
            proof {
                let ev = report_events(report, id@, now, s0);
                assert(ev.take(n + 1) =~= ev.take(n as int).push(ev[n as int]));
                assert(self.transactions_view() =~= t0.filter(|x: TransactionView| x.proposal_id != id@)
                    + ev.take(n + 1));
            }
            n = n + 1;
        }
        proof {
            let ev = report_events(report, id@, now, s0);
            assert(ev.take(report.transitions@.len() as int) =~= ev);
        }
        proof {
            let ev = evaluated(p, report, authorization, trust_state, now);
            let q = choose|q: int|
                is_insertion_point(after_remove, ev, proposal_first(), q) && p_after
                    == after_remove.insert(q, ev);
            assert(p_after[q].id == id@);
        }
        match self.detail(id) {
            Some(d) => {
                proof {
                    assert(evaluation_recorded(
                        *old(self),
                        *self,
                        id@,
                        guard_decision,
                        trust_state,
                        now,
                        d,
                        index as int,
                        report,
                    ));
                }
                Ok(d)
            },
            None => Err(ActionStoreError::InvalidProposal(String::from_str(id))),
        }
    }
}

impl ActionService {
    /// The stored proposals, in their order.
    pub fn proposal_records(&self) -> (r: &Vec<ProposalRecord>)
        ensures
            r@.map_values(|x: ProposalRecord| x@) == self.proposals_view(),
    {
        &self.proposals
    }

    /// The stored evaluations.
    pub fn evaluation_records(&self) -> (r: &Vec<EvaluationRecord>)
        ensures
            r@.map_values(|x: EvaluationRecord| x@) == self.evaluations_view(),
    {
        &self.evaluations
    }

    /// The stored transaction events, in recorded order.
    pub fn transaction_records(&self) -> (r: &Vec<TransactionRecord>)
        ensures
            r@.map_values(|x: TransactionRecord| x@) == self.transactions_view(),
    {
        &self.transactions
    }

    /// The counters of the next proposal and the next event sequence number.
    pub fn counters(&self) -> (r: (u64, u64))
        ensures
            r == (self.next_proposal_count(), self.next_sequence_number()),
    {
        (self.next_proposal, self.next_sequence)
    }

    /// Rebuilds a store from stored records and counters: proposals are put
    /// in their order, a later evaluation of the same proposal by the same
    /// evaluator replaces an earlier one, and events keep the given order;
    /// `None` when a proposal identifier occurs twice.
    #[verifier::loop_isolation(false)]
    pub fn restore(
        proposals: Vec<ProposalRecord>,
        evaluations: Vec<EvaluationRecord>,
        transactions: Vec<TransactionRecord>,
        next_proposal: u64,
        next_sequence: u64,
    ) -> (r: Option<ActionService>)
        ensures
            r is Some <==> proposals@.map_values(|x: ProposalRecord| x@).map_values(proposal_key()).no_duplicates(),
            r matches Some(s) ==> {
                &&& s.well_formed()
                &&& s.proposals_view().len() == proposals@.len()
                &&& forall|x: ProposalView|
                    s.proposals_view().contains(x) <==> proposals@.map_values(
                        |p: ProposalRecord| p@,
                    ).contains(x)
                &&& s.evaluations_view() == upserted_all(
                    Seq::empty(),
                    evaluations@.map_values(|e: EvaluationRecord| e@),
                )
                &&& s.transactions_view() == transactions@.map_values(|x: TransactionRecord| x@)
                &&& s.next_proposal_count() == next_proposal
                &&& s.next_sequence_number() == next_sequence
            },
    {
        let mut s = ActionService::new();
        let mut proposals = proposals;
        let mut evaluations = evaluations;
        let ghost total = proposals@.len();
        let ghost precs = proposals@;
        let ghost pv = proposals@.map_values(|x: ProposalRecord| x@);
        let ghost ev = evaluations@.map_values(|e: EvaluationRecord| e@);
        proof {
            assert(pv.skip(total as int) =~= Seq::<ProposalView>::empty());
            assert(pv.skip(total as int).map_values(proposal_key()) =~= Seq::<Seq<char>>::empty());
        }
        while proposals.len() > 0
            invariant
                s.well_formed(),
                s.proposals_view().len() + proposals@.len() == total,
                s.transactions_view().len() == 0,
                s.evaluations_view().len() == 0,
                total == precs.len(),
                proposals@ == precs.take(proposals@.len() as int),
                pv == precs.map_values(|x: ProposalRecord| x@),
                forall|x: ProposalView|
                    #[trigger] s.proposals_view().contains(x) <==> pv.skip(proposals@.len() as int).contains(x),
                pv.skip(proposals@.len() as int).map_values(proposal_key()).no_duplicates(),
            decreases proposals@.len(),
        {
            let ghost n = proposals@.len() as int;
            let record = proposals.pop().unwrap();
            proof {
                assert(precs.take(n)[n - 1] == record);
                assert(proposals@ =~= precs.take(n - 1));
                assert(pv[n - 1] == record@);
                lemma_take_from_back(pv, proposal_key(), n, s.proposals_view());
            }
            if s.proposal_index(record.id.as_str()).is_some() {
                return None;
            }
            let ghost before = s.proposals_view();
            s.insert_proposal(record);
            proof {
                let p = choose|p: int| is_insertion_point(before, record@, proposal_first(), p)
                    && s.proposals_view() == before.insert(p, record@);
                lemma_insert_contains(before, p, record@);
            }
        }
        proof {
            assert(pv.skip(0) =~= pv);
            assert(ev.take(0) =~= Seq::<EvaluationView>::empty());
        }
        let ghost etotal = evaluations@.len() as int;
        while evaluations.len() > 0
            invariant
                s.well_formed(),
                s.proposals_view().len() == total,
                s.transactions_view().len() == 0,
                forall|x: ProposalView| #[trigger] s.proposals_view().contains(x) <==> pv.contains(x),
                etotal == ev.len(),
                evaluations@.len() <= etotal,
                evaluations@.map_values(|e: EvaluationRecord| e@) == ev.skip(etotal - evaluations@.len()),
                s.evaluations_view() == upserted_all(Seq::empty(), ev.take(etotal - evaluations@.len())),
            decreases evaluations@.len(),
        {
            let ghost done = etotal - evaluations@.len();
            let ghost rest = evaluations@;
            let e = evaluations.remove(0);
            proof {
                assert(rest.map_values(|e: EvaluationRecord| e@)[0] == ev.skip(done)[0]);
                assert(e@ == ev[done]);
                assert(evaluations@ =~= rest.skip(1));
                let rm = rest.map_values(|e: EvaluationRecord| e@);
                assert forall|i: int| 0 <= i < evaluations@.len() implies #[trigger] evaluations@[i]@ == ev[done
                    + 1 + i] by {
                    assert(evaluations@[i] == rest[i + 1]);
                    assert(rm[i + 1] == ev.skip(done)[i + 1]);
                }
                assert(evaluations@.map_values(|e: EvaluationRecord| e@) =~= ev.skip(done + 1));
                assert(ev.take(done + 1).drop_last() =~= ev.take(done));
            }
            s.upsert_evaluation(e.proposal_id.as_str(), e.evaluator, e.verdict, e.reason.as_str(), e.evaluated_at);
        }
        proof {
            assert(ev.take(etotal) =~= ev);
        }
        assert(s.transactions_view() =~= Seq::empty());
        s.transactions = transactions;
        s.next_proposal = next_proposal;
        s.next_sequence = next_sequence;
        Some(s)
    }
}


/// Evidence is not authority: an evaluation carries out a proposal's action
/// only where the MAGI quorum approved it, the policy allowed it (a safe,
/// non-privileged action) and the Guard allowed it. A Guard that denies keeps
/// the proposal from the executor: its report holds the proposal stage alone
/// and the proposal is not authorised.
pub proof fn lemma_execution_needs_every_gate(
    before: ActionService,
    after: ActionService,
    id: Seq<char>,
    guard_decision: GuardDecision,
    trust_state: TrustState,
    now: u64,
    d: ActionDetailDto,
    i: int,
    rep: TransactionReport,
)
    requires
        evaluation_recorded(before, after, id, guard_decision, trust_state, now, d, i, rep),
    ensures
        ({
            let action = ActionType::from_name_spec(before.proposals_view()[i].action)->0;
            rep.status == ActionExecutionStatus::Completed ==> {
                &&& guard_decision == GuardDecision::Allow
                &&& action.safe_spec()
                &&& quorum_outcome(daemon_quorum_policy(), magi_evaluations(action))
                    == QuorumDecision::Approved
            }
        }),
        guard_decision != GuardDecision::Allow ==> {
            &&& rep.status == ActionExecutionStatus::NotAuthorised
            &&& rep.transitions@ == seq![ActionTransactionState::Proposal]
        },
{
}

} // verus!
