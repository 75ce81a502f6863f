//! Action coordination: a proposal reaches an executor only after every
//! authorisation gate passed, and then runs the transaction
//! PROPOSAL -> PREPARE -> REVALIDATE -> COMMIT -> VERIFY.
use vstd::prelude::*;
use crate::protocol::action::{
    ActionAuthorization, ActionExecutionStatus, ActionProposal, ActionTransactionState,
    ActionType, PolicyDecision, QuorumDecision,
};
use vstd::string::StringExecFns;
use crate::text::{debug_quoted, debug_quoted_spec};

verus! {

/// The outcome of one attempt to run a proposal.
#[derive(Debug, Clone, PartialEq, Eq)]
pub struct TransactionReport {
    pub state: ActionTransactionState,
    pub status: ActionExecutionStatus,
    pub message: Option<String>,
    pub transitions: Vec<ActionTransactionState>,
}

/// The stage at which an executor failed, with its explanation.
#[derive(Debug, Clone, PartialEq, Eq)]
pub enum ExecutorError {
    Prepare(String),
    Revalidate(String),
    Commit(String),
    Verify(String),
}

impl ExecutorError {
    /// The text of the error in the form `Stage("explanation")`.
    pub open spec fn describe_spec(&self) -> Seq<char> {
        match self {
            ExecutorError::Prepare(m) => "Prepare("@ + debug_quoted_spec(m@) + ")"@,
            ExecutorError::Revalidate(m) => "Revalidate("@ + debug_quoted_spec(m@) + ")"@,
            ExecutorError::Commit(m) => "Commit("@ + debug_quoted_spec(m@) + ")"@,
            ExecutorError::Verify(m) => "Verify("@ + debug_quoted_spec(m@) + ")"@,
        }
    }

    /// Renders the error as its debug form.
    pub fn describe(&self) -> (r: String)
        ensures
            r@ == self.describe_spec(),
    {
        let (stage, message) = match self {
            ExecutorError::Prepare(m) => ("Prepare(", m),
            ExecutorError::Revalidate(m) => ("Revalidate(", m),
            ExecutorError::Commit(m) => ("Commit(", m),
            ExecutorError::Verify(m) => ("Verify(", m),
        };
        let quoted = debug_quoted(message.as_str());
        let text = String::from_str(stage);
        let text = text.concat(quoted.as_str());
        text.concat(")")
    }
}

/// A transactional executor, implemented by users of the coordinator. Each
/// step is described by a relation between the executor before the step, the
/// proposal (and what preparing it gave), the executor after the step and
/// the step's answer. An implementation states what its steps do; one that
/// states nothing allows any outcome.
pub trait ActionExecutor: Sized {
    type Prepared;

    /// Whether preparing `proposal` may take the executor from `self` to
    /// `after`, answering `r`.
    open spec fn prepares(
        &self,
        proposal: ActionProposal,
        after: Self,
        r: Result<Self::Prepared, ExecutorError>,
    ) -> bool {
        true
    }

    /// Whether revalidating may take the executor from `self` to `after`,
    /// answering `r`.
    open spec fn revalidates(
        &self,
        proposal: ActionProposal,
        prepared: Self::Prepared,
        after: Self,
        r: Result<(), ExecutorError>,
    ) -> bool {
        true
    }

    /// Whether committing may take the executor from `self` to `after`,
    /// answering `r`.
    open spec fn commits(
        &self,
        proposal: ActionProposal,
        prepared: Self::Prepared,
        after: Self,
        r: Result<(), ExecutorError>,
    ) -> bool {
        true
    }

    /// Whether verifying may take the executor from `self` to `after`,
    /// answering `r`.
    open spec fn verifies(
        &self,
        proposal: ActionProposal,
        prepared: Self::Prepared,
        after: Self,
        r: Result<(), ExecutorError>,
    ) -> bool {
        true
    }

    fn prepare(&mut self, proposal: &ActionProposal) -> (r: Result<Self::Prepared, ExecutorError>)
        ensures
            old(self).prepares(*proposal, *final(self), r),
    ;

    fn revalidate(&mut self, proposal: &ActionProposal, prepared: &Self::Prepared) -> (r: Result<
        (),
        ExecutorError,
    >)
        ensures
            old(self).revalidates(*proposal, *prepared, *final(self), r),
    ;

    fn commit(&mut self, proposal: &ActionProposal, prepared: &Self::Prepared) -> (r: Result<
        (),
        ExecutorError,
    >)
        ensures
            old(self).commits(*proposal, *prepared, *final(self), r),
    ;

    fn verify(&mut self, proposal: &ActionProposal, prepared: &Self::Prepared) -> (r: Result<
        (),
        ExecutorError,
    >)
        ensures
            old(self).verifies(*proposal, *prepared, *final(self), r),
    ;
}

/// The transaction stages in the order they run.
pub open spec fn transaction_order() -> Seq<ActionTransactionState> {
    seq![
        ActionTransactionState::Proposal,
        ActionTransactionState::Prepared,
        ActionTransactionState::Revalidated,
        ActionTransactionState::Committed,
        ActionTransactionState::Verified,
    ]
}

/// The report of a transaction that ran: either every stage passed in order,
/// or the stages passed so far are followed by a failure and the executor's
/// error, described.
pub open spec fn ran_transaction(r: TransactionReport) -> bool {
    ||| {
        &&& r.transitions@ == transaction_order()
        &&& r.state == ActionTransactionState::Verified
        &&& r.status == ActionExecutionStatus::Completed
        &&& r.message is None
    }
    ||| exists|k: int|
        1 <= k <= 4 && #[trigger] r.transitions@ == transaction_order().take(k).push(
            ActionTransactionState::Failed,
        ) && r.state == ActionTransactionState::Failed && r.status
            == ActionExecutionStatus::Failed && (r.message matches Some(m) && exists|e: ExecutorError|
            #[trigger] e.describe_spec() == m@)
}

/// A report of a transaction that failed after the first `k` stages with the
/// executor's error `e`.
pub open spec fn failed_at(r: TransactionReport, k: int, e: ExecutorError) -> bool {
    &&& r.transitions@ == transaction_order().take(k).push(ActionTransactionState::Failed)
    &&& r.state == ActionTransactionState::Failed
    &&& r.status == ActionExecutionStatus::Failed
    &&& r.message matches Some(m) && m@ == e.describe_spec()
}

/// A report of a transaction whose every stage passed.
pub open spec fn completed(r: TransactionReport) -> bool {
    &&& r.transitions@ == transaction_order()
    &&& r.state == ActionTransactionState::Verified
    &&& r.status == ActionExecutionStatus::Completed
    &&& r.message is None
}

/// Whether running `proposal` took the executor from `before` to `after` and
/// gave the report `r`: the steps run in order, each handed the proposal and
/// what preparing it gave; the first step that answers an error ends the run,
/// no later step runs, and the report holds the stages passed, the failure
/// and that error's description; when every step passes, the report is
/// completed.
pub open spec fn transaction_ran<E: ActionExecutor>(
    before: E,
    proposal: ActionProposal,
    after: E,
    r: TransactionReport,
) -> bool {
    exists|e1: E, r1: Result<E::Prepared, ExecutorError>|
        #[trigger] before.prepares(proposal, e1, r1) && match r1 {
            Err(x) => after == e1 && failed_at(r, 1, x),
            Ok(pr) => exists|e2: E, r2: Result<(), ExecutorError>|
                #[trigger] e1.revalidates(proposal, pr, e2, r2) && match r2 {
                    Err(x) => after == e2 && failed_at(r, 2, x),
                    Ok(_) => exists|e3: E, r3: Result<(), ExecutorError>|
                        #[trigger] e2.commits(proposal, pr, e3, r3) && match r3 {
                            Err(x) => after == e3 && failed_at(r, 3, x),
                            Ok(_) => exists|e4: E, r4: Result<(), ExecutorError>|
                                #[trigger] e3.verifies(proposal, pr, e4, r4) && after == e4 && match r4 {
                                    Err(x) => failed_at(r, 4, x),
                                    Ok(_) => completed(r),
                                },
                        },
                },
        }
}

/// The report of a proposal refused before it reached the executor.
pub open spec fn refused_report(r: TransactionReport, message: Seq<char>) -> bool {
    &&& r.state == ActionTransactionState::Proposal
    &&& r.status == ActionExecutionStatus::NotAuthorised
    &&& r.message is Some && r.message->0@ == message
    &&& r.transitions@ == seq![ActionTransactionState::Proposal]
}

/// Runs an authorised proposal through the executor.
pub struct ActionCoordinator<E> {
    executor: E,
}

fn not_authorised(message: &str) -> (r: TransactionReport)
    ensures
        refused_report(r, message@),
{
    let mut transitions: Vec<ActionTransactionState> = Vec::new();
    transitions.push(ActionTransactionState::Proposal);
    assert(transitions@ =~= seq![ActionTransactionState::Proposal]);
    TransactionReport {
        state: ActionTransactionState::Proposal,
        status: ActionExecutionStatus::NotAuthorised,
        message: Some(message.to_owned()),
        transitions,
    }
}

fn failed_report(error: ExecutorError, transitions: Vec<ActionTransactionState>) -> (r:
    TransactionReport)
    ensures
        r.transitions@ == transitions@.push(ActionTransactionState::Failed),
        r.state == ActionTransactionState::Failed,
        r.status == ActionExecutionStatus::Failed,
        r.message is Some,
        r.message->0@ == error.describe_spec(),
{
    let mut transitions = transitions;
    transitions.push(ActionTransactionState::Failed);
    TransactionReport {
        state: ActionTransactionState::Failed,
        status: ActionExecutionStatus::Failed,
        message: Some(error.describe()),
        transitions,
    }
}

/// Runs the stages in order, stopping at the first failure.
pub fn execute_transaction<E: ActionExecutor>(executor: &mut E, proposal: &ActionProposal) -> (r:
    TransactionReport)
    ensures
        ran_transaction(r),
        transaction_ran(*old(executor), *proposal, *final(executor), r),
{
    let ghost e0 = *executor;
    let mut transitions: Vec<ActionTransactionState> = Vec::new();
    transitions.push(ActionTransactionState::Proposal);
    assert(transitions@ =~= transaction_order().take(1));
    let r1 = executor.prepare(proposal);
    let ghost e1 = *executor;
    let ghost g1 = r1;
    let prepared = match r1 {
        Ok(prepared) => {
            transitions.push(ActionTransactionState::Prepared);
            prepared
        },
        Err(error) => {
            let r = failed_report(error, transitions);
            assert(ran_transaction(r)) by {
                assert(r.transitions@ == transaction_order().take(1).push(
                    ActionTransactionState::Failed,
                ));
            }
            assert(e0.prepares(*proposal, e1, g1) && failed_at(r, 1, error));
            return r;
        },
    };
    assert(transitions@ =~= transaction_order().take(2));
    let r2 = executor.revalidate(proposal, &prepared);
    let ghost e2 = *executor;
    let ghost g2 = r2;
    match r2 {
        Ok(()) => {},
        Err(error) => {
            let r = failed_report(error, transitions);
            assert(ran_transaction(r)) by {
                assert(r.transitions@ == transaction_order().take(2).push(
                    ActionTransactionState::Failed,
                ));
            }
            assert(e1.revalidates(*proposal, prepared, e2, g2) && failed_at(r, 2, error));
            assert(e0.prepares(*proposal, e1, g1));
            return r;
        },
    }
    transitions.push(ActionTransactionState::Revalidated);
    assert(transitions@ =~= transaction_order().take(3));
    let r3 = executor.commit(proposal, &prepared);
    let ghost e3 = *executor;
    let ghost g3 = r3;
    match r3 {
        Ok(()) => {},
        Err(error) => {
            let r = failed_report(error, transitions);
            assert(ran_transaction(r)) by {
                assert(r.transitions@ == transaction_order().take(3).push(
                    ActionTransactionState::Failed,
                ));
            }
            assert(e2.commits(*proposal, prepared, e3, g3) && failed_at(r, 3, error));
            assert(e1.revalidates(*proposal, prepared, e2, g2));
            assert(e0.prepares(*proposal, e1, g1));
            return r;
        },
    }
    transitions.push(ActionTransactionState::Committed);
    assert(transitions@ =~= transaction_order().take(4));
    let r4 = executor.verify(proposal, &prepared);
    let ghost e4 = *executor;
    let ghost g4 = r4;
    match r4 {
        Ok(()) => {},
        Err(error) => {
            let r = failed_report(error, transitions);
            assert(ran_transaction(r)) by {
                assert(r.transitions@ == transaction_order().take(4).push(
                    ActionTransactionState::Failed,
                ));
            }
            assert(e3.verifies(*proposal, prepared, e4, g4) && failed_at(r, 4, error));
            assert(e2.commits(*proposal, prepared, e3, g3));
            assert(e1.revalidates(*proposal, prepared, e2, g2));
            assert(e0.prepares(*proposal, e1, g1));
            return r;
        },
    }
    transitions.push(ActionTransactionState::Verified);
    assert(transitions@ =~= transaction_order());
    let r = TransactionReport {
        state: ActionTransactionState::Verified,
        status: ActionExecutionStatus::Completed,
        message: None,
        transitions,
    };
    assert(e3.verifies(*proposal, prepared, e4, g4) && completed(r));
    assert(e2.commits(*proposal, prepared, e3, g3));
    assert(e1.revalidates(*proposal, prepared, e2, g2));
    assert(e0.prepares(*proposal, e1, g1));
    r
}

impl<E: ActionExecutor> ActionCoordinator<E> {
    pub closed spec fn executor_spec(&self) -> E {
        self.executor
    }

    pub fn new(executor: E) -> (r: ActionCoordinator<E>)
        ensures
            r.executor_spec() == executor,
    {
        ActionCoordinator { executor }
    }

    /// The executor the coordinator drives.
    pub fn executor(&self) -> (r: &E)
        ensures
            *r == self.executor_spec(),
    {
        &self.executor
    }

    /// Runs the proposal only when quorum, policy and Guard all approve; a
    /// refused proposal never reaches the executor.
    pub fn execute(&mut self, proposal: &ActionProposal, authorization: ActionAuthorization) -> (r:
        TransactionReport)
        ensures
            !authorization.authorised_spec() ==> {
                &&& refused_report(r, "action proposal did not pass every authorisation gate"@)
                &&& final(self).executor_spec() == old(self).executor_spec()
            },
            authorization.authorised_spec() ==> ran_transaction(r),
            authorization.authorised_spec() ==> transaction_ran(
                old(self).executor_spec(),
                *proposal,
                final(self).executor_spec(),
                r,
            ),
    {
        if !authorization.is_authorised() {
            return not_authorised("action proposal did not pass every authorisation gate");
        }
        execute_transaction(&mut self.executor, proposal)
    }

    /// Runs a non-privileged proposal on quorum and policy alone; a privileged
    /// proposal, or one the quorum or policy refuse, never reaches the executor.
    pub fn execute_safe(
        &mut self,
        proposal: &ActionProposal,
        quorum: QuorumDecision,
        policy: PolicyDecision,
    ) -> (r: TransactionReport)
        ensures
            !proposal.action.safe_spec() ==> {
                &&& refused_report(r, "privileged actions require dendrite-guard integration"@)
                &&& final(self).executor_spec() == old(self).executor_spec()
            },
            proposal.action.safe_spec() && (quorum != QuorumDecision::Approved || policy
                != PolicyDecision::Allow) ==> {
                &&& refused_report(r, "safe action did not pass MAGI quorum and policy"@)
                &&& final(self).executor_spec() == old(self).executor_spec()
            },
            proposal.action.safe_spec() && quorum == QuorumDecision::Approved && policy
                == PolicyDecision::Allow ==> ran_transaction(r),
            proposal.action.safe_spec() && quorum == QuorumDecision::Approved && policy
                == PolicyDecision::Allow ==> transaction_ran(
                old(self).executor_spec(),
                *proposal,
                final(self).executor_spec(),
                r,
            ),
    {
        if !proposal.action.is_safe_non_privileged() {
            return not_authorised("privileged actions require dendrite-guard integration");
        }
        if quorum != QuorumDecision::Approved || policy != PolicyDecision::Allow {
            return not_authorised("safe action did not pass MAGI quorum and policy");
        }
        execute_transaction(&mut self.executor, proposal)
    }
}

/// The executor of the non-privileged actions: it observes and warns, and
/// refuses every privileged action.
pub struct SafeExecutor {
    last_warning: Option<String>,
}

impl std::default::Default for SafeExecutor {
    fn default() -> (r: SafeExecutor)
        ensures
            r.last_warning_spec() is None,
    {
        SafeExecutor { last_warning: None }
    }
}

/// The warning text raised for a target on behalf of an incident.
pub open spec fn warning_text(target: Seq<char>, incident: Seq<char>) -> Seq<char> {
    "Dendrite warning for "@ + target + " from "@ + incident
}

impl SafeExecutor {
    pub closed spec fn last_warning_spec(&self) -> Option<Seq<char>> {
        match self.last_warning {
            Some(w) => Some(w@),
            None => None,
        }
    }

    /// The last warning raised, if any.
    pub fn last_warning(&self) -> (r: Option<&str>)
        ensures
            r is Some <==> self.last_warning_spec() is Some,
            r is Some ==> r->0@ == self.last_warning_spec()->0,
    {
        match &self.last_warning {
            Some(w) => Some(w.as_str()),
            None => None,
        }
    }
}

impl ActionExecutor for SafeExecutor {
    type Prepared = ();

    /// Preparing passes exactly for a non-privileged action and changes
    /// nothing.
    open spec fn prepares(
        &self,
        proposal: ActionProposal,
        after: SafeExecutor,
        r: Result<(), ExecutorError>,
    ) -> bool {
        &&& after == *self
        &&& r is Ok <==> proposal.action.safe_spec()
        &&& r matches Err(e) ==> (e matches ExecutorError::Prepare(m) && m@
            == "safe executor refuses privileged action"@)
    }

    /// Revalidating passes exactly for a non-privileged action and changes
    /// nothing.
    open spec fn revalidates(
        &self,
        proposal: ActionProposal,
        prepared: (),
        after: SafeExecutor,
        r: Result<(), ExecutorError>,
    ) -> bool {
        &&& after == *self
        &&& r is Ok <==> proposal.action.safe_spec()
        &&& r matches Err(e) ==> (e matches ExecutorError::Revalidate(m) && m@
            == "action is no longer safe for this executor"@)
    }

    /// Committing always passes; a warning is raised for its target on
    /// behalf of its incident.
    open spec fn commits(
        &self,
        proposal: ActionProposal,
        prepared: (),
        after: SafeExecutor,
        r: Result<(), ExecutorError>,
    ) -> bool {
        &&& r is Ok
        &&& proposal.action == ActionType::Warn ==> after.last_warning_spec() == Some(
            warning_text(proposal.target.0@, proposal.incident_id.0@),
        )
        &&& proposal.action != ActionType::Warn ==> after == *self
    }

    /// Verifying always passes and changes nothing.
    open spec fn verifies(
        &self,
        proposal: ActionProposal,
        prepared: (),
        after: SafeExecutor,
        r: Result<(), ExecutorError>,
    ) -> bool {
        &&& after == *self
        &&& r is Ok
    }

    fn prepare(&mut self, proposal: &ActionProposal) -> (r: Result<(), ExecutorError>)
        ensures
            r is Ok <==> proposal.action.safe_spec(),
            final(self).last_warning_spec() == old(self).last_warning_spec(),
    {
        if proposal.action.is_safe_non_privileged() {
            Ok(())
        } else {
            Err(ExecutorError::Prepare("safe executor refuses privileged action".to_owned()))
        }
    }

    fn revalidate(&mut self, proposal: &ActionProposal, _prepared: &()) -> (r: Result<
        (),
        ExecutorError,
    >)
        ensures
            r is Ok <==> proposal.action.safe_spec(),
            final(self).last_warning_spec() == old(self).last_warning_spec(),
    {
        if proposal.action.is_safe_non_privileged() {
            Ok(())
        } else {
            Err(ExecutorError::Revalidate("action is no longer safe for this executor".to_owned()))
        }
    }

    fn commit(&mut self, proposal: &ActionProposal, _prepared: &()) -> (r: Result<
        (),
        ExecutorError,
    >)
        ensures
            r is Ok,
            proposal.action == ActionType::Warn ==> final(self).last_warning_spec() == Some(
                warning_text(proposal.target.0@, proposal.incident_id.0@),
            ),
            proposal.action != ActionType::Warn ==> final(self).last_warning_spec() == old(
                self,
            ).last_warning_spec(),
    {
        if proposal.action == ActionType::Warn {
            let text = String::from_str("Dendrite warning for ");
            let text = text.concat(proposal.target.0.as_str());
            let text = text.concat(" from ");
            let text = text.concat(proposal.incident_id.0.as_str());
            self.last_warning = Some(text);
        }
        Ok(())
    }

    fn verify(&mut self, _proposal: &ActionProposal, _prepared: &()) -> (r: Result<
        (),
        ExecutorError,
    >)
        ensures
            r is Ok,
            final(self).last_warning_spec() == old(self).last_warning_spec(),
    {
        Ok(())
    }
}

/// A non-privileged proposal run by the safe executor completes: every stage
/// passes.
pub proof fn lemma_safe_run_completes(
    before: SafeExecutor,
    proposal: ActionProposal,
    after: SafeExecutor,
    r: TransactionReport,
)
    requires
        proposal.action.safe_spec(),
        transaction_ran(before, proposal, after, r),
    ensures
        completed(r),
{
    let (e1, r1) = choose|e1: SafeExecutor, r1: Result<(), ExecutorError>|
        #[trigger] before.prepares(proposal, e1, r1) && match r1 {
            Err(x) => after == e1 && failed_at(r, 1, x),
            Ok(pr) => exists|e2: SafeExecutor, r2: Result<(), ExecutorError>|
                #[trigger] e1.revalidates(proposal, pr, e2, r2) && match r2 {
                    Err(x) => after == e2 && failed_at(r, 2, x),
                    Ok(_) => exists|e3: SafeExecutor, r3: Result<(), ExecutorError>|
                        #[trigger] e2.commits(proposal, pr, e3, r3) && match r3 {
                            Err(x) => after == e3 && failed_at(r, 3, x),
                            Ok(_) => exists|e4: SafeExecutor, r4: Result<(), ExecutorError>|
                                #[trigger] e3.verifies(proposal, pr, e4, r4) && after == e4 && match r4 {
                                    Err(x) => failed_at(r, 4, x),
                                    Ok(_) => completed(r),
                                },
                        },
                },
        };
    assert(r1 is Ok);
}

} // verus!
