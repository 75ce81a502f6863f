use dendrite::action::{ActionCoordinator, ActionExecutor, ExecutorError, SafeExecutor};
use dendrite::guard::Guard;
use dendrite::protocol::action::{
    ActionAuthorization, ActionExecutionStatus, ActionProposal, ActionTransactionState,
    ActionType, Evaluation, Evaluator, EvaluatorVerdict, PolicyDecision, QuorumDecision,
    QuorumPolicy,
};
use dendrite::protocol::detection::Confidence;
use dendrite::protocol::ids::{ActionProposalId, IncidentId, ObjectId};
use dendrite::protocol::trust::{GuardDecision, TrustState};
use dendrite::updater::{
    PackageManager, UpdateCandidate, UpdateError, UpdatePlan, Updater, VerificationStatus,
};

#[derive(Default)]
struct RecordingExecutor {
    calls: Vec<&'static str>,
}

impl ActionExecutor for RecordingExecutor {
    type Prepared = ();

    fn prepare(&mut self, _: &ActionProposal) -> Result<Self::Prepared, ExecutorError> {
        self.calls.push("prepare");
        Ok(())
    }

    fn revalidate(&mut self, _: &ActionProposal, _: &()) -> Result<(), ExecutorError> {
        self.calls.push("revalidate");
        Ok(())
    }

    fn commit(&mut self, _: &ActionProposal, _: &()) -> Result<(), ExecutorError> {
        self.calls.push("commit");
        Ok(())
    }

    fn verify(&mut self, _: &ActionProposal, _: &()) -> Result<(), ExecutorError> {
        self.calls.push("verify");
        Ok(())
    }
}

/// An executor whose commit stage fails.
#[derive(Default)]
struct FailingCommitExecutor {
    calls: Vec<&'static str>,
}

impl ActionExecutor for FailingCommitExecutor {
    type Prepared = ();

    fn prepare(&mut self, _: &ActionProposal) -> Result<Self::Prepared, ExecutorError> {
        self.calls.push("prepare");
        Ok(())
    }

    fn revalidate(&mut self, _: &ActionProposal, _: &()) -> Result<(), ExecutorError> {
        self.calls.push("revalidate");
        Ok(())
    }

    fn commit(&mut self, _: &ActionProposal, _: &()) -> Result<(), ExecutorError> {
        self.calls.push("commit");
        Err(ExecutorError::Commit("disk full".into()))
    }

    fn verify(&mut self, _: &ActionProposal, _: &()) -> Result<(), ExecutorError> {
        self.calls.push("verify");
        Ok(())
    }
}

fn proposal(action: ActionType) -> ActionProposal {
    ActionProposal {
        id: ActionProposalId("act_test".into()),
        incident_id: IncidentId("inc_test".into()),
        action,
        target: ObjectId("obj_test".into()),
    }
}

#[test]
fn unauthorised_action_never_reaches_executor() {
    let executor = RecordingExecutor::default();
    let mut coordinator = ActionCoordinator::new(executor);

    let report = coordinator.execute(
        &proposal(ActionType::Observe),
        ActionAuthorization {
            quorum: QuorumDecision::Denied,
            policy: PolicyDecision::Allow,
            guard: GuardDecision::Allow,
        },
    );

    assert_eq!(report.status, ActionExecutionStatus::NotAuthorised);
    assert!(coordinator.executor().calls.is_empty());
}

#[test]
fn authorised_action_uses_transaction_order() {
    let executor = RecordingExecutor::default();
    let mut coordinator = ActionCoordinator::new(executor);

    let report = coordinator.execute(
        &proposal(ActionType::Observe),
        ActionAuthorization {
            quorum: QuorumDecision::Approved,
            policy: PolicyDecision::Allow,
            guard: GuardDecision::Allow,
        },
    );

    assert_eq!(report.status, ActionExecutionStatus::Completed);
    assert_eq!(
        coordinator.executor().calls,
        vec!["prepare", "revalidate", "commit", "verify"]
    );
    assert_eq!(
        report.transitions,
        vec![
            ActionTransactionState::Proposal,
            ActionTransactionState::Prepared,
            ActionTransactionState::Revalidated,
            ActionTransactionState::Committed,
            ActionTransactionState::Verified,
        ]
    );
}

#[test]
fn safe_path_refuses_privileged_actions_without_guard() {
    let executor = RecordingExecutor::default();
    let mut coordinator = ActionCoordinator::new(executor);

    let report = coordinator.execute_safe(
        &proposal(ActionType::TerminateProcess),
        QuorumDecision::Approved,
        PolicyDecision::Allow,
    );

    assert_eq!(report.status, ActionExecutionStatus::NotAuthorised);
    assert!(coordinator.executor().calls.is_empty());
}

#[test]
fn failed_stage_stops_the_transaction_and_reports_the_stage() {
    let mut coordinator = ActionCoordinator::new(FailingCommitExecutor::default());

    let report = coordinator.execute(
        &proposal(ActionType::Warn),
        ActionAuthorization {
            quorum: QuorumDecision::Approved,
            policy: PolicyDecision::Allow,
            guard: GuardDecision::Allow,
        },
    );

    assert_eq!(report.status, ActionExecutionStatus::Failed);
    assert_eq!(report.state, ActionTransactionState::Failed);
    assert_eq!(
        report.transitions,
        vec![
            ActionTransactionState::Proposal,
            ActionTransactionState::Prepared,
            ActionTransactionState::Revalidated,
            ActionTransactionState::Failed,
        ]
    );
    assert_eq!(coordinator.executor().calls, vec!["prepare", "revalidate", "commit"]);
    assert_eq!(report.message, Some("Commit(\"disk full\")".to_string()));
}

#[test]
fn safe_executor_records_a_warning_on_commit() {
    let mut coordinator = ActionCoordinator::new(SafeExecutor::default());

    let report = coordinator.execute_safe(
        &proposal(ActionType::Warn),
        QuorumDecision::Approved,
        PolicyDecision::Allow,
    );

    assert_eq!(report.status, ActionExecutionStatus::Completed);
    assert_eq!(
        coordinator.executor().last_warning(),
        Some("Dendrite warning for obj_test from inc_test")
    );
}

#[test]
fn quorum_requires_configured_approvals() {
    let policy = QuorumPolicy::default();
    let evaluations = [
        Evaluation {
            evaluator: Evaluator::Host,
            verdict: EvaluatorVerdict::Approve,
        },
        Evaluation {
            evaluator: Evaluator::Environment,
            verdict: EvaluatorVerdict::Approve,
        },
    ];

    assert_eq!(policy.evaluate(&evaluations), QuorumDecision::Approved);
}

#[test]
fn veto_blocks_quorum() {
    let policy = QuorumPolicy::default();
    let evaluations = [
        Evaluation {
            evaluator: Evaluator::Host,
            verdict: EvaluatorVerdict::Approve,
        },
        Evaluation {
            evaluator: Evaluator::User,
            verdict: EvaluatorVerdict::Veto,
        },
        Evaluation {
            evaluator: Evaluator::Environment,
            verdict: EvaluatorVerdict::Approve,
        },
    ];

    assert_eq!(policy.evaluate(&evaluations), QuorumDecision::Blocked);
}

#[test]
fn single_approval_is_denied_under_default_policy() {
    let policy = QuorumPolicy::default();
    let evaluations = [Evaluation {
        evaluator: Evaluator::Host,
        verdict: EvaluatorVerdict::Approve,
    }];

    assert_eq!(policy.evaluate(&evaluations), QuorumDecision::Denied);
}

#[test]
fn authorization_requires_all_three_gates() {
    let authorization = ActionAuthorization {
        quorum: QuorumDecision::Approved,
        policy: PolicyDecision::Allow,
        guard: GuardDecision::Allow,
    };

    assert!(authorization.is_authorised());

    let denied = ActionAuthorization {
        guard: GuardDecision::Deny,
        ..authorization
    };

    assert!(!denied.is_authorised());
}

#[test]
fn only_observe_and_warn_are_safe_non_privileged_actions() {
    assert!(ActionType::Observe.is_safe_non_privileged());
    assert!(ActionType::Warn.is_safe_non_privileged());
    assert!(!ActionType::TerminateProcess.is_safe_non_privileged());
}

#[test]
fn action_type_names_round_trip() {
    for action in [
        ActionType::Observe,
        ActionType::Warn,
        ActionType::TerminateProcess,
    ] {
        assert_eq!(ActionType::from_name(action.as_str()), Some(action));
    }
    assert_eq!(ActionType::from_name("reboot"), None);
}

#[test]
fn confidence_accepts_valid_values() {
    assert_eq!(Confidence::new(0).unwrap().value(), 0);
    assert_eq!(Confidence::new(100).unwrap().value(), 100);
}

#[test]
fn confidence_rejects_values_above_100() {
    assert_eq!(Confidence::new(101), None);
}

fn guard_proposal() -> ActionProposal {
    ActionProposal {
        id: ActionProposalId("action".into()),
        incident_id: IncidentId("incident".into()),
        action: ActionType::Observe,
        target: ObjectId("target".into()),
    }
}

#[test]
fn trusted_guard_allows_authority() {
    let guard = Guard::new(TrustState::Trusted);
    assert_eq!(guard.evaluate_authority(&guard_proposal()), GuardDecision::Allow);
}

#[test]
fn compromised_guard_removes_authority() {
    let guard = Guard::new(TrustState::Compromised);
    assert_eq!(guard.evaluate_authority(&guard_proposal()), GuardDecision::Deny);
}

#[derive(Default)]
struct RecordingPackageManager {
    applied: usize,
}

impl PackageManager for RecordingPackageManager {
    fn apply(&mut self, _: &UpdateCandidate) -> Result<(), UpdateError> {
        self.applied += 1;
        Ok(())
    }

    fn rollback(&mut self, _: &UpdateCandidate) -> Result<(), UpdateError> {
        Ok(())
    }
}

fn candidate() -> UpdateCandidate {
    UpdateCandidate {
        package: "example".into(),
        installed_version: "1.0".into(),
        candidate_version: "1.1".into(),
    }
}

#[test]
fn rejected_plan_never_reaches_package_manager() {
    let manager = RecordingPackageManager::default();
    let mut updater = Updater::new(manager);
    let result = updater.apply_verified(&UpdatePlan {
        candidate: candidate(),
        verification: VerificationStatus::Rejected,
    });

    assert_eq!(result, Err(UpdateError::RejectedPlan));
    assert_eq!(updater.package_manager().applied, 0);
}

#[test]
fn verified_plan_reaches_package_manager() {
    let mut updater = Updater::new(RecordingPackageManager::default());
    let result = updater.apply_verified(&UpdatePlan {
        candidate: candidate(),
        verification: VerificationStatus::Verified,
    });

    assert_eq!(result, Ok(()));
    assert_eq!(updater.package_manager().applied, 1);
}

#[test]
fn quorum_decision_does_not_depend_on_evaluation_order() {
    let policy = QuorumPolicy::default();
    let verdicts = [
        [EvaluatorVerdict::Approve, EvaluatorVerdict::Abstain, EvaluatorVerdict::Approve],
        [EvaluatorVerdict::Approve, EvaluatorVerdict::Deny, EvaluatorVerdict::Approve],
        [EvaluatorVerdict::Veto, EvaluatorVerdict::Approve, EvaluatorVerdict::Approve],
    ];
    let evaluators = [Evaluator::Host, Evaluator::User, Evaluator::Environment];
    for set in verdicts {
        let forward: Vec<Evaluation> = (0..3)
            .map(|i| Evaluation { evaluator: evaluators[i], verdict: set[i] })
            .collect();
        let backward: Vec<Evaluation> = forward.iter().rev().cloned().collect();
        assert_eq!(policy.evaluate(&forward), policy.evaluate(&backward));
    }
}
