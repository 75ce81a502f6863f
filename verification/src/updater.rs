//! Software update and remediation through the operating system's package
//! manager. Only verified plans reach the package manager.
use vstd::prelude::*;

verus! {

/// A package with its installed and candidate versions.
#[derive(Debug, Clone, PartialEq, Eq)]
pub struct UpdateCandidate {
    pub package: String,
    pub installed_version: String,
    pub candidate_version: String,
}

/// Whether a candidate passed verification.
#[derive(Debug, Clone, Copy, PartialEq, Eq, Structural)]
pub enum VerificationStatus {
    Verified,
    Rejected,
}

/// A candidate together with its verification status.
#[derive(Debug, Clone, PartialEq, Eq)]
pub struct UpdatePlan {
    pub candidate: UpdateCandidate,
    pub verification: VerificationStatus,
}

/// Why an update did not happen.
#[derive(Debug, Clone, PartialEq, Eq)]
pub enum UpdateError {
    RejectedPlan,
    PackageManager(String),
}

/// A package-manager backend, implemented by users of the updater. Each
/// operation is described by a relation between the backend before it, the
/// candidate, the backend after it and its answer. An implementation states
/// what its operations do; one that states nothing allows any outcome.
pub trait PackageManager: Sized {
    /// Whether applying `candidate` may take the backend from `self` to
    /// `after`, answering `r`.
    open spec fn applies(&self, candidate: UpdateCandidate, after: Self, r: Result<(), UpdateError>) -> bool {
        true
    }

    /// Whether rolling `candidate` back may take the backend from `self` to
    /// `after`, answering `r`.
    open spec fn rolls_back(&self, candidate: UpdateCandidate, after: Self, r: Result<(), UpdateError>) -> bool {
        true
    }

    fn apply(&mut self, candidate: &UpdateCandidate) -> (r: Result<(), UpdateError>)
        ensures
            old(self).applies(*candidate, *final(self), r),
    ;

    fn rollback(&mut self, candidate: &UpdateCandidate) -> (r: Result<(), UpdateError>)
        ensures
            old(self).rolls_back(*candidate, *final(self), r),
    ;
}

/// Applies verified plans through a package manager.
pub struct Updater<P> {
    package_manager: P,
}

impl<P: PackageManager> Updater<P> {
    pub closed spec fn manager(&self) -> P {
        self.package_manager
    }

    pub fn new(package_manager: P) -> (r: Updater<P>)
        ensures
            r.manager() == package_manager,
    {
        Updater { package_manager }
    }

    /// The package manager the updater drives.
    pub fn package_manager(&self) -> (r: &P)
        ensures
            *r == self.manager(),
    {
        &self.package_manager
    }

    /// Applies the plan's candidate when, and only when, the plan is verified;
    /// a rejected plan is refused without touching the package manager.
    pub fn apply_verified(&mut self, plan: &UpdatePlan) -> (r: Result<(), UpdateError>)
        ensures
            plan.verification != VerificationStatus::Verified ==> {
                &&& r == Err::<(), UpdateError>(UpdateError::RejectedPlan)
                &&& final(self).manager() == old(self).manager()
            },
            plan.verification == VerificationStatus::Verified ==> old(self).manager().applies(
                plan.candidate,
                final(self).manager(),
                r,
            ),
    {
        if plan.verification != VerificationStatus::Verified {
            return Err(UpdateError::RejectedPlan);
        }
        self.package_manager.apply(&plan.candidate)
    }

    /// Hands the candidate to the package manager for rollback.
    pub fn rollback(&mut self, candidate: &UpdateCandidate) -> (r: Result<(), UpdateError>)
        ensures
            old(self).manager().rolls_back(*candidate, final(self).manager(), r),
    {
        self.package_manager.rollback(candidate)
    }
}

} // verus!
