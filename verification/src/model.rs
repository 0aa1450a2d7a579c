//! The vocabulary of the topology: identifiers, candidate names, outcomes and
//! the event bodies the engine appends.

use vstd::prelude::*;

verus! {

/// A task's position in the frozen registry.
#[derive(Clone, Copy, Debug, PartialEq, Eq, Structural)]
pub struct TaskKey(pub u32);

/// The generation of a task: one dispatch, and the worktree it owns.
#[derive(Clone, Copy, Debug, PartialEq, Eq, Structural)]
pub struct GenerationId(pub u32);

/// The number of an attempt within a generation.
#[derive(Clone, Copy, Debug, PartialEq, Eq, Structural)]
pub struct AttemptNumber(pub u32);

/// The epoch (process incarnation) that recorded a fact.
#[derive(Clone, Copy, Debug, PartialEq, Eq, Structural)]
pub struct Epoch(pub u32);

/// The number of an integration sequence.
#[derive(Clone, Copy, Debug, PartialEq, Eq, Structural)]
pub struct SequenceId(pub u64);

/// A commit's object id, as Git spells it.
#[derive(Clone, Debug, PartialEq, Eq)]
pub struct CommitSha(pub String);

impl CommitSha {
    pub fn as_str(&self) -> (s: &str)
        ensures
            s@ == self.0@,
    {
        self.0.as_str()
    }

    pub fn duplicate(&self) -> (r: Self)
        ensures
            r == *self,
    {
        CommitSha(self.0.clone())
    }
}

/// A full ref name.
#[derive(Clone, Debug, PartialEq, Eq)]
pub struct GitRef(pub String);

impl GitRef {
    pub fn as_str(&self) -> (s: &str)
        ensures
            s@ == self.0@,
    {
        self.0.as_str()
    }

    pub fn duplicate(&self) -> (r: Self)
        ensures
            r == *self,
    {
        GitRef(self.0.clone())
    }
}

/// A worker session an attempt may resume.
#[derive(Clone, Debug, PartialEq, Eq)]
pub struct SessionId(pub String);

/// A prepared candidate: the commit a judged tree became and the
/// authoritative ref that keeps it reachable.
#[derive(Clone, Debug, PartialEq, Eq)]
pub struct CandidateRef {
    pub key: TaskKey,
    pub generation: GenerationId,
    pub commit_sha: CommitSha,
    pub candidate_ref: GitRef,
}

impl CandidateRef {
    pub fn duplicate(&self) -> (r: Self)
        ensures
            r == *self,
    {
        CandidateRef {
            key: self.key,
            generation: self.generation,
            commit_sha: self.commit_sha.duplicate(),
            candidate_ref: self.candidate_ref.duplicate(),
        }
    }
}

/// How a run ends.
#[derive(Clone, Copy, Debug, PartialEq, Eq, Structural)]
pub enum RunOutcome {
    Complete,
    Failed,
    Parked,
    BudgetExceeded,
    Halted,
}

/// The label an outcome is reported under.
pub open spec fn outcome_label_spec(outcome: RunOutcome) -> Seq<char> {
    match outcome {
        RunOutcome::Complete => "complete"@,
        RunOutcome::Failed => "failed"@,
        RunOutcome::Parked => "parked"@,
        RunOutcome::BudgetExceeded => "budget_exceeded"@,
        RunOutcome::Halted => "halted"@,
    }
}

/// The label an outcome is reported under.
pub fn outcome_label(outcome: &RunOutcome) -> (s: String)
    ensures
        s@ == outcome_label_spec(*outcome),
{
    match outcome {
        RunOutcome::Complete => String::from_str("complete"),
        RunOutcome::Failed => String::from_str("failed"),
        RunOutcome::Parked => String::from_str("parked"),
        RunOutcome::BudgetExceeded => String::from_str("budget_exceeded"),
        RunOutcome::Halted => String::from_str("halted"),
    }
}

/// What the fold derives of a state: the outcome it ends with, that it is
/// not ending, or no outcome at all.
#[derive(Clone, Copy, Debug, PartialEq, Eq, Structural)]
pub enum DerivedOutcome {
    Ending(RunOutcome),
    NotEnding,
    FoldError,
}

/// What a repair's materialization of its source candidate observed.
#[derive(Clone, Copy, Debug, PartialEq, Eq, Structural)]
pub enum Materialization {
    Clean,
    Conflict,
    Empty,
}

/// The region a dispatch is granted.
#[derive(Clone, Debug, PartialEq, Eq)]
pub enum LeaseGrant {
    Predicted { paths: Vec<String> },
    InheritedLineage { root: TaskKey },
}

/// The lease a generation holds while it is open.
#[derive(Clone, Copy, Debug, PartialEq, Eq, Structural)]
pub enum GenerationLease {
    Own,
    InheritedLineage { root: TaskKey },
}

/// What becomes of a generation's lease when it closes.
#[derive(Clone, Copy, Debug, PartialEq, Eq, Structural)]
pub enum LeaseDisposition {
    PredictedReleased,
    PredictedRetained,
    LineageHeld { root: TaskKey },
}

impl GenerationLease {
    /// The disposition a close records, given whether the work is retained.
    pub open spec fn expected_spec(self, retained: bool) -> LeaseDisposition {
        match self {
            GenerationLease::Own => if retained {
                LeaseDisposition::PredictedRetained
            } else {
                LeaseDisposition::PredictedReleased
            },
            GenerationLease::InheritedLineage { root } => LeaseDisposition::LineageHeld { root },
        }
    }

    pub fn expected(&self, retained: bool) -> (d: LeaseDisposition)
        ensures
            d == self.expected_spec(retained),
    {
        match self {
            GenerationLease::Own => if retained {
                LeaseDisposition::PredictedRetained
            } else {
                LeaseDisposition::PredictedReleased
            },
            GenerationLease::InheritedLineage { root } => LeaseDisposition::LineageHeld {
                root: *root,
            },
        }
    }
}

/// The rung binding an attempt runs under: the agent and the model.
#[derive(Clone, Debug, PartialEq, Eq)]
pub struct RungBinding {
    pub agent: String,
    pub model: String,
}

/// What a candidate does to its generation's lease.
#[derive(Clone, Copy, Debug, PartialEq, Eq, Structural)]
pub enum CandidateLeaseEffect {
    Keeps,
    Releases,
}

/// The account of the attempt a candidate was judged from.
#[derive(Clone, Debug, PartialEq, Eq)]
pub struct AttemptRecord {
    pub attempt: u32,
    pub tier: String,
    pub model: String,
}

/// Why a generation closed.
#[derive(Clone, Copy, Debug, PartialEq, Eq, Structural)]
pub enum GenerationCloseReason {
    RunEnding { outcome: RunOutcome },
    WorktreeMissing,
}

#[derive(Clone, Debug, PartialEq, Eq)]
pub struct TaskDispatched {
    pub key: TaskKey,
    pub generation: GenerationId,
    pub base_sha: CommitSha,
    pub worktree_path: String,
    pub lease: LeaseGrant,
    pub source_candidate: Option<CandidateRef>,
}

#[derive(Clone, Debug, PartialEq, Eq)]
pub struct AttemptStarted4 {
    pub key: TaskKey,
    pub generation: GenerationId,
    pub attempt: AttemptNumber,
    pub rung: u32,
    pub binding: RungBinding,
    pub pool: Option<String>,
    pub resume_session: Option<SessionId>,
    pub materialization_observed: Option<Materialization>,
}

#[derive(Clone, Debug, PartialEq, Eq)]
pub struct AttemptInterrupted4 {
    pub key: TaskKey,
    pub generation: GenerationId,
    pub attempt: AttemptNumber,
    pub lease: LeaseDisposition,
    pub detail: String,
}

#[derive(Clone, Debug, PartialEq, Eq)]
pub struct CandidatePrepared {
    pub key: TaskKey,
    pub generation: GenerationId,
    pub attempt: AttemptRecord,
    pub base_sha: CommitSha,
    pub parent_sha: CommitSha,
    pub tree_sha: CommitSha,
    pub commit_sha: CommitSha,
    pub message: String,
    pub prepared_ref: GitRef,
    pub candidate_ref: GitRef,
    pub actual_paths: Vec<String>,
    pub lease_effect: CandidateLeaseEffect,
}

impl CandidatePrepared {
    /// The candidate this preparation names.
    pub fn candidate(&self) -> (c: CandidateRef)
        ensures
            c == (CandidateRef {
                key: self.key,
                generation: self.generation,
                commit_sha: self.commit_sha,
                candidate_ref: self.candidate_ref,
            }),
    {
        CandidateRef {
            key: self.key,
            generation: self.generation,
            commit_sha: self.commit_sha.duplicate(),
            candidate_ref: self.candidate_ref.duplicate(),
        }
    }
}

#[derive(Clone, Debug, PartialEq, Eq)]
pub struct TaskCandidateCreated {
    pub candidate: CandidateRef,
}

#[derive(Clone, Debug, PartialEq, Eq)]
pub struct GenerationClosed {
    pub key: TaskKey,
    pub generation: GenerationId,
    pub reason: GenerationCloseReason,
    pub lease: LeaseDisposition,
}

/// The record a run ends with.
#[derive(Clone, Copy, Debug, PartialEq, Eq, Structural)]
pub struct RunFinished4 {
    pub outcome: RunOutcome,
    pub halted_at: Option<TaskKey>,
    pub merged: u32,
    pub parked: u32,
}

/// The events this engine appends to a run's topology log.
#[allow(inconsistent_fields)]
#[derive(Clone, Debug, PartialEq, Eq)]
pub enum TopologyEventBody {
    TaskDispatched { data: TaskDispatched },
    AttemptStarted { data: AttemptStarted4 },
    AttemptInterrupted { data: AttemptInterrupted4 },
    CandidatePrepared { data: CandidatePrepared },
    TaskCandidateCreated { data: TaskCandidateCreated },
    GenerationClosed { data: GenerationClosed },
    RunFinished { data: RunFinished4 },
}

/// The name an event body is written under.
pub open spec fn event_kind_spec(body: TopologyEventBody) -> Seq<char> {
    match body {
        TopologyEventBody::TaskDispatched { .. } => "task_dispatched"@,
        TopologyEventBody::AttemptStarted { .. } => "attempt_started"@,
        TopologyEventBody::AttemptInterrupted { .. } => "attempt_interrupted"@,
        TopologyEventBody::CandidatePrepared { .. } => "candidate_prepared"@,
        TopologyEventBody::TaskCandidateCreated { .. } => "task_candidate_created"@,
        TopologyEventBody::GenerationClosed { .. } => "generation_closed"@,
        TopologyEventBody::RunFinished { .. } => "run_finished"@,
    }
}

impl TopologyEventBody {
    /// The name the event is written under.
    pub fn kind(&self) -> (s: &'static str)
        ensures
            s@ == event_kind_spec(*self),
    {
        match self {
            TopologyEventBody::TaskDispatched { .. } => "task_dispatched",
            TopologyEventBody::AttemptStarted { .. } => "attempt_started",
            TopologyEventBody::AttemptInterrupted { .. } => "attempt_interrupted",
            TopologyEventBody::CandidatePrepared { .. } => "candidate_prepared",
            TopologyEventBody::TaskCandidateCreated { .. } => "task_candidate_created",
            TopologyEventBody::GenerationClosed { .. } => "generation_closed",
            TopologyEventBody::RunFinished { .. } => "run_finished",
        }
    }
}

} // verus!
