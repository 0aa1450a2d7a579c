//! An attempt: its start is durable before its worker is asked for, its
//! capture stages only what the worker declared, and its judgement runs
//! gates and then review passes on fresh snapshots until the first failure.
//! Every process is registered before it is asked for and settled exactly
//! once after; an agent process holds a slot pair while it runs.

use vstd::prelude::*;
use crate::dispatch::{lease_spec, scrub, Dispatched};
use crate::effects::{lemma_trace_extends, EffectSiteId, EventSite, Hooks};
use crate::emit::EmitFailure;
use crate::error::UpstrokeError;
use crate::fold::{admits, stepped, GenerationClass, TopologyFold};
use crate::identity::{
    already_registered_text, count_status, is_slotted, is_slotted_spec, render_spec, slot_taken_text, AttemptIdentities,
    InvocationId, InvocationLedger, InvocationRole, InvocationScope, InvocationStatus, SequenceIdentities, SlotAssertion,
    SlotPair,
};
use crate::journal::{append_owed, EventEmitter};
use crate::model::{
    AttemptInterrupted4, AttemptNumber, AttemptStarted4, CommitSha, GenerationId, Materialization, RungBinding, SessionId,
    TaskKey, TopologyEventBody,
};
use crate::resolution::plan_resolutions;
use crate::review::{
    diff_failure, evaluate_outcome, failure_view, failures_view, gate_failure, gate_failure_view, gate_summary,
    gate_summary_spec, parse_outcome, review_failure, review_input_failure, tail, tail_spec, unresolved_conflict_failure,
    AttemptFailure, ReviewAccount, ReviewInputPolicy, ReviewInputs, ReviewInvocations, ReviewOutcome, ReviewPasses,
    ReviewRecord, ReviewRequest, ReviewResult, TaskKind, WorkerOutcome, FEEDBACK_TAIL_CHARS,
};
use crate::runner::{command_view, gate_request, request_view, worker_request, AgentId, CommandSpec, ExecutionRole, ProcessOutput, Runner, RunnerError, RunnerRequest};
use crate::text::{decimal, join_strings, push_decimal};
use crate::workspace::{reclaimable, ObjectId, Slot, Snapshot, SnapshotInput, SnapshotName, WorkspaceManager};

verus! {

/// A review pass the plan runs: its agent and model, its lens, the pool it
/// draws from and its timeout.
#[derive(Clone, Debug, PartialEq, Eq)]
pub struct ReviewerPlan {
    pub agent: AgentId,
    pub model: String,
    pub lens: String,
    pub pool: Option<String>,
    pub preflight_cli_version: Option<String>,
    pub timeout_secs: u64,
}

/// A gate the plan runs.
#[derive(Clone, Debug, PartialEq, Eq)]
pub struct GatePlan {
    pub name: String,
    pub command: CommandSpec,
    pub timeout_secs: u64,
}

/// What one attempt runs.
#[derive(Clone, Debug, PartialEq, Eq)]
pub struct AttemptPlan {
    pub attempt: AttemptNumber,
    pub rung: u32,
    pub binding: RungBinding,
    pub pool: Option<String>,
    pub resume_session: Option<SessionId>,
    pub materialization_observed: Option<Materialization>,
    pub agent: AgentId,
    pub session_resume: bool,
    pub worker: CommandSpec,
    pub worker_timeout_secs: u64,
    pub gates: Vec<GatePlan>,
    pub reviewers: Vec<ReviewerPlan>,
}

/// What an attempt's plan is asked for: the task, the attempt and its
/// rung, the binding it runs under, its workspace, the session it resumes,
/// the feedback of the attempts before it, and the materialization its
/// generation observed.
#[derive(Clone, Debug, PartialEq, Eq)]
pub struct PlanRequest {
    pub key: TaskKey,
    pub entry: crate::fold::RegistryEntry,
    pub attempt: AttemptNumber,
    pub rung: u32,
    pub binding: RungBinding,
    pub workspace: String,
    pub resume_session: Option<SessionId>,
    pub feedback: Vec<String>,
    pub materialization_observed: Option<Materialization>,
}

/// What a review's inputs are asked for: the task and the diff judged.
#[derive(Clone, Debug, PartialEq, Eq)]
pub struct InputsRequest {
    pub entry: crate::fold::RegistryEntry,
    pub diff: String,
}

/// What verification is asked for: the task, and the binding its
/// implementing attempt ran under.
#[derive(Clone, Debug, PartialEq, Eq)]
pub struct VerificationRequest {
    pub entry: crate::fold::RegistryEntry,
    pub implementer: RungBinding,
}

/// The gates and the review passes that verify a task.
#[derive(Clone, Debug, PartialEq, Eq)]
pub struct VerificationPlan {
    pub gates: Vec<GatePlan>,
    pub reviewers: Vec<ReviewerPlan>,
}

/// Plans attempts: their review inputs, the pool an agent draws from,
/// their plan, and their verification. Its users implement it; nothing is
/// assumed of what it answers.
pub trait AttemptPlans {
    fn inputs(&self, request: &InputsRequest) -> Result<ReviewInputs, UpstrokeError>;

    fn pool_for(&self, agent: &str) -> Option<String>;

    fn plan(&self, request: &PlanRequest) -> Result<AttemptPlan, UpstrokeError>;

    fn verification(&self, request: &VerificationRequest) -> Result<VerificationPlan, UpstrokeError>;
}

/// A started attempt: its identities and its worker's output.
#[derive(Clone, Debug, PartialEq, Eq)]
pub struct AttemptRun {
    pub identities: AttemptIdentities,
    pub worker: ProcessOutput,
}

/// What the capture took: the tree, its parent, and the paths it left
/// unresolved (then the tree is the base's).
#[derive(Clone, Debug, PartialEq, Eq)]
pub struct Capture {
    pub tree: String,
    pub parent: String,
    pub unresolved: Vec<String>,
}

/// The worker's outcome and the failure the assessment found in it.
#[derive(Clone, Debug, PartialEq, Eq)]
pub struct Assessment {
    pub outcome: WorkerOutcome,
    pub failure: Option<AttemptFailure>,
}

/// Where an attempt runs.
#[derive(Clone, Copy, Debug)]
pub struct AttemptSite<'a> {
    pub key: TaskKey,
    pub generation: GenerationId,
    pub base: &'a CommitSha,
    pub slot: &'a Slot,
    pub worktree: &'a String,
}

impl Dispatched {
    /// Where its attempts run.
    pub fn site(&self) -> (s: AttemptSite<'_>)
        ensures
            s.key == self.key && s.generation == self.generation && *s.base == self.base && *s.slot == self.slot
                && *s.worktree == self.worktree,
    {
        AttemptSite { key: self.key, generation: self.generation, base: &self.base, slot: &self.slot, worktree: &self.worktree }
    }
}

/// What a judgement reads of the attempt.
#[derive(Clone, Copy, Debug)]
pub struct Judging<'a> {
    pub run: &'a AttemptRun,
    pub capture: &'a Capture,
    pub assessed: &'a Assessment,
}

/// A gate's verdict.
#[derive(Clone, Debug, PartialEq, Eq)]
pub struct Verdict {
    pub output_limited: bool,
    pub timed_out: bool,
    pub log: String,
    pub invocation: InvocationId,
    pub workspace: String,
    pub code: Option<i32>,
}

impl Verdict {
    pub open spec fn passed_spec(self) -> bool {
        self.code == Some(0i32)
    }

    /// Whether the verdict is a pass.
    pub fn passed(&self) -> (b: bool)
        ensures
            b == self.passed_spec(),
    {
        self.code == Some(0i32)
    }
}

/// A judgement: the gates' verdicts, the review records, and the failure.
#[derive(Clone, Debug, PartialEq, Eq)]
pub struct Judgement {
    pub gates: Vec<Verdict>,
    pub reviews: Vec<ReviewRecord>,
    pub failure: Option<AttemptFailure>,
}

impl Judgement {
    /// Whether the attempt is accepted: nothing failed it.
    pub fn accepted(&self) -> (b: bool)
        ensures
            b == (self.failure is None),
    {
        self.failure.is_none()
    }

    /// The first gate that timed out, if one did.
    pub fn timed_out_gate(&self) -> (v: Option<&Verdict>)
        ensures
            match v {
                Some(v) => exists|i: int| 0 <= i < self.gates@.len() && self.gates@[i] == *v && v.timed_out && forall|j: int|
                    0 <= j < i ==> !(#[trigger] self.gates@[j]).timed_out,
                None => forall|i: int| 0 <= i < self.gates@.len() ==> !(#[trigger] self.gates@[i]).timed_out,
            },
    {
        let n = self.gates.len();
        let mut i: usize = 0;
        while i < n
            invariant
                n == self.gates.len(),
                i <= n,
                forall|j: int| 0 <= j < i ==> !(#[trigger] self.gates@[j]).timed_out,
            decreases n - i,
        {
            if self.gates[i].timed_out {
                return Some(&self.gates[i]);
            }
            i = i + 1;
        }
        None
    }
}

/// How an attempt ends without a judgement.
#[derive(Clone, Copy, Debug, PartialEq, Eq, Structural)]
pub enum AttemptOutcome {
    Interrupted,
    Cancelled,
}

pub open spec fn outcome_detail_spec(outcome: AttemptOutcome) -> Seq<char> {
    match outcome {
        AttemptOutcome::Interrupted => "a coordinator died holding this attempt; the spend is unknown and nothing was judged"@,
        AttemptOutcome::Cancelled => "the run halted while this attempt was in flight; its invocations were cancelled and the spend is unknown"@,
    }
}

impl AttemptOutcome {
    fn detail(self) -> (s: &'static str)
        ensures
            s@ == outcome_detail_spec(self),
    {
        match self {
            AttemptOutcome::Interrupted => "a coordinator died holding this attempt; the spend is unknown and nothing was judged",
            AttemptOutcome::Cancelled => "the run halted while this attempt was in flight; its invocations were cancelled and the spend is unknown",
        }
    }
}

/// What a snapshot is taken of: a captured tree on its parent, or a commit.
#[derive(Clone, Debug, PartialEq, Eq)]
pub enum SnapshotOf {
    Tree { tree: ObjectId, parent: ObjectId },
    Commit(ObjectId),
}

impl SnapshotOf {
    /// The snapshot input this names.
    pub open spec fn input_spec(self) -> SnapshotInput {
        match self {
            SnapshotOf::Tree { tree, parent } => SnapshotInput::Tree { tree, parent },
            SnapshotOf::Commit(c) => SnapshotInput::Commit(c),
        }
    }

    fn input(&self) -> (i: SnapshotInput)
        ensures
            i == self.input_spec(),
    {
        match self {
            SnapshotOf::Tree { tree, parent } => SnapshotInput::Tree { tree: tree.duplicate(), parent: parent.duplicate() },
            SnapshotOf::Commit(c) => SnapshotInput::Commit(c.duplicate()),
        }
    }
}

/// The names a judgement's snapshots take.
#[derive(Clone, Copy, Debug, PartialEq, Eq, Structural)]
pub enum JudgeNames {
    Attempt { generation: u32, attempt: u32 },
    Integration { sequence: u64 },
}

/// The verdict on `request` of what the runner reported for it: the exit
/// code and the flags as reported, the log its standard output followed by
/// its standard error.
pub fn verdict_of(request: &RunnerRequest, output: ProcessOutput) -> (v: Verdict)
    ensures
        v.code == output.code,
        v.log@ == output.stdout@ + output.stderr@,
        v.timed_out == output.timed_out,
        v.output_limited == output.output_limited,
        v.invocation == request.invocation,
        v.workspace == request.workspace,
{
    let mut log = output.stdout;
    log.append(output.stderr.as_str());
    Verdict {
        output_limited: output.output_limited,
        timed_out: output.timed_out,
        log,
        invocation: request.invocation,
        workspace: request.workspace.clone(),
        code: output.code,
    }
}

/// Whether `v` reports `output`: its exit code and flags, and as its log the
/// standard output followed by the standard error.
pub open spec fn reports(v: Verdict, output: ProcessOutput) -> bool {
    &&& v.code == output.code
    &&& v.log@ == output.stdout@ + output.stderr@
    &&& v.timed_out == output.timed_out
    &&& v.output_limited == output.output_limited
}

/// The sum of `counts`.
pub open spec fn total(counts: Seq<u32>) -> int
    decreases counts.len(),
{
    if counts.len() == 0 {
        0
    } else {
        total(counts.drop_last()) + counts.last()
    }
}

/// Whether `after` is `before` and then one answer per verdict of
/// `verdicts`, in order: each an output, which its verdict reports.
pub open spec fn gates_answered(
    before: Seq<Result<ProcessOutput, RunnerError>>,
    after: Seq<Result<ProcessOutput, RunnerError>>,
    verdicts: Seq<Verdict>,
) -> bool {
    &&& after.len() == before.len() + verdicts.len()
    &&& after.subrange(0, before.len() as int) == before
    &&& forall|i: int| 0 <= i < verdicts.len() ==> answered_with(after[before.len() + i], #[trigger] verdicts[i])
}

/// Whether `answer` is an output that `v` reports.
pub open spec fn answered_with(answer: Result<ProcessOutput, RunnerError>, v: Verdict) -> bool {
    &&& answer is Ok
    &&& reports(v, answer->Ok_0)
}

/// The invocations each answered review pass reported; a pass that failed
/// to answer reported none.
pub open spec fn review_counts(answers: Seq<Result<ReviewOutcome, UpstrokeError>>) -> Seq<u32> {
    answers.map_values(|a: Result<ReviewOutcome, UpstrokeError>| match a {
        Ok(o) => o.invocations,
        Err(_) => 0,
    })
}

/// Whether `after` is `before` and then one answer per record of `records`,
/// in order: each an outcome, whose cost its record carries.
pub open spec fn passes_answered(
    before: Seq<Result<ReviewOutcome, UpstrokeError>>,
    after: Seq<Result<ReviewOutcome, UpstrokeError>>,
    records: Seq<ReviewRecord>,
) -> bool {
    &&& after.len() == before.len() + records.len()
    &&& after.subrange(0, before.len() as int) == before
    &&& forall|p: int| 0 <= p < records.len() ==> after[before.len() + p] is Ok && (#[trigger] records[p]).cost_micros
        == after[before.len() + p]->Ok_0.cost_micros
}

/// The name of the snapshot review pass `pass` runs on.
pub open spec fn review_snapshot_name(names: JudgeNames, pass: u32) -> Seq<char> {
    match names {
        JudgeNames::Attempt { generation, attempt } => "g"@ + decimal(generation as nat) + "-a"@ + decimal(attempt as nat) + "-review"@
            + decimal(pass as nat),
        JudgeNames::Integration { sequence } => "s"@ + decimal(sequence as nat) + "-review"@ + decimal(pass as nat),
    }
}

/// Whether `id` is an identity a judgement under `identities` registers:
/// a gate, a review pass or a re-ask, in its scope.
pub open spec fn judge_invocation(identities: JudgeIdentities, id: InvocationId) -> bool {
    &&& id.scope == identities.scope_spec()
    &&& (id.role is Gate || id.role is ReviewPass || id.role is ReviewReask)
}

/// Whether `after` keeps every registration of `before` as it was, and
/// settles as completed every one it added, each a judgement's identity.
pub open spec fn ledger_grown(before: InvocationLedger, after: InvocationLedger, identities: JudgeIdentities) -> bool {
    &&& forall|id: InvocationId| before.status(id) is Some ==> #[trigger] after.status(id) == before.status(id)
    &&& forall|id: InvocationId| before.status(id) is None && (#[trigger] after.status(id)) is Some ==> after.status(id) == Some(
        InvocationStatus::Completed,
    ) && judge_invocation(identities, id)
}

/// Whether `after` holds no worktree and no intent that `before` did not:
/// each worktree it holds is one `before` held.
pub open spec fn nothing_left(before: WorkspaceManager, after: WorkspaceManager) -> bool {
    forall|n: Seq<char>| {
        &&& (crate::workspace::worktree_at(after.worktrees@, n) is Some ==> #[trigger] crate::workspace::worktree_at(after.worktrees@, n)
            == crate::workspace::worktree_at(before.worktrees@, n))
        &&& (crate::workspace::has_intent(after.intents@, n) ==> crate::workspace::has_intent(before.intents@, n))
    }
}

/// A snapshot taken in `before`, giving `taken`, then removed, giving
/// `after`, leaves nothing behind.
proof fn lemma_taken_and_removed(before: WorkspaceManager, taken: WorkspaceManager, after: WorkspaceManager, slot: Slot)
    requires
        slot is Snapshot,
        forall|n: Seq<char>| n != crate::workspace::slot_name_spec(slot) ==> #[trigger] crate::workspace::worktree_at(taken.worktrees@, n)
            == crate::workspace::worktree_at(before.worktrees@, n) && crate::workspace::has_intent(taken.intents@, n)
            == crate::workspace::has_intent(before.intents@, n),
        !after.has_worktree_spec(slot),
        !after.has_intent_spec(slot),
        forall|n: Seq<char>| n != crate::workspace::slot_name_spec(slot) ==> #[trigger] crate::workspace::worktree_at(after.worktrees@, n)
            == crate::workspace::worktree_at(taken.worktrees@, n) && crate::workspace::has_intent(after.intents@, n)
            == crate::workspace::has_intent(taken.intents@, n),
    ensures
        nothing_left(before, after),
{
    crate::workspace::lemma_worktree_at(after.worktrees@, crate::workspace::slot_name_spec(slot));
}

proof fn lemma_nothing_left_trans(a: WorkspaceManager, b: WorkspaceManager, c: WorkspaceManager)
    requires
        nothing_left(a, b),
        nothing_left(b, c),
    ensures
        nothing_left(a, c),
{
    assert forall|n: Seq<char>| #![auto] (crate::workspace::worktree_at(c.worktrees@, n) is Some ==> crate::workspace::worktree_at(c.worktrees@, n)
        == crate::workspace::worktree_at(a.worktrees@, n)) && (crate::workspace::has_intent(c.intents@, n) ==> crate::workspace::has_intent(a.intents@, n)) by {
        assert(crate::workspace::worktree_at(c.worktrees@, n) == crate::workspace::worktree_at(c.worktrees@, n));
        assert(crate::workspace::worktree_at(b.worktrees@, n) == crate::workspace::worktree_at(b.worktrees@, n));
    }
}

/// Whether a snapshot of a tree, named `name`, can be taken, with `armed`
/// the site the hooks hold armed: no site it crosses is armed and the slot
/// has no worktree.
pub open spec fn tree_snapshot_owed(m: WorkspaceManager, armed: Option<EffectSiteId>, name: Seq<char>) -> bool {
    &&& armed != Some(EffectSiteId::Object(crate::effects::ObjectSite::SnapshotCommitTree))
    &&& armed != Some(EffectSiteId::Snapshot(crate::effects::SnapshotSite::WriteIntent))
    &&& armed != Some(EffectSiteId::Snapshot(crate::effects::SnapshotSite::Add))
    &&& !crate::workspace::has_worktree(m.worktrees@, "snapshot-"@ + name)
}

/// The request gate `i` of `subject` is run with under execution root
/// `root`: its command, on the gates' snapshot, bound to no agent, under
/// its timeout, under its own identity.
pub open spec fn gate_request_view(subject: Subject, root: Seq<char>, i: int) -> (
    ExecutionRole,
    (Seq<char>, Seq<Seq<char>>),
    Seq<char>,
    Option<Seq<char>>,
    u64,
    InvocationId,
) {
    (
        ExecutionRole::Gate,
        command_view(subject.gates@[i].command),
        root + "/"@ + "snapshot-"@ + gates_snapshot_name(subject.names),
        None,
        subject.gates@[i].timeout_secs,
        gate_id(subject.identities, i),
    )
}

/// Whether `after` is `before` and then the requests of the first `n` of
/// `subject`'s gates, in order.
pub open spec fn gates_asked(before: Seq<RunnerRequest>, after: Seq<RunnerRequest>, subject: Subject, root: Seq<char>, n: nat) -> bool {
    &&& after.len() == before.len() + n
    &&& after.subrange(0, before.len() as int) == before
    &&& forall|k: int| before.len() <= k < after.len() ==> request_view(#[trigger] after[k]) == gate_request_view(
        subject,
        root,
        k - before.len(),
    )
}

/// Whether review pass `p` of `subject` was asked with `request`: on its own
/// snapshot under `root`, as the agent the plan binds it to, with the subject's stem.
pub open spec fn review_asked(request: ReviewRequest, subject: Subject, root: Seq<char>, p: int) -> bool {
    &&& request.workspace@ == root + "/"@ + "snapshot-"@ + review_snapshot_name(subject.names, ordinal_spec(p))
    &&& request.agent@ == subject.reviewers@[p].agent.0@
    &&& request.stem@ == subject.stem@
}

/// Whether `after` is `before` and then the requests of the first `n` of
/// `subject`'s review passes, in order.
pub open spec fn reviews_asked(before: Seq<ReviewRequest>, after: Seq<ReviewRequest>, subject: Subject, root: Seq<char>, n: nat) -> bool {
    &&& after.len() == before.len() + n
    &&& after.subrange(0, before.len() as int) == before
    &&& forall|k: int| before.len() <= k < after.len() ==> review_asked(#[trigger] after[k], subject, root, k - before.len())
}

/// Whether every registration `after` adds to `before` is that of one of
/// the first `gates` gates, or of one of the first `reviews` review passes
/// (the pass itself, or one of its re-asks).
pub open spec fn registered_within(before: InvocationLedger, after: InvocationLedger, identities: JudgeIdentities, gates: nat, reviews: nat) -> bool {
    forall|id: InvocationId| before.status(id) is None && (#[trigger] after.status(id)) is Some ==> match id.role {
        InvocationRole::Gate { gate, ordinal } => ordinal == 0 && exists|i: int| 0 <= i < gates && #[trigger] ordinal_spec(i) == gate,
        InvocationRole::ReviewPass { pass, ordinal } => ordinal == 0 && exists|p: int| 0 <= p < reviews && #[trigger] ordinal_spec(p) == pass,
        InvocationRole::ReviewReask { reask, .. } => exists|p: int| 0 <= p < reviews && #[trigger] ordinal_spec(p) == reask,
        _ => false,
    }
}

/// The identity of gate `i` of a judgement under `identities`.
pub open spec fn gate_id(identities: JudgeIdentities, i: int) -> InvocationId {
    InvocationId { scope: identities.scope_spec(), role: InvocationRole::Gate { gate: ordinal_spec(i), ordinal: 0 } }
}

/// The identity of a judgement's first gate.
pub open spec fn first_gate(identities: JudgeIdentities) -> InvocationId {
    InvocationId { scope: identities.scope_spec(), role: InvocationRole::Gate { gate: 0, ordinal: 0 } }
}

/// The snapshots of one judgement are distinct: no review pass runs on the
/// gates' snapshot, and no two passes share one.
pub proof fn law_judgement_snapshots_are_distinct(names: JudgeNames, p: u32, q: u32)
    ensures
        review_snapshot_name(names, p) != gates_snapshot_name(names),
        p != q ==> review_snapshot_name(names, p) != review_snapshot_name(names, q),
{
    reveal_strlit("-review");
    reveal_strlit("-gates");
    let stem = match names {
        JudgeNames::Attempt { generation, attempt } => "g"@ + decimal(generation as nat) + "-a"@ + decimal(attempt as nat),
        JudgeNames::Integration { sequence } => "s"@ + decimal(sequence as nat),
    };
    let rp = stem + "-review"@ + decimal(p as nat);
    let rq = stem + "-review"@ + decimal(q as nat);
    let g = stem + "-gates"@;
    assert(review_snapshot_name(names, p) =~= rp);
    assert(review_snapshot_name(names, q) =~= rq);
    assert(gates_snapshot_name(names) =~= g);
    assert(rp[stem.len() as int + 1] != g[stem.len() as int + 1]);
    if p != q && rp == rq {
        let k: int = stem.len() as int + 7;
        assert(decimal(p as nat) =~= rp.subrange(k, rp.len() as int));
        assert(decimal(q as nat) =~= rq.subrange(k, rq.len() as int));
        crate::text::lemma_decimal_injective(p as nat, q as nat);
    }
}

/// The gates' snapshot name holds no path separator, so its slot stays
/// inside the execution root.
proof fn lemma_gates_snapshot_inside(names: JudgeNames)
    ensures
        forall|i: int| 0 <= i < gates_snapshot_name(names).len() ==> #[trigger] gates_snapshot_name(names)[i] != '/'
            && gates_snapshot_name(names)[i] != '\\',
{
    reveal_strlit("g");
    reveal_strlit("s");
    reveal_strlit("-a");
    reveal_strlit("-gates");
    let t = gates_snapshot_name(names);
    match names {
        JudgeNames::Attempt { generation, attempt } => {
            crate::text::lemma_decimal_no_separator(generation as nat);
            crate::text::lemma_decimal_no_separator(attempt as nat);
            let x = "g"@ + decimal(generation as nat) + "-a"@;
            let y = x + decimal(attempt as nat);
            assert(t == y + "-gates"@);
            assert forall|i: int| 0 <= i < t.len() implies #[trigger] t[i] != '/' && t[i] != '\\' by {
                if i >= y.len() {
                    assert(t[i] == "-gates"@[i - y.len()]);
                } else if i >= x.len() {
                    assert(t[i] == decimal(attempt as nat)[i - x.len()]);
                } else if i >= 1 + decimal(generation as nat).len() {
                    assert(t[i] == "-a"@[i - 1 - decimal(generation as nat).len()]);
                } else if i >= 1 {
                    assert(t[i] == decimal(generation as nat)[i - 1]);
                } else {
                    assert(t[i] == "g"@[0]);
                }
            }
        },
        JudgeNames::Integration { sequence } => {
            crate::text::lemma_decimal_no_separator(sequence as nat);
            let x = "s"@ + decimal(sequence as nat);
            assert(t == x + "-gates"@);
            assert forall|i: int| 0 <= i < t.len() implies #[trigger] t[i] != '/' && t[i] != '\\' by {
                if i >= x.len() {
                    assert(t[i] == "-gates"@[i - x.len()]);
                } else if i >= 1 {
                    assert(t[i] == decimal(sequence as nat)[i - 1]);
                } else {
                    assert(t[i] == "s"@[0]);
                }
            }
        },
    }
}

/// A review pass's snapshot name holds no path separator, so its slot
/// stays inside the execution root.
proof fn lemma_review_snapshot_inside(names: JudgeNames, pass: u32)
    ensures
        forall|i: int| 0 <= i < review_snapshot_name(names, pass).len() ==> #[trigger] review_snapshot_name(names, pass)[i] != '/'
            && review_snapshot_name(names, pass)[i] != '\\',
{
    reveal_strlit("g");
    reveal_strlit("s");
    reveal_strlit("-a");
    reveal_strlit("-review");
    let t = review_snapshot_name(names, pass);
    let d = decimal(pass as nat);
    crate::text::lemma_decimal_no_separator(pass as nat);
    let stem = match names {
        JudgeNames::Attempt { generation, attempt } => "g"@ + decimal(generation as nat) + "-a"@ + decimal(attempt as nat),
        JudgeNames::Integration { sequence } => "s"@ + decimal(sequence as nat),
    };
    assert forall|i: int| 0 <= i < stem.len() implies #[trigger] stem[i] != '/' && stem[i] != '\\' by {
        match names {
            JudgeNames::Attempt { generation, attempt } => {
                crate::text::lemma_decimal_no_separator(generation as nat);
                crate::text::lemma_decimal_no_separator(attempt as nat);
                let x = "g"@ + decimal(generation as nat) + "-a"@;
                if i >= x.len() {
                    assert(stem[i] == decimal(attempt as nat)[i - x.len()]);
                } else if i >= 1 + decimal(generation as nat).len() {
                    assert(stem[i] == "-a"@[i - 1 - decimal(generation as nat).len()]);
                } else if i >= 1 {
                    assert(stem[i] == decimal(generation as nat)[i - 1]);
                } else {
                    assert(stem[i] == "g"@[0]);
                }
            },
            JudgeNames::Integration { sequence } => {
                crate::text::lemma_decimal_no_separator(sequence as nat);
                if i >= 1 {
                    assert(stem[i] == decimal(sequence as nat)[i - 1]);
                } else {
                    assert(stem[i] == "s"@[0]);
                }
            },
        }
    }
    let y = stem + "-review"@;
    assert(t == y + d);
    assert forall|i: int| 0 <= i < t.len() implies #[trigger] t[i] != '/' && t[i] != '\\' by {
        if i >= y.len() {
            assert(t[i] == d[i - y.len()]);
        } else if i >= stem.len() {
            assert(t[i] == "-review"@[i - stem.len()]);
        } else {
            assert(t[i] == stem[i]);
        }
    }
}

/// The identity of re-ask `k` of a judgement's first review pass.
pub open spec fn review_reask_id(identities: JudgeIdentities, k: u32) -> InvocationId {
    InvocationId { scope: identities.scope_spec(), role: InvocationRole::ReviewReask { reask: 0, ordinal: k } }
}

/// The identity of a judgement's first review pass.
pub open spec fn first_review_pass(identities: JudgeIdentities) -> InvocationId {
    InvocationId { scope: identities.scope_spec(), role: InvocationRole::ReviewPass { pass: 0, ordinal: 0 } }
}

/// The refusal of a review pass bound to an agent no adapter answers to.
pub open spec fn no_review_adapter_text(pass: u32, agent: Seq<char>) -> Seq<char> {
    "review pass "@ + decimal(pass as nat) + " is bound to agent `"@ + agent
        + "` and no adapter answers to that name; pre-flight probed the agents this run recorded and this is not one of them"@
}

/// The name of the snapshot a judgement's gates run on.
pub open spec fn gates_snapshot_name(names: JudgeNames) -> Seq<char> {
    match names {
        JudgeNames::Attempt { generation, attempt } => "g"@ + decimal(generation as nat) + "-a"@ + decimal(attempt as nat) + "-gates"@,
        JudgeNames::Integration { sequence } => "s"@ + decimal(sequence as nat) + "-gates"@,
    }
}

impl JudgeNames {
    fn gates(self) -> (n: SnapshotName)
        ensures
            n.0@ == gates_snapshot_name(self),
    {
        match self {
            JudgeNames::Attempt { generation, attempt } => SnapshotName::gates(generation, attempt),
            JudgeNames::Integration { sequence } => SnapshotName::integration(sequence),
        }
    }

    fn review(self, pass: u32) -> (n: SnapshotName)
        ensures
            match self {
                JudgeNames::Attempt { generation, attempt } => n.0@ == "g"@ + decimal(generation as nat) + "-a"@ + decimal(
                    attempt as nat,
                ) + "-review"@ + decimal(pass as nat),
                JudgeNames::Integration { sequence } => n.0@ == "s"@ + decimal(sequence as nat) + "-review"@ + decimal(pass as nat),
            },
    {
        match self {
            JudgeNames::Attempt { generation, attempt } => SnapshotName::review(generation, attempt, pass),
            JudgeNames::Integration { sequence } => SnapshotName::integration_review(sequence, pass),
        }
    }
}

/// The identities a judgement's processes take.
#[derive(Clone, Copy, Debug, PartialEq, Eq, Structural)]
pub enum JudgeIdentities {
    Attempt(AttemptIdentities),
    Sequence(SequenceIdentities),
}

impl JudgeIdentities {
    pub open spec fn scope_spec(self) -> InvocationScope {
        match self {
            JudgeIdentities::Attempt(ids) => ids.scope(),
            JudgeIdentities::Sequence(ids) => InvocationScope::Sequence { sequence: ids.sequence },
        }
    }

    fn gate(self, gate: u32, ordinal: u32) -> (id: InvocationId)
        ensures
            id == (InvocationId { scope: self.scope_spec(), role: InvocationRole::Gate { gate, ordinal } }),
    {
        match self {
            JudgeIdentities::Attempt(ids) => ids.gate(gate, ordinal),
            JudgeIdentities::Sequence(ids) => ids.gate(gate, ordinal),
        }
    }

    fn review_reask(self, reask: u32, ordinal: u32) -> (id: InvocationId)
        ensures
            id == (InvocationId { scope: self.scope_spec(), role: InvocationRole::ReviewReask { reask, ordinal } }),
    {
        match self {
            JudgeIdentities::Attempt(ids) => ids.review_reask(reask, ordinal),
            JudgeIdentities::Sequence(ids) => ids.review_reask(reask, ordinal),
        }
    }

    /// The identities review pass `pass` reports its invocations under.
    pub fn invocations(self, pass: u32) -> (i: ReviewInvocations)
        ensures
            i.pass == (InvocationId { scope: self.scope_spec(), role: InvocationRole::ReviewPass { pass, ordinal: 0 } }),
            i.reask == (InvocationId { scope: self.scope_spec(), role: InvocationRole::ReviewReask { reask: pass, ordinal: 0 } }),
    {
        match self {
            JudgeIdentities::Attempt(ids) => ReviewInvocations { pass: ids.review_pass(pass, 0), reask: ids.review_reask(pass, 0) },
            JudgeIdentities::Sequence(ids) => ReviewInvocations { pass: ids.review_pass(pass, 0), reask: ids.review_reask(pass, 0) },
        }
    }
}

/// When a judgement's snapshots are removed.
#[derive(Clone, Copy, Debug, PartialEq, Eq, Structural)]
pub enum SnapshotDisposal {
    AsEachRoleFinishes,
    AfterTheTerminal,
}

/// What is judged, and how.
#[derive(Clone, Debug, PartialEq, Eq)]
pub struct Subject {
    pub snapshot: SnapshotOf,
    pub disposal: SnapshotDisposal,
    pub names: JudgeNames,
    pub identities: JudgeIdentities,
    pub stem: String,
    pub gates: Vec<GatePlan>,
    pub reviewers: Vec<ReviewerPlan>,
    pub inputs: ReviewInputs,
    pub prior_failure: Option<AttemptFailure>,
}

/// Why a judgement did not complete: the runner could not run a process,
/// or something else refused.
#[derive(Clone, Debug, PartialEq, Eq)]
pub enum JudgeError {
    Runner(RunnerError),
    Other(UpstrokeError),
}

impl JudgeError {
    /// The engine error a judgement error is.
    pub fn into_error(self) -> (e: UpstrokeError)
        ensures
            e == match self {
                JudgeError::Runner(r) => UpstrokeError::Runner { message: r.message },
                JudgeError::Other(o) => o,
            },
    {
        match self {
            JudgeError::Runner(r) => r.into_error(),
            JudgeError::Other(o) => o,
        }
    }
}

/// The number a position takes, saturated at the largest `u32`.
pub open spec fn ordinal_spec(i: int) -> u32 {
    if i <= u32::MAX {
        i as u32
    } else {
        u32::MAX
    }
}

fn ordinal(i: usize) -> (n: u32)
    ensures
        n == ordinal_spec(i as int),
{
    if i <= 0xffff_ffff {
        i as u32
    } else {
        u32::MAX
    }
}

pub open spec fn no_agent_text(id: InvocationId) -> Seq<char> {
    "`"@ + render_spec(id)
        + "` is a slotted invocation and its request names no agent; the pair it would take is `{agent, pool?}` and there is no agent to key it by"@
}

/// The names of `gates`.
pub open spec fn gate_names(gates: Seq<GatePlan>) -> Seq<Seq<char>> {
    gates.map_values(|g: GatePlan| g.name@)
}

/// The laws a judgement keeps, of the gates named `names`, the number of
/// review passes planned, the identities its processes take and the failure it
/// starts with: the gates run in order and stop at the first refusal, whose
/// cause is the failure; review passes run only after every gate passed and
/// stop at the first that fails; a failure before the judgement runs
/// nothing and survives.
pub open spec fn judged(
    names: Seq<Seq<char>>,
    reviewers: nat,
    identities: JudgeIdentities,
    prior: Option<AttemptFailure>,
    j: Judgement,
) -> bool {
    let g = j.gates@;
    let refused = g.len() > 0 && !g.last().passed_spec();
    &&& g.len() <= names.len()
    &&& j.reviews@.len() <= reviewers
    &&& forall|i: int| 0 <= i < g.len() ==> (#[trigger] g[i]).invocation == (InvocationId {
        scope: identities.scope_spec(),
        role: InvocationRole::Gate { gate: ordinal_spec(i), ordinal: 0 },
    })
    &&& forall|i: int| 0 <= i < g.len() - 1 ==> (#[trigger] g[i]).passed_spec()
    &&& match prior {
        Some(p) => g.len() == 0 && j.reviews@.len() == 0 && j.failure == Some(p),
        None => {
            &&& refused ==> failures_view(j.failure) == Some(
                gate_failure_view(
                    names[g.len() - 1],
                    gate_summary_spec(g.last().code, g.last().timed_out, g.last().output_limited),
                    tail_spec(g.last().log@, FEEDBACK_TAIL_CHARS as nat),
                ),
            ) && j.reviews@.len() == 0
            &&& !refused ==> g.len() == names.len()
            &&& forall|i: int| 0 <= i < j.reviews@.len() - 1 ==> !(#[trigger] j.reviews@[i]).failed
            &&& !refused ==> (j.failure is None <==> (j.reviews@.len() == reviewers && (j.reviews@.len() > 0
                ==> !j.reviews@.last().failed)))
            &&& !refused && j.failure is Some ==> j.reviews@.len() > 0 && j.reviews@.last().failed
        },
    }
}

/// What judging works with: the workspace, the hooks, the runner, the slot
/// pairs and the invocation ledger, the agents an adapter answers to, and
/// the review passes. What the runner and the passes were asked and
/// answered is what they keep of their own calls.
pub struct Judge<R: Runner, P: ReviewPasses> {
    pub manager: WorkspaceManager,
    pub hooks: Hooks,
    pub runner: R,
    pub slots: SlotAssertion,
    pub ledger: InvocationLedger,
    pub adapters: Vec<String>,
    pub reviews: P,
}

/// Whether running `request` reaches the runner: its invocation is not yet
/// registered, and where it takes a slot pair, it names an agent and no
/// pair is held.
pub open spec fn reaches_runner(ledger: InvocationLedger, slots: SlotAssertion, request: RunnerRequest) -> bool {
    &&& ledger.status(request.invocation) is None
    &&& is_slotted_spec(request.invocation) ==> request.agent is Some && slots.holder is None
}

impl<R: Runner, P: ReviewPasses> Judge<R, P> {
    /// What judges with `runner` and `reviews` in `manager`, nothing asked yet.
    pub fn new(
        manager: WorkspaceManager,
        hooks: Hooks,
        runner: R,
        slots: SlotAssertion,
        ledger: InvocationLedger,
        adapters: Vec<String>,
        reviews: P,
    ) -> (j: Self)
        ensures
            j.manager == manager,
            j.hooks == hooks,
            j.runner == runner,
            j.slots == slots,
            j.ledger == ledger,
            j.adapters == adapters,
            j.reviews == reviews,
    {
        Judge {
            manager,
            hooks,
            runner,
            slots,
            ledger,
            adapters,
            reviews,
        }
    }

    /// Runs `request` holding the slot pair it takes, where it takes one.
    fn run_registered(&mut self, request: &RunnerRequest, pool: Option<String>) -> (r: Result<Result<ProcessOutput, RunnerError>, UpstrokeError>)
        ensures
            final(self).ledger == old(self).ledger,
            final(self).manager == old(self).manager,
            final(self).hooks == old(self).hooks,
            final(self).adapters == old(self).adapters,
            old(self).slots.holder is None ==> final(self).slots.holder is None,
            r is Ok <==> !is_slotted_spec(request.invocation) || (request.agent is Some && old(self).slots.holder is None),
            is_slotted_spec(request.invocation) && request.agent is None ==> (r matches Err(e) && e.message_spec() == no_agent_text(
                request.invocation,
            )),
            is_slotted_spec(request.invocation) && request.agent is Some ==> (old(self).slots.holder matches Some((holder, _))
                ==> (r matches Err(e) && e.message_spec() == slot_taken_text(request.invocation, holder))),
            final(self).runner.asked() == if r is Ok {
                old(self).runner.asked().push(*request)
            } else {
                old(self).runner.asked()
            },
            final(self).runner.answered() == match r {
                Ok(answer) => old(self).runner.answered().push(answer),
                Err(_) => old(self).runner.answered(),
            },
            final(self).reviews == old(self).reviews,
    {
        let slotted = is_slotted(&request.invocation);
        if slotted {
            let agent = match &request.agent {
                Some(agent) => agent,
                None => {
                    let mut message = String::from_str("`");
                    message.append(request.invocation.render().as_str());
                    message.append(
                        "` is a slotted invocation and its request names no agent; the pair it would take is `{agent, pool?}` and there is no agent to key it by",
                    );
                    return Err(UpstrokeError::Refused { message });
                },
            };
            self.slots.acquire(&request.invocation, SlotPair { agent: agent.0.clone(), pool })?;
        }
        let output = self.runner.run(request);
        if slotted {
            let released = self.slots.release(&request.invocation);
            assert(released is Ok);
        }
        Ok(output)
    }

    /// Registers `request`'s invocation, runs it, and settles it: completed
    /// where the runner ran it, cancelled where it did not.
    fn execute_typed(&mut self, request: &RunnerRequest, pool: Option<String>) -> (r: Result<ProcessOutput, JudgeError>)
        ensures
            final(self).manager == old(self).manager,
            final(self).hooks == old(self).hooks,
            final(self).adapters == old(self).adapters,
            old(self).slots.holder is None ==> final(self).slots.holder is None,
            count_status(final(self).ledger.entries@, InvocationStatus::Running) == count_status(
                old(self).ledger.entries@,
                InvocationStatus::Running,
            ),
            old(self).ledger.status(request.invocation) is Some ==> (r matches Err(JudgeError::Other(e)) && e.message_spec()
                == already_registered_text(request.invocation)) && final(self).ledger == old(self).ledger,
            old(self).ledger.status(request.invocation) is None ==> final(self).ledger.status(request.invocation) == Some(
                if r is Ok {
                    InvocationStatus::Completed
                } else {
                    InvocationStatus::Cancelled
                },
            ) && final(self).ledger.entries@.len() == old(self).ledger.entries@.len() + 1 && final(self).ledger.duplicates == old(
                self,
            ).ledger.duplicates,
            old(self).ledger.status(request.invocation) is None && old(self).slots.holder is None ==> (r matches Err(
                JudgeError::Other(_),
            ) <==> is_slotted_spec(request.invocation) && request.agent is None),
            forall|other: InvocationId| other != request.invocation ==> #[trigger] final(self).ledger.status(other) == old(
                self,
            ).ledger.status(other),
            final(self).runner.asked() == if reaches_runner(old(self).ledger, old(self).slots, *request) {
                old(self).runner.asked().push(*request)
            } else {
                old(self).runner.asked()
            },
            reaches_runner(old(self).ledger, old(self).slots, *request) ==> final(self).runner.answered().len() == old(
                self,
            ).runner.answered().len() + 1 && final(self).runner.answered().drop_last() == old(self).runner.answered() && match r {
                Ok(output) => final(self).runner.answered().last() == Ok::<ProcessOutput, RunnerError>(output),
                Err(JudgeError::Runner(e)) => final(self).runner.answered().last() == Err::<ProcessOutput, RunnerError>(e),
                Err(JudgeError::Other(_)) => false,
            },
            !reaches_runner(old(self).ledger, old(self).slots, *request) ==> final(self).runner.answered() == old(self).runner.answered()
                && r matches Err(JudgeError::Other(_)),
            final(self).reviews == old(self).reviews,
            old(self).ledger.status(request.invocation) is None && is_slotted_spec(request.invocation) && request.agent is None ==> (
            r matches Err(JudgeError::Other(e)) && e.message_spec() == no_agent_text(request.invocation)),
            old(self).ledger.status(request.invocation) is None && is_slotted_spec(request.invocation) && request.agent is Some && (old(
                self,
            ).slots.holder matches Some((holder, _))) ==> (r matches Err(JudgeError::Other(e)) && e.message_spec() == slot_taken_text(
                request.invocation,
                old(self).slots.holder.unwrap().0,
            )),
    {
        match self.ledger.register(&request.invocation) {
            Ok(()) => {},
            Err(e) => {
                return Err(JudgeError::Other(e));
            },
        }
        match self.run_registered(request, pool) {
            Ok(Ok(output)) => {
                let settled = self.ledger.complete(&request.invocation);
                assert(settled is Ok);
                Ok(output)
            },
            Ok(Err(error)) => {
                let settled = self.ledger.cancel(&request.invocation);
                assert(settled is Ok);
                Err(JudgeError::Runner(error))
            },
            Err(error) => {
                let settled = self.ledger.cancel(&request.invocation);
                assert(settled is Ok);
                Err(JudgeError::Other(error))
            },
        }
    }

    /// Registers, runs and settles the process `request` asks for.
    pub fn execute(&mut self, request: &RunnerRequest, pool: Option<String>) -> (r: Result<ProcessOutput, UpstrokeError>)
        ensures
            final(self).manager == old(self).manager,
            final(self).hooks == old(self).hooks,
            old(self).slots.holder is None ==> final(self).slots.holder is None,
            count_status(final(self).ledger.entries@, InvocationStatus::Running) == count_status(
                old(self).ledger.entries@,
                InvocationStatus::Running,
            ),
            old(self).ledger.status(request.invocation) is Some ==> (r matches Err(e) && e.message_spec() == already_registered_text(
                request.invocation,
            )) && final(self).ledger == old(self).ledger,
            old(self).ledger.status(request.invocation) is None ==> final(self).ledger.status(request.invocation) == Some(
                if r is Ok {
                    InvocationStatus::Completed
                } else {
                    InvocationStatus::Cancelled
                },
            ),
            old(self).ledger.status(request.invocation) is None && is_slotted_spec(request.invocation) && request.agent is None ==> (
            r matches Err(e) && e.message_spec() == no_agent_text(request.invocation)),
            old(self).ledger.status(request.invocation) is None && is_slotted_spec(request.invocation) && request.agent is Some && (old(
                self,
            ).slots.holder matches Some((holder, _))) ==> (r matches Err(e) && e.message_spec() == slot_taken_text(
                request.invocation,
                old(self).slots.holder.unwrap().0,
            )),
            forall|other: InvocationId| other != request.invocation ==> #[trigger] final(self).ledger.status(other) == old(
                self,
            ).ledger.status(other),
            final(self).runner.asked() == if reaches_runner(old(self).ledger, old(self).slots, *request) {
                old(self).runner.asked().push(*request)
            } else {
                old(self).runner.asked()
            },
            reaches_runner(old(self).ledger, old(self).slots, *request) ==> final(self).runner.answered().len() == old(
                self,
            ).runner.answered().len() + 1 && final(self).runner.answered().drop_last() == old(self).runner.answered() && match r {
                Ok(output) => final(self).runner.answered().last() == Ok::<ProcessOutput, RunnerError>(output),
                Err(_) => final(self).runner.answered().last() is Err,
            },
            !reaches_runner(old(self).ledger, old(self).slots, *request) ==> final(self).runner.answered() == old(self).runner.answered(),
            old(self).ledger.status(request.invocation) is None ==> final(self).ledger.entries@.len() == old(self).ledger.entries@.len() + 1
                && final(self).ledger.duplicates == old(self).ledger.duplicates,
            final(self).reviews == old(self).reviews,
    {
        match self.execute_typed(request, pool) {
            Ok(output) => Ok(output),
            Err(e) => Err(e.into_error()),
        }
    }

    fn verdict(&mut self, request: &RunnerRequest) -> (r: Result<Verdict, JudgeError>)
        ensures
            final(self).manager == old(self).manager,
            final(self).hooks == old(self).hooks,
            final(self).adapters == old(self).adapters,
            old(self).slots.holder is None ==> final(self).slots.holder is None,
            count_status(final(self).ledger.entries@, InvocationStatus::Running) == count_status(
                old(self).ledger.entries@,
                InvocationStatus::Running,
            ),
            r matches Ok(v) ==> v.invocation == request.invocation && v.workspace == request.workspace,
            old(self).ledger.status(request.invocation) is Some ==> (r matches Err(JudgeError::Other(e)) && e.message_spec()
                == already_registered_text(request.invocation)) && final(self).ledger == old(self).ledger,
            old(self).ledger.status(request.invocation) is None ==> final(self).ledger.status(request.invocation) == Some(
                if r is Ok {
                    InvocationStatus::Completed
                } else {
                    InvocationStatus::Cancelled
                },
            ) && final(self).ledger.entries@.len() == old(self).ledger.entries@.len() + 1,
            forall|other: InvocationId| other != request.invocation ==> #[trigger] final(self).ledger.status(other) == old(
                self,
            ).ledger.status(other),
            final(self).runner.asked() == if reaches_runner(old(self).ledger, old(self).slots, *request) {
                old(self).runner.asked().push(*request)
            } else {
                old(self).runner.asked()
            },
            reaches_runner(old(self).ledger, old(self).slots, *request) ==> final(self).runner.answered().len() == old(
                self,
            ).runner.answered().len() + 1 && final(self).runner.answered().drop_last() == old(self).runner.answered() && (r is Err
                ==> final(self).runner.answered().last() is Err),
            !reaches_runner(old(self).ledger, old(self).slots, *request) ==> final(self).runner.answered() == old(self).runner.answered(),
            r matches Ok(v) ==> final(self).runner.answered().last() is Ok && reports(v, final(self).runner.answered().last()->Ok_0),
            final(self).reviews == old(self).reviews,
            r is Ok ==> reaches_runner(old(self).ledger, old(self).slots, *request),
    {
        let output = self.execute_typed(request, None)?;
        Ok(verdict_of(request, output))
    }

    fn snapshot(&mut self, name: &SnapshotName, of: &SnapshotOf) -> (r: Result<Snapshot, UpstrokeError>)
        ensures
            r matches Ok(s) ==> s.path@ == old(self).manager.root@ + "/"@ + "snapshot-"@ + name.0@,
            r matches Ok(s) ==> s.slot == (Slot::Snapshot { name: name.0 }) && final(self).manager.has_worktree_spec(s.slot)
                && final(self).manager.has_intent_spec(s.slot),
            r is Ok <==> crate::workspace::snapshot_owed(old(self).manager, old(self).hooks.armed, Slot::Snapshot { name: name.0 }, of.input_spec()),
            r is Ok <==> crate::workspace::snapshot_named_owed(old(self).manager, old(self).hooks.armed, name.0@, of.input_spec()),
            r is Ok ==> forall|n: Seq<char>| n != "snapshot-"@ + name.0@ ==> #[trigger] crate::workspace::worktree_at(final(self).manager.worktrees@, n)
                == crate::workspace::worktree_at(old(self).manager.worktrees@, n) && crate::workspace::has_intent(final(self).manager.intents@, n)
                == crate::workspace::has_intent(old(self).manager.intents@, n),
            r is Ok ==> final(self).hooks.armed == old(self).hooks.armed,
            final(self).manager.root == old(self).manager.root,
            final(self).ledger == old(self).ledger,
            final(self).slots == old(self).slots,
            final(self).adapters == old(self).adapters,
            final(self).runner == old(self).runner,
            final(self).reviews == old(self).reviews,
    {
        let input = of.input();
        self.manager.add_snapshot(&mut self.hooks, name, &input)
    }

    fn has_adapter(&self, agent: &str) -> (b: bool)
        ensures
            b == exists|i: int| 0 <= i < self.adapters@.len() && (#[trigger] self.adapters@[i])@ == agent@,
    {
        let n = self.adapters.len();
        let mut i: usize = 0;
        while i < n
            invariant
                n == self.adapters.len(),
                i <= n,
                forall|j: int| 0 <= j < i ==> (#[trigger] self.adapters@[j])@ != agent@,
            decreases n - i,
        {
            if crate::text::same_text(self.adapters[i].as_str(), agent) {
                return true;
            }
            i = i + 1;
        }
        false
    }

    /// Judges `subject`: its gates on one snapshot, stopping at the first
    /// that refuses, then each review pass on a snapshot of its own while
    /// nothing has failed. Each verdict reports what the runner answered for
    /// its gate. Each finished pass is charged to `account` before its
    /// invocations are registered and settled; the ledger gains one
    /// registration per gate run and, per pass, the invocations it reported.
    pub fn judge<A: ReviewAccount>(&mut self, subject: &Subject, account: &mut A) -> (r: Result<Judgement, JudgeError>)
        ensures
            old(self).slots.holder is None ==> final(self).slots.holder is None,
            count_status(final(self).ledger.entries@, InvocationStatus::Running) == count_status(
                old(self).ledger.entries@,
                InvocationStatus::Running,
            ),
            r matches Ok(j) ==> judged(gate_names(subject.gates@), subject.reviewers@.len(), subject.identities, subject.prior_failure, j),
            r matches Ok(j) ==> forall|i: int| 0 <= i < j.reviews@.len() ==> (#[trigger] j.reviews@[i]).agent@ == subject.reviewers@[i].agent.0@
                && exists|k: int| 0 <= k < old(self).adapters@.len() && (#[trigger] old(self).adapters@[k])@ == subject.reviewers@[i].agent.0@,
            final(self).adapters == old(self).adapters,
            subject.prior_failure is Some ==> r is Ok,
            subject.gates@.len() == 0 && subject.reviewers@.len() == 0 ==> r is Ok,
            r matches Ok(j) ==> forall|i: int| 0 <= i < j.gates@.len() ==> (#[trigger] j.gates@[i]).workspace@ == old(self).manager.root@
                + "/"@ + "snapshot-"@ + gates_snapshot_name(subject.names),
            forall|id: InvocationId| old(self).ledger.status(id) is Some ==> #[trigger] final(self).ledger.status(id) == old(
                self,
            ).ledger.status(id),
            r is Ok ==> ledger_grown(old(self).ledger, final(self).ledger, subject.identities),
            r matches Ok(j) ==> registered_within(old(self).ledger, final(self).ledger, subject.identities, j.gates@.len(), j.reviews@.len()),
            r is Ok && subject.disposal == SnapshotDisposal::AsEachRoleFinishes ==> nothing_left(old(self).manager, final(self).manager),
            r matches Ok(j) ==> forall|i: int| 0 <= i < j.gates@.len() ==> (#[trigger] j.gates@[i]).invocation == gate_id(subject.identities, i)
                && final(self).ledger.status(j.gates@[i].invocation) == Some(InvocationStatus::Completed),
            subject.prior_failure is Some ==> final(self).manager == old(self).manager && final(self).ledger == old(self).ledger
                && final(self).hooks == old(self).hooks && final(self).slots == old(self).slots,
            subject.prior_failure is None && subject.gates@.len() > 0 && !crate::workspace::snapshot_named_owed(
                old(self).manager,
                old(self).hooks.armed,
                gates_snapshot_name(subject.names),
                subject.snapshot.input_spec(),
            ) ==> (r matches Err(JudgeError::Other(_)) && final(self).ledger == old(self).ledger),
            subject.prior_failure is None && subject.gates@.len() > 0 && crate::workspace::snapshot_named_owed(
                old(self).manager,
                old(self).hooks.armed,
                gates_snapshot_name(subject.names),
                subject.snapshot.input_spec(),
            ) && old(self).ledger.status(first_gate(subject.identities)) is Some ==> (r matches Err(JudgeError::Other(e))
                && e.message_spec() == already_registered_text(first_gate(subject.identities)) && final(self).ledger == old(self).ledger),
            subject.prior_failure is None && subject.gates@.len() > 0 && crate::workspace::snapshot_named_owed(
                old(self).manager,
                old(self).hooks.armed,
                gates_snapshot_name(subject.names),
                subject.snapshot.input_spec(),
            ) && old(self).ledger.status(first_gate(subject.identities)) is None ==> final(self).ledger.status(
                first_gate(subject.identities),
            ) is Some && final(self).ledger.status(first_gate(subject.identities)) != Some(InvocationStatus::Running),
            subject.prior_failure is None && subject.gates@.len() == 0 && subject.reviewers@.len() > 0
                && crate::workspace::snapshot_named_owed(
                old(self).manager,
                old(self).hooks.armed,
                review_snapshot_name(subject.names, 0),
                subject.snapshot.input_spec(),
            ) && !(exists|k: int| 0 <= k < old(self).adapters@.len() && (#[trigger] old(self).adapters@[k])@ == subject.reviewers@[0].agent.0@)
                ==> (r matches Err(JudgeError::Other(UpstrokeError::Refused { message })) && message@ == no_review_adapter_text(
                0,
                subject.reviewers@[0].agent.0@,
            ) && final(self).ledger == old(self).ledger),
            r matches Ok(j) ==> gates_asked(old(self).runner.asked(), final(self).runner.asked(), *subject, old(self).manager.root@, j.gates@.len()),
            r matches Ok(j) ==> gates_answered(old(self).runner.answered(), final(self).runner.answered(), j.gates@),
            final(self).reviews.answered().len() >= old(self).reviews.answered().len(),
            final(self).reviews.answered().subrange(0, old(self).reviews.answered().len() as int) == old(self).reviews.answered(),
            final(account).charged().len() >= old(account).charged().len(),
            final(account).charged().subrange(0, old(account).charged().len() as int) == old(account).charged(),
            subject.prior_failure is None && subject.gates@.len() == 0 && old(self).ledger.status(first_review_pass(subject.identities))
                is Some && final(self).reviews.answered().len() > old(self).reviews.answered().len() && final(self).reviews.answered()[old(
                self,
            ).reviews.answered().len() as int] is Ok && final(self).reviews.answered()[old(self).reviews.answered().len() as int]->Ok_0.invocations
                > 0 ==> (r matches Err(JudgeError::Other(e)) && e is Refused && e.message_spec() == already_registered_text(
                first_review_pass(subject.identities),
            )) && final(account).charged().len() == old(account).charged().len() + 1 && final(account).charged().last().cost_micros
                == final(self).reviews.answered()[old(self).reviews.answered().len() as int]->Ok_0.cost_micros,
            r matches Ok(j) ==> final(account).charged() == old(account).charged() + j.reviews@ && passes_answered(
                old(self).reviews.answered(),
                final(self).reviews.answered(),
                j.reviews@,
            ) && final(self).ledger.entries@.len() == old(self).ledger.entries@.len() + j.gates@.len() + total(
                review_counts(final(self).reviews.answered().subrange(old(self).reviews.answered().len() as int, final(self).reviews.answered().len() as int)),
            ),
            r matches Ok(j) ==> reviews_asked(
                old(self).reviews.asked(),
                final(self).reviews.asked(),
                *subject,
                old(self).manager.root@,
                j.reviews@.len(),
            ),
            subject.prior_failure is None && subject.gates@.len() > 0 && crate::workspace::snapshot_named_owed(
                old(self).manager,
                old(self).hooks.armed,
                gates_snapshot_name(subject.names),
                subject.snapshot.input_spec(),
            ) && old(self).ledger.status(first_gate(subject.identities)) is None ==> final(self).runner.asked().len() > old(
                self,
            ).runner.asked().len() && request_view(final(self).runner.asked()[old(self).runner.asked().len() as int])
                == gate_request_view(*subject, old(self).manager.root@, 0),
            subject.prior_failure is None && subject.gates@.len() == 0 && subject.reviewers@.len() > 0
                && crate::workspace::snapshot_named_owed(
                old(self).manager,
                old(self).hooks.armed,
                review_snapshot_name(subject.names, 0),
                subject.snapshot.input_spec(),
            ) && (exists|k: int| 0 <= k < old(self).adapters@.len() && (#[trigger] old(self).adapters@[k])@ == subject.reviewers@[0].agent.0@)
                ==> final(self).reviews.asked().len() > old(self).reviews.asked().len() && review_asked(
                final(self).reviews.asked()[old(self).reviews.asked().len() as int],
                *subject,
                old(self).manager.root@,
                0,
            ),
            subject.prior_failure is None && subject.gates@.len() > 0 && subject.gates@.len() <= u32::MAX && subject.reviewers@.len() == 0
                && old(self).hooks.armed is None && crate::workspace::snapshot_named_owed(
                old(self).manager,
                old(self).hooks.armed,
                gates_snapshot_name(subject.names),
                subject.snapshot.input_spec(),
            ) && (forall|i: int| 0 <= i < subject.gates@.len() ==> old(self).ledger.status(#[trigger] gate_id(subject.identities, i)) is None)
                && (forall|k: int| old(self).runner.answered().len() <= k < final(self).runner.answered().len()
                ==> #[trigger] final(self).runner.answered()[k] is Ok) ==> r is Ok,
            subject.prior_failure is None && subject.gates@.len() > 0 && subject.gates@.len() <= u32::MAX && old(self).hooks.armed is None
                && crate::workspace::snapshot_named_owed(
                old(self).manager,
                old(self).hooks.armed,
                gates_snapshot_name(subject.names),
                subject.snapshot.input_spec(),
            ) && (forall|i: int| 0 <= i < subject.gates@.len() ==> old(self).ledger.status(#[trigger] gate_id(subject.identities, i)) is None)
                && (forall|k: int| old(self).runner.answered().len() <= k < final(self).runner.answered().len()
                ==> #[trigger] final(self).runner.answered()[k] is Ok) && (exists|k: int| old(self).runner.answered().len() <= k
                < final(self).runner.answered().len() && (#[trigger] final(self).runner.answered()[k])->Ok_0.code != Some(0i32))
                ==> r is Ok,
            subject.prior_failure is None && subject.gates@.len() == 0 && subject.reviewers@.len() == 1 && old(self).hooks.armed is None
                    && crate::workspace::snapshot_named_owed(
                    old(self).manager,
                    old(self).hooks.armed,
                    review_snapshot_name(subject.names, 0),
                    subject.snapshot.input_spec(),
            ) && (exists|k: int| 0 <= k < old(self).adapters@.len() && (#[trigger] old(self).adapters@[k])@ == subject.reviewers@[0].agent.0@)
                    && old(self).ledger.status(first_review_pass(subject.identities)) is None && (forall|k: u32| old(self).ledger.status(
                    #[trigger] review_reask_id(subject.identities, k),
            ) is None) && (forall|k: int| old(self).reviews.answered().len() <= k
                < final(self).reviews.answered().len() ==> #[trigger] final(self).reviews.answered()[k] is Ok) ==> r is Ok,
            subject.prior_failure is Some ==> final(self).runner.asked() == old(self).runner.asked() && final(self).runner.answered()
                == old(self).runner.answered() && final(self).reviews.asked() == old(self).reviews.asked() && final(account).charged()
                == old(account).charged(),
    {
        let ghost r0 = self.runner.asked();
        let ghost a0 = self.runner.answered();
        let ghost rr0 = self.reviews.asked();
        let ghost rp0 = self.reviews.answered();
        let ghost ch0 = account.charged();
        let ghost refused_pass = subject.prior_failure is None && subject.gates@.len() == 0 && old(self).ledger.status(
            first_review_pass(subject.identities),
        ) is Some;
        let ghost gates_first = subject.prior_failure is None && subject.gates@.len() > 0 && crate::workspace::snapshot_named_owed(
            old(self).manager,
            old(self).hooks.armed,
            gates_snapshot_name(subject.names),
            subject.snapshot.input_spec(),
        ) && old(self).ledger.status(first_gate(subject.identities)) is None;
        let ghost gates_free = subject.prior_failure is None && subject.gates@.len() <= u32::MAX && old(self).hooks.armed is None
            && forall|i: int| 0 <= i < subject.gates@.len() ==> old(self).ledger.status(#[trigger] gate_id(subject.identities, i)) is None;
        let ghost reviews_free = subject.prior_failure is None && subject.gates@.len() == 0 && subject.reviewers@.len() == 1 && old(self).hooks.armed is None
            && crate::workspace::snapshot_named_owed(
            old(self).manager,
            old(self).hooks.armed,
            review_snapshot_name(subject.names, 0),
            subject.snapshot.input_spec(),
        ) && (exists|k: int| 0 <= k < old(self).adapters@.len() && (#[trigger] old(self).adapters@[k])@ == subject.reviewers@[0].agent.0@)
            && old(self).ledger.status(first_review_pass(subject.identities)) is None && (forall|k: u32| old(self).ledger.status(
            #[trigger] review_reask_id(subject.identities, k),
        ) is None);
        let ghost reviews_first = subject.prior_failure is None && subject.gates@.len() == 0 && subject.reviewers@.len() > 0
            && crate::workspace::snapshot_named_owed(
            old(self).manager,
            old(self).hooks.armed,
            review_snapshot_name(subject.names, 0),
            subject.snapshot.input_spec(),
        ) && exists|k: int| 0 <= k < old(self).adapters@.len() && (#[trigger] old(self).adapters@[k])@ == subject.reviewers@[0].agent.0@;
        proof {
            assert(rp0.subrange(0, rp0.len() as int) =~= rp0);
            assert(ch0.subrange(0, ch0.len() as int) =~= ch0);
        }
        let ghost root0 = self.manager.root@;
        let mut failure: Option<AttemptFailure> = match &subject.prior_failure {
            Some(f) => Some(f.duplicate()),
            None => None,
        };
        let ghost running = count_status(self.ledger.entries@, InvocationStatus::Running);
        let ghost free = self.slots.holder is None;
        let mut gates: Vec<Verdict> = Vec::new();
        if subject.gates.len() > 0 && failure.is_none() {
            let gates_name = subject.names.gates();
            let snapshot = match self.snapshot(&gates_name, &subject.snapshot) {
                Ok(s) => s,
                Err(e) => {
                    return Err(JudgeError::Other(e));
                },
            };
            let ghost taken = self.manager;
            proof {
                assert(self.runner.asked().subrange(0, r0.len() as int) =~= r0);
                assert(self.runner.answered().subrange(0, a0.len() as int) =~= a0);
            }
            let n = subject.gates.len();
            let mut index: usize = 0;
            while index < n
                invariant_except_break
                    n == subject.gates@.len(),
                    index <= n,
                    gates@.len() == index,
                    subject.prior_failure is None,
                    failure is None,
                    forall|i: int| 0 <= i < gates@.len() ==> (#[trigger] gates@[i]).passed_spec(),
                    index == 0 ==> self.ledger == old(self).ledger,
                invariant
                    crate::workspace::snapshot_named_owed(
                        old(self).manager,
                        old(self).hooks.armed,
                        gates_snapshot_name(subject.names),
                        subject.snapshot.input_spec(),
                    ),
                    gates@.len() > 0 ==> old(self).ledger.status(first_gate(subject.identities)) is None,
                    ledger_grown(old(self).ledger, self.ledger, subject.identities),
                    registered_within(old(self).ledger, self.ledger, subject.identities, gates@.len(), 0),
                    forall|i: int| 0 <= i < gates@.len() ==> self.ledger.status(#[trigger] gates@[i].invocation) == Some(InvocationStatus::Completed),
                    gates@.len() > 0 ==> self.ledger.status(first_gate(subject.identities)) == Some(InvocationStatus::Completed),
                    self.manager == taken,
                    gates_asked(r0, self.runner.asked(), *subject, root0, gates@.len()),
                    gates_answered(a0, self.runner.answered(), gates@),
                    self.reviews == old(self).reviews,
                    account.charged() == ch0,
                    self.hooks.armed == old(self).hooks.armed,
                    gates_first == (subject.prior_failure is None && subject.gates@.len() > 0 && crate::workspace::snapshot_named_owed(
                        old(self).manager,
                        old(self).hooks.armed,
                        gates_snapshot_name(subject.names),
                        subject.snapshot.input_spec(),
                    ) && old(self).ledger.status(first_gate(subject.identities)) is None),
                    gates_free == (subject.prior_failure is None && subject.gates@.len() <= u32::MAX && old(self).hooks.armed is None
                        && forall|i: int| 0 <= i < subject.gates@.len() ==> old(self).ledger.status(#[trigger] gate_id(subject.identities, i)) is None),
                    r0 == old(self).runner.asked(),
                    a0 == old(self).runner.answered(),
                    rr0 == old(self).reviews.asked(),
                    rp0 == old(self).reviews.answered(),
                    ch0 == old(account).charged(),
                    rp0.subrange(0, rp0.len() as int) == rp0,
                    ch0.subrange(0, ch0.len() as int) == ch0,
                    self.ledger.entries@.len() == old(self).ledger.entries@.len() + gates@.len(),
                    root0 == old(self).manager.root@,
                    snapshot.path@ == root0 + "/"@ + "snapshot-"@ + gates_snapshot_name(subject.names),
                    n == subject.gates@.len(),
                    gates@.len() <= n,
                    self.adapters == old(self).adapters,
                    self.manager.root == old(self).manager.root,
                    forall|i: int| 0 <= i < gates@.len() ==> (#[trigger] gates@[i]).workspace@ == snapshot.path@,
                    free == (old(self).slots.holder is None),
                    running == count_status(old(self).ledger.entries@, InvocationStatus::Running),
                    free ==> self.slots.holder is None,
                    count_status(self.ledger.entries@, InvocationStatus::Running) == running,
                    forall|i: int| 0 <= i < gates@.len() ==> (#[trigger] gates@[i]).invocation == (InvocationId {
                        scope: subject.identities.scope_spec(),
                        role: InvocationRole::Gate { gate: ordinal_spec(i), ordinal: 0 },
                    }),
                ensures
                    gates@.len() <= n,
                    forall|i: int| 0 <= i < gates@.len() - 1 ==> (#[trigger] gates@[i]).passed_spec(),
                    (gates@.len() > 0 && !gates@.last().passed_spec()) ==> failures_view(failure) == Some(
                        gate_failure_view(
                            gate_names(subject.gates@)[gates@.len() - 1],
                            gate_summary_spec(gates@.last().code, gates@.last().timed_out, gates@.last().output_limited),
                            tail_spec(gates@.last().log@, FEEDBACK_TAIL_CHARS as nat),
                        ),
                    ),
                    !(gates@.len() > 0 && !gates@.last().passed_spec()) ==> gates@.len() == n && failure is None,
                decreases n - index,
            {
                let gate = &subject.gates[index];
                let invocation = subject.identities.gate(ordinal(index), 0);
                let request = gate_request(gate.command.duplicate(), snapshot.path.clone(), gate.timeout_secs, invocation);
                proof {
                    assert(index == 0 ==> invocation == first_gate(subject.identities));
                    assert(index > 0 ==> invocation != first_gate(subject.identities));
                }
                let ghost asked = self.runner.asked();
                let ghost answered = self.runner.answered();
                let ghost ledger0 = self.ledger;
                let ghost slots0 = self.slots;
                proof {
                    if gates_free {
                        assert(invocation == gate_id(subject.identities, index as int));
                        assert(old(self).ledger.status(gate_id(subject.identities, index as int)) is None);
                        if self.ledger.status(invocation) is Some {
                            let i = choose|i: int| 0 <= i < gates@.len() && #[trigger] ordinal_spec(i) == ordinal_spec(index as int);
                            assert(false);
                        }
                        assert(reaches_runner(ledger0, slots0, request));
                    }
                    if gates_first && index == 0 {
                        assert(reaches_runner(ledger0, slots0, request));
                    }
                    assert(request_view(request) == gate_request_view(*subject, root0, gates@.len() as int));
                }
                let judged_gate = self.verdict(&request);
                proof {
                    if gates_first && index == 0 {
                        assert(asked.len() == r0.len());
                        assert(self.runner.asked()[r0.len() as int] == request);
                    }
                    if gates_first && index > 0 {
                        assert(self.runner.asked()[r0.len() as int] == asked[r0.len() as int]);
                        assert(request_view(asked[r0.len() as int]) == gate_request_view(*subject, root0, 0));
                    }
                    if gates_free && judged_gate is Err {
                        assert(!(self.runner.answered()[self.runner.answered().len() - 1] is Ok));
                    }
                }
                let verdict = judged_gate?;
                proof {
                    assert(reaches_runner(ledger0, slots0, request));
                    assert(request_view(request) == gate_request_view(*subject, root0, gates@.len() as int));
                    assert forall|k: int| r0.len() <= k < self.runner.asked().len() implies request_view(#[trigger] self.runner.asked()[k])
                        == gate_request_view(*subject, root0, k - r0.len()) by {
                        if k < asked.len() {
                            assert(self.runner.asked()[k] == asked[k]);
                        }
                    }
                    assert(self.runner.asked().subrange(0, r0.len() as int) =~= asked.subrange(0, r0.len() as int));
                }
                let refused = !verdict.passed();
                if refused {
                    let summary = gate_summary(verdict.code, verdict.timed_out, verdict.output_limited);
                    let log_tail = tail(verdict.log.as_str(), FEEDBACK_TAIL_CHARS);
                    failure = Some(gate_failure(gate.name.as_str(), summary.as_str(), log_tail.as_str()));
                }
                let ghost gates0 = gates@;
                gates.push(verdict);
                proof {
                    let new_ans = self.runner.answered();
                    assert(new_ans.drop_last() == answered);
                    assert(answered.len() == a0.len() + gates0.len());
                    assert forall|i: int| 0 <= i < gates@.len() implies answered_with(new_ans[a0.len() + i], #[trigger] gates@[i]) by {
                        if i < gates@.len() - 1 {
                            assert(gates@[i] == gates0[i]);
                            assert(new_ans[a0.len() + i] == new_ans.drop_last()[a0.len() + i]);
                            assert(answered_with(answered[a0.len() + i], gates0[i]));
                        } else {
                            assert(gates@[i] == gates@.last());
                            assert(new_ans[a0.len() + i] == new_ans.last());
                        }
                    }
                    assert(answered.subrange(0, a0.len() as int) == a0);
                    assert(new_ans.subrange(0, a0.len() as int) =~= answered.subrange(0, a0.len() as int));
                    assert(new_ans.len() == a0.len() + gates@.len());
                    assert(new_ans.subrange(0, a0.len() as int) == a0);
                    assert(gates_answered(a0, new_ans, gates@));
                }
                if refused {
                    break;
                }
                index = index + 1;
            }
            if subject.disposal == SnapshotDisposal::AsEachRoleFinishes {
                proof {
                    lemma_gates_snapshot_inside(subject.names);
                    assert(crate::workspace::slot_own(snapshot.slot) == gates_snapshot_name(subject.names));
                }
                match self.manager.remove_snapshot(&mut self.hooks, &snapshot) {
                    Ok(()) => {},
                    Err(e) => {
                        return Err(JudgeError::Other(e));
                    },
                }
                proof { lemma_taken_and_removed(old(self).manager, taken, self.manager, snapshot.slot); }
            }
        }
        proof {
            if gates@.len() == 0 {
                assert(self.runner.asked().subrange(0, r0.len() as int) =~= r0);
                assert(self.runner.answered().subrange(0, a0.len() as int) =~= a0);
            }
            assert(self.reviews.asked().subrange(0, rr0.len() as int) =~= rr0);
        }
        let ghost gates_failed = gates@.len() > 0 && !gates@.last().passed_spec();
        let ghost pre = failure;
        let mut reviews: Vec<ReviewRecord> = Vec::new();
        let n = subject.reviewers.len();
        let mut index: usize = 0;
        while index < n && failure.is_none()
            invariant
                n == subject.reviewers@.len(),
                index <= n,
                forall|i: int| 0 <= i < gates@.len() - 1 ==> (#[trigger] gates@[i]).passed_spec(),
                gates_failed == (gates@.len() > 0 && !gates@.last().passed_spec()),
                reviews_free == (subject.prior_failure is None && subject.gates@.len() == 0 && subject.reviewers@.len() == 1 && old(self).hooks.armed is None
                            && crate::workspace::snapshot_named_owed(
                            old(self).manager,
                            old(self).hooks.armed,
                            review_snapshot_name(subject.names, 0),
                            subject.snapshot.input_spec(),
                ) && (exists|k: int| 0 <= k < old(self).adapters@.len() && (#[trigger] old(self).adapters@[k])@ == subject.reviewers@[0].agent.0@)
                            && old(self).ledger.status(first_review_pass(subject.identities)) is None && (forall|k: u32| old(self).ledger.status(
                            #[trigger] review_reask_id(subject.identities, k),
                ) is None)),
                reviews@.len() == index,
                free == (old(self).slots.holder is None),
                running == count_status(old(self).ledger.entries@, InvocationStatus::Running),
                free ==> self.slots.holder is None,
                count_status(self.ledger.entries@, InvocationStatus::Running) == running,
                subject.prior_failure is Some ==> pre is Some,
                gates_failed ==> pre is Some,
                forall|i: int| 0 <= i < reviews@.len() - 1 ==> !(#[trigger] reviews@[i]).failed,
                reviews@.len() > 0 ==> (reviews@.last().failed <==> failure is Some),
                reviews@.len() > 0 ==> subject.prior_failure is None && !gates_failed,
                reviews@.len() == 0 ==> failure == pre,
                self.adapters == old(self).adapters,
                self.manager.root == old(self).manager.root,
                index == 0 && subject.gates@.len() == 0 ==> self.manager == old(self).manager && self.hooks == old(self).hooks
                    && self.ledger == old(self).ledger,
                subject.prior_failure is None && subject.gates@.len() > 0 ==> crate::workspace::snapshot_named_owed(
                    old(self).manager,
                    old(self).hooks.armed,
                    gates_snapshot_name(subject.names),
                    subject.snapshot.input_spec(),
                ) && old(self).ledger.status(first_gate(subject.identities)) is None,
                subject.prior_failure is Some ==> self.manager == old(self).manager && self.hooks == old(self).hooks
                    && self.ledger == old(self).ledger && self.slots == old(self).slots,
                ledger_grown(old(self).ledger, self.ledger, subject.identities),
                registered_within(old(self).ledger, self.ledger, subject.identities, gates@.len(), reviews@.len()),
                forall|i: int| 0 <= i < gates@.len() ==> self.ledger.status(#[trigger] gates@[i].invocation) == Some(InvocationStatus::Completed),
                forall|i: int| 0 <= i < gates@.len() ==> (#[trigger] gates@[i]).invocation == gate_id(subject.identities, i),
                gates@.len() > 0 ==> self.ledger.status(first_gate(subject.identities)) == Some(InvocationStatus::Completed),
                subject.prior_failure is None && subject.gates@.len() > 0 ==> gates@.len() > 0,
                subject.disposal == SnapshotDisposal::AsEachRoleFinishes ==> nothing_left(old(self).manager, self.manager),
                gates_asked(r0, self.runner.asked(), *subject, root0, gates@.len()),
                gates_answered(a0, self.runner.answered(), gates@),
                reviews_asked(rr0, self.reviews.asked(), *subject, root0, reviews@.len()),
                passes_answered(rp0, self.reviews.answered(), reviews@),
                account.charged() == ch0 + reviews@,
                account.charged().subrange(0, ch0.len() as int) == ch0,
                r0 == old(self).runner.asked(),
                a0 == old(self).runner.answered(),
                rr0 == old(self).reviews.asked(),
                rp0 == old(self).reviews.answered(),
                ch0 == old(account).charged(),
                subject.prior_failure is Some ==> self.runner.asked() == r0 && self.runner.answered() == a0 && self.reviews.asked() == rr0
                    && account.charged() == ch0,
                refused_pass == (subject.prior_failure is None && subject.gates@.len() == 0 && old(self).ledger.status(
                    first_review_pass(subject.identities),
                ) is Some),
                refused_pass && reviews@.len() > 0 ==> self.reviews.answered()[rp0.len() as int]->Ok_0.invocations == 0,
                reviews_first == (subject.prior_failure is None && subject.gates@.len() == 0 && subject.reviewers@.len() > 0
                    && crate::workspace::snapshot_named_owed(
                    old(self).manager,
                    old(self).hooks.armed,
                    review_snapshot_name(subject.names, 0),
                    subject.snapshot.input_spec(),
                ) && exists|k: int| 0 <= k < old(self).adapters@.len() && (#[trigger] old(self).adapters@[k])@ == subject.reviewers@[0].agent.0@),
                gates_first ==> self.runner.asked().len() > r0.len() && request_view(self.runner.asked()[r0.len() as int]) == gate_request_view(
                    *subject,
                    root0,
                    0,
                ),
                gates_first == (subject.prior_failure is None && subject.gates@.len() > 0 && crate::workspace::snapshot_named_owed(
                    old(self).manager,
                    old(self).hooks.armed,
                    gates_snapshot_name(subject.names),
                    subject.snapshot.input_spec(),
                ) && old(self).ledger.status(first_gate(subject.identities)) is None),
                self.ledger.entries@.len() == old(self).ledger.entries@.len() + gates@.len() + total(
                    review_counts(self.reviews.answered().subrange(rp0.len() as int, self.reviews.answered().len() as int)),
                ),
                root0 == old(self).manager.root@,
                forall|i: int| 0 <= i < reviews@.len() ==> (#[trigger] reviews@[i]).agent@ == subject.reviewers@[i].agent.0@
                    && exists|k: int| 0 <= k < old(self).adapters@.len() && (#[trigger] old(self).adapters@[k])@ == subject.reviewers@[i].agent.0@,
            decreases n - index,
        {
            proof {
                if exists|k: int| a0.len() <= k < self.runner.answered().len() && (#[trigger] self.runner.answered()[k])->Ok_0.code != Some(
                    0i32,
                ) {
                    let k = choose|k: int| a0.len() <= k < self.runner.answered().len() && (#[trigger] self.runner.answered()[k])->Ok_0.code
                        != Some(0i32);
                    let i = k - a0.len();
                    assert(answered_with(self.runner.answered()[a0.len() + i], gates@[i]));
                    assert(!gates@[i].passed_spec());
                    assert(i == gates@.len() - 1);
                    assert(false);
                }
            }
            let reviewer = &subject.reviewers[index];
            let pass = ordinal(index);
            let review_name = subject.names.review(pass);
            proof {
                assert(review_name.0@ == review_snapshot_name(subject.names, pass));
                if index > 0 {
                    assert(reviews@[0].agent@ == subject.reviewers@[0].agent.0@);
                }
            }
            let ghost before = self.manager;
            let snapshot = match self.snapshot(&review_name, &subject.snapshot) {
                Ok(s) => s,
                Err(e) => {
                    return Err(JudgeError::Other(e));
                },
            };
            let ghost taken = self.manager;
            if !self.has_adapter(reviewer.agent.as_str()) {
                let mut message = String::from_str("review pass ");
                push_decimal(&mut message, pass as u64);
                message.append(" is bound to agent `");
                message.append(reviewer.agent.as_str());
                message.append(
                    "` and no adapter answers to that name; pre-flight probed the agents this run recorded and this is not one of them",
                );
                proof {
                    if index == 0 {
                        assert(message@ =~= no_review_adapter_text(0, subject.reviewers@[0].agent.0@));
                    }
                }
                return Err(JudgeError::Other(UpstrokeError::Refused { message }));
            }
            let invocations = subject.identities.invocations(pass);
            let request = ReviewRequest {
                agent: reviewer.agent.0.clone(),
                model: reviewer.model.clone(),
                lens: reviewer.lens.clone(),
                workspace: snapshot.path.clone(),
                stem: subject.stem.clone(),
                timeout_secs: reviewer.timeout_secs,
            };
            proof {
                let stem = match subject.names {
                    JudgeNames::Attempt { generation, attempt } => "g"@ + decimal(generation as nat) + "-a"@ + decimal(attempt as nat),
                    JudgeNames::Integration { sequence } => "s"@ + decimal(sequence as nat),
                };
                let root = old(self).manager.root@;
                assert(request.workspace@ =~= root + "/"@ + "snapshot-"@ + stem + "-review"@ + decimal(pass as nat));
            }
            let ghost rq_before = self.reviews.asked();
            let ghost reported0 = self.reviews.answered();
            proof {
                assert(review_asked(request, *subject, root0, index as int));
            }
            let ran = self.reviews.run(&request, &subject.inputs, &invocations);
            proof {
                if reviews_first && index == 0 {
                    assert(rq_before.len() == rr0.len());
                    assert(self.reviews.asked()[rr0.len() as int] == request);
                }
                if reviews_first && index > 0 {
                    assert(self.reviews.asked()[rr0.len() as int] == rq_before[rr0.len() as int]);
                }
                if ran is Err {
                    assert(!(self.reviews.answered()[self.reviews.answered().len() - 1] is Ok));
                }
            }
            let outcome = match ran {
                Ok(o) => o,
                Err(e) => {
                    return Err(JudgeError::Other(e));
                },
            };
            let ghost answer = self.reviews.answered().last();
            proof {
                assert(review_counts(self.reviews.answered().subrange(rp0.len() as int, self.reviews.answered().len() as int)).drop_last()
                    =~= review_counts(reported0.subrange(rp0.len() as int, reported0.len() as int)));
                assert(self.reviews.answered().subrange(0, rp0.len() as int) =~= reported0.subrange(0, rp0.len() as int));
            }
            let unavailable = match &outcome.result {
                ReviewResult::Unavailable { .. } => true,
                _ => false,
            };
            failure = review_failure(&outcome.result, outcome.never_started);
            let record = ReviewRecord {
                pass: reviewer.lens.clone(),
                agent: reviewer.agent.0.clone(),
                model: reviewer.model.clone(),
                preflight_cli_version: match &reviewer.preflight_cli_version {
                    Some(v) => Some(v.clone()),
                    None => None,
                },
                cost_micros: outcome.cost_micros,
                unavailable,
                failed: failure.is_some(),
            };
            let ghost reviews0 = reviews@;
            account.charge(&record);
            reviews.push(record);
            proof {
                assert(account.charged() =~= ch0 + reviews@);
                assert(account.charged().subrange(0, ch0.len() as int) =~= ch0);
                assert forall|p: int| 0 <= p < reviews@.len() implies self.reviews.answered()[rp0.len() + p] is Ok && (
                #[trigger] reviews@[p]).cost_micros == self.reviews.answered()[rp0.len() + p]->Ok_0.cost_micros by {
                    if p < reviews@.len() - 1 {
                        assert(reviews@[p] == reviews0[p]);
                        assert(self.reviews.answered()[rp0.len() + p] == reported0[rp0.len() + p]);
                    }
                }
                assert(self.reviews.answered().subrange(0, rp0.len() as int) =~= rp0);
            }
            proof {
                assert forall|k: int| rr0.len() <= k < self.reviews.asked().len() implies review_asked(
                    #[trigger] self.reviews.asked()[k],
                    *subject,
                    root0,
                    k - rr0.len(),
                ) by {
                    if k < rq_before.len() {
                        assert(self.reviews.asked()[k] == rq_before[k]);
                    }
                }
                assert(self.reviews.asked().subrange(0, rr0.len() as int) =~= rq_before.subrange(0, rr0.len() as int));
            }
            let count = outcome.invocations;
            let ghost entries0 = self.ledger.entries@.len();
            let mut ord: u32 = 0;
            assert(subject.prior_failure is None && subject.reviewers@.len() > 0);
            while ord < count
                invariant
                    ord <= count,
                    self.manager.root == old(self).manager.root,
                    reviews@.len() > 0,
                    self.manager == taken,
                    gates_asked(r0, self.runner.asked(), *subject, root0, gates@.len()),
                    gates_answered(a0, self.runner.answered(), gates@),
                    reviews_asked(rr0, self.reviews.asked(), *subject, root0, reviews@.len()),
                    passes_answered(rp0, self.reviews.answered(), reviews@),
                    account.charged() == ch0 + reviews@,
                    account.charged().subrange(0, ch0.len() as int) == ch0,
                    r0 == old(self).runner.asked(),
                    a0 == old(self).runner.answered(),
                    rr0 == old(self).reviews.asked(),
                    rp0 == old(self).reviews.answered(),
                    ch0 == old(account).charged(),
                    answer is Ok && answer->Ok_0.invocations == count,
                    !(exists|k: int| a0.len() <= k < self.runner.answered().len() && (#[trigger] self.runner.answered()[k])->Ok_0.code
                        != Some(0i32)),
                    root0 == old(self).manager.root@,
                    reviews_free == (subject.prior_failure is None && subject.gates@.len() == 0 && subject.reviewers@.len() == 1 && old(self).hooks.armed is None
                        && crate::workspace::snapshot_named_owed(
                        old(self).manager,
                        old(self).hooks.armed,
                        review_snapshot_name(subject.names, 0),
                        subject.snapshot.input_spec(),
                    ) && (exists|k: int| 0 <= k < old(self).adapters@.len() && (#[trigger] old(self).adapters@[k])@ == subject.reviewers@[0].agent.0@)
                        && old(self).ledger.status(first_review_pass(subject.identities)) is None && (forall|k: u32| old(self).ledger.status(
                        #[trigger] review_reask_id(subject.identities, k),
                    ) is None)),
                    reviews_free ==> index == 0 && pass == 0 && self.hooks.armed is None && (ord == 0 ==> self.ledger.status(
                        first_review_pass(subject.identities),
                    ) is None) && forall|k: u32| ord <= k + 1 ==> self.ledger.status(#[trigger] review_reask_id(subject.identities, k))
                        is None,
                    gates_first == (subject.prior_failure is None && subject.gates@.len() > 0 && crate::workspace::snapshot_named_owed(
                        old(self).manager,
                        old(self).hooks.armed,
                        gates_snapshot_name(subject.names),
                        subject.snapshot.input_spec(),
                    ) && old(self).ledger.status(first_gate(subject.identities)) is None),
                    reviews_first == (subject.prior_failure is None && subject.gates@.len() == 0 && subject.reviewers@.len() > 0
                        && crate::workspace::snapshot_named_owed(
                        old(self).manager,
                        old(self).hooks.armed,
                        review_snapshot_name(subject.names, 0),
                        subject.snapshot.input_spec(),
                    ) && exists|k: int| 0 <= k < old(self).adapters@.len() && (#[trigger] old(self).adapters@[k])@ == subject.reviewers@[0].agent.0@),
                    gates_first ==> self.runner.asked().len() > r0.len() && request_view(self.runner.asked()[r0.len() as int])
                        == gate_request_view(*subject, root0, 0),
                    reviews_first ==> self.reviews.asked().len() > rr0.len() && review_asked(
                        self.reviews.asked()[rr0.len() as int],
                        *subject,
                        root0,
                        0,
                    ),
                    self.reviews.answered() == reported0.push(answer),
                    reported0.len() >= rp0.len(),
                    reported0.len() == rp0.len() + index,
                    refused_pass == (subject.prior_failure is None && subject.gates@.len() == 0 && old(self).ledger.status(
                        first_review_pass(subject.identities),
                    ) is Some),
                    refused_pass && index == 0 ==> ord == 0,
                    refused_pass && index > 0 ==> reported0[rp0.len() as int]->Ok_0.invocations == 0,
                    index == 0 && subject.gates@.len() == 0 && ord == 0 ==> self.ledger == old(self).ledger,
                    entries0 == old(self).ledger.entries@.len() + gates@.len() + total(
                        review_counts(reported0.subrange(rp0.len() as int, reported0.len() as int)),
                    ),
                    self.ledger.entries@.len() == entries0 + ord,
                    gates@.len() > 0 ==> self.ledger.status(first_gate(subject.identities)) == Some(InvocationStatus::Completed),
                    subject.prior_failure is None && subject.gates@.len() > 0 ==> gates@.len() > 0,
                    ledger_grown(old(self).ledger, self.ledger, subject.identities),
                    registered_within(old(self).ledger, self.ledger, subject.identities, gates@.len(), reviews@.len()),
                    index as int == reviews@.len() - 1,
                    pass == ordinal_spec(index as int),
                    forall|i: int| 0 <= i < gates@.len() ==> self.ledger.status(#[trigger] gates@[i].invocation) == Some(InvocationStatus::Completed),
                    forall|i: int| 0 <= i < gates@.len() ==> (#[trigger] gates@[i]).invocation == gate_id(subject.identities, i),
                    invocations.pass == (InvocationId { scope: subject.identities.scope_spec(), role: InvocationRole::ReviewPass { pass, ordinal: 0 } }),
                    forall|i: int| 0 <= i < reviews@.len() ==> (#[trigger] reviews@[i]).agent@ == subject.reviewers@[i].agent.0@
                        && exists|k: int| 0 <= k < old(self).adapters@.len() && (#[trigger] old(self).adapters@[k])@ == subject.reviewers@[i].agent.0@,
                    subject.prior_failure is None && subject.gates@.len() > 0 ==> crate::workspace::snapshot_named_owed(
                        old(self).manager,
                        old(self).hooks.armed,
                        gates_snapshot_name(subject.names),
                        subject.snapshot.input_spec(),
                    ) && old(self).ledger.status(first_gate(subject.identities)) is None,
                    subject.prior_failure is None,
                    subject.reviewers@.len() > 0,
                    self.adapters == old(self).adapters,
                    free == (old(self).slots.holder is None),
                    running == count_status(old(self).ledger.entries@, InvocationStatus::Running),
                    free ==> self.slots.holder is None,
                    count_status(self.ledger.entries@, InvocationStatus::Running) == running,
                decreases count - ord,
            {
                let id = if ord == 0 {
                    invocations.pass
                } else {
                    subject.identities.review_reask(pass, ord - 1)
                };
                proof {
                    if reviews_free && ord > 0 {
                        assert(id == review_reask_id(subject.identities, (ord - 1) as u32));
                    }
                }
                let ghost ledger_before = self.ledger;
                match self.ledger.register(&id) {
                    Ok(()) => {},
                    Err(e) => {
                        proof {
                            assert(reviews@[0].agent@ == subject.reviewers@[0].agent.0@);
                        }
                        return Err(JudgeError::Other(e));
                    },
                }
                let settled = self.ledger.complete(&id);
                assert(settled is Ok);
                proof {
                    if reviews_free {
                        assert forall|k: u32| ord + 1 <= k + 1 implies self.ledger.status(#[trigger] review_reask_id(subject.identities, k))
                            is None by {
                            assert(review_reask_id(subject.identities, k) != id);
                            assert(ledger_before.status(review_reask_id(subject.identities, k)) is None);
                        }
                    }
                }
                ord = ord + 1;
            }
            proof {
                let sub = review_counts(self.reviews.answered().subrange(rp0.len() as int, self.reviews.answered().len() as int));
                assert(sub.drop_last() =~= review_counts(reported0.subrange(rp0.len() as int, reported0.len() as int)));
                assert(sub.last() == count);
                if refused_pass && index > 0 {
                    assert(self.reviews.answered()[rp0.len() as int] == reported0[rp0.len() as int]);
                }
            }
            if subject.disposal == SnapshotDisposal::AsEachRoleFinishes {
                proof {
                    lemma_review_snapshot_inside(subject.names, pass);
                    assert(crate::workspace::slot_own(snapshot.slot) == review_snapshot_name(subject.names, pass));
                }
                match self.manager.remove_snapshot(&mut self.hooks, &snapshot) {
                    Ok(()) => {},
                    Err(e) => {
                        return Err(JudgeError::Other(e));
                    },
                }
                proof {
                    lemma_taken_and_removed(before, taken, self.manager, snapshot.slot);
                    lemma_nothing_left_trans(old(self).manager, before, self.manager);
                }
            }
            index = index + 1;
        }
        proof {
            if subject.prior_failure is None && subject.gates@.len() == 0 && subject.reviewers@.len() > 0 {
                assert(reviews@.len() > 0);
                assert(reviews@[0].agent@ == subject.reviewers@[0].agent.0@);
            }
        }
        Ok(Judgement { gates, reviews, failure })
    }
}

/// A copy of `gates`, names kept.
fn copy_gates(gates: &Vec<GatePlan>) -> (c: Vec<GatePlan>)
    ensures
        gate_names(c@) == gate_names(gates@),
        c@.len() == gates@.len(),
        forall|i: int| 0 <= i < c@.len() ==> command_view((#[trigger] c@[i]).command) == command_view(gates@[i].command)
            && c@[i].timeout_secs == gates@[i].timeout_secs,
{
    let mut c: Vec<GatePlan> = Vec::new();
    let n = gates.len();
    let mut i: usize = 0;
    while i < n
        invariant
            n == gates.len(),
            i <= n,
            gate_names(c@) == gate_names(gates@.take(i as int)),
            c@.len() == i,
            forall|k: int| 0 <= k < i ==> command_view((#[trigger] c@[k]).command) == command_view(gates@[k].command)
                && c@[k].timeout_secs == gates@[k].timeout_secs,
        decreases n - i,
    {
        let ghost before = c@;
        let g = GatePlan { name: gates[i].name.clone(), command: gates[i].command.duplicate(), timeout_secs: gates[i].timeout_secs };
        let ghost pushed = g;
        c.push(g);
        assert(gates@.take(i + 1) =~= gates@.take(i as int).push(gates@[i as int]));
        assert(gate_names(before.push(pushed)) =~= gate_names(before).push(pushed.name@));
        assert(gate_names(gates@.take(i as int).push(gates@[i as int])) =~= gate_names(gates@.take(i as int)).push(gates@[i as int].name@));
        i = i + 1;
    }
    assert(gates@.take(n as int) =~= gates@);
    c
}

/// A copy of the planned review passes.
fn copy_reviewers(reviewers: &Vec<ReviewerPlan>) -> (c: Vec<ReviewerPlan>)
    ensures
        c@.len() == reviewers@.len(),
        forall|i: int| 0 <= i < c@.len() ==> (#[trigger] c@[i]).agent.0@ == reviewers@[i].agent.0@,
{
    let mut c: Vec<ReviewerPlan> = Vec::new();
    let n = reviewers.len();
    let mut i: usize = 0;
    while i < n
        invariant
            n == reviewers.len(),
            i <= n,
            c@.len() == i,
            forall|j: int| 0 <= j < c@.len() ==> (#[trigger] c@[j]).agent.0@ == reviewers@[j].agent.0@,
        decreases n - i,
    {
        let r = &reviewers[i];
        c.push(ReviewerPlan {
            agent: AgentId(r.agent.0.clone()),
            model: r.model.clone(),
            lens: r.lens.clone(),
            pool: r.pool.clone(),
            preflight_cli_version: r.preflight_cli_version.clone(),
            timeout_secs: r.timeout_secs,
        });
        i = i + 1;
    }
    c
}

pub open spec fn not_an_object_id_text(source: Seq<char>, value: Seq<char>) -> Seq<char> {
    source + " did not yield an object id: "@ + "`"@ + value + "` is not a full hexadecimal object id"@
}

/// `value`, which `source` yielded, as an object id; a Git error naming
/// `source` where it is not one.
pub fn captured_object_id(source: &str, value: String) -> (r: Result<ObjectId, UpstrokeError>)
    ensures
        crate::refs::is_object_id_spec(value@) ==> (r matches Ok(id) && id.view_text() == value@),
        !crate::refs::is_object_id_spec(value@) ==> (r matches Err(UpstrokeError::Git { message }) && message@
            == not_an_object_id_text(source@, value@)),
{
    let ghost text = value@;
    match ObjectId::new(value) {
        Ok(id) => Ok(id),
        Err(refusal) => {
            let mut message = String::from_str(source);
            message.append(" did not yield an object id: ");
            message.append(refusal.as_str());
            assert(message@ =~= not_an_object_id_text(source@, text));
            Err(UpstrokeError::Git { message })
        },
    }
}

/// What capture plans of a worktree: nothing where its index holds no
/// conflict and nothing a previous capture resolved, else the manifest's
/// plan, its spellings read as the host's Git reads them.
pub open spec fn capture_plan(w: crate::workspace::Worktree, backslash_separates: bool) -> (Seq<(Seq<char>, crate::resolution::ResolutionKind)>, Seq<Seq<char>>) {
    if w.index.unmerged@.len() == 0 && w.index.resolved@.len() == 0 {
        (Seq::empty(), Seq::empty())
    } else {
        crate::resolution::plan_spec(
            crate::text::views(w.index.unmerged@),
            crate::text::views(w.index.resolved@),
            w.index.manifest,
            backslash_separates,
        )
    }
}

pub open spec fn no_adapter_for_attempt_text(agent: Seq<char>) -> Seq<char> {
    "this attempt ran as agent `"@ + agent + "` and no adapter answers to that name"@
}

pub open spec fn started_body_matches(body: TopologyEventBody, key: TaskKey, generation: GenerationId, plan: AttemptPlan) -> bool {
    body matches TopologyEventBody::AttemptStarted { data } && data.key == key && data.generation == generation && data.attempt
        == plan.attempt && data.rung == plan.rung && data.binding == plan.binding && data.pool == plan.pool
        && data.resume_session == plan.resume_session && data.materialization_observed == plan.materialization_observed
}

/// An attempt in progress: the emitter it appends through, what judging
/// works with, and the policy that checks review inputs.
pub struct AttemptContext<E: EventEmitter, R: Runner, P: ReviewPasses, I: ReviewInputPolicy> {
    pub emitter: E,
    pub core: Judge<R, P>,
    pub input_policy: I,
}

impl<E: EventEmitter, R: Runner, P: ReviewPasses, I: ReviewInputPolicy> AttemptContext<E, R, P, I> {
    /// Appends `body`; an entered append that failed cancels the run's
    /// in-flight invocations before it is reported.
    fn emit(&mut self, body: TopologyEventBody) -> (r: Result<(), UpstrokeError>)
        ensures
            r is Ok ==> admits(old(self).emitter.fold_view(), body) && stepped(old(self).emitter.fold_view(), final(self).emitter.fold_view(), body)
                && final(self).emitter.events_view() == old(self).emitter.events_view().push(body),
            r is Err ==> final(self).emitter.fold_view() == old(self).emitter.fold_view() && final(self).emitter.events_view() == old(
                self,
            ).emitter.events_view(),
            !admits(old(self).emitter.fold_view(), body) ==> r is Err,
            r is Ok ==> final(self).core.ledger == old(self).core.ledger,
            r is Err ==> final(self).core.ledger == old(self).core.ledger || final(self).core.ledger.balanced(),
            final(self).core.manager == old(self).core.manager,
            final(self).core.slots == old(self).core.slots,
            final(self).core.adapters == old(self).core.adapters,
            final(self).core.hooks.trace@.len() >= old(self).core.hooks.trace@.len(),
            final(self).core.hooks.trace@.subrange(0, old(self).core.hooks.trace@.len() as int) == old(self).core.hooks.trace@,
            r is Ok ==> final(self).core.hooks.armed == old(self).core.hooks.armed,
            final(self).core.runner == old(self).core.runner,
            final(self).core.reviews == old(self).core.reviews,
            append_owed(old(self).emitter.owes_success(), old(self).emitter.fold_view(), body, old(self).core.hooks.armed) ==> r is Ok,
            final(self).emitter.owes_success() == old(self).emitter.owes_success(),
    {
        match self.emitter.emit(body, &mut self.core.hooks) {
            Ok(()) => Ok(()),
            Err(failure) => Err(failure.discharging(&mut self.core.ledger)),
        }
    }

    /// Starts an attempt: `attempt_started` is appended, and only then is the
    /// worker asked for.
    pub fn start(&mut self, site: AttemptSite<'_>, plan: &AttemptPlan) -> (r: Result<AttemptRun, UpstrokeError>)
        ensures
            r is Ok ==> final(self).emitter.events_view().len() == old(self).emitter.events_view().len() + 1 && started_body_matches(
                final(self).emitter.events_view().last(),
                site.key,
                site.generation,
                *plan,
            ) && final(self).emitter.events_view().drop_last() == old(self).emitter.events_view(),
            r matches Ok(run) ==> run.identities == (AttemptIdentities { key: site.key.0, generation: site.generation.0, attempt: plan.attempt.0 }),
            r matches Ok(run) ==> (old(self).core.ledger.status(run.identities.worker_spec()) is None ==> final(self).core.ledger.status(
                run.identities.worker_spec(),
            ) == Some(InvocationStatus::Completed)),
            old(self).core.slots.holder is None ==> final(self).core.slots.holder is None,
            old(self).core.ledger.balanced() ==> final(self).core.ledger.balanced(),
            !(old(self).emitter.fold_view().generation_spec(site.key, site.generation) matches Some(g) && (g.class is OpenNoAttempt
                || g.class is RetainedIdle)) ==> r is Err && final(self).emitter.events_view() == old(self).emitter.events_view(),
            start_owed(old(self).emitter.owes_success(), old(self).emitter.fold_view(), site.key, site.generation, old(self).core.hooks.armed)
                ==> final(self).emitter.events_view().len() == old(self).emitter.events_view().len() + 1 && started_body_matches(
                final(self).emitter.events_view().last(),
                site.key,
                site.generation,
                *plan,
            ) && final(self).emitter.events_view().drop_last() == old(self).emitter.events_view(),
            final(self).core.runner.asked().len() > old(self).core.runner.asked().len() ==> final(self).emitter.events_view().len()
                == old(self).emitter.events_view().len() + 1 && started_body_matches(
                final(self).emitter.events_view().last(),
                site.key,
                site.generation,
                *plan,
            ),
            start_owed(old(self).emitter.owes_success(), old(self).emitter.fold_view(), site.key, site.generation, old(self).core.hooks.armed)
                && worker_reaches_runner(old(self).core.ledger, old(self).core.slots, site, *plan) ==> final(self).core.runner.asked().len()
                == old(self).core.runner.asked().len() + 1 && final(self).core.runner.asked().drop_last() == old(self).core.runner.asked()
                && request_view(final(self).core.runner.asked().last()) == worker_request_view(site, *plan),
            final(self).core.runner.asked().len() <= old(self).core.runner.asked().len() + 1,
            start_owed(old(self).emitter.owes_success(), old(self).emitter.fold_view(), site.key, site.generation, old(self).core.hooks.armed)
                && worker_reaches_runner(old(self).core.ledger, old(self).core.slots, site, *plan) ==> final(self).core.runner.answered().len()
                == old(self).core.runner.answered().len() + 1 && match r {
                Ok(run) => final(self).core.runner.answered().last() == Ok::<ProcessOutput, RunnerError>(run.worker),
                Err(_) => final(self).core.runner.answered().last() is Err,
            },
            r is Ok ==> final(self).core.runner.answered().len() == old(self).core.runner.answered().len() + 1
                && final(self).core.runner.answered().last() is Ok,
    {
        let body = TopologyEventBody::AttemptStarted {
            data: AttemptStarted4 {
                key: site.key,
                generation: site.generation,
                attempt: plan.attempt,
                rung: plan.rung,
                binding: RungBinding { agent: plan.binding.agent.clone(), model: plan.binding.model.clone() },
                pool: match &plan.pool {
                    Some(p) => Some(p.clone()),
                    None => None,
                },
                resume_session: match &plan.resume_session {
                    Some(s) => Some(SessionId(s.0.clone())),
                    None => None,
                },
                materialization_observed: plan.materialization_observed,
            },
        };
        proof { crate::identity::lemma_balanced_count(self.core.ledger); }
        self.emit(body)?;
        let r = self.run_worker(site, plan);
        proof { crate::identity::lemma_balanced_count(self.core.ledger); }
        r
    }

    /// Runs the attempt's worker in the task worktree.
    pub fn run_worker(&mut self, site: AttemptSite<'_>, plan: &AttemptPlan) -> (r: Result<AttemptRun, UpstrokeError>)
        ensures
            final(self).emitter == old(self).emitter,
            final(self).core.manager == old(self).core.manager,
            r matches Ok(run) ==> run.identities == (AttemptIdentities { key: site.key.0, generation: site.generation.0, attempt: plan.attempt.0 }),
            old(self).core.ledger.status(
                (AttemptIdentities { key: site.key.0, generation: site.generation.0, attempt: plan.attempt.0 }).worker_spec(),
            ) is None ==> final(self).core.ledger.status(
                (AttemptIdentities { key: site.key.0, generation: site.generation.0, attempt: plan.attempt.0 }).worker_spec(),
            ) == Some(if r is Ok { InvocationStatus::Completed } else { InvocationStatus::Cancelled }),
            old(self).core.slots.holder is None ==> final(self).core.slots.holder is None,
            count_status(final(self).core.ledger.entries@, InvocationStatus::Running) == count_status(
                old(self).core.ledger.entries@,
                InvocationStatus::Running,
            ),
            worker_reaches_runner(old(self).core.ledger, old(self).core.slots, site, *plan) ==> final(self).core.runner.asked().len()
                == old(self).core.runner.asked().len() + 1 && final(self).core.runner.asked().drop_last() == old(self).core.runner.asked()
                && request_view(final(self).core.runner.asked().last()) == worker_request_view(site, *plan),
            !worker_reaches_runner(old(self).core.ledger, old(self).core.slots, site, *plan) ==> final(self).core.runner.asked()
                == old(self).core.runner.asked() && final(self).core.runner.answered() == old(self).core.runner.answered() && r is Err,
            worker_reaches_runner(old(self).core.ledger, old(self).core.slots, site, *plan) ==> final(self).core.runner.answered().len()
                == old(self).core.runner.answered().len() + 1 && final(self).core.runner.answered().drop_last() == old(
                self,
            ).core.runner.answered() && match r {
                Ok(run) => final(self).core.runner.answered().last() == Ok::<ProcessOutput, RunnerError>(run.worker),
                Err(_) => final(self).core.runner.answered().last() is Err,
            },
            final(self).core.reviews == old(self).core.reviews,
            old(self).core.ledger.status(worker_id(site, *plan)) is Some ==> (r matches Err(e) && e.message_spec()
                == already_registered_text(worker_id(site, *plan))),
            old(self).core.ledger.status(worker_id(site, *plan)) is None && is_slotted_spec(worker_id(site, *plan)) && (old(
                self,
            ).core.slots.holder matches Some((holder, _))) ==> (r matches Err(e) && e.message_spec() == slot_taken_text(
                worker_id(site, *plan),
                old(self).core.slots.holder.unwrap().0,
            )),
    {
        let identities = AttemptIdentities::new(site.key, site.generation, plan.attempt);
        let invocation = identities.worker();
        let request = worker_request(
            plan.worker.duplicate(),
            site.worktree.clone(),
            AgentId(plan.agent.0.clone()),
            plan.worker_timeout_secs,
            invocation,
        );
        let pool = match &plan.pool {
            Some(p) => Some(p.clone()),
            None => None,
        };
        let ghost asked = self.core.runner.asked();
        let ran = self.core.execute(&request, pool);
        proof {
            if worker_reaches_runner(old(self).core.ledger, old(self).core.slots, site, *plan) {
                assert(reaches_runner(old(self).core.ledger, old(self).core.slots, request));
                assert(self.core.runner.asked().drop_last() =~= asked);
                assert(request_view(request) == worker_request_view(site, *plan));
            }
        }
        let worker = ran?;
        Ok(AttemptRun { identities, worker })
    }

    /// Captures the worker's work: where the index holds conflicts, or
    /// entries a previous capture resolved, the worker's manifest is planned;
    /// a refusal stages nothing and carries the base's tree; otherwise the
    /// declared resolutions and the edits are staged and the tree is written.
    pub fn capture(&mut self, site: AttemptSite<'_>) -> (r: Result<Capture, UpstrokeError>)
        ensures
            final(self).emitter == old(self).emitter,
            final(self).core.ledger == old(self).core.ledger,
            final(self).core.slots == old(self).core.slots,
            old(self).core.manager.worktree_spec(*site.slot) is None ==> r is Err,
            r matches Ok(c) ==> c.parent@ == site.base.0@,
            old(self).core.manager.worktree_spec(*site.slot) matches Some(w) ==> (capture_plan(w, old(self).core.manager.backslash_separates).1.len() > 0 ==> (
            final(self).core.manager == old(self).core.manager && final(self).core.hooks == old(self).core.hooks && (r is Ok
                <==> (old(self).core.manager.repo.object_spec(site.base.0@) matches Some(crate::refs::ObjectValue::Commit { .. })))
                && (r matches Ok(c) ==> crate::text::views(c.unresolved@) == capture_plan(w, old(self).core.manager.backslash_separates).1
                && (old(self).core.manager.repo.object_spec(site.base.0@) matches Some(crate::refs::ObjectValue::Commit { tree, .. })
                && c.tree@ == tree)))),
            r matches Ok(c) ==> (c.unresolved@.len() == 0 ==> (final(self).core.manager.worktree_spec(*site.slot) matches Some(nw)
                && nw.tree@ == c.tree@ && nw.index.unmerged@.len() == 0 && !nw.index.dirty
                && nw.index.manifest == crate::resolution::ResolutionManifest::Absent)),
            r matches Ok(c) ==> (c.unresolved@.len() == 0 ==> (old(self).core.manager.worktree_spec(*site.slot) matches Some(w)
                && final(self).core.manager.worktree_spec(*site.slot) matches Some(nw) && crate::resolution::staged_views(
                nw.index.staged@,
            ) == capture_plan(w, old(self).core.manager.backslash_separates).0)),
            (old(self).core.manager.worktree_spec(*site.slot) matches Some(w) && capture_plan(w, old(self).core.manager.backslash_separates).1.len() == 0)
                && old(self).core.hooks.armed != Some(crate::effects::EffectSiteId::Object(crate::effects::ObjectSite::CandidateStage))
                && old(self).core.hooks.armed != Some(crate::effects::EffectSiteId::Object(crate::effects::ObjectSite::CandidateWriteTree))
                ==> (r matches Ok(c) && c.unresolved@.len() == 0),
    {
        let backslash_separates = self.core.manager.backslash_separates;
        let ghost held = self.core.manager.worktree_spec(*site.slot);
        let staged = {
            let unmerged = self.core.manager.unresolved_conflicts(site.slot)?;
            let resolved = self.core.manager.resolved_conflicts(site.slot)?;
            if unmerged.len() == 0 && resolved.len() == 0 {
                Vec::new()
            } else {
                let manifest = self.core.manager.resolution_manifest(site.slot)?;
                let plan = plan_resolutions(unmerged, resolved, manifest, backslash_separates);
                if plan.refused.len() > 0 {
                    let tree = match self.core.manager.repo.commit_tree_sha(site.base.as_str()) {
                        Some(tree) => tree,
                        None => {
                            let mut message = String::from_str("the recorded base ");
                            message.append(site.base.as_str());
                            message.append(" has no tree; an unresolved capture cannot name the tree the worktree started from");
                            return Err(UpstrokeError::Git { message });
                        },
                    };
                    return Ok(Capture { tree, parent: site.base.0.clone(), unresolved: plan.refused });
                }
                proof {
                    let w = held.unwrap();
                    crate::resolution::law_a_plan_refusing_nothing_stages_every_unmerged_path(
                        crate::text::views(w.index.unmerged@),
                        crate::text::views(w.index.resolved@),
                        w.index.manifest,
                        backslash_separates,
                    );
                    assert forall|p: Seq<char>| crate::text::views(w.index.unmerged@).contains(p) implies crate::workspace::staged_names(
                        plan.staged@,
                        p,
                    ) by {
                        let k = choose|k: int| 0 <= k < crate::text::views(w.index.unmerged@).len() && crate::text::views(w.index.unmerged@)[k] == p;
                        assert(crate::resolution::stages_path(crate::resolution::staged_views(plan.staged@), crate::text::views(w.index.unmerged@)[k]));
                        let i = choose|i: int| 0 <= i < crate::resolution::staged_views(plan.staged@).len()
                            && crate::resolution::staged_views(plan.staged@)[i].0 == p;
                        assert(plan.staged@[i].path@ == p);
                    }
                }
                plan.staged
            }
        };
        proof {
            if held is Some {
                let w = held.unwrap();
                if w.index.unmerged@.len() == 0 && w.index.resolved@.len() == 0 {
                    assert(crate::text::views(w.index.unmerged@).len() == 0);
                }
            }
        }
        proof { crate::workspace::lemma_worktree_at(self.core.manager.worktrees@, crate::workspace::slot_name_spec(*site.slot)); }
        self.core.manager.candidate_stage(&mut self.core.hooks, site.slot, &staged)?;
        proof {
            if held is Some && capture_plan(held.unwrap(), backslash_separates).1.len() == 0 {
                let w = held.unwrap();
                let nw = self.core.manager.worktree_spec(*site.slot).unwrap();
                assert forall|p: Seq<char>| crate::text::views(w.index.unmerged@).contains(p) implies crate::workspace::staged_names(staged@, p) by {
                    if w.index.unmerged@.len() == 0 && w.index.resolved@.len() == 0 {
                        let k = choose|k: int| 0 <= k < crate::text::views(w.index.unmerged@).len() && crate::text::views(w.index.unmerged@)[k] == p;
                    }
                }
                if nw.index.unmerged@.len() > 0 {
                    assert(crate::text::views(nw.index.unmerged@).contains(crate::text::views(nw.index.unmerged@)[0]));
                }
                assert(nw.index.unmerged@.len() == 0);
            }
        }
        if staged.len() > 0 {
            let left = self.core.manager.unresolved_conflicts(site.slot)?;
            if left.len() > 0 {
                let mut message = String::from_str("the capture staged every declared resolution and the index of ");
                message.append(site.worktree.as_str());
                message.append(" still holds unmerged entries: ");
                message.append(join_strings(left, ", ").as_str());
                return Err(UpstrokeError::Git { message });
            }
        }
        let tree = self.core.manager.candidate_write_tree(&mut self.core.hooks, site.slot)?;
        Ok(Capture { tree, parent: site.base.0.clone(), unresolved: Vec::new() })
    }

    /// Assesses the worker's outcome: its own end first, then a completed
    /// worker's unresolved conflicts, then its diff, then whether the review
    /// inputs are usable.
    pub fn assess(
        &mut self,
        site: AttemptSite<'_>,
        plan: &AttemptPlan,
        run: &AttemptRun,
        capture: &Capture,
        diff: &str,
        kind: TaskKind,
    ) -> (r: Result<Assessment, UpstrokeError>)
        ensures
            final(self).emitter == old(self).emitter,
            final(self).core.ledger == old(self).core.ledger,
            final(self).core.slots == old(self).core.slots,
            (r is Err && !(exists|i: int| 0 <= i < old(self).core.adapters@.len() && (#[trigger] old(self).core.adapters@[i])@ == plan.agent.0@))
                ==> (r matches Err(e) && e.message_spec() == no_adapter_for_attempt_text(plan.agent.0@)),
            !(exists|i: int| 0 <= i < old(self).core.adapters@.len() && (#[trigger] old(self).core.adapters@[i])@ == plan.agent.0@) ==> r is Err,
            r matches Ok(a) ==> a.outcome.status == crate::review::status_of_output(run.worker) && a.outcome.diff@ == diff@
                && assessed_view(a, crate::review::status_of_output(run.worker), crate::text::views(capture.unresolved@), diff@, kind),
            (exists|i: int| 0 <= i < old(self).core.adapters@.len() && (#[trigger] old(self).core.adapters@[i])@ == plan.agent.0@)
                && decided_failure(crate::review::status_of_output(run.worker), crate::text::views(capture.unresolved@), diff@, kind)
                is Some ==> r is Ok,
            !((exists|i: int| 0 <= i < old(self).core.adapters@.len() && (#[trigger] old(self).core.adapters@[i])@ == plan.agent.0@)
                && decided_failure(crate::review::status_of_output(run.worker), crate::text::views(capture.unresolved@), diff@, kind)
                is None) ==> final(self).input_policy.asked() == old(self).input_policy.asked() && final(self).input_policy.answered()
                == old(self).input_policy.answered(),
            (exists|i: int| 0 <= i < old(self).core.adapters@.len() && (#[trigger] old(self).core.adapters@[i])@ == plan.agent.0@)
                && decided_failure(crate::review::status_of_output(run.worker), crate::text::views(capture.unresolved@), diff@, kind)
                is None ==> final(self).input_policy.asked() == old(self).input_policy.asked().push((site.worktree@, capture.tree@))
                && final(self).input_policy.answered().len() == old(self).input_policy.answered().len() + 1
                && match final(self).input_policy.answered().last() {
                Ok(Some(problem)) => r matches Ok(a) && failures_view(a.failure) == Some(crate::review::review_input_view(problem@)),
                Ok(None) => r matches Ok(a) && a.failure is None,
                Err(e) => r == Err::<Assessment, UpstrokeError>(e),
            },
    {
        if !self.core.has_adapter(plan.agent.as_str()) {
            let mut message = String::from_str("this attempt ran as agent `");
            message.append(plan.agent.as_str());
            message.append("` and no adapter answers to that name");
            return Err(UpstrokeError::Refused { message });
        }
        let status = parse_outcome(&run.worker);
        let outcome = WorkerOutcome { status, diff: String::from_str(diff) };
        let mut failure = if status == crate::review::OutcomeStatus::Completed && capture.unresolved.len() > 0 {
            Some(unresolved_conflict_failure(&capture.unresolved))
        } else {
            evaluate_outcome(status)
        };
        if failure.is_none() {
            failure = diff_failure(diff, kind);
        }
        if failure.is_none() {
            match self.input_policy.problem(site.worktree, &capture.tree)? {
                Some(problem) => {
                    failure = Some(review_input_failure(problem.as_str()));
                },
                None => {},
            }
        }
        Ok(Assessment { outcome, failure })
    }

    /// Judges the captured tree: on snapshots of it over the base, the
    /// plan's gates and then its review passes, starting from the failure the
    /// assessment found.
    #[verifier::spinoff_prover]
    #[verifier::rlimit(40)]
    pub fn judge(
        &mut self,
        site: AttemptSite<'_>,
        plan: &AttemptPlan,
        judging: Judging<'_>,
        inputs: &ReviewInputs,
    ) -> (r: Result<Judgement, UpstrokeError>)
        ensures
            !crate::refs::is_object_id_spec(judging.capture.tree@) ==> (r matches Err(UpstrokeError::Git { message })
                && message@ == not_an_object_id_text("`git write-tree`"@, judging.capture.tree@)),
            crate::refs::is_object_id_spec(judging.capture.tree@) && !crate::refs::is_object_id_spec(judging.capture.parent@) ==> (r matches Err(
                UpstrokeError::Git { message },
            ) && message@ == not_an_object_id_text("the recorded base commit"@, judging.capture.parent@)),
            r matches Ok(j) ==> judged(
                gate_names(plan.gates@),
                plan.reviewers@.len(),
                JudgeIdentities::Attempt(judging.run.identities),
                judging.assessed.failure,
                j,
            ),
            crate::refs::is_object_id_spec(judging.capture.tree@) && crate::refs::is_object_id_spec(judging.capture.parent@)
                && judging.assessed.failure is Some ==> r is Ok,
            old(self).core.slots.holder is None ==> final(self).core.slots.holder is None,
            count_status(final(self).core.ledger.entries@, InvocationStatus::Running) == count_status(
                old(self).core.ledger.entries@,
                InvocationStatus::Running,
            ),
            judging.assessed.failure is Some ==> final(self).core.manager == old(self).core.manager && final(self).core.ledger == old(
                self,
            ).core.ledger && final(self).core.hooks == old(self).core.hooks && final(self).core.slots == old(self).core.slots,
            forall|id: InvocationId| old(self).core.ledger.status(id) is Some ==> #[trigger] final(self).core.ledger.status(id) == old(
                self,
            ).core.ledger.status(id),
            r is Ok ==> ledger_grown(old(self).core.ledger, final(self).core.ledger, JudgeIdentities::Attempt(judging.run.identities)),
            r is Ok ==> nothing_left(old(self).core.manager, final(self).core.manager),
            r matches Ok(j) ==> gates_answered(old(self).core.runner.answered(), final(self).core.runner.answered(), j.gates@),
            judging.assessed.failure is Some ==> final(self).core.runner.asked() == old(self).core.runner.asked()
                && final(self).core.runner.answered() == old(self).core.runner.answered() && final(self).core.reviews.asked() == old(
                self,
            ).core.reviews.asked(),
            r matches Ok(j) ==> forall|i: int| 0 <= i < j.gates@.len() ==> (#[trigger] j.gates@[i]).invocation == gate_id(
                JudgeIdentities::Attempt(judging.run.identities),
                i,
            ) && final(self).core.ledger.status(j.gates@[i].invocation) == Some(InvocationStatus::Completed)
                && j.gates@[i].workspace@ == old(self).core.manager.root@ + "/"@ + "snapshot-"@ + gates_snapshot_name(
                JudgeNames::Attempt { generation: site.generation.0, attempt: plan.attempt.0 },
            ),
            crate::refs::is_object_id_spec(judging.capture.tree@) && crate::refs::is_object_id_spec(judging.capture.parent@)
                && judging.assessed.failure is None && plan.gates@.len() > 0 && !tree_snapshot_owed(
                old(self).core.manager,
                old(self).core.hooks.armed,
                gates_snapshot_name(JudgeNames::Attempt { generation: site.generation.0, attempt: plan.attempt.0 }),
            ) ==> (r is Err && final(self).core.ledger == old(self).core.ledger),
            crate::refs::is_object_id_spec(judging.capture.tree@) && crate::refs::is_object_id_spec(judging.capture.parent@)
                && judging.assessed.failure is None && plan.gates@.len() > 0 && tree_snapshot_owed(
                old(self).core.manager,
                old(self).core.hooks.armed,
                gates_snapshot_name(JudgeNames::Attempt { generation: site.generation.0, attempt: plan.attempt.0 }),
            ) && old(self).core.ledger.status(first_gate(JudgeIdentities::Attempt(judging.run.identities))) is None ==> (final(self).core.ledger.status(
                first_gate(JudgeIdentities::Attempt(judging.run.identities)),
            ) is Some && final(self).core.ledger.status(first_gate(JudgeIdentities::Attempt(judging.run.identities))) != Some(
                InvocationStatus::Running,
            )),
            crate::refs::is_object_id_spec(judging.capture.tree@) && crate::refs::is_object_id_spec(judging.capture.parent@)
                && judging.assessed.failure is None && plan.gates@.len() > 0 && tree_snapshot_owed(
                old(self).core.manager,
                old(self).core.hooks.armed,
                gates_snapshot_name(JudgeNames::Attempt { generation: site.generation.0, attempt: plan.attempt.0 }),
            ) && old(self).core.ledger.status(first_gate(JudgeIdentities::Attempt(judging.run.identities))) is Some ==> (r matches Err(e)
                && e.message_spec() == already_registered_text(first_gate(JudgeIdentities::Attempt(judging.run.identities)))
                && final(self).core.ledger == old(self).core.ledger),
            crate::refs::is_object_id_spec(judging.capture.tree@) && crate::refs::is_object_id_spec(judging.capture.parent@)
                && judging.assessed.failure is None && plan.gates@.len() == 0 && plan.reviewers@.len() > 0 && tree_snapshot_owed(
                old(self).core.manager,
                old(self).core.hooks.armed,
                review_snapshot_name(JudgeNames::Attempt { generation: site.generation.0, attempt: plan.attempt.0 }, 0),
            ) && !(exists|k: int| 0 <= k < old(self).core.adapters@.len() && (#[trigger] old(self).core.adapters@[k])@ == plan.reviewers@[0].agent.0@)
                ==> (r matches Err(UpstrokeError::Refused { message }) && message@ == no_review_adapter_text(0, plan.reviewers@[0].agent.0@)
                && final(self).core.ledger == old(self).core.ledger),
            crate::refs::is_object_id_spec(judging.capture.tree@) && crate::refs::is_object_id_spec(judging.capture.parent@)
                && judging.assessed.failure is None && plan.gates@.len() > 0 && tree_snapshot_owed(
                old(self).core.manager,
                old(self).core.hooks.armed,
                gates_snapshot_name(JudgeNames::Attempt { generation: site.generation.0, attempt: plan.attempt.0 }),
            ) && old(self).core.ledger.status(first_gate(JudgeIdentities::Attempt(judging.run.identities))) is None
                ==> final(self).core.runner.asked().len() > old(self).core.runner.asked().len() && request_view(
                final(self).core.runner.asked()[old(self).core.runner.asked().len() as int],
            ) == (
                ExecutionRole::Gate,
                command_view(plan.gates@[0].command),
                old(self).core.manager.root@ + "/"@ + "snapshot-"@ + gates_snapshot_name(
                    JudgeNames::Attempt { generation: site.generation.0, attempt: plan.attempt.0 },
                ),
                None::<Seq<char>>,
                plan.gates@[0].timeout_secs,
                first_gate(JudgeIdentities::Attempt(judging.run.identities)),
            ),
            crate::refs::is_object_id_spec(judging.capture.tree@) && crate::refs::is_object_id_spec(judging.capture.parent@)
                && judging.assessed.failure is None && plan.gates@.len() > 0 && plan.gates@.len() <= u32::MAX && plan.reviewers@.len()
                == 0 && old(self).core.hooks.armed is None && tree_snapshot_owed(
                old(self).core.manager,
                old(self).core.hooks.armed,
                gates_snapshot_name(JudgeNames::Attempt { generation: site.generation.0, attempt: plan.attempt.0 }),
            ) && (forall|i: int| 0 <= i < plan.gates@.len() ==> old(self).core.ledger.status(
                #[trigger] gate_id(JudgeIdentities::Attempt(judging.run.identities), i),
            ) is None) && (forall|k: int| old(self).core.runner.answered().len() <= k < final(self).core.runner.answered().len()
                ==> #[trigger] final(self).core.runner.answered()[k] is Ok) ==> r is Ok,
            crate::refs::is_object_id_spec(judging.capture.tree@) && crate::refs::is_object_id_spec(judging.capture.parent@)
                && judging.assessed.failure is None && plan.gates@.len() > 0 && plan.gates@.len() <= u32::MAX
                && old(self).core.hooks.armed is None && tree_snapshot_owed(
                old(self).core.manager,
                old(self).core.hooks.armed,
                gates_snapshot_name(JudgeNames::Attempt { generation: site.generation.0, attempt: plan.attempt.0 }),
            ) && (forall|i: int| 0 <= i < plan.gates@.len() ==> old(self).core.ledger.status(
                #[trigger] gate_id(JudgeIdentities::Attempt(judging.run.identities), i),
            ) is None) && (forall|k: int| old(self).core.runner.answered().len() <= k < final(self).core.runner.answered().len()
                ==> #[trigger] final(self).core.runner.answered()[k] is Ok) && (exists|k: int| old(self).core.runner.answered().len()
                <= k < final(self).core.runner.answered().len() && (#[trigger] final(self).core.runner.answered()[k])->Ok_0.code
                != Some(0i32)) ==> r is Ok,
    {
        proof {
            reveal_strlit("`git write-tree`");
            reveal_strlit("the recorded base commit");
        }
        let tree = captured_object_id("`git write-tree`", judging.capture.tree.clone())?;
        let parent = captured_object_id("the recorded base commit", judging.capture.parent.clone())?;
        let mut stem = inputs.stem.clone();
        stem.append("-");
        push_decimal(&mut stem, plan.attempt.0 as u64);
        let subject = Subject {
            snapshot: SnapshotOf::Tree { tree, parent },
            disposal: SnapshotDisposal::AsEachRoleFinishes,
            names: JudgeNames::Attempt { generation: site.generation.0, attempt: plan.attempt.0 },
            identities: JudgeIdentities::Attempt(judging.run.identities),
            stem,
            gates: copy_gates(&plan.gates),
            reviewers: copy_reviewers(&plan.reviewers),
            inputs: inputs.clone(),
            prior_failure: match &judging.assessed.failure {
                Some(f) => Some(f.duplicate()),
                None => None,
            },
        };
        proof {
            let names = JudgeNames::Attempt { generation: site.generation.0, attempt: plan.attempt.0 };
            assert(subject.snapshot.input_spec() is Tree);
            assert(gate_names(subject.gates@).len() == subject.gates@.len());
            assert(gate_names(plan.gates@).len() == plan.gates@.len());
            assert(subject.gates@.len() == plan.gates@.len());
            assert(subject.prior_failure is None <==> judging.assessed.failure is None);
            assert(subject.identities == JudgeIdentities::Attempt(judging.run.identities));
            assert(crate::workspace::snapshot_named_owed(self.core.manager, self.core.hooks.armed, gates_snapshot_name(names), subject.snapshot.input_spec())
                == tree_snapshot_owed(self.core.manager, self.core.hooks.armed, gates_snapshot_name(names)));
            assert(crate::workspace::snapshot_named_owed(self.core.manager, self.core.hooks.armed, review_snapshot_name(names, 0), subject.snapshot.input_spec())
                == tree_snapshot_owed(self.core.manager, self.core.hooks.armed, review_snapshot_name(names, 0)));
        }
        let mut account = crate::review::NoReviewAccount::new();
        match self.core.judge(&subject, &mut account) {
            Ok(j) => Ok(j),
            Err(e) => Err(e.into_error()),
        }
    }

    /// Settles an attempt that ended without a judgement: the interruption
    /// is appended, then the attempt's residue is discarded.
    pub fn settle_interrupted(&mut self, dispatched: &Dispatched, attempt: AttemptNumber, outcome: AttemptOutcome) -> (r: Result<(), UpstrokeError>)
        ensures
            r is Ok ==> final(self).emitter.events_view().len() == old(self).emitter.events_view().len() + 1
                && interrupted_body_matches(final(self).emitter.events_view().last(), *dispatched, attempt, outcome)
                && !final(self).core.manager.has_worktree_spec(dispatched.slot) && !final(self).core.manager.has_intent_spec(dispatched.slot),
            old(self).core.ledger.balanced() ==> final(self).core.ledger.balanced(),
            final(self).core.slots == old(self).core.slots,
            !(old(self).emitter.fold_view().generation_spec(dispatched.key, dispatched.generation) matches Some(g) && g.class
                == (GenerationClass::InFlight { attempt })) ==> r is Err && final(self).emitter.events_view() == old(
                self,
            ).emitter.events_view() && final(self).core.manager == old(self).core.manager,
            interrupt_owed(old(self).emitter.owes_success(), old(self).emitter.fold_view(), *dispatched, attempt, old(self).core.hooks.armed)
                && residue_owed(old(self).core.manager.intents@, dispatched.slot, old(self).core.hooks.armed) ==> r is Ok,
            r is Ok ==> snapshots_discarded(old(self).core.manager, final(self).core.manager),
            r is Ok ==> interrupted_in_fold(final(self).emitter.fold_view(), *dispatched),
    {
        let mut detail = String::new();
        detail.append(outcome.detail());
        let body = TopologyEventBody::AttemptInterrupted {
            data: AttemptInterrupted4 {
                key: dispatched.key,
                generation: dispatched.generation,
                attempt,
                lease: dispatched.closing_disposition(),
                detail,
            },
        };
        let ghost fold0 = self.emitter.fold_view();
        let ghost body0 = body;
        self.emit(body)?;
        proof {
            crate::fold::lemma_stepped_generation(fold0, self.emitter.fold_view(), body0, dispatched.key, dispatched.generation);
        }
        let r = self.discard_residue(dispatched);
        r
    }

    /// Cancels an attempt in flight as the run halts: every running
    /// invocation is cancelled and the held slot pair released before the
    /// interruption is appended; returns how many invocations it cancelled.
    pub fn cancel_in_flight(&mut self, dispatched: &Dispatched, attempt: AttemptNumber) -> (r: Result<usize, UpstrokeError>)
        ensures
            final(self).core.ledger.balanced(),
            final(self).core.slots.holder is None,
            r matches Ok(n) ==> n as nat == count_status(old(self).core.ledger.entries@, InvocationStatus::Running),
            r is Ok ==> final(self).emitter.events_view().len() == old(self).emitter.events_view().len() + 1
                && interrupted_body_matches(final(self).emitter.events_view().last(), *dispatched, attempt, AttemptOutcome::Cancelled),
            !(old(self).emitter.fold_view().generation_spec(dispatched.key, dispatched.generation) matches Some(g) && g.class
                == (GenerationClass::InFlight { attempt })) ==> r is Err && final(self).emitter.events_view() == old(
                self,
            ).emitter.events_view(),
            r is Ok ==> !final(self).core.manager.has_worktree_spec(dispatched.slot) && !final(self).core.manager.has_intent_spec(
                dispatched.slot,
            ) && snapshots_discarded(old(self).core.manager, final(self).core.manager)
                && interrupted_in_fold(final(self).emitter.fold_view(), *dispatched),
            interrupt_owed(old(self).emitter.owes_success(), old(self).emitter.fold_view(), *dispatched, attempt, old(self).core.hooks.armed)
                && residue_owed(old(self).core.manager.intents@, dispatched.slot, old(self).core.hooks.armed) ==> r is Ok,
    {
        let cancelled = self.core.ledger.cancel_all_running();
        let held = match self.core.slots.held() {
            Some(id) => Some(*id),
            None => None,
        };
        match held {
            Some(id) => {
                let released = self.core.slots.release(&id);
                assert(released is Ok);
            },
            None => {},
        }
        self.settle_interrupted(dispatched, attempt, AttemptOutcome::Cancelled)?;
        Ok(cancelled)
    }

    /// Removes every snapshot the run has an intent for, then scrubs the
    /// dispatched generation's worktree and intent.
    fn discard_residue(&mut self, dispatched: &Dispatched) -> (r: Result<(), UpstrokeError>)
        ensures
            final(self).emitter == old(self).emitter,
            final(self).core.ledger == old(self).core.ledger,
            final(self).core.slots == old(self).core.slots,
            r is Ok ==> !final(self).core.manager.has_worktree_spec(dispatched.slot) && !final(self).core.manager.has_intent_spec(
                dispatched.slot,
            ),
            r is Ok ==> forall|i: int| 0 <= i < old(self).core.manager.intents@.len() && (#[trigger] old(self).core.manager.intents@[i]) is Snapshot
                ==> !final(self).core.manager.has_intent_spec(old(self).core.manager.intents@[i])
                    && !final(self).core.manager.has_worktree_spec(old(self).core.manager.intents@[i]),
            r is Ok <==> residue_owed(old(self).core.manager.intents@, dispatched.slot, old(self).core.hooks.armed),
    {
        let slots = self.core.manager.intents();
        let n = slots.len();
        let mut i: usize = 0;
        while i < n
            invariant
                n == slots@.len(),
                slots@ == old(self).core.manager.intents@,
                i <= n,
                self.emitter == old(self).emitter,
                self.core.ledger == old(self).core.ledger,
                self.core.slots == old(self).core.slots,
                forall|j: int| 0 <= j < i && (#[trigger] slots@[j]) is Snapshot ==> !self.core.manager.has_intent_spec(slots@[j])
                    && !self.core.manager.has_worktree_spec(slots@[j]),
                self.core.hooks.armed == old(self).core.hooks.armed,
                forall|j: int| 0 <= j < i && (#[trigger] slots@[j]) is Snapshot ==> reclaimable(slots@[j], old(self).core.hooks.armed),
            decreases n - i,
        {
            if slots[i].is_snapshot() {
                let ghost before = self.core.manager;
                let removed = self.core.manager.remove_worktree(&mut self.core.hooks, &slots[i]);
                proof {
                    if removed is Err {
                        assert(!reclaimable(slots@[i as int], old(self).core.hooks.armed));
                    }
                }
                removed?;
                let ghost middle = self.core.manager;
                let dropped = self.core.manager.remove_intent(&mut self.core.hooks, &slots[i]);
                proof {
                    if dropped is Err {
                        assert(!reclaimable(slots@[i as int], old(self).core.hooks.armed));
                    }
                }
                dropped?;
                proof {
                    assert forall|j: int| 0 <= j < i && (#[trigger] slots@[j]) is Snapshot implies !self.core.manager.has_intent_spec(slots@[j])
                        && !self.core.manager.has_worktree_spec(slots@[j]) by {
                        let name = crate::workspace::slot_name_spec(slots@[j]);
                        let here = crate::workspace::slot_name_spec(slots@[i as int]);
                        if name != here {
                            crate::workspace::lemma_worktree_at(before.worktrees@, name);
                            crate::workspace::lemma_worktree_at(middle.worktrees@, name);
                        } else {
                            crate::workspace::lemma_worktree_at(middle.worktrees@, name);
                        }
                    }
                }
            }
            i = i + 1;
        }
        let ghost before = self.core.manager;
        scrub(&mut self.core.manager, &mut self.core.hooks, &dispatched.slot)?;
        proof {
            assert forall|j: int| 0 <= j < n && (#[trigger] slots@[j]) is Snapshot implies !self.core.manager.has_intent_spec(slots@[j])
                && !self.core.manager.has_worktree_spec(slots@[j]) by {
                let name = crate::workspace::slot_name_spec(slots@[j]);
                if name != crate::workspace::slot_name_spec(dispatched.slot) {
                    crate::workspace::lemma_worktree_at(before.worktrees@, name);
                    crate::workspace::lemma_worktree_at(self.core.manager.worktrees@, name);
                }
            }
        }
        Ok(())
    }
}

/// Whether every snapshot `before` holds an intent for is gone from `after`,
/// its worktree and its intent.
pub open spec fn snapshots_discarded(before: WorkspaceManager, after: WorkspaceManager) -> bool {
    forall|i: int| 0 <= i < before.intents@.len() && (#[trigger] before.intents@[i]) is Snapshot ==> !after.has_intent_spec(
        before.intents@[i],
    ) && !after.has_worktree_spec(before.intents@[i])
}

/// Whether `fold` records `dispatched`'s generation closed and its task pending.
pub open spec fn interrupted_in_fold(fold: TopologyFold, dispatched: Dispatched) -> bool {
    &&& fold.generation_spec(dispatched.key, dispatched.generation) matches Some(g) && g.class is Closed
    &&& fold.task_spec(dispatched.key) matches Some(t) && t.state == crate::fold::TaskState::Pending
}

/// The identity of the worker of `plan`'s attempt at `site`.
pub open spec fn worker_id(site: AttemptSite, plan: AttemptPlan) -> InvocationId {
    (AttemptIdentities { key: site.key.0, generation: site.generation.0, attempt: plan.attempt.0 }).worker_spec()
}

/// The request the worker of `plan`'s attempt at `site` is run with: its
/// command in the task worktree, as the plan's agent, under its timeout.
pub open spec fn worker_request_view(site: AttemptSite, plan: AttemptPlan) -> (
    ExecutionRole,
    (Seq<char>, Seq<Seq<char>>),
    Seq<char>,
    Option<Seq<char>>,
    u64,
    InvocationId,
) {
    (ExecutionRole::Implement, command_view(plan.worker), site.worktree@, Some(plan.agent.0@), plan.worker_timeout_secs, worker_id(site, plan))
}

/// Whether the worker of `plan`'s attempt at `site` reaches the runner: its
/// identity is not yet registered, and where it takes a slot pair, no pair
/// is held.
pub open spec fn worker_reaches_runner(ledger: InvocationLedger, slots: SlotAssertion, site: AttemptSite, plan: AttemptPlan) -> bool {
    &&& ledger.status(worker_id(site, plan)) is None
    &&& is_slotted_spec(worker_id(site, plan)) ==> slots.holder is None
}

/// Whether appending `attempt_started` for generation `generation` of task
/// `key` is owed success: the emitter owes it, the generation is open with
/// no attempt or retained idle, and `armed` is not `Event.Append`.
pub open spec fn start_owed(owes_success: bool, fold: TopologyFold, key: TaskKey, generation: GenerationId, armed: Option<EffectSiteId>) -> bool {
    &&& owes_success
    &&& fold.generation_spec(key, generation) matches Some(g) && (g.class is OpenNoAttempt || g.class is RetainedIdle)
    &&& armed != Some(EffectSiteId::Event(EventSite::Append))
}

/// Whether appending the interruption of `attempt` is owed success: the
/// emitter owes it, the attempt is the generation's in flight, and `armed`
/// is not `Event.Append`.
pub open spec fn interrupt_owed(owes_success: bool, fold: TopologyFold, dispatched: Dispatched, attempt: AttemptNumber, armed: Option<EffectSiteId>) -> bool {
    &&& owes_success
    &&& fold.generation_spec(dispatched.key, dispatched.generation) matches Some(g) && g.class == (GenerationClass::InFlight { attempt })
    &&& armed != Some(EffectSiteId::Event(EventSite::Append))
}

/// Whether discarding an attempt's residue is owed success, with `armed`
/// the site the hooks hold armed: every snapshot `intents` names, and the
/// generation's own `slot`, can be reclaimed.
pub open spec fn residue_owed(intents: Seq<Slot>, slot: Slot, armed: Option<EffectSiteId>) -> bool {
    &&& forall|i: int| 0 <= i < intents.len() && (#[trigger] intents[i]) is Snapshot ==> reclaimable(intents[i], armed)
    &&& reclaimable(slot, armed)
}

/// The interruption an attempt's settlement appends.
pub open spec fn interrupted_body_matches(body: TopologyEventBody, dispatched: Dispatched, attempt: AttemptNumber, outcome: AttemptOutcome) -> bool {
    body matches TopologyEventBody::AttemptInterrupted { data } && data.key == dispatched.key && data.generation == dispatched.generation
        && data.attempt == attempt && data.lease == lease_spec(dispatched.kind).expected_spec(false) && data.detail@
        == outcome_detail_spec(outcome)
}

/// The failure an assessment finds, in order: the worker's own end, then a
/// completed worker's unresolved conflicts, then the diff; where none of
/// these fails, only the review-input policy can.
pub open spec fn assessed_view(
    a: Assessment,
    status: crate::review::OutcomeStatus,
    unresolved: Seq<Seq<char>>,
    diff: Seq<char>,
    kind: TaskKind,
) -> bool {
    let second = decided_failure(status, unresolved, diff, kind);
    if second is Some {
        failures_view(a.failure) == second
    } else {
        a.failure is None || a.failure.unwrap().kind == crate::review::FailureKind::ReviewInput
    }
}


/// The failure an assessment decides before the review-input policy is
/// consulted: the worker's own end, then a completed worker's unresolved
/// conflicts, then the diff.
pub open spec fn decided_failure(
    status: crate::review::OutcomeStatus,
    unresolved: Seq<Seq<char>>,
    diff: Seq<char>,
    kind: TaskKind,
) -> Option<(crate::review::FailureKind, Seq<char>, Option<Seq<char>>)> {
    let first = if status == crate::review::OutcomeStatus::Completed && unresolved.len() > 0 {
        Some(crate::review::unresolved_conflict_view(unresolved))
    } else {
        crate::review::outcome_failure_view(status)
    };
    if first is Some {
        first
    } else {
        crate::review::diff_failure_view(diff, kind)
    }
}

/// A judgement accepts only where every gate was run and passed and every
/// review pass was run and none failed: with a second opinion configured,
/// both passes must pass.
pub proof fn law_acceptance_needs_every_gate_and_every_review_pass(
    names: Seq<Seq<char>>,
    reviewers: nat,
    identities: JudgeIdentities,
    j: Judgement,
)
    requires
        judged(names, reviewers, identities, None, j),
        j.failure is None,
    ensures
        j.gates@.len() == names.len(),
        forall|i: int| 0 <= i < j.gates@.len() ==> (#[trigger] j.gates@[i]).passed_spec(),
        j.reviews@.len() == reviewers,
        forall|i: int| 0 <= i < j.reviews@.len() ==> !(#[trigger] j.reviews@[i]).failed,
{
    let g = j.gates@;
    if g.len() > 0 && !g.last().passed_spec() {
        assert(failures_view(j.failure) is Some);
    }
    assert forall|i: int| 0 <= i < g.len() implies (#[trigger] g[i]).passed_spec() by {
        if i < g.len() - 1 {
            assert(g[i].passed_spec());
        }
    }
    assert forall|i: int| 0 <= i < j.reviews@.len() implies !(#[trigger] j.reviews@[i]).failed by {
        if i < j.reviews@.len() - 1 {
            assert(!j.reviews@[i].failed);
        }
    }
}

/// A gate that refuses ends the judgement: it fails with that gate's
/// failure, and no review pass runs.
pub proof fn law_a_refusing_gate_ends_the_judgement(
    names: Seq<Seq<char>>,
    reviewers: nat,
    identities: JudgeIdentities,
    j: Judgement,
)
    requires
        judged(names, reviewers, identities, None, j),
        exists|i: int| 0 <= i < j.gates@.len() && !(#[trigger] j.gates@[i]).passed_spec(),
    ensures
        !j.gates@.last().passed_spec(),
        j.reviews@.len() == 0,
        j.failure matches Some(f) && f.kind == crate::review::FailureKind::GateFailed,
{
    let g = j.gates@;
    let i = choose|i: int| 0 <= i < g.len() && !(#[trigger] g[i]).passed_spec();
    if i < g.len() - 1 {
        assert(g[i].passed_spec());
    }
}

/// A failure the assessment found before judging survives it, and nothing
/// is run: no gate and no review pass.
pub proof fn law_an_assessed_failure_runs_nothing(
    names: Seq<Seq<char>>,
    reviewers: nat,
    identities: JudgeIdentities,
    prior: AttemptFailure,
    j: Judgement,
)
    requires
        judged(names, reviewers, identities, Some(prior), j),
    ensures
        j.gates@.len() == 0,
        j.reviews@.len() == 0,
        j.failure == Some(prior),
{
}

/// An empty diff can never pass: for a task that asks for a change, the
/// assessment of a diff that trims to nothing fails, whatever the worker
/// said of itself, and the judgement that starts from it fails too.
pub proof fn law_an_empty_diff_never_passes(
    a: Assessment,
    status: crate::review::OutcomeStatus,
    unresolved: Seq<Seq<char>>,
    diff: Seq<char>,
    kind: TaskKind,
    names: Seq<Seq<char>>,
    reviewers: nat,
    identities: JudgeIdentities,
    j: Judgement,
)
    requires
        kind != TaskKind::Investigate,
        crate::review::blank(diff),
        assessed_view(a, status, unresolved, diff, kind),
        judged(names, reviewers, identities, a.failure, j),
    ensures
        a.failure is Some,
        j.failure is Some,
{
}


/// Gates judge the snapshot, never the task's worktree: the directory a
/// judgement's gates run in, a snapshot under the execution root, is no
/// task slot's directory there.
pub proof fn law_gates_never_run_in_a_task_worktree(root: Seq<char>, names: JudgeNames, slot: Slot)
    requires
        slot is Task,
    ensures
        root + "/"@ + "snapshot-"@ + gates_snapshot_name(names) != root + "/"@ + crate::workspace::slot_name_spec(slot),
{
    reveal_strlit("/");
    reveal_strlit("snapshot-");
    reveal_strlit("k");
    let gate_dir = root + "/"@ + "snapshot-"@ + gates_snapshot_name(names);
    let task_dir = root + "/"@ + crate::workspace::slot_name_spec(slot);
    assert(gate_dir[root.len() as int + 1] == 's');
    assert(task_dir[root.len() as int + 1] == 'k');
}

/// A generation dispatched as a repair of the lineage rooted at `r` closes,
/// at the run's end or through an interrupted attempt, holding that lineage
/// (`LineageHeld { root: r }`); only an ordinary dispatch closes with its
/// predicted paths released.
pub proof fn law_a_repair_closes_holding_its_lineage(
    dispatched: Dispatched,
    run_outcome: crate::model::RunOutcome,
    closed: TopologyEventBody,
    interrupted: TopologyEventBody,
    attempt: AttemptNumber,
    outcome: AttemptOutcome,
)
    requires
        crate::dispatch::run_end_close_matches(closed, dispatched, run_outcome),
        interrupted_body_matches(interrupted, dispatched, attempt, outcome),
    ensures
        dispatched.kind matches crate::dispatch::DispatchKind::Repair { root, .. } ==> (closed matches TopologyEventBody::GenerationClosed {
            data,
        } && data.lease == crate::model::LeaseDisposition::LineageHeld { root }) && (interrupted matches TopologyEventBody::AttemptInterrupted {
            data,
        } && data.lease == crate::model::LeaseDisposition::LineageHeld { root }),
        dispatched.kind is Ordinary ==> (closed matches TopologyEventBody::GenerationClosed { data }
            && data.lease == crate::model::LeaseDisposition::PredictedReleased) && (interrupted matches TopologyEventBody::AttemptInterrupted {
            data,
        } && data.lease == crate::model::LeaseDisposition::PredictedReleased),
{
}

} // verus!
