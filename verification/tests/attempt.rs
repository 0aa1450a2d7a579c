use upstroke::attempt::{
    captured_object_id, AttemptContext, AttemptOutcome, AttemptPlan, AttemptRun, Capture, GatePlan, Judge, Judging,
    Judgement, ReviewerPlan,
};
use upstroke::dispatch::{dispatch, DispatchKind, DispatchRequest, Dispatched};
use upstroke::effects::{EffectSiteId, HookPhase, Hooks, ObjectSite, SnapshotSite};
use upstroke::error::UpstrokeError;
use upstroke::fold::{GenerationClass, Queue, RegistryEntry, TaskRecord, TaskRegistry, TaskState, TopologyFold};
use upstroke::identity::{AttemptIdentities, InvocationLedger, SlotAssertion, SlotPair};
use upstroke::journal::Journal;
use upstroke::model::{
    AttemptNumber, CandidateRef, CommitSha, DerivedOutcome, Epoch, GenerationId, GitRef, Materialization, RungBinding,
    SessionId, TaskKey,
};
use upstroke::refs::{ObjectKind, ObjectRecord, RefEntry, RefTarget, Repository};
use upstroke::resolution::{plan_resolutions, Declaration, DeclaredResolution, ResolutionKind, ResolutionManifest};
use upstroke::review::{
    FailureKind, ReviewInputPolicy, ReviewInputs, ReviewInvocations, ReviewOutcome, ReviewPasses, ReviewRequest,
    ReviewResult, TaskKind,
};
use upstroke::runner::{AgentId, CommandSpec, ExecutionRole, ProcessOutput, Runner, RunnerError, RunnerRequest};
use upstroke::workspace::{Slot, WorkspaceManager};

const ALPHA: TaskKey = TaskKey(0);
const REPAIR: TaskKey = TaskKey(1);
const GENERATION: GenerationId = GenerationId(0);
const AGENT: &str = "agent-one";
const REVIEW_AGENT: &str = "agent-two";
const GATE_DIAGNOSTIC: &str = "scaffold: the check found the worked file";
const BASE: &str = "1111111111111111111111111111111111111111";
const BASE_TREE: &str = "2222222222222222222222222222222222222222";
const SIDE: &str = "6666666666666666666666666666666666666666";
const SIDE_TREE: &str = "7777777777777777777777777777777777777777";
const CONFLICTING: &str = "8888888888888888888888888888888888888888";
const CONFLICTING_TREE: &str = "9999999999999999999999999999999999999999";
const CANDIDATE_REF: &str = "refs/upstroke/runs/01KZRUN/candidates/0/0";
const DIFF: &str = "diff --git a/worked.txt b/worked.txt";

const STAGE: EffectSiteId = EffectSiteId::Object(ObjectSite::CandidateStage);
const WRITE_TREE: EffectSiteId = EffectSiteId::Object(ObjectSite::CandidateWriteTree);
const SNAPSHOT_COMMIT: EffectSiteId = EffectSiteId::Object(ObjectSite::SnapshotCommitTree);
const SNAPSHOT_INTENT: EffectSiteId = EffectSiteId::Snapshot(SnapshotSite::WriteIntent);
const SNAPSHOT_ADD: EffectSiteId = EffectSiteId::Snapshot(SnapshotSite::Add);

/// A runner that reports the exit codes it is given, in order, and records
/// every request.
struct ScriptedRunner {
    codes: Vec<i32>,
    ran: Vec<RunnerRequest>,
}

impl Runner for ScriptedRunner {
    fn asked(&self) -> vstd::seq::Seq<RunnerRequest> {
        unreachable!()
    }

    fn answered(&self) -> vstd::seq::Seq<Result<ProcessOutput, RunnerError>> {
        unreachable!()
    }

    fn run(&mut self, request: &RunnerRequest) -> Result<ProcessOutput, RunnerError> {
        let code = if self.codes.is_empty() { 0 } else { self.codes.remove(0) };
        self.ran.push(request.clone());
        let stdout = if request.role == ExecutionRole::Gate { GATE_DIAGNOSTIC.to_owned() } else { String::new() };
        Ok(ProcessOutput { code: Some(code), stdout, stderr: String::new(), timed_out: false, output_limited: false })
    }
}

/// Review passes that pass, and record whom they ran as.
struct PassingReviews {
    ran: Vec<String>,
}

impl ReviewPasses for PassingReviews {
    fn asked(&self) -> vstd::seq::Seq<ReviewRequest> {
        unreachable!()
    }

    fn answered(&self) -> vstd::seq::Seq<Result<ReviewOutcome, UpstrokeError>> {
        unreachable!()
    }

    fn run(&mut self, request: &ReviewRequest, _inputs: &ReviewInputs, _invocations: &ReviewInvocations) -> Result<ReviewOutcome, UpstrokeError> {
        self.ran.push(request.agent.clone());
        Ok(ReviewOutcome {
            result: ReviewResult::Judged { pass: true, reasons: Vec::new() },
            cost_micros: None,
            invocations: 1,
            never_started: false,
        })
    }
}

struct NoProblem;

impl ReviewInputPolicy for NoProblem {
    fn asked(&self) -> vstd::seq::Seq<(vstd::seq::Seq<char>, vstd::seq::Seq<char>)> {
        unreachable!()
    }

    fn answered(&self) -> vstd::seq::Seq<Result<Option<String>, UpstrokeError>> {
        unreachable!()
    }

    fn problem(&mut self, _worktree: &String, _tree: &String) -> Result<Option<String>, UpstrokeError> {
        Ok(None)
    }
}

type Context = AttemptContext<Journal, ScriptedRunner, PassingReviews, NoProblem>;

struct Run {
    manager: WorkspaceManager,
    hooks: Hooks,
    journal: Journal,
}

fn commit(id: &str, tree: &str, parent: Option<&str>) -> Vec<ObjectRecord> {
    vec![
        ObjectRecord { id: tree.to_owned(), kind: ObjectKind::Tree },
        ObjectRecord { id: id.to_owned(), kind: ObjectKind::Commit { parent: parent.map(str::to_owned), tree: tree.to_owned() } },
    ]
}

impl Run {
    fn started() -> Run {
        let mut objects = commit(BASE, BASE_TREE, None);
        objects.extend(commit(SIDE, SIDE_TREE, Some(BASE)));
        objects.extend(commit(CONFLICTING, CONFLICTING_TREE, Some(BASE)));
        let manager = WorkspaceManager {
            root: "/runs/exec".to_owned(),
            repo: Repository {
                refs: vec![RefEntry { name: CANDIDATE_REF.to_owned(), target: RefTarget::Direct(SIDE.to_owned()) }],
                objects,
                written: 0,
            },
            worktrees: Vec::new(),
            intents: Vec::new(),
            conflicts: vec![(SIDE.to_owned(), vec!["c.txt".to_owned()])],
            backslash_separates: false,
        };
        let fold = TopologyFold {
            epoch: Some(Epoch(1)),
            halted_at: None,
            budget_stopped: false,
            registry: Some(TaskRegistry { entries: vec![RegistryEntry { key: ALPHA }, RegistryEntry { key: REPAIR }] }),
            tasks: vec![
                TaskRecord { state: TaskState::Pending, generations: Vec::new() },
                TaskRecord { state: TaskState::Pending, generations: Vec::new() },
            ],
            transaction: None,
            queue: Some(Queue { entries: Vec::new() }),
            admissible: true,
            derived: DerivedOutcome::NotEnding,
            finished: false,
        };
        Run { manager, hooks: Hooks::new(), journal: Journal::new(fold) }
    }

    fn dispatch(&mut self) -> Dispatched {
        let request = DispatchRequest {
            key: ALPHA,
            generation: GENERATION,
            base: CommitSha(BASE.to_owned()),
            kind: DispatchKind::Ordinary { paths: vec!["worked.txt".to_owned()] },
        };
        dispatch(&mut self.manager, &mut self.hooks, &mut self.journal, &request).expect("dispatch")
    }

    /// A repair of the side candidate, dispatched at `base`.
    fn repair_at(&mut self, base: &str) -> Dispatched {
        let request = DispatchRequest {
            key: REPAIR,
            generation: GENERATION,
            base: CommitSha(base.to_owned()),
            kind: DispatchKind::Repair {
                root: ALPHA,
                source: CandidateRef {
                    key: ALPHA,
                    generation: GENERATION,
                    commit_sha: CommitSha(SIDE.to_owned()),
                    candidate_ref: GitRef(CANDIDATE_REF.to_owned()),
                },
            },
        };
        dispatch(&mut self.manager, &mut self.hooks, &mut self.journal, &request).expect("the repair dispatches")
    }

    fn context(self, codes: Vec<i32>) -> Context {
        AttemptContext {
            emitter: self.journal,
            core: Judge::new(
                self.manager,
                self.hooks,
                ScriptedRunner { codes, ran: Vec::new() },
                SlotAssertion::new(),
                InvocationLedger::new(),
                vec![AGENT.to_owned(), REVIEW_AGENT.to_owned()],
                PassingReviews { ran: Vec::new() },
            ),
            input_policy: NoProblem,
        }
    }
}

fn attempt_plan(attempt: u32) -> AttemptPlan {
    AttemptPlan {
        attempt: AttemptNumber(attempt),
        rung: 0,
        binding: RungBinding { agent: AGENT.to_owned(), model: "alpha-model".to_owned() },
        pool: Some("scaffold-pool".to_owned()),
        resume_session: None,
        materialization_observed: None,
        agent: AgentId::new(AGENT),
        session_resume: false,
        worker: CommandSpec { program: "agent".to_owned(), args: vec!["--work".to_owned()] },
        worker_timeout_secs: 600,
        gates: vec![GatePlan {
            name: "scaffold".to_owned(),
            command: CommandSpec { program: "sh".to_owned(), args: vec!["-c".to_owned(), "check".to_owned()] },
            timeout_secs: 120,
        }],
        reviewers: vec![reviewer(AGENT), reviewer(REVIEW_AGENT)],
    }
}

fn reviewer(agent: &str) -> ReviewerPlan {
    ReviewerPlan {
        agent: AgentId::new(agent),
        model: "review-model".to_owned(),
        lens: "acceptance".to_owned(),
        pool: None,
        preflight_cli_version: None,
        timeout_secs: 120,
    }
}

fn review_inputs() -> ReviewInputs {
    ReviewInputs {
        title: "alpha".to_owned(),
        body: "do the alpha work".to_owned(),
        acceptance: vec!["the worked file exists".to_owned()],
        diff: DIFF.to_owned(),
        decisions: Vec::new(),
        stem: "alpha".to_owned(),
    }
}

fn balances(cx: &Context) -> bool {
    cx.core.slots.balances() && cx.core.ledger.balances()
}

fn worktree_of<'a>(cx: &'a Context, slot: &Slot) -> &'a upstroke::workspace::Worktree {
    cx.core.manager.worktrees.iter().rev().find(|w| &w.slot == slot).expect("the worktree")
}

fn worktree_mut<'a>(cx: &'a mut Context, slot: &Slot) -> &'a mut upstroke::workspace::Worktree {
    cx.core.manager.worktrees.iter_mut().rev().find(|w| &w.slot == slot).expect("the worktree")
}

/// The worker edits its worktree.
fn agent_edits(cx: &mut Context, slot: &Slot) {
    worktree_mut(cx, slot).index.dirty = true;
}

/// The worker writes its resolution manifest.
fn declare(cx: &mut Context, slot: &Slot, declarations: &[(&str, ResolutionKind)]) {
    worktree_mut(cx, slot).index.manifest = ResolutionManifest::Declared(
        declarations.iter().map(|(path, kind)| Declaration { path: (*path).to_owned(), kind: *kind }).collect(),
    );
}

fn trace_mark(cx: &Context) -> usize {
    cx.core.hooks.trace.len()
}

fn count_after(cx: &Context, mark: usize, site: EffectSiteId, phase: HookPhase) -> usize {
    cx.core.hooks.trace[mark..].iter().filter(|entry| **entry == (site, phase)).count()
}

fn order_after(cx: &Context, fence: usize, site: EffectSiteId) -> usize {
    fence + cx.core.hooks.trace[fence..].iter().position(|entry| *entry == (site, HookPhase::Before)).expect("the site was crossed")
}

fn judge_all(cx: &mut Context, dispatched: &Dispatched, plan: &AttemptPlan, started: &AttemptRun, capture: &Capture, diff: &str, kind: TaskKind) -> Judgement {
    let assessed = cx.assess(dispatched.site(), plan, started, capture, diff, kind).expect("assessed");
    cx.judge(dispatched.site(), plan, Judging { run: started, capture, assessed: &assessed }, &review_inputs()).expect("judge")
}

#[test]
fn attempt_started_is_durable_before_any_spawn() {
    let mut run = Run::started();
    let dispatched = run.dispatch();
    let plan = attempt_plan(1);
    let mut cx = run.context(Vec::new());

    let mark = trace_mark(&cx);
    let started = cx.start(dispatched.site(), &plan).expect("the attempt starts");
    assert_eq!(cx.emitter.durable_kinds(), vec!["task_dispatched", "attempt_started"], "the attempt is durable");
    let upstroke::model::TopologyEventBody::AttemptStarted { data } = &cx.emitter.events[1] else {
        panic!("the second durable event is not an attempt");
    };
    assert_eq!(data.attempt, plan.attempt);
    assert_eq!(data.binding, plan.binding, "the frozen rung binding");
    assert!(data.resume_session.is_none() && data.materialization_observed.is_none());

    let ran = &cx.core.runner.ran;
    assert_eq!(ran.len(), 1, "one worker, and nothing else yet");
    assert_eq!(ran[0].invocation, started.identities.worker());
    assert_eq!(ran[0].workspace, dispatched.worktree, "the worker runs in the task worktree");
    assert_eq!(count_after(&cx, mark, EffectSiteId::Event(upstroke::effects::EventSite::Append), HookPhase::After), 1);
    assert_eq!(cx.emitter.generation_class(ALPHA, GENERATION), Some(GenerationClass::InFlight { attempt: plan.attempt }));
    assert!(balances(&cx), "the worker's slot and registration settled");
}

#[test]
fn every_process_of_an_attempt_is_recorded_reviewers_included() {
    let mut run = Run::started();
    let dispatched = run.dispatch();
    let plan = attempt_plan(1);
    let mut cx = run.context(Vec::new());
    let expected = 1 + plan.gates.len() + plan.reviewers.len();
    assert!(plan.reviewers.len() >= 2);

    let started = cx.start(dispatched.site(), &plan).expect("start");
    agent_edits(&mut cx, &dispatched.slot);
    let capture = cx.capture(dispatched.site()).expect("capture");
    judge_all(&mut cx, &dispatched, &plan, &started, &capture, DIFF, TaskKind::Implement);

    assert_eq!(cx.core.ledger.completed(), expected, "one worker, one gate and two review passes");
    assert!(balances(&cx), "and every one of them settled");
}

#[test]
fn a_refused_gate_ends_the_set_and_its_cause_survives() {
    let mut run = Run::started();
    let dispatched = run.dispatch();
    let mut plan = attempt_plan(1);
    let second = plan.gates[0].clone();
    plan.gates.push(second);
    let mut cx = run.context(vec![0, 2, 127]);

    let started = cx.start(dispatched.site(), &plan).expect("start");
    agent_edits(&mut cx, &dispatched.slot);
    let capture = cx.capture(dispatched.site()).expect("capture");
    let judgement = judge_all(&mut cx, &dispatched, &plan, &started, &capture, DIFF, TaskKind::Implement);

    assert_eq!(judgement.gates.len(), 1, "the second gate must not run after the first refused");
    let failure = judgement.failure.as_ref().expect("a refused gate fails the attempt");
    assert_eq!(failure.kind, FailureKind::GateFailed, "the first cause survives");
    assert!(!judgement.accepted());
    assert_eq!(
        failure.feedback.as_deref().map(str::trim),
        Some(format!("{GATE_DIAGNOSTIC} (exit 2)").as_str()),
        "its output reaches the failure's feedback"
    );
    assert!(failure.reason.contains("scaffold"), "the failure names its gate: {}", failure.reason);
}

#[test]
fn capture_precedes_the_snapshots_and_every_snapshot_commits_before_its_intent() {
    let mut run = Run::started();
    let dispatched = run.dispatch();
    let plan = attempt_plan(1);
    let mut cx = run.context(Vec::new());

    let started = cx.start(dispatched.site(), &plan).expect("start");
    agent_edits(&mut cx, &dispatched.slot);
    let capture = cx.capture(dispatched.site()).expect("capture");
    let mark = trace_mark(&cx);
    let judgement = judge_all(&mut cx, &dispatched, &plan, &started, &capture, DIFF, TaskKind::Implement);

    let stage = order_after(&cx, 0, STAGE);
    let write_tree = order_after(&cx, 0, WRITE_TREE);
    let commit = order_after(&cx, 0, SNAPSHOT_COMMIT);
    assert!(stage < write_tree && write_tree < commit, "capture precedes the snapshots");

    let snapshots = 1 + plan.reviewers.len();
    for site in [SNAPSHOT_COMMIT, SNAPSHOT_INTENT, SNAPSHOT_ADD] {
        assert_eq!(count_after(&cx, mark, site, HookPhase::Before), snapshots);
    }
    let mut fence = mark;
    for index in 0..snapshots {
        let commit = order_after(&cx, fence, SNAPSHOT_COMMIT);
        let intent = order_after(&cx, fence, SNAPSHOT_INTENT);
        let add = order_after(&cx, fence, SNAPSHOT_ADD);
        assert!(commit < intent && intent < add, "snapshot {index}: commit={commit}, intent={intent}, add={add}");
        fence = add + 1;
    }

    assert!(judgement.accepted());
    assert_eq!(judgement.gates.len(), 1);
    assert_eq!(judgement.reviews.len(), 2);
    assert!(!cx.core.hooks.observed(EffectSiteId::Object(ObjectSite::CandidateCommitTree), HookPhase::Before));
    assert_eq!(capture.tree, worktree_of(&cx, &dispatched.slot).tree, "the recorded tree is the worktree's index");
    assert_eq!(capture.parent, dispatched.base.0);
}

#[test]
fn gates_take_no_slot_and_the_worker_and_reviewers_do() {
    let mut run = Run::started();
    let dispatched = run.dispatch();
    let plan = attempt_plan(1);
    let mut cx = run.context(Vec::new());

    let started = cx.start(dispatched.site(), &plan).expect("start");
    assert!(upstroke::identity::is_slotted(&started.identities.worker()));
    assert!(upstroke::identity::is_slotted(&started.identities.review_pass(0, 0)));
    assert!(!upstroke::identity::is_slotted(&started.identities.gate(0, 0)));

    let refusal = cx
        .core
        .slots
        .acquire(&started.identities.gate(0, 0), SlotPair { agent: AGENT.to_owned(), pool: None })
        .expect_err("a gate takes no pair");
    assert!(refusal.message().contains("acquires no slot"), "{}", refusal.message());

    agent_edits(&mut cx, &dispatched.slot);
    let capture = cx.capture(dispatched.site()).expect("capture");
    judge_all(&mut cx, &dispatched, &plan, &started, &capture, DIFF, TaskKind::Implement);

    let ran = &cx.core.runner.ran;
    assert_eq!(ran.len() + cx.core.reviews.ran.len(), 4, "one worker, one gate, two review passes");
    assert_eq!(ran[0].role, ExecutionRole::Implement);
    assert_eq!(ran[0].command, plan.worker, "the worker's request carries the plan's command");
    assert_eq!(ran[1].command, plan.gates[0].command);
    assert_eq!(ran[1].role, ExecutionRole::Gate);
    assert!(ran[1].agent.is_none(), "a gate runs no agent CLI and is bound to no agent");
    assert_ne!(cx.core.reviews.ran[0], cx.core.reviews.ran[1], "the two review passes are two agents");
    assert!(balances(&cx), "every pair and registration settled");
}

#[test]
fn a_refused_slot_acquisition_settles_the_registration_it_took() {
    let mut run = Run::started();
    let dispatched = run.dispatch();
    let plan = attempt_plan(1);
    let mut cx = run.context(Vec::new());

    let squatter = AttemptIdentities::new(ALPHA, GenerationId(9), AttemptNumber(9)).worker();
    cx.core
        .slots
        .acquire(&squatter, SlotPair { agent: AGENT.to_owned(), pool: Some("scaffold-pool".to_owned()) })
        .expect("the pair a worker's role takes");

    let worker = AttemptIdentities::new(dispatched.key, dispatched.generation, plan.attempt).worker().render();
    let error = cx.start(dispatched.site(), &plan).expect_err("a second slotted invocation is refused");
    assert!(error.message().contains("asked for a slot pair while"), "{}", error.message());

    assert!(!cx.core.ledger.running().contains(&worker), "the worker's registration was abandoned running");
    assert!(cx.core.ledger.balances(), "{:?}", cx.core.ledger.running());
    assert_eq!(cx.core.ledger.cancelled(), 1, "cancelled, not completed: no process ran");
    assert_eq!(cx.core.ledger.completed(), 0);
    assert_eq!(cx.core.ledger.duplicates(), 0, "and it was settled exactly once");
    assert_eq!(cx.emitter.durable_kinds().last().copied(), Some("attempt_started"));
    assert!(cx.core.runner.ran.is_empty(), "and the runner was never reached");
}

#[test]
fn kill_after_capture_leaves_index_referenced_objects_then_scrub_releases_them() {
    let mut run = Run::started();
    let dispatched = run.dispatch();
    let plan = attempt_plan(1);
    let mut cx = run.context(Vec::new());
    cx.start(dispatched.site(), &plan).expect("start");
    agent_edits(&mut cx, &dispatched.slot);
    let capture = cx.capture(dispatched.site()).expect("capture");
    assert!(cx.core.manager.repo.object_exists(&capture.tree), "the captured tree is an object");
    assert_eq!(worktree_of(&cx, &dispatched.slot).tree, capture.tree, "and the index references it");

    cx.settle_interrupted(&dispatched, plan.attempt, AttemptOutcome::Interrupted).expect("settled interrupted");
    assert!(!cx.core.manager.worktrees.iter().any(|w| w.slot == dispatched.slot), "the scrub removed the worktree");
    assert!(!cx.core.manager.intents.contains(&dispatched.slot), "and its intent");
    assert!(cx.core.manager.repo.object_exists(&capture.tree), "the object is Git's again, not deleted");
    assert_eq!(cx.emitter.durable_kinds().last().copied(), Some("attempt_interrupted"));
    assert_eq!(cx.emitter.generation_class(ALPHA, GENERATION), Some(GenerationClass::Closed));
}

#[test]
fn kill_after_the_stage_before_the_tree_leaves_index_referenced_objects_then_scrub_releases_them() {
    let mut run = Run::started();
    let dispatched = run.dispatch();
    let plan = attempt_plan(1);
    let mut cx = run.context(Vec::new());
    cx.start(dispatched.site(), &plan).expect("start");
    agent_edits(&mut cx, &dispatched.slot);
    cx.core.hooks.arm(WRITE_TREE);
    cx.capture(dispatched.site()).expect_err("the capture stops between the stage and the tree");
    assert!(cx.core.hooks.observed(STAGE, HookPhase::After), "the stage completed");
    assert!(worktree_of(&cx, &dispatched.slot).index.dirty, "and its index holds what it staged");

    cx.settle_interrupted(&dispatched, plan.attempt, AttemptOutcome::Interrupted).expect("settled interrupted");
    assert!(!cx.core.manager.worktrees.iter().any(|w| w.slot == dispatched.slot), "the scrub releases it");
    assert!(!cx.core.manager.intents.contains(&dispatched.slot));
}

#[test]
fn halt_cancels_in_flight_attempt() {
    let mut run = Run::started();
    let dispatched = run.dispatch();
    let plan = attempt_plan(1);
    let mut cx = run.context(Vec::new());
    cx.start(dispatched.site(), &plan).expect("start");

    let in_flight = AttemptIdentities::new(dispatched.key, dispatched.generation, plan.attempt).gate(0, 0);
    cx.core.ledger.register(&in_flight).expect("a process in flight");
    let reviewer = AttemptIdentities::new(dispatched.key, dispatched.generation, plan.attempt).review_pass(0, 0);
    cx.core.ledger.register(&reviewer).expect("another");
    cx.core.slots.acquire(&reviewer, SlotPair { agent: REVIEW_AGENT.to_owned(), pool: None }).expect("its pair");

    let cancelled = cx.cancel_in_flight(&dispatched, plan.attempt).expect("the halt cancels the attempt");
    assert_eq!(cancelled, 2, "both in-flight invocations were cancelled");
    assert!(cx.core.slots.is_empty(), "the held pair was released");
    assert!(cx.core.ledger.balances());
    assert_eq!(cx.emitter.durable_kinds().last().copied(), Some("attempt_interrupted"));
    let upstroke::model::TopologyEventBody::AttemptInterrupted { data } = cx.emitter.events.last().expect("an event") else {
        panic!("the last event is not the interruption");
    };
    assert!(data.detail.contains("the run halted"), "{}", data.detail);
    assert_eq!(cx.emitter.generation_class(ALPHA, GENERATION), Some(GenerationClass::Closed));
    assert!(!cx.core.manager.worktrees.iter().any(|w| w.slot == dispatched.slot));
}

#[test]
fn synthetic_git_add_residue_unreferenced_objects_and_index_lock_then_forced_scrub_converges() {
    let mut run = Run::started();
    let dispatched = run.dispatch();
    let plan = attempt_plan(1);
    let mut cx = run.context(Vec::new());
    cx.start(dispatched.site(), &plan).expect("start");
    {
        let worktree = worktree_mut(&mut cx, &dispatched.slot);
        worktree.index.dirty = true;
        worktree.index.unmerged.push("locked.txt".to_owned());
    }
    for round in 1..=2 {
        upstroke::dispatch::scrub(&mut cx.core.manager, &mut cx.core.hooks, &dispatched.slot)
            .unwrap_or_else(|error| panic!("round {round}: {}", error.message()));
        assert!(!cx.core.manager.worktrees.iter().any(|w| w.slot == dispatched.slot), "round {round}");
        assert!(!cx.core.manager.intents.contains(&dispatched.slot), "round {round}");
    }
}

#[test]
fn a_malformed_captured_id_is_a_git_error_naming_where_the_value_came_from() {
    let malformed = "not-an-object-id".to_owned();
    let error = captured_object_id("`git write-tree`", malformed.clone()).expect_err("a value that is not an object id");
    let UpstrokeError::Git { message } = &error else {
        panic!("the engine's own malformed value is a Git error, not a refusal: {}", error.message());
    };
    assert!(message.contains("`git write-tree` did not yield an object id") && message.contains(&malformed), "{message}");
    let good = "0123456789abcdef0123456789abcdef01234567".to_owned();
    assert_eq!(
        captured_object_id("the recorded base commit", good.clone()).expect("a full hexadecimal id").as_str(),
        good,
        "and a well-formed id passes through unchanged"
    );
}

#[test]
fn an_unresolved_conflict_fails_the_capture_before_any_gate_and_a_declared_one_is_staged_by_the_engine() {
    let mut run = Run::started();
    let dispatched = run.repair_at(CONFLICTING);
    assert_eq!(dispatched.materialized, Some(Materialization::Conflict));
    let mut plan = attempt_plan(1);
    plan.materialization_observed = dispatched.materialized;
    let mut cx = run.context(Vec::new());
    let started = cx.start(dispatched.site(), &plan).expect("the repair's attempt starts");

    let mark = trace_mark(&cx);
    let capture = cx.capture(dispatched.site()).expect("the capture reads the conflict rather than failing");
    assert_eq!(capture.unresolved, vec!["c.txt".to_owned()]);
    assert_eq!(count_after(&cx, mark, STAGE, HookPhase::Before), 0, "nothing was staged");
    assert_eq!(count_after(&cx, mark, WRITE_TREE, HookPhase::Before), 0);
    assert_eq!(capture.tree, CONFLICTING_TREE, "an unresolved capture names the tree the worktree started from");
    assert!(!worktree_of(&cx, &dispatched.slot).index.unmerged.is_empty(), "and leaves the index unmerged");

    let assessed = cx.assess(dispatched.site(), &plan, &started, &capture, "", TaskKind::Fix).expect("assessed");
    let failure = assessed.failure.clone().expect("an unresolved conflict fails the attempt before any gate");
    assert_eq!(failure.kind, FailureKind::AgentError);
    assert!(failure.reason.contains("c.txt") && failure.reason.contains("unresolved"), "{}", failure.reason);
    let feedback = failure.feedback.clone().unwrap_or_default();
    assert!(
        feedback.contains(upstroke::resolution::RESOLUTION_MANIFEST)
            && feedback.contains("`resolved <path>`")
            && feedback.contains("`deleted <path>`")
            && feedback.contains("Run no git command"),
        "{feedback}"
    );
    assert!(!feedback.contains("git add") && !feedback.contains("git rm"), "{feedback}");

    let judgement = cx
        .judge(dispatched.site(), &plan, Judging { run: &started, capture: &capture, assessed: &assessed }, &review_inputs())
        .expect("judged");
    assert!(judgement.gates.is_empty() && judgement.reviews.is_empty(), "no gate and no review ran");
    assert_eq!(cx.core.runner.ran.len(), 1, "the worker was the only process");

    agent_edits(&mut cx, &dispatched.slot);
    let mark = trace_mark(&cx);
    let capture = cx.capture(dispatched.site()).expect("an edited but undeclared conflict still captures as unresolved");
    assert_eq!(capture.unresolved, vec!["c.txt".to_owned()]);
    assert_eq!(count_after(&cx, mark, STAGE, HookPhase::Before), 0);

    declare(&mut cx, &dispatched.slot, &[("c.txt", ResolutionKind::Resolved)]);
    let mark = trace_mark(&cx);
    let capture = cx.capture(dispatched.site()).expect("a declared resolution captures");
    assert!(capture.unresolved.is_empty(), "the engine staged the resolution the worker declared");
    assert_eq!(count_after(&cx, mark, STAGE, HookPhase::After), 1, "one stage");
    let worktree = worktree_of(&cx, &dispatched.slot);
    assert!(worktree.index.unmerged.is_empty(), "and the index holds no unmerged entry any more");
    assert_eq!(worktree.tree, capture.tree, "the captured tree is the index's");
    assert_eq!(worktree.index.manifest, ResolutionManifest::Absent, "the capture that acted on the manifest consumed it");
    assert!(balances(&cx));
}

#[test]
fn a_declared_deletion_resolves_a_conflict_and_an_undeclared_missing_file_does_not() {
    let mut run = Run::started();
    let dispatched = run.repair_at(CONFLICTING);
    assert_eq!(dispatched.materialized, Some(Materialization::Conflict));
    let plan = attempt_plan(1);
    let mut cx = run.context(Vec::new());
    cx.start(dispatched.site(), &plan).expect("the repair's attempt starts");

    agent_edits(&mut cx, &dispatched.slot);
    let mark = trace_mark(&cx);
    let capture = cx.capture(dispatched.site()).expect("capture");
    assert_eq!(capture.unresolved, vec!["c.txt".to_owned()], "a conflicted path whose file is gone is still unmerged");
    assert_eq!(count_after(&cx, mark, STAGE, HookPhase::Before), 0);

    declare(&mut cx, &dispatched.slot, &[("c.txt", ResolutionKind::Deleted)]);
    let capture = cx.capture(dispatched.site()).expect("capture");
    assert!(capture.unresolved.is_empty(), "a deletion the worker declared is staged by the engine");
    let worktree = worktree_of(&cx, &dispatched.slot);
    assert!(worktree.index.unmerged.is_empty());
    assert!(worktree.index.resolved.contains(&"c.txt".to_owned()), "the index records the settled path");
    assert!(balances(&cx));
}

/// A repair whose materialization left four conflicted paths.
fn four_shape_conflict(run: &mut Run) -> Dispatched {
    run.manager.conflicts = vec![(
        SIDE.to_owned(),
        vec!["c.bin".to_owned(), "c.txt".to_owned(), "d.txt".to_owned(), "m8.txt".to_owned()],
    )];
    run.repair_at(CONFLICTING)
}

const FOUR_PATHS: [&str; 4] = ["c.bin", "c.txt", "d.txt", "m8.txt"];

#[test]
fn four_conflict_shapes_declared_at_once_are_staged_by_the_engine_into_one_tree() {
    let mut run = Run::started();
    let dispatched = four_shape_conflict(&mut run);
    let plan = attempt_plan(1);
    let mut cx = run.context(Vec::new());
    cx.start(dispatched.site(), &plan).expect("the repair's attempt starts");

    agent_edits(&mut cx, &dispatched.slot);
    declare(
        &mut cx,
        &dispatched.slot,
        &[
            ("c.txt", ResolutionKind::Resolved),
            ("m8.txt", ResolutionKind::Resolved),
            ("c.bin", ResolutionKind::Resolved),
            ("d.txt", ResolutionKind::Deleted),
        ],
    );
    let mark = trace_mark(&cx);
    let capture = cx.capture(dispatched.site()).expect("four declared resolutions capture");
    assert!(capture.unresolved.is_empty(), "{:?}", capture.unresolved);
    assert_eq!(count_after(&cx, mark, STAGE, HookPhase::After), 1, "one stage for all four");
    let worktree = worktree_of(&cx, &dispatched.slot);
    assert!(worktree.index.unmerged.is_empty());
    for path in FOUR_PATHS {
        assert!(worktree.index.resolved.contains(&path.to_owned()), "{path}");
    }
    assert_eq!(worktree.tree, capture.tree, "one tree holds them all");
    assert!(balances(&cx));
}

#[test]
fn four_conflict_shapes_undeclared_are_all_refused_before_any_gate_and_nothing_is_staged() {
    let mut run = Run::started();
    let dispatched = four_shape_conflict(&mut run);
    let plan = attempt_plan(1);
    let mut cx = run.context(Vec::new());
    let started = cx.start(dispatched.site(), &plan).expect("the repair's attempt starts");

    agent_edits(&mut cx, &dispatched.slot);
    let mark = trace_mark(&cx);
    let capture = cx.capture(dispatched.site()).expect("capture");
    assert_eq!(capture.unresolved, FOUR_PATHS.map(str::to_owned).to_vec());
    assert_eq!(count_after(&cx, mark, STAGE, HookPhase::Before), 0);
    assert_eq!(capture.tree, CONFLICTING_TREE);

    let assessed = cx.assess(dispatched.site(), &plan, &started, &capture, "", TaskKind::Fix).expect("assessed");
    let failure = assessed.failure.clone().expect("refused before any gate");
    assert_eq!(failure.kind, FailureKind::AgentError);
    for path in FOUR_PATHS {
        assert!(failure.reason.contains(path), "{}", failure.reason);
    }
    let judgement = cx
        .judge(dispatched.site(), &plan, Judging { run: &started, capture: &capture, assessed: &assessed }, &review_inputs())
        .expect("judged");
    assert!(judgement.gates.is_empty() && judgement.reviews.is_empty());
    assert_eq!(cx.core.runner.ran.len(), 1, "only the worker ran");

    declare(
        &mut cx,
        &dispatched.slot,
        &[("c.txt", ResolutionKind::Resolved), ("m8.txt", ResolutionKind::Resolved), ("d.txt", ResolutionKind::Deleted)],
    );
    let mark = trace_mark(&cx);
    let capture = cx.capture(dispatched.site()).expect("capture");
    assert_eq!(capture.unresolved, vec!["c.bin".to_owned()], "the capture is all or nothing");
    assert_eq!(count_after(&cx, mark, STAGE, HookPhase::Before), 0);
    assert_eq!(worktree_of(&cx, &dispatched.slot).index.unmerged, FOUR_PATHS.map(str::to_owned).to_vec());

    worktree_mut(&mut cx, &dispatched.slot).index.manifest = ResolutionManifest::Malformed {
        detail: "line 3 of .upstroke-resolutions is not `resolved <path>` or `deleted <path>`: `fixed c.bin`".to_owned(),
    };
    let mark = trace_mark(&cx);
    let capture = cx.capture(dispatched.site()).expect("capture");
    assert_eq!(capture.unresolved.len(), 5, "{:?}", capture.unresolved);
    assert_eq!(&capture.unresolved[..4], &FOUR_PATHS.map(str::to_owned)[..]);
    assert!(
        capture.unresolved[4].contains("line 3")
            && capture.unresolved[4].contains(upstroke::resolution::RESOLUTION_MANIFEST)
            && capture.unresolved[4].contains("fixed c.bin"),
        "{}",
        capture.unresolved[4]
    );
    assert_eq!(count_after(&cx, mark, STAGE, HookPhase::Before), 0);
    assert!(balances(&cx));
}

#[test]
fn a_declared_path_is_staged_literally_whatever_characters_it_holds() {
    let mut run = Run::started();
    run.manager.conflicts = vec![(SIDE.to_owned(), vec!["a[1].txt".to_owned(), "sp ace.txt".to_owned()])];
    let dispatched = run.repair_at(CONFLICTING);
    assert_eq!(dispatched.materialized, Some(Materialization::Conflict));
    let plan = attempt_plan(1);
    let mut cx = run.context(Vec::new());
    assert_eq!(worktree_of(&cx, &dispatched.slot).index.unmerged, vec!["a[1].txt".to_owned(), "sp ace.txt".to_owned()]);
    cx.start(dispatched.site(), &plan).expect("the attempt starts");

    agent_edits(&mut cx, &dispatched.slot);
    declare(&mut cx, &dispatched.slot, &[("a[1].txt", ResolutionKind::Resolved), ("sp ace.txt", ResolutionKind::Deleted)]);
    let capture = cx.capture(dispatched.site()).expect("capture");
    assert!(capture.unresolved.is_empty(), "{:?}", capture.unresolved);
    let worktree = worktree_of(&cx, &dispatched.slot);
    assert!(worktree.index.unmerged.is_empty());
    assert!(worktree.index.resolved.contains(&"a[1].txt".to_owned()) && worktree.index.resolved.contains(&"sp ace.txt".to_owned()));
    assert!(balances(&cx));
}

#[test]
fn a_resolution_manifest_written_where_nothing_conflicted_is_ignored_and_stays_out_of_the_candidate() {
    let mut run = Run::started();
    let dispatched = run.dispatch();
    let plan = attempt_plan(1);
    let mut cx = run.context(Vec::new());
    cx.start(dispatched.site(), &plan).expect("the attempt starts");

    agent_edits(&mut cx, &dispatched.slot);
    declare(&mut cx, &dispatched.slot, &[("worked.txt", ResolutionKind::Resolved)]);
    let capture = cx.capture(dispatched.site()).expect("capture");
    assert!(capture.unresolved.is_empty());
    let worktree = worktree_of(&cx, &dispatched.slot);
    assert_eq!(worktree.index.manifest, ResolutionManifest::Absent, "the staging removed the manifest");
    assert!(worktree.index.resolved.is_empty(), "and nothing it declared was applied");
    assert_ne!(capture.tree, BASE_TREE, "the worker's edits are captured");

    agent_edits(&mut cx, &dispatched.slot);
    worktree_mut(&mut cx, &dispatched.slot).index.manifest =
        ResolutionManifest::Malformed { detail: "line 1 of .upstroke-resolutions: `fixed worked.txt`".to_owned() };
    assert!(matches!(
        cx.core.manager.resolution_manifest(&dispatched.slot).expect("the manifest reads"),
        ResolutionManifest::Malformed { .. }
    ));
    let capture = cx.capture(dispatched.site()).expect("an ordinary capture does not read the manifest");
    assert!(capture.unresolved.is_empty());
    assert_eq!(worktree_of(&cx, &dispatched.slot).index.manifest, ResolutionManifest::Absent);
    assert!(balances(&cx));
}

#[test]
fn an_already_present_source_proceeds_as_an_ordinary_attempt_whose_empty_diff_fails_honestly() {
    let mut run = Run::started();
    let dispatched = run.repair_at(SIDE);
    assert_eq!(dispatched.materialized, Some(Materialization::Empty), "the source is already present");
    let plan = attempt_plan(1);
    let mut cx = run.context(Vec::new());
    let started = cx.start(dispatched.site(), &plan).expect("an Empty observation proceeds as an ordinary attempt");
    let capture = cx.capture(dispatched.site()).expect("capture");
    assert!(capture.unresolved.is_empty());
    assert_eq!(capture.tree, SIDE_TREE, "the tree is the source's own");
    let assessed = cx.assess(dispatched.site(), &plan, &started, &capture, "", TaskKind::Fix).expect("assessed");
    assert_eq!(assessed.failure.as_ref().map(|failure| failure.kind), Some(FailureKind::EmptyDiff));
    assert!(balances(&cx));
}

/// Makes generation `GENERATION` of the repair retained and idle after
/// attempt `attempt - 1`, then starts attempt `attempt` in its worktree.
fn retry_in_place(cx: &mut Context, dispatched: &Dispatched, attempt: u32) {
    let task = &mut cx.emitter.fold.tasks[dispatched.key.0 as usize];
    let generation = task.generations.iter_mut().find(|g| g.id == GENERATION).expect("the generation");
    generation.class = GenerationClass::RetainedIdle { session: SessionId("session".to_owned()), incarnation: Epoch(1) };
    let plan = attempt_plan(attempt);
    cx.start(dispatched.site(), &plan).expect("the retained retry starts");
}

#[test]
fn a_retained_retry_revises_a_declared_resolution_to_a_deletion_and_a_settled_deletion_is_not_reapplied() {
    let mut run = Run::started();
    let dispatched = run.repair_at(CONFLICTING);
    let plan = attempt_plan(1);
    let mut cx = run.context(Vec::new());
    cx.start(dispatched.site(), &plan).expect("start");
    agent_edits(&mut cx, &dispatched.slot);
    declare(&mut cx, &dispatched.slot, &[("c.txt", ResolutionKind::Resolved)]);
    let first = cx.capture(dispatched.site()).expect("the first capture");
    assert!(first.unresolved.is_empty());
    assert_eq!(worktree_of(&cx, &dispatched.slot).index.resolved, vec!["c.txt".to_owned()]);

    retry_in_place(&mut cx, &dispatched, 2);
    declare(&mut cx, &dispatched.slot, &[("c.txt", ResolutionKind::Deleted)]);
    let mark = trace_mark(&cx);
    let second = cx.capture(dispatched.site()).expect("the retry revises the resolution");
    assert!(second.unresolved.is_empty());
    assert_eq!(count_after(&cx, mark, STAGE, HookPhase::After), 1);
    assert_ne!(second.tree, first.tree, "the revision is a new tree");

    let mark = trace_mark(&cx);
    let third = cx.capture(dispatched.site()).expect("a settled deletion is not reapplied");
    assert!(third.unresolved.is_empty());
    assert_eq!(third.tree, second.tree, "nothing changed, so the tree is the same");
    assert_eq!(count_after(&cx, mark, STAGE, HookPhase::After), 1);
    assert!(balances(&cx));
}

#[test]
fn a_retained_retry_reads_the_manifest_while_the_index_holds_what_a_capture_resolved() {
    let mut run = Run::started();
    let dispatched = run.repair_at(CONFLICTING);
    let plan = attempt_plan(1);
    let mut cx = run.context(Vec::new());
    cx.start(dispatched.site(), &plan).expect("start");
    agent_edits(&mut cx, &dispatched.slot);
    declare(&mut cx, &dispatched.slot, &[("c.txt", ResolutionKind::Resolved)]);
    cx.capture(dispatched.site()).expect("the first capture resolves c.txt");

    retry_in_place(&mut cx, &dispatched, 2);
    declare(&mut cx, &dispatched.slot, &[("c.txt", ResolutionKind::Resolved), ("c.txt", ResolutionKind::Deleted)]);
    let mark = trace_mark(&cx);
    let capture = cx.capture(dispatched.site()).expect("capture");
    assert_eq!(capture.unresolved.len(), 1, "a resolved path the index holds is governed: {:?}", capture.unresolved);
    assert!(capture.unresolved[0].contains("c.txt") && capture.unresolved[0].contains("declared both"), "{}", capture.unresolved[0]);
    assert_eq!(count_after(&cx, mark, STAGE, HookPhase::Before), 0, "a refusal stages nothing");
    assert!(balances(&cx));
}

#[test]
fn a_declaration_in_another_case_is_refused_and_the_checkout_says_whether_it_named_the_file() {
    let mut run = Run::started();
    run.manager.conflicts = vec![(SIDE.to_owned(), vec!["Readme.md".to_owned()])];
    let dispatched = run.repair_at(CONFLICTING);
    let plan = attempt_plan(1);
    let mut cx = run.context(Vec::new());
    cx.start(dispatched.site(), &plan).expect("start");
    agent_edits(&mut cx, &dispatched.slot);

    declare(&mut cx, &dispatched.slot, &[("README.md", ResolutionKind::Resolved)]);
    let capture = cx.capture(dispatched.site()).expect("capture");
    assert_eq!(capture.unresolved.len(), 1, "{:?}", capture.unresolved);
    let refusal = &capture.unresolved[0];
    assert!(
        refusal.starts_with("Readme.md (") && refusal.contains("`README.md`") && refusal.contains("spell the path as the index does"),
        "the refusal names the index's spelling and the declared one: {refusal}"
    );

    declare(&mut cx, &dispatched.slot, &[("Readme.md", ResolutionKind::Resolved), ("README.md", ResolutionKind::Deleted)]);
    let capture = cx.capture(dispatched.site()).expect("capture");
    assert_eq!(capture.unresolved.len(), 1, "{:?}", capture.unresolved);
    assert!(capture.unresolved[0].contains("differs only by case"), "{}", capture.unresolved[0]);
    assert!(balances(&cx));
}

#[test]
fn a_quoted_declaration_names_an_entry_exactly_whitespace_included() {
    let mut run = Run::started();
    run.manager.conflicts = vec![(SIDE.to_owned(), vec![" padded.txt ".to_owned()])];
    let dispatched = run.repair_at(CONFLICTING);
    let plan = attempt_plan(1);
    let mut cx = run.context(Vec::new());
    cx.start(dispatched.site(), &plan).expect("start");
    agent_edits(&mut cx, &dispatched.slot);

    declare(&mut cx, &dispatched.slot, &[("padded.txt", ResolutionKind::Resolved)]);
    let capture = cx.capture(dispatched.site()).expect("capture");
    assert_eq!(capture.unresolved, vec![" padded.txt ".to_owned()], "the trimmed spelling names nothing");

    declare(&mut cx, &dispatched.slot, &[(" padded.txt ", ResolutionKind::Resolved)]);
    let capture = cx.capture(dispatched.site()).expect("capture");
    assert!(capture.unresolved.is_empty(), "the exact spelling names the entry: {:?}", capture.unresolved);
    assert!(balances(&cx));
}

#[test]
fn a_case_alias_is_read_per_character_so_a_final_sigma_hides_no_contradiction() {
    let mut run = Run::started();
    run.manager.conflicts = vec![(SIDE.to_owned(), vec!["ΟΔΟΣ.txt".to_owned()])];
    let dispatched = run.repair_at(CONFLICTING);
    let plan = attempt_plan(1);
    let mut cx = run.context(Vec::new());
    cx.start(dispatched.site(), &plan).expect("start");
    agent_edits(&mut cx, &dispatched.slot);

    declare(&mut cx, &dispatched.slot, &[("ΟΔΟΣ.txt", ResolutionKind::Resolved), ("οδοσ.txt", ResolutionKind::Deleted)]);
    let capture = cx.capture(dispatched.site()).expect("capture");
    assert_eq!(capture.unresolved.len(), 1, "{:?}", capture.unresolved);
    assert!(
        capture.unresolved[0].starts_with("ΟΔΟΣ.txt (") && capture.unresolved[0].contains("differs only by case"),
        "folded one character at a time, the two spellings are one: {}",
        capture.unresolved[0]
    );
    assert!(balances(&cx));
}

#[test]
fn a_declaration_no_capture_read_does_not_outlive_it_so_a_recreated_path_is_governed_by_no_stale_one() {
    let mut run = Run::started();
    let dispatched = run.dispatch();
    let plan = attempt_plan(1);
    let mut cx = run.context(Vec::new());
    cx.start(dispatched.site(), &plan).expect("start");
    agent_edits(&mut cx, &dispatched.slot);
    declare(&mut cx, &dispatched.slot, &[("c.txt", ResolutionKind::Deleted)]);
    cx.capture(dispatched.site()).expect("a capture with nothing to govern");
    assert_eq!(
        worktree_of(&cx, &dispatched.slot).index.manifest,
        ResolutionManifest::Absent,
        "the declaration went with the capture that did not read it"
    );

    worktree_mut(&mut cx, &dispatched.slot).index.unmerged = vec!["c.txt".to_owned()];
    let capture = cx.capture(dispatched.site()).expect("capture");
    assert_eq!(capture.unresolved, vec!["c.txt".to_owned()], "no stale declaration governs the recreated conflict");
    assert!(balances(&cx));
}

#[test]
fn gates_run_in_the_gates_snapshot_and_an_accepted_judgement_ran_every_pass() {
    let mut run = Run::started();
    let dispatched = run.dispatch();
    let plan = attempt_plan(1);
    let mut cx = run.context(Vec::new());

    let started = cx.start(dispatched.site(), &plan).expect("start");
    agent_edits(&mut cx, &dispatched.slot);
    let capture = cx.capture(dispatched.site()).expect("capture");
    let judgement = judge_all(&mut cx, &dispatched, &plan, &started, &capture, DIFF, TaskKind::Implement);

    assert!(judgement.accepted());
    assert_eq!(judgement.gates.len(), plan.gates.len());
    for verdict in &judgement.gates {
        assert!(verdict.passed());
        assert_eq!(verdict.workspace, "/runs/exec/snapshot-g0-a1-gates");
        assert_ne!(verdict.workspace, dispatched.worktree);
    }
    assert_eq!(judgement.reviews.len(), plan.reviewers.len());
    for (record, planned) in judgement.reviews.iter().zip(&plan.reviewers) {
        assert_eq!(record.agent, planned.agent.0);
        assert!(!record.failed);
    }
    assert!(judgement.timed_out_gate().is_none());
}

#[test]
fn kill_during_retry_attempt_closes_generation() {
    let mut run = Run::started();
    let dispatched = run.dispatch();
    let mut cx = run.context(Vec::new());
    cx.start(dispatched.site(), &attempt_plan(1)).expect("the first attempt");
    cx.emitter.fold.tasks[0].generations[0].class =
        GenerationClass::RetainedIdle { session: SessionId("retained-session".to_owned()), incarnation: Epoch(0) };
    cx.start(dispatched.site(), &attempt_plan(2)).expect("the retry re-enters the same generation");

    assert_eq!(
        cx.emitter.durable_kinds(),
        vec!["task_dispatched", "attempt_started", "attempt_started"],
        "the retry started after the generation was retained"
    );
    assert_eq!(
        cx.emitter.generation_class(ALPHA, GENERATION),
        Some(GenerationClass::InFlight { attempt: AttemptNumber(2) }),
        "the retry re-entered the same generation"
    );

    cx.settle_interrupted(&dispatched, AttemptNumber(2), AttemptOutcome::Interrupted).expect("settle");

    let upstroke::model::TopologyEventBody::AttemptInterrupted { data } = cx.emitter.events.last().expect("a terminal") else {
        panic!("the last durable event is not an interruption");
    };
    assert_eq!(data.attempt, AttemptNumber(2), "the terminal names the retry, not the attempt that retained");
    assert_eq!(
        cx.emitter.generation_class(ALPHA, GENERATION),
        Some(GenerationClass::Closed),
        "a generation does not survive an interruption"
    );
    assert_eq!(cx.emitter.fold.tasks[0].state, TaskState::Pending);
    assert!(!cx.core.manager.worktrees.iter().any(|w| w.slot == dispatched.slot));
}

#[test]
fn a_backslash_names_an_index_path_exactly_where_the_hosts_git_reads_it_as_a_separator() {
    let unmerged = vec!["dir/f.txt".to_owned()];
    let manifest = ResolutionManifest::Declared(vec![Declaration { path: "dir\\f.txt".to_owned(), kind: ResolutionKind::Resolved }]);
    let unix = plan_resolutions(&unmerged, &Vec::new(), &manifest, false);
    assert!(unix.staged.is_empty());
    assert_eq!(unix.refused, vec!["dir/f.txt".to_owned()]);
    let windows = plan_resolutions(&unmerged, &Vec::new(), &manifest, true);
    assert_eq!(windows.staged, vec![DeclaredResolution { path: "dir/f.txt".to_owned(), kind: ResolutionKind::Resolved }]);
    assert!(windows.refused.is_empty());
    let absent = plan_resolutions(&unmerged, &Vec::new(), &ResolutionManifest::Absent, true);
    assert_eq!(absent.refused, vec!["dir/f.txt".to_owned()]);
}
