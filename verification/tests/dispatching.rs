use upstroke::dispatch::{
    close_at_run_end, dispatch, materialize_repair, resume_open_no_attempt, scrub, task_slot, verify_or_recreate,
    DispatchKind, DispatchRequest, Reuse,
};
use upstroke::effects::{EffectSiteId, HookPhase, Hooks, WorktreeSite};
use upstroke::fold::{GenerationClass, Queue, RegistryEntry, TaskRecord, TaskRegistry, TaskState, TopologyFold};
use upstroke::journal::Journal;
use upstroke::model::{CandidateRef, CommitSha, DerivedOutcome, Epoch, GenerationId, GitRef, Materialization, RunOutcome, TaskKey};
use upstroke::refs::{ObjectKind, ObjectRecord, RefEntry, RefTarget, Repository};
use upstroke::workspace::{Quiescence, Slot, VerifyFailure, WorkspaceManager};

const ALPHA: TaskKey = TaskKey(0);
const REPAIR: TaskKey = TaskKey(1);
const BASE: &str = "1111111111111111111111111111111111111111";
const BASE_TREE: &str = "2222222222222222222222222222222222222222";
const SIDE: &str = "6666666666666666666666666666666666666666";
const SIDE_TREE: &str = "7777777777777777777777777777777777777777";
const OTHER: &str = "8888888888888888888888888888888888888888";
const CANDIDATE_REF: &str = "refs/upstroke/runs/01KZRUN/candidates/0/0";
const VERIFY: EffectSiteId = EffectSiteId::Worktree(WorktreeSite::Verify);

fn commit(id: &str, tree: &str, parent: Option<&str>) -> Vec<ObjectRecord> {
    vec![
        ObjectRecord { id: tree.to_owned(), kind: ObjectKind::Tree },
        ObjectRecord { id: id.to_owned(), kind: ObjectKind::Commit { parent: parent.map(str::to_owned), tree: tree.to_owned() } },
    ]
}

fn manager(refs: Vec<RefEntry>) -> WorkspaceManager {
    let mut objects = commit(BASE, BASE_TREE, None);
    objects.extend(commit(SIDE, SIDE_TREE, Some(BASE)));
    WorkspaceManager {
        root: "/runs/exec".to_owned(),
        repo: Repository { refs, objects, written: 0 },
        worktrees: Vec::new(),
        intents: Vec::new(),
        conflicts: Vec::new(),
        backslash_separates: false,
    }
}

fn candidate_ref(target: &str) -> Vec<RefEntry> {
    vec![RefEntry { name: CANDIDATE_REF.to_owned(), target: RefTarget::Direct(target.to_owned()) }]
}

fn journal() -> Journal {
    Journal::new(TopologyFold {
        epoch: Some(Epoch(1)),
        halted_at: None,
        budget_stopped: false,
        registry: Some(TaskRegistry { entries: vec![RegistryEntry { key: ALPHA }, RegistryEntry { key: REPAIR }] }),
        tasks: vec![
            TaskRecord { state: TaskState::Pending, generations: Vec::new() },
            TaskRecord { state: TaskState::Pending, generations: Vec::new() },
        ],
        transaction: None,
        queue: Some(Queue { entries: Vec::new() }),
        admissible: true,
        derived: DerivedOutcome::NotEnding,
        finished: false,
    })
}

fn ordinary() -> DispatchRequest {
    DispatchRequest {
        key: ALPHA,
        generation: GenerationId(0),
        base: CommitSha(BASE.to_owned()),
        kind: DispatchKind::Ordinary { paths: vec!["src/lib.rs".to_owned()] },
    }
}

fn repair(commit_sha: &str) -> DispatchRequest {
    DispatchRequest {
        key: REPAIR,
        generation: GenerationId(0),
        base: CommitSha(BASE.to_owned()),
        kind: DispatchKind::Repair {
            root: ALPHA,
            source: CandidateRef {
                key: ALPHA,
                generation: GenerationId(0),
                commit_sha: CommitSha(commit_sha.to_owned()),
                candidate_ref: GitRef(CANDIDATE_REF.to_owned()),
            },
        },
    }
}

#[test]
fn a_task_slot_is_named_by_its_key_and_generation() {
    let slot = task_slot(TaskKey(12), GenerationId(3));
    assert_eq!(slot, Slot::Task { key: "12".to_owned(), generation: 3 });
}

#[test]
fn an_ordinary_dispatch_appends_then_creates_its_worktree_at_the_base() {
    let mut manager = manager(Vec::new());
    let mut hooks = Hooks::new();
    let mut journal = journal();
    let dispatched = dispatch(&mut manager, &mut hooks, &mut journal, &ordinary()).expect("dispatches");
    assert_eq!(dispatched.worktree, "/runs/exec/k0-g0");
    assert_eq!(dispatched.materialized, None);
    assert_eq!(journal.count("task_dispatched"), 1);
    assert_eq!(journal.generation_class(ALPHA, GenerationId(0)), Some(GenerationClass::OpenNoAttempt));
    let worktree = manager.worktrees.iter().find(|w| w.slot == dispatched.slot).expect("created");
    assert_eq!(worktree.head, BASE);
}

#[test]
fn a_repair_whose_source_is_absent_is_refused_before_anything_is_written() {
    let cases = [
        (
            manager(candidate_ref(OTHER)),
            OTHER,
            "refusing to dispatch a repair of candidate 0 of task 0: its commit `8888888888888888888888888888888888888888` is not an object in this repository, and `T-DISPATCH` refuses a dispatch whose source candidate object is missing",
        ),
        (
            manager(candidate_ref(BASE)),
            SIDE,
            "refusing to dispatch a repair of candidate 0 of task 0: `refs/upstroke/runs/01KZRUN/candidates/0/0` names `1111111111111111111111111111111111111111` and the recorded candidate is `6666666666666666666666666666666666666666`",
        ),
        (
            manager(Vec::new()),
            SIDE,
            "refusing to dispatch a repair of candidate 0 of task 0: its authoritative ref `refs/upstroke/runs/01KZRUN/candidates/0/0` does not exist, and it is what keeps the candidate reachable",
        ),
    ];
    for (mut manager, source, expected) in cases {
        let before = manager.clone();
        let mut hooks = Hooks::new();
        let mut journal = journal();
        let failure = dispatch(&mut manager, &mut hooks, &mut journal, &repair(source)).expect_err("absent source");
        assert!(failure.wrote_nothing());
        assert_eq!(failure.message(), expected);
        assert_eq!(manager, before);
        assert_eq!(journal.count("task_dispatched"), 0);
    }
}

#[test]
fn a_ref_naming_the_source_in_another_case_is_the_source() {
    let mut manager = manager(candidate_ref(&SIDE.to_uppercase()));
    let mut hooks = Hooks::new();
    let mut journal = journal();
    let dispatched = dispatch(&mut manager, &mut hooks, &mut journal, &repair(SIDE)).expect("the ref names it, case aside");
    assert_eq!(dispatched.materialized, Some(Materialization::Clean));
}

#[test]
fn a_worktree_that_verifies_is_reused_and_one_that_is_gone_is_recreated() {
    let mut manager = manager(Vec::new());
    let mut hooks = Hooks::new();
    let mut journal = journal();
    let dispatched = dispatch(&mut manager, &mut hooks, &mut journal, &ordinary()).expect("dispatches");
    let open = dispatched.open_generation();
    let at_base = Quiescence::AtBase(BASE.to_owned());
    let before = manager.clone();
    let reuse = verify_or_recreate(&mut manager, &mut hooks, &open, &at_base).expect("verifies");
    assert_eq!(reuse, Reuse::Verified);
    assert!(reuse.reused());
    assert_eq!(manager, before);
    assert!(hooks.observed(VERIFY, HookPhase::Before));

    scrub(&mut manager, &mut hooks, &dispatched.slot).expect("scrubbed");
    assert!(!manager.worktrees.iter().any(|w| w.slot == dispatched.slot));
    let reuse = verify_or_recreate(&mut manager, &mut hooks, &open, &at_base).expect("recreates");
    assert_eq!(reuse, Reuse::Recreated { failure: VerifyFailure::Missing });
    assert!(!reuse.reused());
    assert!(manager.worktrees.iter().any(|w| w.slot == dispatched.slot && w.head == BASE));

    let elsewhere = Quiescence::HoldsTree(SIDE_TREE.to_owned());
    let reuse = verify_or_recreate(&mut manager, &mut hooks, &open, &elsewhere).expect("recreates");
    assert_eq!(reuse, Reuse::Recreated { failure: VerifyFailure::Unquiescent });

    hooks.arm(VERIFY);
    let error = verify_or_recreate(&mut manager, &mut hooks, &open, &at_base).expect_err("armed");
    assert_eq!(error.message(), "an error was injected before `Worktree.Verify`");
}

#[test]
fn an_ordinary_generation_has_no_materialization_to_reproduce() {
    let mut manager = manager(Vec::new());
    let mut hooks = Hooks::new();
    let mut journal = journal();
    let dispatched = dispatch(&mut manager, &mut hooks, &mut journal, &ordinary()).expect("dispatches");
    let open = dispatched.open_generation();
    let error = materialize_repair(&mut manager, &mut hooks, &open).expect_err("ordinary");
    assert_eq!(error.message(), "task 0 generation 0 is an ordinary dispatch and has no recorded materialization to reproduce");
    let resumed = resume_open_no_attempt(&mut manager, &mut hooks, &open).expect("resumes");
    assert_eq!(resumed.reuse, Reuse::Verified);
    assert_eq!(resumed.materialized, None);
}

#[test]
fn a_repair_resumed_reproduces_its_materialization() {
    let mut manager = manager(candidate_ref(SIDE));
    let mut hooks = Hooks::new();
    let mut journal = journal();
    let dispatched = dispatch(&mut manager, &mut hooks, &mut journal, &repair(SIDE)).expect("dispatches");
    let open = dispatched.open_generation();
    scrub(&mut manager, &mut hooks, &dispatched.slot).expect("scrubbed");
    let resumed = resume_open_no_attempt(&mut manager, &mut hooks, &open).expect("resumes");
    assert_eq!(resumed.reuse, Reuse::Recreated { failure: VerifyFailure::Missing });
    assert_eq!(resumed.materialized, Some(Materialization::Clean));
}

#[test]
fn the_run_end_closes_a_generation_then_scrubs_it() {
    let mut manager = manager(Vec::new());
    let mut hooks = Hooks::new();
    let mut journal = journal();
    let dispatched = dispatch(&mut manager, &mut hooks, &mut journal, &ordinary()).expect("dispatches");
    close_at_run_end(&mut manager, &mut hooks, &mut journal, &dispatched, RunOutcome::Complete).expect("closes");
    assert_eq!(journal.count("generation_closed"), 1);
    assert_eq!(journal.generation_class(ALPHA, GenerationId(0)), Some(GenerationClass::Closed));
    assert!(manager.worktrees.is_empty());
    assert!(manager.intents.is_empty());
    let before = manager.clone();
    let again = close_at_run_end(&mut manager, &mut hooks, &mut journal, &dispatched, RunOutcome::Complete);
    assert!(again.is_err(), "a closed generation is not closed twice");
    assert_eq!(manager, before);
    assert_eq!(journal.count("generation_closed"), 1);
}

#[test]
fn a_dispatch_the_fold_refuses_appends_nothing_and_creates_nothing() {
    let mut manager = manager(Vec::new());
    let mut hooks = Hooks::new();
    let mut journal = journal();
    dispatch(&mut manager, &mut hooks, &mut journal, &ordinary()).expect("the first dispatch");
    let before = manager.clone();
    let failure = dispatch(&mut manager, &mut hooks, &mut journal, &ordinary()).expect_err("the generation exists");
    assert!(failure.wrote_nothing());
    assert_eq!(failure.message(), "the fold refuses `task_dispatched` in the generation's present state");
    assert_eq!(manager, before);
    assert_eq!(journal.count("task_dispatched"), 1);

    let unknown = DispatchRequest { key: TaskKey(7), ..ordinary() };
    assert!(dispatch(&mut manager, &mut hooks, &mut journal, &unknown).is_err(), "no such task");
    assert_eq!(manager, before);
    assert_eq!(journal.count("task_dispatched"), 1);
}
