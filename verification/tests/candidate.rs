use upstroke::candidate::{
    append_candidate_created, append_candidate_prepared, candidate_pin_ref, candidates_ref, complete_promotion,
    create_candidates_ref, expected_refs, promote, prune_orphan_pin, reclaim_after_creation, recovery_for,
    refuse_malformed_commit, run_namespace, pin_candidate, write_candidate_commit, CandidateNames, CandidateRecovery,
    JudgedTree, PromotingCandidate,
};
use upstroke::effects::{EffectSiteId, EventSite, HookPhase, Hooks, ObjectSite, RefSite, SnapshotSite, WorktreeSite};
use upstroke::fold::{
    GenerationClass, Generation, Queue, RegistryEntry, TaskRecord, TaskRegistry, TaskState, TopologyFold,
};
use upstroke::journal::{CandidateJournal, Journal};
use upstroke::model::{
    AttemptNumber, AttemptRecord, CandidateLeaseEffect, CandidateRef, CommitSha, DerivedOutcome, Epoch, GenerationId,
    RunFinished4, RunOutcome, TaskKey, TopologyEventBody,
};
use upstroke::refs::{ObjectKind, ObjectRecord, RefEntry, RefTarget, Repository};
use upstroke::workspace::{ObjectId, Slot, SnapshotInput, SnapshotName, WorkspaceManager};

const RUN_ID: &str = "01KZCAND00000000000000000G";
const ALPHA: TaskKey = TaskKey(0);
const GENERATION: GenerationId = GenerationId(0);
const BASE: &str = "1111111111111111111111111111111111111111";
const BASE_TREE: &str = "2222222222222222222222222222222222222222";
const JUDGED_TREE: &str = "3333333333333333333333333333333333333333";

struct Fixture {
    manager: WorkspaceManager,
    base_sha: CommitSha,
    tree_sha: CommitSha,
    task: Slot,
}

impl Fixture {
    fn new() -> Self {
        let repo = Repository {
            refs: Vec::new(),
            objects: vec![
                ObjectRecord { id: BASE_TREE.to_owned(), kind: ObjectKind::Tree },
                ObjectRecord { id: BASE.to_owned(), kind: ObjectKind::Commit { parent: None, tree: BASE_TREE.to_owned() } },
                ObjectRecord { id: JUDGED_TREE.to_owned(), kind: ObjectKind::Tree },
            ],
            written: 0,
        };
        let mut manager = WorkspaceManager {
            root: "/runs/exec".to_owned(),
            repo,
            worktrees: Vec::new(),
            intents: Vec::new(),
            conflicts: Vec::new(),
            backslash_separates: false,
        };
        let task = Slot::Task { key: "alpha".to_owned(), generation: GENERATION.0 };
        let mut hooks = Hooks::new();
        manager.write_intent(&mut hooks, &task).expect("the task intent");
        manager.add_worktree(&mut hooks, &task, BASE).expect("the task worktree");
        Fixture { manager, base_sha: CommitSha(BASE.to_owned()), tree_sha: CommitSha(JUDGED_TREE.to_owned()), task }
    }

    fn journal(&self) -> Journal {
        Journal::new(in_flight_fold())
    }

    fn judged(&self) -> JudgedTree {
        JudgedTree {
            key: ALPHA,
            generation: GENERATION,
            attempt: AttemptRecord { attempt: 1, tier: "mid".to_owned(), model: "alpha-model".to_owned() },
            base_sha: self.base_sha.clone(),
            tree_sha: self.tree_sha.clone(),
            message: "upstroke: candidate of alpha".to_owned(),
            actual_paths: vec!["worker.txt".to_owned()],
            lease_effect: CandidateLeaseEffect::Keeps,
        }
    }

    fn write_candidate(&mut self, hooks: &mut Hooks) -> Result<upstroke::candidate::UnpinnedCandidate, upstroke::error::UpstrokeError> {
        let judged = self.judged();
        write_candidate_commit(&mut self.manager, hooks, RUN_ID, judged)
    }

    fn run_refs(&self) -> Vec<(String, String)> {
        self.manager.refs_under(&run_namespace(RUN_ID))
    }

    fn object_present(&self, id: &str) -> bool {
        self.manager.repo.object_exists(id)
    }

    /// Whether nothing (no ref, no worktree's head) references `id`.
    fn is_unreachable(&self, id: &str) -> bool {
        let named = self.manager.repo.refs.iter().any(|entry| matches!(&entry.target, RefTarget::Direct(t) if t == id));
        let checked_out = self.manager.worktrees.iter().any(|w| w.head == id);
        !named && !checked_out
    }

    /// The commits nothing references.
    fn unreachable_commits(&self) -> Vec<String> {
        self.manager
            .repo
            .objects
            .iter()
            .filter(|o| matches!(o.kind, ObjectKind::Commit { .. }))
            .map(|o| o.id.clone())
            .filter(|id| self.is_unreachable(id))
            .collect()
    }

    /// Another commit of the judged tree on the same base.
    fn sibling_commit(&mut self) -> CommitSha {
        let id = "5555555555555555555555555555555555555555".to_owned();
        self.manager.repo.objects.push(ObjectRecord {
            id: id.clone(),
            kind: ObjectKind::Commit { parent: Some(BASE.to_owned()), tree: JUDGED_TREE.to_owned() },
        });
        CommitSha(id)
    }

    /// A commit on the base of a tree nothing judged.
    fn divergent_tree_commit(&mut self) -> (CommitSha, CommitSha) {
        let tree = "4444444444444444444444444444444444444444".to_owned();
        self.manager.repo.objects.push(ObjectRecord { id: tree.clone(), kind: ObjectKind::Tree });
        let id = self.manager.repo.write_commit(&tree, BASE);
        (CommitSha(id), CommitSha(tree))
    }

    fn update_ref(&mut self, name: &str, target: &str) {
        self.manager.repo.refs.retain(|entry| entry.name != name);
        self.manager.repo.refs.push(RefEntry { name: name.to_owned(), target: RefTarget::Direct(target.to_owned()) });
    }

    fn delete_ref(&mut self, name: &str) {
        self.manager.repo.refs.retain(|entry| entry.name != name);
    }
}

fn in_flight_fold() -> TopologyFold {
    TopologyFold {
        epoch: Some(Epoch(1)),
        halted_at: None,
        budget_stopped: false,
        registry: Some(TaskRegistry { entries: vec![RegistryEntry { key: ALPHA }] }),
        tasks: vec![TaskRecord {
            state: TaskState::Dispatched,
            generations: vec![Generation {
                id: GENERATION,
                class: GenerationClass::InFlight { attempt: AttemptNumber(1) },
                candidate: None,
            }],
        }],
        transaction: None,
        queue: Some(Queue { entries: Vec::new() }),
        admissible: true,
        derived: DerivedOutcome::NotEnding,
        finished: false,
    }
}

/// The sites of `sites` the trace crossed, by name, in order.
fn order(hooks: &Hooks, sites: &[EffectSiteId]) -> Vec<String> {
    hooks
        .trace
        .iter()
        .filter(|(site, phase)| *phase == HookPhase::Before && sites.contains(site))
        .map(|(site, _)| site.name())
        .collect()
}

fn run_to_queued(fixture: &mut Fixture, hooks: &mut Hooks, journal: &mut Journal) -> CommitSha {
    hooks.trace.clear();
    let unpinned = fixture.write_candidate(hooks).expect("commit-tree");
    let commit = unpinned.commit_sha().clone();
    let pinned = pin_candidate(&mut fixture.manager, hooks, unpinned).expect("pin");
    let task = fixture.task.clone();
    promote(&mut fixture.manager, hooks, journal, &task, pinned).expect("promote");
    commit
}

#[test]
fn kill_after_commit_tree_before_pin_leaves_gc_owned_object_and_settles_interrupted() {
    let mut fixture = Fixture::new();
    assert!(fixture.unreachable_commits().is_empty(), "the fixture starts with no unreachable commit");

    let mut hooks = Hooks::new();
    let journal = fixture.journal();
    let unpinned = fixture.write_candidate(&mut hooks).expect("commit-tree");
    drop(unpinned);

    let orphans = fixture.unreachable_commits();
    assert_eq!(orphans.len(), 1, "exactly one candidate commit and nothing referenced it: {orphans:?}");
    let object = &orphans[0];
    assert!(fixture.object_present(object), "left to Git is not deleted");
    assert_eq!(fixture.manager.repo.commit_tree_sha(object).as_deref(), Some(fixture.tree_sha.0.as_str()));
    assert_eq!(fixture.manager.repo.commit_parent(object).as_deref(), Some(fixture.base_sha.0.as_str()));
    assert!(fixture.run_refs().is_empty(), "no pin exists: {:?}", fixture.run_refs());

    let recovery = recovery_for(&fixture.manager, RUN_ID, journal.fold(), ALPHA).expect("classify");
    assert!(recovery.settles_interrupted, "the attempt is unsettled: {recovery:?}");
    assert_eq!(recovery.orphan_pin, None);
    assert_eq!(recovery.promotion, None);
}

#[test]
fn kill_at_commit_tree_id_unread_point_leaves_gc_owned_object() {
    let mut fixture = Fixture::new();
    assert!(fixture.unreachable_commits().is_empty(), "clean start");

    let mut hooks = Hooks::new();
    let _ = fixture.write_candidate(&mut hooks).expect("commit-tree");

    let orphans = fixture.unreachable_commits();
    assert_eq!(orphans.len(), 1, "the object is whole even though its id was never read: {orphans:?}");
    assert_eq!(fixture.manager.repo.commit_tree_sha(&orphans[0]).as_deref(), Some(JUDGED_TREE));
    assert_eq!(fixture.manager.repo.commit_parent(&orphans[0]).as_deref(), Some(BASE));
    assert!(fixture.run_refs().is_empty(), "nothing names it: {:?}", fixture.run_refs());
}

#[test]
fn orphan_candidate_pin_removed_after_kill() {
    let mut fixture = Fixture::new();
    let mut hooks = Hooks::new();
    let unpinned = fixture.write_candidate(&mut hooks).expect("commit-tree");
    let _pinned = pin_candidate(&mut fixture.manager, &mut hooks, unpinned).expect("pin");

    let refs = fixture.run_refs();
    assert_eq!(refs.len(), 1, "the pin, and only the pin: {refs:?}");
    let (refname, object) = refs[0].clone();
    assert_eq!(refname, candidate_pin_ref(RUN_ID, ALPHA, GENERATION).0);
    assert!(!fixture.is_unreachable(&object), "while the pin holds it the commit is referenced");

    let mut hooks = Hooks::new();
    let journal = fixture.journal();
    let recovery = recovery_for(&fixture.manager, RUN_ID, journal.fold(), ALPHA).expect("classify");
    assert!(recovery.settles_interrupted && recovery.promotion.is_none());
    let Some(pin) = recovery.orphan_pin else {
        panic!("an unsettled attempt with a pin on disk owes an orphan pin");
    };
    assert_eq!(pin.refname.0, refname);
    assert_eq!(pin.object.0, object, "the pin's exact recorded value");

    prune_orphan_pin(&mut fixture.manager, &mut hooks, pin).expect("prune the orphan");
    assert!(fixture.run_refs().is_empty(), "the pin is gone: {:?}", fixture.run_refs());
    assert!(fixture.is_unreachable(&object), "after which the object is again Git's");
    assert!(fixture.object_present(&object), "again Git's is not deleted");
    assert!(hooks.observed(EffectSiteId::Ref(RefSite::DeleteCandidatePin), HookPhase::Before));
}

#[test]
fn unpinned_object_never_adopted_on_resume() {
    let mut fixture = Fixture::new();
    let mut hooks = Hooks::new();
    let journal = fixture.journal();

    let unpinned = fixture.write_candidate(&mut hooks).expect("commit-tree");
    let object = unpinned.commit_sha().0.clone();
    drop(unpinned);

    assert!(fixture.object_present(&object));
    assert!(fixture.is_unreachable(&object));

    let recovery = recovery_for(&fixture.manager, RUN_ID, journal.fold(), ALPHA).expect("classify");
    assert_eq!(recovery, CandidateRecovery { promotion: None, orphan_pin: None, settles_interrupted: true });

    assert_eq!(expected_refs(RUN_ID, journal.fold()), vec![candidate_pin_ref(RUN_ID, ALPHA, GENERATION).0]);
    fixture
        .manager
        .refuse_unexpected_refs(&run_namespace(RUN_ID), &expected_refs(RUN_ID, journal.fold()))
        .expect("the namespace is empty, which is what it should be");

    assert!(fixture.object_present(&object), "still present after the recovery");
    assert!(fixture.is_unreachable(&object), "still unreachable after the recovery: never adopted");
}

#[test]
fn a_substituted_prepared_pin_refuses_and_leaves_the_evidence() {
    let mut fixture = Fixture::new();
    let mut hooks = Hooks::new();
    let mut journal = fixture.journal();

    let unpinned = fixture.write_candidate(&mut hooks).expect("commit-tree");
    let recorded = unpinned.commit_sha().clone();
    let pinned = pin_candidate(&mut fixture.manager, &mut hooks, unpinned).expect("pin");
    let promoting = append_candidate_prepared(&mut journal, &mut hooks, pinned).expect("candidate_prepared");
    assert_eq!(journal.count("candidate_prepared"), 1);
    assert_eq!(journal.count("task_candidate_created"), 0);

    let impostor = fixture.sibling_commit();
    assert_ne!(impostor, recorded);
    let names = CandidateNames::of(RUN_ID, ALPHA, GENERATION);
    fixture.update_ref(names.prepared_ref.as_str(), impostor.as_str());

    let refused = recovery_for(&fixture.manager, RUN_ID, journal.fold(), ALPHA)
        .expect_err("a pin that is not the recorded commit is a substitution");
    let text = refused.message();
    assert!(text.contains(impostor.as_str()) && text.contains(recorded.as_str()), "{text}");

    assert_eq!(
        fixture.manager.repo.direct_ref_target(names.prepared_ref.as_str()).expect("read the pin").as_deref(),
        Some(impostor.as_str()),
        "the refusal removed or moved the pin, which is the evidence"
    );
    assert!(fixture.manager.repo.direct_ref_target(names.candidate_ref.as_str()).expect("read").is_none());
    assert_eq!(journal.count("task_candidate_created"), 0);

    let referenced =
        create_candidates_ref(&mut fixture.manager, &mut hooks, promoting).expect("the recorded commit still verifies");
    let created = append_candidate_created(&mut journal, &mut hooks, referenced).expect("task_candidate_created");
    let task = fixture.task.clone();
    let refused = reclaim_after_creation(&mut fixture.manager, &mut hooks, &task, created)
        .expect_err("the prune compares against the recorded commit");
    assert!(refused.message().contains(impostor.as_str()), "{}", refused.message());
    assert_eq!(
        fixture.manager.repo.direct_ref_target(names.prepared_ref.as_str()).expect("read the pin").as_deref(),
        Some(impostor.as_str()),
        "the prune deleted the substituted pin, which is the evidence"
    );
}

#[test]
fn kill_after_candidate_prepared_appends_candidate_created_once() {
    let mut fixture = Fixture::new();
    let mut hooks = Hooks::new();
    let mut journal = fixture.journal();
    let unpinned = fixture.write_candidate(&mut hooks).expect("commit-tree");
    let pinned = pin_candidate(&mut fixture.manager, &mut hooks, unpinned).expect("pin");
    let _ = append_candidate_prepared(&mut journal, &mut hooks, pinned).expect("candidate_prepared");

    let mut hooks = Hooks::new();
    assert_eq!(journal.count("candidate_prepared"), 1);
    assert_eq!(journal.count("task_candidate_created"), 0);
    assert_eq!(journal.generation_class(ALPHA, GENERATION), Some(GenerationClass::Promoting));
    let refs = fixture.run_refs();
    assert_eq!(
        refs.iter().map(|(name, _)| name.clone()).collect::<Vec<_>>(),
        vec![candidate_pin_ref(RUN_ID, ALPHA, GENERATION).0],
        "the pin, and no candidates ref"
    );

    let recovery = recovery_for(&fixture.manager, RUN_ID, journal.fold(), ALPHA).expect("classify");
    assert!(!recovery.settles_interrupted && recovery.orphan_pin.is_none());
    let Some(promoting) = recovery.promotion else {
        panic!("a durable candidate_prepared is an unfinished promotion");
    };
    assert_eq!(promoting.tree, fixture.tree_sha, "the recovered promotion carries the recorded tree");
    let commit = promoting.candidate().commit_sha.clone();
    let task = fixture.task.clone();
    complete_promotion(&mut fixture.manager, &mut hooks, &mut journal, &task, promoting).expect("the closure procedure finishes it");
    assert_eq!(journal.count("task_candidate_created"), 1);
    assert!(recovery_for(&fixture.manager, RUN_ID, journal.fold(), ALPHA).expect("classify again").is_empty());

    let again = PromotingCandidate {
        candidate: CandidateRef {
            key: ALPHA,
            generation: GENERATION,
            commit_sha: commit.clone(),
            candidate_ref: candidates_ref(RUN_ID, ALPHA, GENERATION),
        },
        prepared_ref: candidate_pin_ref(RUN_ID, ALPHA, GENERATION),
        base: fixture.base_sha.clone(),
        tree: fixture.tree_sha.clone(),
    };
    complete_promotion(&mut fixture.manager, &mut hooks, &mut journal, &task, again).expect("idempotent");
    assert_eq!(journal.count("task_candidate_created"), 1, "twice through the closure procedure is still one queue position");
    assert_eq!(fixture.run_refs(), vec![(candidates_ref(RUN_ID, ALPHA, GENERATION).0, commit.0.clone())]);

    let sibling = fixture.sibling_commit();
    assert_ne!(sibling, commit, "a different commit on the same base");
    let forged = PromotingCandidate {
        candidate: CandidateRef {
            key: ALPHA,
            generation: GENERATION,
            commit_sha: sibling,
            candidate_ref: candidates_ref(RUN_ID, ALPHA, GENERATION),
        },
        prepared_ref: candidate_pin_ref(RUN_ID, ALPHA, GENERATION),
        base: fixture.base_sha.clone(),
        tree: fixture.tree_sha.clone(),
    };
    let refused = complete_promotion(&mut fixture.manager, &mut hooks, &mut journal, &task, forged)
        .expect_err("a candidates ref at another SHA refuses");
    let text = refused.message();
    assert!(text.contains("is present at") && text.contains(&commit.0), "{text}");
}

#[test]
fn pin_pruned_after_promotion() {
    let mut fixture = Fixture::new();
    let mut hooks = Hooks::new();
    let mut journal = fixture.journal();
    let commit = run_to_queued(&mut fixture, &mut hooks, &mut journal);

    assert_eq!(
        order(
            &hooks,
            &[
                EffectSiteId::Object(ObjectSite::CandidateCommitTree),
                EffectSiteId::Ref(RefSite::PinCandidatePrepared),
                EffectSiteId::Event(EventSite::Append),
                EffectSiteId::Ref(RefSite::CreateCandidates),
                EffectSiteId::Ref(RefSite::DeleteCandidatePin),
                EffectSiteId::Worktree(WorktreeSite::Remove),
            ]
        ),
        vec![
            "Object.CandidateCommitTree".to_owned(),
            "Ref.PinCandidatePrepared".to_owned(),
            "Event.Append".to_owned(),
            "Ref.CreateCandidates".to_owned(),
            "Event.Append".to_owned(),
            "Ref.DeleteCandidatePin".to_owned(),
            "Worktree.Remove".to_owned(),
        ],
    );
    assert_eq!(fixture.run_refs(), vec![(candidates_ref(RUN_ID, ALPHA, GENERATION).0, commit.0.clone())]);
    assert!(!fixture.is_unreachable(&commit.0), "the candidates ref accounts for the commit now");
    assert!(!hooks.observed(EffectSiteId::Ref(RefSite::DeleteCandidatesRef), HookPhase::Before));
    assert_eq!(
        expected_refs(RUN_ID, journal.fold()),
        vec![candidates_ref(RUN_ID, ALPHA, GENERATION).0, candidate_pin_ref(RUN_ID, ALPHA, GENERATION).0],
    );
    fixture
        .manager
        .refuse_unexpected_refs(&run_namespace(RUN_ID), &expected_refs(RUN_ID, journal.fold()))
        .expect("the namespace carries exactly what the fold accounts for");
}

#[test]
fn promoting_completed_at_run_end() {
    let mut fixture = Fixture::new();
    let mut hooks = Hooks::new();
    let mut journal = fixture.journal();
    let unpinned = fixture.write_candidate(&mut hooks).expect("commit-tree");
    let pinned = pin_candidate(&mut fixture.manager, &mut hooks, unpinned).expect("pin");
    let promoting = append_candidate_prepared(&mut journal, &mut hooks, pinned).expect("candidate_prepared");
    assert_eq!(journal.generation_class(ALPHA, GENERATION), Some(GenerationClass::Promoting));
    assert_eq!(journal.fold().derived_outcome(), DerivedOutcome::NotEnding);

    let refused = CandidateJournal::emit(
        &mut journal,
        TopologyEventBody::RunFinished {
            data: RunFinished4 { outcome: RunOutcome::Complete, halted_at: None, merged: 0, parked: 0 },
        },
        &mut hooks,
    )
    .expect_err("run_finished before the promotion");
    assert!(refused.message().contains("not ending"), "{}", refused.message());

    let Some(promoting_again) = recovery_for(&fixture.manager, RUN_ID, journal.fold(), ALPHA).expect("classify").promotion else {
        panic!("a Promoting generation owes a promotion");
    };
    assert_eq!(promoting_again.candidate(), promoting.candidate());

    let task = fixture.task.clone();
    complete_promotion(&mut fixture.manager, &mut hooks, &mut journal, &task, promoting).expect("promote at run end");
    assert_eq!(journal.generation_class(ALPHA, GENERATION), Some(GenerationClass::Closed));
    assert!(journal
        .fold()
        .task(ALPHA)
        .expect("alpha")
        .generations
        .iter()
        .all(|generation| generation.class != GenerationClass::Promoting));
    assert_eq!(
        journal.fold().queue().expect("started").entries().iter().map(|entry| entry.candidate.commit_sha.clone()).collect::<Vec<_>>(),
        vec![promoting_again.candidate().commit_sha.clone()],
    );
}

#[test]
fn worktree_removal_idempotent_after_candidate_created() {
    let mut fixture = Fixture::new();
    let mut hooks = Hooks::new();
    let mut journal = fixture.journal();
    assert!(fixture.manager.worktrees.iter().any(|w| w.slot == fixture.task), "the task worktree exists before the promotion");

    run_to_queued(&mut fixture, &mut hooks, &mut journal);
    assert_eq!(journal.count("task_candidate_created"), 1);
    assert!(!fixture.manager.worktrees.iter().any(|w| w.slot == fixture.task), "the worktree is scrubbed");
    assert!(!fixture.manager.intents.contains(&fixture.task), "and its intent leaves with it");

    let order = order(&hooks, &[EffectSiteId::Event(EventSite::Append), EffectSiteId::Worktree(WorktreeSite::Remove)]);
    assert_eq!(order.last().map(String::as_str), Some("Worktree.Remove"), "{order:?}");

    let task = fixture.task.clone();
    for round in 1..=2 {
        fixture.manager.remove_worktree(&mut hooks, &task).unwrap_or_else(|error| panic!("round {round}: {}", error.message()));
        fixture.manager.remove_intent(&mut hooks, &task).unwrap_or_else(|error| panic!("round {round}: {}", error.message()));
        assert!(!fixture.manager.worktrees.iter().any(|w| w.slot == task), "round {round}");
    }

    let escaping = Slot::Task { key: "../../escape".to_owned(), generation: GENERATION.0 };
    let refused = fixture.manager.remove_worktree(&mut hooks, &escaping).expect_err("a slot whose name leaves the execution root refuses");
    assert!(refused.message().contains("escape"), "{}", refused.message());
}

#[test]
fn worktree_removal_succeeds_with_index_lock_present() {
    let mut fixture = Fixture::new();
    fixture.manager.worktrees[0].index.dirty = true;
    fixture.manager.worktrees[0].index.unmerged.push("locked.txt".to_owned());
    let mut hooks = Hooks::new();
    let task = fixture.task.clone();
    fixture.manager.remove_worktree(&mut hooks, &task).expect("forced removal reclaims through administrative residue");
    assert!(fixture.manager.worktrees.is_empty(), "the checkout is gone, and the residue left with it");
    assert!(!fixture.manager.worktrees.iter().any(|w| w.slot.name() == "kalpha-g0"), "and it is no longer listed");
}

#[test]
fn snapshot_residue_reclaimed() {
    let mut fixture = Fixture::new();
    let mut hooks = Hooks::new();
    let input = SnapshotInput::Tree {
        tree: ObjectId::new(fixture.tree_sha.0.clone()).expect("the judged tree is an object id"),
        parent: ObjectId::new(fixture.base_sha.0.clone()).expect("the base is an object id"),
    };
    let gates = fixture.manager.add_snapshot(&mut hooks, &SnapshotName::gates(0, 1), &input).expect("the snapshot for gates");
    let review = fixture.manager.add_snapshot(&mut hooks, &SnapshotName::review(0, 1, 0), &input).expect("the second snapshot");
    let ephemeral = gates.ephemeral.clone().expect("a tree input commits");
    assert_eq!(Some(ephemeral.clone()), review.ephemeral.clone(), "the same tree on the same parent is the same commit");
    assert!(!fixture.is_unreachable(&ephemeral), "while a snapshot has it checked out it is referenced");

    fixture.manager.remove_snapshot(&mut hooks, &gates).expect("prune the snapshot for gates");
    assert!(!fixture.manager.worktrees.iter().any(|w| w.slot == gates.slot));
    assert!(!fixture.manager.intents.contains(gates.slot()));

    let reclaimed = fixture.manager.reclaim_intents(&mut hooks).expect("reclaim");
    assert!(reclaimed.contains(review.slot()), "the second snapshot is reclaimed as residue: {reclaimed:?}");
    assert!(!fixture.manager.worktrees.iter().any(|w| w.slot == review.slot), "its worktree is gone");
    assert!(!fixture.manager.intents.contains(review.slot()), "and so is its intent");
    assert!(fixture.is_unreachable(&ephemeral), "the ephemeral snapshot commit is Git's again");
    assert!(fixture.object_present(&ephemeral), "and not deleted");
    assert!(
        hooks.observed(EffectSiteId::Snapshot(SnapshotSite::Remove), HookPhase::Before)
            && hooks.observed(EffectSiteId::Snapshot(SnapshotSite::RemoveIntent), HookPhase::Before)
    );
}

#[test]
fn the_candidate_refs_are_the_names_the_packet_gives() {
    let names = CandidateNames::of("01RUN", TaskKey(7), GenerationId(3));
    assert_eq!(names.prepared_ref.as_str(), "refs/upstroke/runs/01RUN/candidate-prepared/7/3");
    assert_eq!(names.candidate_ref.as_str(), "refs/upstroke/runs/01RUN/candidates/7/3");
    assert_eq!(names.prepared_ref, candidate_pin_ref("01RUN", TaskKey(7), GenerationId(3)));
    assert_eq!(names.candidate_ref, candidates_ref("01RUN", TaskKey(7), GenerationId(3)));
    assert_eq!(run_namespace("01RUN"), "refs/upstroke/runs/01RUN/");
    assert!(names.prepared_ref.as_str().starts_with(&run_namespace("01RUN")));
    assert!(
        !candidate_pin_ref("01RUNNER", TaskKey(7), GenerationId(3)).as_str().starts_with(&run_namespace("01RUN")),
        "a sibling run's namespace is not a prefix of this one's"
    );
}

fn forged(fixture: &Fixture, commit: CommitSha) -> PromotingCandidate {
    PromotingCandidate {
        candidate: CandidateRef {
            key: ALPHA,
            generation: GENERATION,
            commit_sha: commit,
            candidate_ref: candidates_ref(RUN_ID, ALPHA, GENERATION),
        },
        prepared_ref: candidate_pin_ref(RUN_ID, ALPHA, GENERATION),
        base: fixture.base_sha.clone(),
        tree: fixture.tree_sha.clone(),
    }
}

#[test]
fn promotion_refuses_a_commit_that_is_not_in_the_repository() {
    let mut fixture = Fixture::new();
    let mut hooks = Hooks::new();
    let mut journal = fixture.journal();
    let absent = CommitSha("0123456789abcdef0123456789abcdef01234567".to_owned());
    assert!(!fixture.object_present(absent.as_str()), "and it really is absent");

    let task = fixture.task.clone();
    let promoting = forged(&fixture, absent.clone());
    let refused = complete_promotion(&mut fixture.manager, &mut hooks, &mut journal, &task, promoting)
        .expect_err("an absent object refuses");
    let text = refused.message();
    assert!(text.contains(absent.as_str()) && text.contains("not an object in this repository"), "{text}");
    assert!(fixture.run_refs().is_empty(), "and it refuses before creating anything: {:?}", fixture.run_refs());
    assert_eq!(journal.count("task_candidate_created"), 0);
}

#[test]
fn promotion_refuses_a_commit_on_the_base_whose_tree_was_never_judged() {
    let mut fixture = Fixture::new();
    let mut hooks = Hooks::new();
    let mut journal = fixture.journal();
    let (impostor, impostor_tree) = fixture.divergent_tree_commit();
    assert_ne!(impostor_tree, fixture.tree_sha);
    assert!(fixture.manager.repo.object_exists(impostor.as_str()), "the impostor is present");
    assert_eq!(fixture.manager.repo.commit_parent(impostor.as_str()).as_deref(), Some(fixture.base_sha.as_str()));

    let task = fixture.task.clone();
    let promoting = forged(&fixture, impostor.clone());
    let Err(refused) = complete_promotion(&mut fixture.manager, &mut hooks, &mut journal, &task, promoting) else {
        panic!("recovery adopted a commit whose tree nothing judged");
    };
    assert!(refused.message().contains(impostor.as_str()), "{}", refused.message());
    assert_eq!(journal.count("task_candidate_created"), 0, "a refused adoption still took a queue position");
    assert!(fixture
        .manager
        .repo
        .direct_ref_target(candidates_ref(RUN_ID, ALPHA, GENERATION).as_str())
        .expect("read the ref")
        .is_none());
}

#[test]
fn promotion_refuses_an_object_that_is_not_the_judged_candidate() {
    for (label, present) in [("a tree, not a commit", true), ("a commit that is not on the base", false)] {
        let mut fixture = Fixture::new();
        let mut hooks = Hooks::new();
        let mut journal = fixture.journal();
        let impostor = if present { CommitSha(fixture.tree_sha.0.clone()) } else { fixture.base_sha.clone() };
        assert!(fixture.manager.repo.object_exists(impostor.as_str()), "{label}: the impostor is present");
        let task = fixture.task.clone();
        let promoting = forged(&fixture, impostor.clone());
        let Err(refused) = complete_promotion(&mut fixture.manager, &mut hooks, &mut journal, &task, promoting) else {
            panic!("{label}: an impostor object must refuse");
        };
        assert!(refused.message().contains(impostor.as_str()), "{label}: {}", refused.message());
        assert!(fixture.run_refs().is_empty(), "{label}: {:?}", fixture.run_refs());
        assert_eq!(journal.count("task_candidate_created"), 0, "{label}");
    }
}

#[test]
fn a_commit_id_that_is_not_a_full_object_id_refuses() {
    for value in ["", "abc", "HEAD", "0123456789abcdef0123456789abcdef0123456"] {
        let refusal = refuse_malformed_commit(ALPHA, GENERATION, &CommitSha(value.to_owned()))
            .expect_err("not a full hexadecimal object id");
        assert!(refusal.message().contains("full hexadecimal object id"), "{value:?}: {}", refusal.message());
    }
    refuse_malformed_commit(ALPHA, GENERATION, &CommitSha("0123456789abcdef0123456789abcdef01234567".to_owned()))
        .expect("forty hexadecimal characters is an object id");
}

#[test]
fn a_pin_left_by_an_interrupted_promotion_is_pruned_by_the_closure_procedure() {
    let mut fixture = Fixture::new();
    let mut hooks = Hooks::new();
    let mut journal = fixture.journal();
    let unpinned = fixture.write_candidate(&mut hooks).expect("commit-tree");
    let commit = unpinned.commit_sha().clone();
    let pinned = pin_candidate(&mut fixture.manager, &mut hooks, unpinned).expect("pin");
    hooks.arm(EffectSiteId::Ref(RefSite::DeleteCandidatePin));
    let task = fixture.task.clone();
    promote(&mut fixture.manager, &mut hooks, &mut journal, &task, pinned).expect_err("the prune was made to fail");
    assert_eq!(journal.count("task_candidate_created"), 1);
    assert_eq!(journal.generation_class(ALPHA, GENERATION), Some(GenerationClass::Closed));

    let mut names: Vec<String> = fixture.run_refs().into_iter().map(|(name, _)| name).collect();
    names.sort();
    assert_eq!(
        names,
        vec![candidate_pin_ref(RUN_ID, ALPHA, GENERATION).0, candidates_ref(RUN_ID, ALPHA, GENERATION).0],
        "the pin outlived the promotion"
    );
    fixture
        .manager
        .refuse_unexpected_refs(&run_namespace(RUN_ID), &expected_refs(RUN_ID, journal.fold()))
        .expect("a pin the promotion has not pruned yet is not an unexpected ref");

    let recovery = recovery_for(&fixture.manager, RUN_ID, journal.fold(), ALPHA).expect("classify");
    assert!(!recovery.settles_interrupted && recovery.orphan_pin.is_none(), "{recovery:?}");
    let promoting = recovery.promotion.expect("the promotion is unfinished");
    assert_eq!(promoting.prepared_ref(), &candidate_pin_ref(RUN_ID, ALPHA, GENERATION));

    let mut clean = Hooks::new();
    let queued = complete_promotion(&mut fixture.manager, &mut clean, &mut journal, &task, promoting).expect("the closure procedure finishes it");
    assert_eq!(queued.candidate().commit_sha, commit);
    assert_eq!(journal.count("task_candidate_created"), 1, "and appends nothing: the generation is no longer Promoting");
    assert_eq!(fixture.run_refs(), vec![(candidates_ref(RUN_ID, ALPHA, GENERATION).0, commit.0)]);
    assert!(recovery_for(&fixture.manager, RUN_ID, journal.fold(), ALPHA).expect("classify again").is_empty());
}

#[test]
fn a_symbolic_pin_refuses_on_both_the_write_and_the_read() {
    let mut fixture = Fixture::new();
    let mut hooks = Hooks::new();
    let journal = fixture.journal();
    let pin = candidate_pin_ref(RUN_ID, ALPHA, GENERATION);
    fixture.manager.repo.refs.push(RefEntry { name: pin.0.clone(), target: RefTarget::Symbolic("refs/heads/main".to_owned()) });

    let unpinned = fixture.write_candidate(&mut hooks).expect("commit-tree");
    let refused = pin_candidate(&mut fixture.manager, &mut hooks, unpinned).expect_err("a symbolic pin refuses");
    let text = refused.message();
    assert!(text.contains("symbolic ref") && text.contains("refs/heads/main"), "{text}");

    let read = recovery_for(&fixture.manager, RUN_ID, journal.fold(), ALPHA).expect_err("and the resume refuses to read it too");
    assert!(read.message().contains("symbolic ref"), "{}", read.message());
}

#[test]
fn an_unexpected_ref_under_the_run_namespace_refuses() {
    let mut fixture = Fixture::new();
    let mut hooks = Hooks::new();
    let mut journal = fixture.journal();
    let namespace = run_namespace(RUN_ID);
    let candidates = candidates_ref(RUN_ID, ALPHA, GENERATION);
    assert_eq!(expected_refs(RUN_ID, journal.fold()), vec![candidate_pin_ref(RUN_ID, ALPHA, GENERATION).0]);

    fixture.update_ref(candidates.as_str(), BASE);
    let refused = fixture
        .manager
        .refuse_unexpected_refs(&namespace, &expected_refs(RUN_ID, journal.fold()))
        .expect_err("no candidate is prepared, so no candidates ref is accounted for");
    let text = refused.message();
    assert!(text.contains("unexpected ref") && text.contains(candidates.as_str()), "{text}");

    fixture.delete_ref(candidates.as_str());
    run_to_queued(&mut fixture, &mut hooks, &mut journal);
    let expected = expected_refs(RUN_ID, journal.fold());
    assert!(expected.contains(&candidates.0));
    fixture.manager.refuse_unexpected_refs(&namespace, &expected).expect("what promotion left is what the fold accounts for");

    let stowaway = candidates_ref(RUN_ID, ALPHA, GenerationId(9));
    fixture.update_ref(stowaway.as_str(), BASE);
    let refused = fixture.manager.refuse_unexpected_refs(&namespace, &expected).expect_err("generation 9 does not exist");
    assert!(refused.message().contains(stowaway.as_str()), "{}", refused.message());
}
