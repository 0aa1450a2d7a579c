use upstroke::closure::{blockers, closable, confirm_derived, ending_outcome, refuse_unclosable, run_finished, unclosable};
use upstroke::fold::{Generation, GenerationClass, Queue, QueueEntry, RegistryEntry, TaskRecord, TaskRegistry, TaskState, TopologyFold};
use upstroke::model::{
    AttemptNumber, CandidateRef, CommitSha, DerivedOutcome, Epoch, GenerationId, GitRef, RunOutcome, SessionId, TaskKey,
};

fn generation(id: u32, class: GenerationClass) -> Generation {
    Generation { id: GenerationId(id), class, candidate: None }
}

fn fold(tasks: Vec<TaskRecord>, derived: DerivedOutcome) -> TopologyFold {
    TopologyFold {
        epoch: Some(Epoch(1)),
        halted_at: None,
        budget_stopped: false,
        registry: Some(TaskRegistry { entries: (0..tasks.len() as u32).map(|k| RegistryEntry { key: TaskKey(k) }).collect() }),
        tasks,
        transaction: None,
        queue: Some(Queue { entries: Vec::new() }),
        admissible: false,
        derived,
        finished: false,
    }
}

fn task(state: TaskState, generations: Vec<Generation>) -> TaskRecord {
    TaskRecord { state, generations }
}

#[test]
fn the_ending_outcome_is_the_recorded_halt_or_budget_stop_before_the_derived_one() {
    let mut ending = fold(vec![task(TaskState::Merged, Vec::new())], DerivedOutcome::Ending(RunOutcome::Complete));
    assert_eq!(ending_outcome(&ending), Ok(RunOutcome::Complete));
    ending.budget_stopped = true;
    assert_eq!(ending_outcome(&ending), Ok(RunOutcome::BudgetExceeded));
    ending.halted_at = Some(TaskKey(0));
    assert_eq!(ending_outcome(&ending), Ok(RunOutcome::Halted));
    ending.epoch = None;
    assert_eq!(
        ending_outcome(&ending).expect_err("not started").message(),
        "the run has not started, so there is nothing to close and no outcome to derive"
    );
    let error = fold(Vec::new(), DerivedOutcome::FoldError);
    assert_eq!(
        ending_outcome(&error).expect_err("no outcome").message(),
        "the fold derives no outcome for this state (the arm the census asserts unreachable); nothing was appended"
    );
}

#[test]
fn a_run_that_is_not_ending_says_every_reason() {
    let mut waiting = fold(
        vec![
            task(TaskState::Dispatched, vec![generation(0, GenerationClass::OpenNoAttempt)]),
            task(TaskState::Deferred, vec![generation(2, GenerationClass::Closed)]),
        ],
        DerivedOutcome::NotEnding,
    );
    waiting.admissible = true;
    let candidate = CandidateRef {
        key: TaskKey(1),
        generation: GenerationId(2),
        commit_sha: CommitSha("1".repeat(40)),
        candidate_ref: GitRef("refs/upstroke/runs/r/candidates/1/2".to_owned()),
    };
    waiting.queue = Some(Queue { entries: vec![QueueEntry { candidate, verification_deferred: true }] });
    assert_eq!(
        blockers(&waiting),
        vec![
            "task k0 generation 0 is open with no attempt".to_owned(),
            "task k1 is deferred (backoff pending)".to_owned(),
            "candidate k1 g2 is verification-deferred (backoff pending)".to_owned(),
            "structurally admissible work exists".to_owned(),
        ]
    );
    let message = ending_outcome(&waiting).expect_err("not ending").message();
    assert!(message.starts_with("the run is not ending: nothing is selectable"));
    assert!(message.ends_with(
        "because task k0 generation 0 is open with no attempt; task k1 is deferred (backoff pending); candidate k1 g2 is verification-deferred (backoff pending); structurally admissible work exists. Nothing was appended"
    ));
    let unnamed = fold(vec![task(TaskState::Pending, Vec::new())], DerivedOutcome::NotEnding);
    assert_eq!(blockers(&unnamed), vec!["of a state this module cannot name".to_owned()]);
}

#[test]
fn work_in_flight_or_promoting_is_refused_by_closure() {
    let busy = fold(
        vec![
            task(TaskState::Dispatched, vec![generation(0, GenerationClass::InFlight { attempt: AttemptNumber(3) })]),
            task(TaskState::Queued, vec![generation(1, GenerationClass::Promoting)]),
        ],
        DerivedOutcome::NotEnding,
    );
    assert_eq!(
        unclosable(&busy),
        vec!["task k0 generation 0 is in flight (attempt 3)".to_owned(), "task k1 generation 1 is promoting".to_owned()]
    );
    let message = refuse_unclosable(&busy).expect_err("unclosable").message();
    assert!(message.contains("task k0 generation 0 is in flight (attempt 3); task k1 generation 1 is promoting"));
    let idle = fold(
        vec![task(
            TaskState::Dispatched,
            vec![generation(0, GenerationClass::RetainedIdle { session: SessionId("s".to_owned()), incarnation: Epoch(4) })],
        )],
        DerivedOutcome::NotEnding,
    );
    assert!(refuse_unclosable(&idle).is_ok());
    assert_eq!(unclosable(&idle), Vec::<String>::new());
    assert_eq!(blockers(&idle), vec!["task k0 generation 0 is retained idle from epoch 4".to_owned()]);
}

#[test]
fn closure_closes_open_and_retained_generations_only() {
    let mixed = fold(
        vec![
            task(TaskState::Dispatched, vec![generation(0, GenerationClass::Closed), generation(1, GenerationClass::OpenNoAttempt)]),
            task(TaskState::Dispatched, vec![generation(0, GenerationClass::InFlight { attempt: AttemptNumber(1) })]),
            task(
                TaskState::Dispatched,
                vec![generation(0, GenerationClass::RetainedIdle { session: SessionId("s".to_owned()), incarnation: Epoch(1) })],
            ),
            task(TaskState::Merged, vec![generation(0, GenerationClass::Closed)]),
        ],
        DerivedOutcome::NotEnding,
    );
    assert_eq!(closable(&mixed), vec![TaskKey(0), TaskKey(2)]);
}

#[test]
fn closure_confirms_exactly_the_outcome_the_fold_derives() {
    let parked = fold(vec![task(TaskState::Parked, Vec::new())], DerivedOutcome::Ending(RunOutcome::Parked));
    assert!(confirm_derived(&parked, &RunOutcome::Parked).is_ok());
    assert_eq!(
        confirm_derived(&parked, &RunOutcome::Complete).expect_err("another outcome").message(),
        "closure was ending the run as `complete` and, with every open generation closed, the fold derives `parked`; nothing was appended for the end"
    );
    let stuck = fold(vec![task(TaskState::Deferred, Vec::new())], DerivedOutcome::NotEnding);
    assert_eq!(
        confirm_derived(&stuck, &RunOutcome::Complete).expect_err("not ending").message(),
        "closure closed every open generation and the run is still not ending because task k0 is deferred (backoff pending); nothing was appended for the end"
    );
}

#[test]
fn the_finishing_record_counts_merged_and_parked_tasks() {
    let mut done = fold(
        vec![
            task(TaskState::Merged, Vec::new()),
            task(TaskState::Parked, Vec::new()),
            task(TaskState::Merged, Vec::new()),
            task(TaskState::Pending, Vec::new()),
        ],
        DerivedOutcome::Ending(RunOutcome::Complete),
    );
    done.halted_at = Some(TaskKey(3));
    let record = run_finished(&done, RunOutcome::Halted);
    assert_eq!(record.outcome, RunOutcome::Halted);
    assert_eq!(record.halted_at, Some(TaskKey(3)));
    assert_eq!(record.merged, 2);
    assert_eq!(record.parked, 1);
}
