use upstroke::effects::{EffectSiteId, EventSite, Hooks};
use upstroke::emit::{
    emit, AppendFault, AppendOutcome, BarrierFailure, BarrierStep, EmitError, EmitFailure, EmitState, EventLog,
    FirstAppendDisposition, RunIdentity, UncancelledAppend,
};
use upstroke::error::UpstrokeError;
use upstroke::fold::{Queue, RegistryEntry, TaskRecord, TaskRegistry, TaskState, TopologyFold};
use upstroke::identity::{InvocationId, InvocationLedger, InvocationRole, InvocationScope, ReservationKind, Reservations};
use upstroke::model::{CommitSha, DerivedOutcome, Epoch, GenerationId, LeaseGrant, TaskDispatched, TaskKey, TopologyEventBody};

const ALPHA: TaskKey = TaskKey(0);
const LINE: &str = "{\"kind\":\"task_dispatched\"}";
const APPEND: EffectSiteId = EffectSiteId::Event(EventSite::Append);

fn fold() -> TopologyFold {
    TopologyFold {
        epoch: Some(Epoch(1)),
        halted_at: None,
        budget_stopped: false,
        registry: Some(TaskRegistry { entries: vec![RegistryEntry { key: ALPHA }] }),
        tasks: vec![TaskRecord { state: TaskState::Pending, generations: Vec::new() }],
        transaction: None,
        queue: Some(Queue { entries: Vec::new() }),
        admissible: true,
        derived: DerivedOutcome::NotEnding,
        finished: false,
    }
}

fn state() -> EmitState {
    EmitState { fold: fold(), log: EventLog::new(), events: Vec::new(), reservations: Reservations::new(), fold_poisoned: false }
}

fn dispatched(generation: u32) -> TopologyEventBody {
    TopologyEventBody::TaskDispatched {
        data: TaskDispatched {
            key: ALPHA,
            generation: GenerationId(generation),
            base_sha: CommitSha("1111111111111111111111111111111111111111".to_owned()),
            worktree_path: "/runs/exec/k0-g0".to_owned(),
            lease: LeaseGrant::Predicted { paths: vec!["src/lib.rs".to_owned()] },
            source_candidate: None,
        },
    }
}

fn identity() -> RunIdentity {
    RunIdentity { run_id: "01KZRUN".to_owned() }
}

fn running_worker() -> InvocationLedger {
    let mut ledger = InvocationLedger::new();
    let id = InvocationId { scope: InvocationScope::Attempt { key: 0, generation: 0, attempt: 1 }, role: InvocationRole::Worker };
    ledger.register(&id).expect("registers");
    ledger
}

#[test]
fn an_admitted_event_is_appended_as_one_line_and_folded() {
    let mut state = state();
    let mut hooks = Hooks::new();
    emit(&identity(), &mut state, "t1".to_owned(), dispatched(0), LINE.to_owned(), &mut hooks).expect("appends");
    assert_eq!(state.log.lines, vec![LINE.to_owned()]);
    assert_eq!(state.events.len(), 1);
    assert_eq!(state.events[0].ts, "t1");
    assert_eq!(state.fold.tasks[0].generations.len(), 1);
    assert!(!state.fold_poisoned);
}

#[test]
fn refusals_before_the_append_write_nothing() {
    let mut hooks = Hooks::new();
    let mut state = state();
    let before = state.clone();
    let error = emit(&identity(), &mut state, "t".to_owned(), dispatched(0), "a\nb".to_owned(), &mut hooks).expect_err("two lines");
    assert!(matches!(error, EmitError::Unserializable(_)));
    assert_eq!(error.message(), "the `task_dispatched` event does not serialize to a single line");
    assert!(error.wrote_nothing());
    assert_eq!(state, before);

    emit(&identity(), &mut state, "t".to_owned(), dispatched(0), LINE.to_owned(), &mut hooks).expect("appends");
    let before = state.clone();
    let error = emit(&identity(), &mut state, "t".to_owned(), dispatched(0), LINE.to_owned(), &mut hooks).expect_err("dispatched");
    assert!(matches!(error, EmitError::Refused(_)));
    assert_eq!(error.message(), "the fold refuses `task_dispatched` in the generation's present state");
    assert!(error.wrote_nothing());
    assert_eq!(state, before);

    hooks.arm(APPEND);
    let error = emit(&identity(), &mut state, "t".to_owned(), dispatched(1), LINE.to_owned(), &mut hooks).expect_err("armed");
    assert!(matches!(error, EmitError::NotEntered(_)));
    assert_eq!(error.message(), "an error was injected before `Event.Append`");
    assert!(error.wrote_nothing());
    assert_eq!(state, before);

    state.log.fault = Some(AppendFault::BeforeWrite { message: "disk full".to_owned() });
    let error = emit(&identity(), &mut state, "t".to_owned(), dispatched(1), LINE.to_owned(), &mut hooks).expect_err("fault");
    assert!(matches!(error, EmitError::NotEntered(UpstrokeError::Io { .. })));
    assert_eq!(error.message(), "disk full");
    assert_eq!(state.log.lines.len(), 1);
    assert!(!state.fold_poisoned);
}

#[test]
fn an_entered_append_that_failed_after_writing_reports_the_line_present() {
    let mut hooks = Hooks::new();
    let mut state = state();
    state.reservations.reserve(ALPHA, ReservationKind::Retry).expect("reserves");
    state.log.fault = Some(AppendFault::AfterWrite { durable: true, message: "fsync failed".to_owned() });
    let before = state.clone();
    let error = emit(&identity(), &mut state, "t".to_owned(), dispatched(0), LINE.to_owned(), &mut hooks).expect_err("entered");
    assert!(!error.wrote_nothing());
    let report = error.append_error().expect("an entered append").clone();
    assert_eq!(report.outcome, AppendOutcome::Present);
    assert_eq!(report.kind, "task_dispatched");
    assert_eq!(report.site, EventSite::Append);
    assert!(report.cancelled_reservation);
    assert_eq!(report.creator_disposition(), None);
    assert!(report.resumable());
    assert!(state.fold_poisoned);
    assert_eq!(state.fold, before.fold);
    assert_eq!(state.events, before.events);
    assert!(state.reservations.is_empty());
    assert_eq!(state.log.poisoned_at(), Some(0));
    assert_eq!(
        error.message(),
        "the `task_dispatched` append at `Event.Append` was entered and returned an error, and its in-flight invocations have not been cancelled yet"
    );

    let refused = emit(&identity(), &mut state, "t".to_owned(), dispatched(1), LINE.to_owned(), &mut hooks).expect_err("poisoned");
    assert_eq!(refused.message(), "the fold is poisoned: an append's outcome is unknown and no state is derived from it");

    let mut ledger = running_worker();
    let discharged = error.discharging(&mut ledger);
    assert!(ledger.balances());
    assert_eq!(ledger.cancelled(), 1);
    assert_eq!(
        discharged.message(),
        "run `01KZRUN`: the `task_dispatched` append at `Event.Append` was entered and returned an error (fsync failed), so its outcome is unknown. the proven prefix contains the line: the transition is committed and durable. Nothing was retried, no state was derived from this process's fold, and the run is resumable."
    );
}

#[test]
fn an_entered_append_that_left_no_line_reports_it_absent_or_undetermined() {
    let mut hooks = Hooks::new();
    let mut state = state();
    state.log.fault = Some(AppendFault::AfterWrite { durable: false, message: "short write".to_owned() });
    let error = emit(&identity(), &mut state, "t".to_owned(), dispatched(0), LINE.to_owned(), &mut hooks).expect_err("entered");
    assert_eq!(error.append_error().expect("entered").outcome, AppendOutcome::Absent);
    assert!(!error.append_error().expect("entered").cancelled_reservation);
    assert!(state.log.lines.is_empty());

    let mut state = self::state();
    state.log.fault = Some(AppendFault::AfterWrite { durable: true, message: "short write".to_owned() });
    state.log.barrier = Some(BarrierFailure { step: BarrierStep::Sync, detail: "EIO".to_owned() });
    let error = emit(&identity(), &mut state, "t".to_owned(), dispatched(0), LINE.to_owned(), &mut hooks).expect_err("entered");
    let report = error.append_error().expect("entered");
    assert_eq!(report.outcome, AppendOutcome::Undetermined { step: BarrierStep::Sync, detail: "EIO".to_owned() });
    assert_eq!(
        report.outcome.describe(),
        "the outcome is undetermined — the stable-prefix barrier did not hold at sync (EIO), so neither the line's presence nor its absence is asserted"
    );
}

#[test]
fn a_failed_first_append_says_how_the_run_directory_stands() {
    let report = |outcome| UncancelledAppend {
        run_id: "01KZRUN".to_owned(),
        kind: "run_started",
        site: EventSite::AppendFirst,
        cause: UpstrokeError::Io { message: "EIO".to_owned() },
        outcome,
        cancelled_reservation: false,
    };
    assert_eq!(report(AppendOutcome::Present).creator_disposition(), Some(FirstAppendDisposition::Committed));
    assert_eq!(report(AppendOutcome::Absent).creator_disposition(), Some(FirstAppendDisposition::RetainedPossiblyCommitted));
    let undetermined = report(AppendOutcome::Undetermined { step: BarrierStep::Reopen, detail: "gone".to_owned() });
    assert_eq!(undetermined.creator_disposition(), Some(FirstAppendDisposition::UndeterminedAndRetained));
    assert_eq!(FirstAppendDisposition::RetainedPossiblyCommitted.label(), "retained, possibly committed");
    let text = report(AppendOutcome::Absent).message();
    assert!(text.starts_with("run `01KZRUN`: the `run_started` append at `Event.AppendFirst` was entered and returned an error (EIO)"));
    assert!(text.ends_with(" The run directory is reported as retained, possibly committed; neither half is deleted."));
    let mut ledger = InvocationLedger::new();
    let error = report(AppendOutcome::Present).cancelling(&mut ledger);
    assert_eq!(error.cancelled_invocations, 0);
    assert_eq!(error.message(), report(AppendOutcome::Present).message());
}

#[test]
fn a_failure_wrote_nothing_exactly_when_no_append_was_entered() {
    let clean = EmitFailure::from_upstroke(UpstrokeError::Refused { message: "no".to_owned() });
    assert!(clean.wrote_nothing());
    assert_eq!(clean.message(), "no");
    let refused = EmitFailure::from_emit(EmitError::Refused(UpstrokeError::Git { message: "nope".to_owned() }));
    assert!(refused.wrote_nothing());
    assert_eq!(refused, EmitFailure::Clean(UpstrokeError::Refused { message: "nope".to_owned() }));
    let mut hooks = Hooks::new();
    let mut state = state();
    state.log.fault = Some(AppendFault::AfterWrite { durable: true, message: "EIO".to_owned() });
    let error = emit(&identity(), &mut state, "t".to_owned(), dispatched(0), LINE.to_owned(), &mut hooks).expect_err("entered");
    let failure = EmitFailure::from_emit(error);
    assert!(!failure.wrote_nothing());
    let mut ledger = running_worker();
    let discharged = failure.discharging(&mut ledger);
    assert!(matches!(discharged, UpstrokeError::Refused { .. }));
    assert!(ledger.balances());
    let mut untouched = running_worker();
    let plain = clean.discharging(&mut untouched);
    assert_eq!(plain, UpstrokeError::Refused { message: "no".to_owned() });
    assert!(!untouched.balances());
}
