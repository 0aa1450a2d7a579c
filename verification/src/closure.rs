//! Run-end closure: the outcome a run ends with, the work that keeps it from
//! ending, and the record it ends with.

use vstd::prelude::*;
use crate::error::UpstrokeError;
use crate::fold::{Generation, GenerationClass, TaskState, TopologyFold};
use crate::model::{outcome_label, outcome_label_spec, DerivedOutcome, RunFinished4, RunOutcome, TaskKey};
use crate::text::{decimal, join, join_strings, lemma_views_push, push_decimal, views};

verus! {

// ----- what the messages say -------------------------------------------------

/// `task k<key> generation <id>`.
pub open spec fn generation_name(key: TaskKey, generation: Generation) -> Seq<char> {
    "task k"@ + decimal(key.0 as nat) + " generation "@ + decimal(generation.id.0 as nat)
}

/// What a generation that run-end closure cannot close reports.
pub open spec fn generation_unclosable(key: TaskKey, generation: Generation) -> Seq<Seq<char>> {
    match generation.class {
        GenerationClass::InFlight { attempt } => seq![
            generation_name(key, generation) + " is in flight (attempt "@ + decimal(attempt.0 as nat) + ")"@,
        ],
        GenerationClass::Promoting => seq![generation_name(key, generation) + " is promoting"@],
        _ => Seq::empty(),
    }
}

/// What an open generation that closure can close reports as a blocker.
pub open spec fn generation_open(key: TaskKey, generation: Generation) -> Seq<Seq<char>> {
    match generation.class {
        GenerationClass::OpenNoAttempt => seq![generation_name(key, generation) + " is open with no attempt"@],
        GenerationClass::RetainedIdle { incarnation, .. } => seq![
            generation_name(key, generation) + " is retained idle from epoch "@ + decimal(incarnation.0 as nat),
        ],
        _ => Seq::empty(),
    }
}

/// What a generation reports: as unclosable work, or as an open generation.
pub open spec fn generation_report(key: TaskKey, generation: Generation, unclosable: bool) -> Seq<Seq<char>> {
    if unclosable {
        generation_unclosable(key, generation)
    } else {
        generation_open(key, generation)
    }
}

/// What each of `gens` reports, in order.
pub open spec fn each_generation(key: TaskKey, gens: Seq<Generation>, unclosable: bool) -> Seq<Seq<char>>
    decreases gens.len(),
{
    if gens.len() == 0 {
        Seq::empty()
    } else {
        each_generation(key, gens.drop_last(), unclosable) + generation_report(key, gens.last(), unclosable)
    }
}

/// The number of task keys the fold's registry spans.
pub open spec fn key_count(fold: TopologyFold) -> nat {
    match fold.registry {
        Some(registry) => if registry.entries.len() <= u32::MAX {
            registry.entries.len() as nat
        } else {
            u32::MAX as nat
        },
        None => 0,
    }
}

/// What the unclosable generations of the first `n` tasks report.
pub open spec fn tasks_unclosable(fold: TopologyFold, n: nat) -> Seq<Seq<char>>
    decreases n,
{
    if n == 0 {
        Seq::empty()
    } else {
        tasks_unclosable(fold, (n - 1) as nat) + match fold.task_spec(TaskKey((n - 1) as u32)) {
            Some(task) => each_generation(TaskKey((n - 1) as u32), task.generations@, true),
            None => Seq::empty(),
        }
    }
}

/// Every piece of work run-end closure at one worker never leaves open.
pub open spec fn unclosable_spec(fold: TopologyFold) -> Seq<Seq<char>> {
    tasks_unclosable(fold, key_count(fold)) + match fold.transaction {
        Some(t) => seq![
            "integration sequence "@ + decimal(t.sequence.0 as nat) + " of task k"@
                + decimal(t.candidate.key.0 as nat) + " is unresolved"@,
        ],
        None => Seq::empty(),
    }
}

/// `integration sequence <seq> of task k<key> is unresolved`.
pub open spec fn unresolved_text(t: crate::fold::Transaction) -> Seq<char> {
    "integration sequence "@ + decimal(t.sequence.0 as nat) + " of task k"@ + decimal(t.candidate.key.0 as nat)
        + " is unresolved"@
}

/// No generation of a registered task is in flight or promoting, and no
/// integration sequence is open.
pub open spec fn nothing_unclosable(fold: TopologyFold) -> bool {
    &&& fold.transaction is None
    &&& forall|k: nat, i: int|
        k < key_count(fold) && #[trigger] fold.task_spec(TaskKey(k as u32)) is Some && 0 <= i
            < fold.task_spec(TaskKey(k as u32))->0.generations@.len() ==> !(#[trigger] fold.task_spec(
            TaskKey(k as u32),
        )->0.generations@[i].class is InFlight) && !(fold.task_spec(TaskKey(k as u32))->0.generations@[i].class is Promoting)
}

/// What task `key` reports as a blocker beyond its unclosable generations.
pub open spec fn task_blockers(key: TaskKey, fold: TopologyFold) -> Seq<Seq<char>> {
    match fold.task_spec(key) {
        Some(task) => each_generation(key, task.generations@, false)
            + if task.state == TaskState::Deferred {
                seq!["task k"@ + decimal(key.0 as nat) + " is deferred (backoff pending)"@]
            } else {
                Seq::empty()
            },
        None => Seq::empty(),
    }
}

pub open spec fn tasks_blockers(fold: TopologyFold, n: nat) -> Seq<Seq<char>>
    decreases n,
{
    if n == 0 {
        Seq::empty()
    } else {
        tasks_blockers(fold, (n - 1) as nat) + task_blockers(TaskKey((n - 1) as u32), fold)
    }
}

/// What the queue's first `n` entries report.
pub open spec fn queue_blockers(entries: Seq<crate::fold::QueueEntry>) -> Seq<Seq<char>>
    decreases entries.len(),
{
    if entries.len() == 0 {
        Seq::empty()
    } else {
        queue_blockers(entries.drop_last()) + if entries.last().verification_deferred {
            seq![
                "candidate k"@ + decimal(entries.last().candidate.key.0 as nat) + " g"@
                    + decimal(entries.last().candidate.generation.0 as nat)
                    + " is verification-deferred (backoff pending)"@,
            ]
        } else {
            Seq::empty()
        }
    }
}

/// Every reason the fold is not ending, before the fallback.
pub open spec fn named_blockers(fold: TopologyFold) -> Seq<Seq<char>> {
    unclosable_spec(fold) + tasks_blockers(fold, key_count(fold)) + match fold.queue {
        Some(queue) => queue_blockers(queue.entries@),
        None => Seq::empty(),
    } + if fold.admissible {
        seq!["structurally admissible work exists"@]
    } else {
        Seq::empty()
    }
}

/// Every reason the fold is not ending; never empty.
pub open spec fn blockers_spec(fold: TopologyFold) -> Seq<Seq<char>> {
    if named_blockers(fold).len() == 0 {
        seq!["of a state this module cannot name"@]
    } else {
        named_blockers(fold)
    }
}

/// The keys of the first `n` tasks that hold a generation closure can close.
pub open spec fn closable_prefix(fold: TopologyFold, n: nat) -> Seq<TaskKey>
    decreases n,
{
    if n == 0 {
        Seq::empty()
    } else {
        closable_prefix(fold, (n - 1) as nat) + if has_closable(fold, TaskKey((n - 1) as u32)) {
            seq![TaskKey((n - 1) as u32)]
        } else {
            Seq::empty()
        }
    }
}

/// Whether closure closes a generation in this class.
pub open spec fn closable_class(class: GenerationClass) -> bool {
    class is OpenNoAttempt || class is RetainedIdle
}

/// Whether task `key` holds an open generation with no attempt, or a retained idle one.
pub open spec fn has_closable(fold: TopologyFold, key: TaskKey) -> bool {
    match fold.task_spec(key) {
        Some(task) => exists|i: int| 0 <= i < task.generations.len()
            && closable_class((#[trigger] task.generations@[i]).class),
        None => false,
    }
}

pub open spec fn not_started_text() -> Seq<char> {
    "the run has not started, so there is nothing to close and no outcome to derive"@
}

pub open spec fn not_ending_text(fold: TopologyFold) -> Seq<char> {
    "the run is not ending: nothing is selectable and no halting settlement or budget stop is recorded, yet the fold derives NotEnding because "@
        + join(blockers_spec(fold), "; "@) + ". Nothing was appended"@
}

pub open spec fn fold_error_text() -> Seq<char> {
    "the fold derives no outcome for this state (the arm the census asserts unreachable); nothing was appended"@
}

/// The outcome a run that is closing ends with, or the refusal that says why it cannot end.
pub open spec fn ending_outcome_spec(fold: TopologyFold) -> Result<RunOutcome, Seq<char>> {
    if fold.epoch is None {
        Err(not_started_text())
    } else if fold.halted_at is Some {
        Ok(RunOutcome::Halted)
    } else if fold.budget_stopped {
        Ok(RunOutcome::BudgetExceeded)
    } else {
        match fold.derived {
            DerivedOutcome::Ending(outcome) => Ok(outcome),
            DerivedOutcome::NotEnding => Err(not_ending_text(fold)),
            DerivedOutcome::FoldError => Err(fold_error_text()),
        }
    }
}

pub open spec fn unclosable_text(fold: TopologyFold) -> Seq<char> {
    "run-end closure at max_parallel = 1 found work the synchronous loop never leaves open and that a fresh process's recovery settles before the loop runs: "@
        + join(unclosable_spec(fold), "; "@)
        + ". Closure under concurrency (in-flight cancellation, the budget drain, promotion and publication completion inside closure) is PR11's; nothing was appended"@
}

/// What closure refuses when it finds the fold ending as another outcome.
pub open spec fn confirm_derived_spec(fold: TopologyFold, outcome: RunOutcome) -> Result<(), Seq<char>> {
    match fold.derived {
        DerivedOutcome::Ending(derived) => if derived == outcome {
            Ok(())
        } else {
            Err("closure was ending the run as `"@ + outcome_label_spec(outcome)
                + "` and, with every open generation closed, the fold derives `"@
                + outcome_label_spec(derived) + "`; nothing was appended for the end"@)
        },
        DerivedOutcome::NotEnding => Err("closure closed every open generation and the run is still not ending because "@
            + join(blockers_spec(fold), "; "@) + "; nothing was appended for the end"@),
        DerivedOutcome::FoldError => Err("closure closed every open generation and the fold derives no outcome for what is left (the arm the census asserts unreachable); nothing was appended for the end"@),
    }
}

/// The number of tasks among `tasks` in `state`.
pub open spec fn count_state(tasks: Seq<crate::fold::TaskRecord>, state: TaskState) -> nat
    decreases tasks.len(),
{
    if tasks.len() == 0 {
        0
    } else {
        count_state(tasks.drop_last(), state) + if tasks.last().state == state { 1nat } else { 0nat }
    }
}

/// The tasks among `tasks` in `state`, in order.
pub open spec fn in_state(tasks: Seq<crate::fold::TaskRecord>, state: TaskState) -> Seq<crate::fold::TaskRecord> {
    tasks.filter(|t: crate::fold::TaskRecord| t.state == state)
}

pub proof fn lemma_count_state_bound(tasks: Seq<crate::fold::TaskRecord>, state: TaskState)
    ensures
        count_state(tasks, state) <= tasks.len(),
    decreases tasks.len(),
{
    if tasks.len() > 0 {
        lemma_count_state_bound(tasks.drop_last(), state);
    }
}

/// An error carrying `message` as a refusal.
pub open spec fn is_refusal(e: UpstrokeError, message: Seq<char>) -> bool {
    e matches UpstrokeError::Refused { message: m } && m@ == message
}

// ----- the functions ---------------------------------------------------------

fn refused(message: String) -> (e: UpstrokeError)
    ensures
        is_refusal(e, message@),
{
    UpstrokeError::Refused { message }
}

fn key_len(fold: &TopologyFold) -> (n: u32)
    ensures
        n as nat == key_count(*fold),
{
    match fold.registry() {
        Some(registry) => if registry.len() <= u32::MAX as usize {
            registry.len() as u32
        } else {
            u32::MAX
        },
        None => 0,
    }
}

fn generation_name_text(key: TaskKey, generation: &Generation) -> (s: String)
    ensures
        s@ == generation_name(key, *generation),
{
    let mut s = String::from_str("task k");
    push_decimal(&mut s, key.0 as u64);
    s.append(" generation ");
    push_decimal(&mut s, generation.id.0 as u64);
    s
}

fn push_text(found: &mut Vec<String>, s: String)
    ensures
        views(final(found)@) == views(old(found)@).push(s@),
{
    proof { lemma_views_push(found@, s); }
    found.push(s);
}

/// The task `key`'s generations, each reported by the `unclosable` rule when
/// `unclosable` is set and by the open rule otherwise.
fn report_generations(found: &mut Vec<String>, key: TaskKey, gens: &Vec<Generation>, unclosable: bool)
    ensures
        views(final(found)@) == views(old(found)@) + each_generation(key, gens@, unclosable),
{
    let ghost start = views(found@);
    let n = gens.len();
    let mut j: usize = 0;
    while j < n
        invariant
            n == gens.len(),
            j <= n,
            views(found@) == start + each_generation(key, gens@.take(j as int), unclosable),
        decreases n - j,
    {
        let generation = &gens[j];
        proof {
            assert(gens@.take(j + 1).drop_last() =~= gens@.take(j as int));
            assert(gens@.take(j + 1).last() == gens@[j as int]);
        }
        let ghost before = views(found@);
        if unclosable {
            match &generation.class {
                GenerationClass::InFlight { attempt } => {
                    let mut s = generation_name_text(key, generation);
                    s.append(" is in flight (attempt ");
                    push_decimal(&mut s, attempt.0 as u64);
                    s.append(")");
                    push_text(found, s);
                    assert(views(found@) =~= before + generation_report(key, *generation, unclosable));
                },
                GenerationClass::Promoting => {
                    let mut s = generation_name_text(key, generation);
                    s.append(" is promoting");
                    push_text(found, s);
                    assert(views(found@) =~= before + generation_report(key, *generation, unclosable));
                },
                _ => {
                    assert(views(found@) =~= before + generation_report(key, *generation, unclosable));
                },
            }
        } else {
            match &generation.class {
                GenerationClass::OpenNoAttempt => {
                    let mut s = generation_name_text(key, generation);
                    s.append(" is open with no attempt");
                    push_text(found, s);
                    assert(views(found@) =~= before + generation_report(key, *generation, unclosable));
                },
                GenerationClass::RetainedIdle { incarnation, .. } => {
                    let mut s = generation_name_text(key, generation);
                    s.append(" is retained idle from epoch ");
                    push_decimal(&mut s, incarnation.0 as u64);
                    push_text(found, s);
                    assert(views(found@) =~= before + generation_report(key, *generation, unclosable));
                },
                _ => {
                    assert(views(found@) =~= before + generation_report(key, *generation, unclosable));
                },
            }
        }
        j = j + 1;
    }
    proof {
        assert(gens@.take(n as int) =~= gens@);
    }
}

/// The work run-end closure at one worker refuses to close: in-flight and
/// promoting generations, and an unresolved integration sequence.
pub fn unclosable(fold: &TopologyFold) -> (found: Vec<String>)
    ensures
        views(found@) == unclosable_spec(*fold),
        fold.transaction matches Some(t) ==> views(found@).contains(unresolved_text(t)),
        views(found@).len() == 0 <==> nothing_unclosable(*fold),
{
    proof { law_unclosable_work_refuses_closure(*fold); }
    let mut found: Vec<String> = Vec::new();
    let len = key_len(fold);
    let mut k: u32 = 0;
    while k < len
        invariant
            len as nat == key_count(*fold),
            k <= len,
            views(found@) == tasks_unclosable(*fold, k as nat),
        decreases len - k,
    {
        let key = TaskKey(k);
        match fold.task(key) {
            Some(task) => {
                report_generations(&mut found, key, &task.generations, true);
            },
            None => {},
        }
        assert(views(found@) =~= tasks_unclosable(*fold, (k + 1) as nat));
        k = k + 1;
    }
    match fold.transaction() {
        Some(transaction) => {
            let mut s = String::from_str("integration sequence ");
            push_decimal(&mut s, transaction.sequence.0);
            s.append(" of task k");
            push_decimal(&mut s, transaction.candidate.key.0 as u64);
            s.append(" is unresolved");
            push_text(&mut found, s);
        },
        None => {},
    }
    assert(views(found@) =~= unclosable_spec(*fold));
    found
}

/// Every reason the fold is not ending: the unclosable work, the generations
/// closure would close, deferred tasks and candidates, and admissible work;
/// a fallback names an unnamed state.
pub fn blockers(fold: &TopologyFold) -> (found: Vec<String>)
    ensures
        views(found@) == blockers_spec(*fold),
        found.len() > 0,
{
    let mut found = unclosable(fold);
    let len = key_len(fold);
    let mut k: u32 = 0;
    while k < len
        invariant
            len as nat == key_count(*fold),
            k <= len,
            views(found@) == unclosable_spec(*fold) + tasks_blockers(*fold, k as nat),
        decreases len - k,
    {
        let key = TaskKey(k);
        let ghost before = views(found@);
        match fold.task(key) {
            Some(task) => {
                report_generations(&mut found, key, &task.generations, false);
                if task.state == TaskState::Deferred {
                    let mut s = String::from_str("task k");
                    push_decimal(&mut s, k as u64);
                    s.append(" is deferred (backoff pending)");
                    push_text(&mut found, s);
                }
            },
            None => {},
        }
        assert(views(found@) =~= before + task_blockers(key, *fold));
        k = k + 1;
    }
    let ghost after_tasks = views(found@);
    match fold.queue() {
        Some(queue) => {
            let entries = queue.entries();
            let n = entries.len();
            let mut i: usize = 0;
            while i < n
                invariant
                    n == entries.len(),
                    i <= n,
                    views(found@) == after_tasks + queue_blockers(entries@.take(i as int)),
                decreases n - i,
            {
                proof {
                    assert(entries@.take(i + 1).drop_last() =~= entries@.take(i as int));
                }
                let entry = &entries[i];
                if entry.verification_deferred {
                    let mut s = String::from_str("candidate k");
                    push_decimal(&mut s, entry.candidate.key.0 as u64);
                    s.append(" g");
                    push_decimal(&mut s, entry.candidate.generation.0 as u64);
                    s.append(" is verification-deferred (backoff pending)");
                    push_text(&mut found, s);
                }
                i = i + 1;
            }
            proof {
                assert(entries@.take(n as int) =~= entries@);
            }
        },
        None => {},
    }
    if fold.structurally_admissible() {
        push_text(&mut found, String::from_str("structurally admissible work exists"));
    }
    assert(views(found@) =~= named_blockers(*fold));
    if found.len() == 0 {
        push_text(&mut found, String::from_str("of a state this module cannot name"));
        assert(views(found@) =~= blockers_spec(*fold));
    }
    found
}

/// The keys of the tasks holding a generation closure can close: one open
/// with no attempt, or one retained idle.
pub fn closable(fold: &TopologyFold) -> (keys: Vec<TaskKey>)
    ensures
        keys@ == closable_prefix(*fold, key_count(*fold)),
{
    let mut keys: Vec<TaskKey> = Vec::new();
    let len = key_len(fold);
    let mut k: u32 = 0;
    while k < len
        invariant
            len as nat == key_count(*fold),
            k <= len,
            keys@ == closable_prefix(*fold, k as nat),
        decreases len - k,
    {
        let key = TaskKey(k);
        let mut any = false;
        match fold.task(key) {
            Some(task) => {
                let n = task.generations.len();
                let mut i: usize = 0;
                while i < n
                    invariant
                        n == task.generations.len(),
                        i <= n,
                        any == exists|j: int| 0 <= j < i
                            && closable_class((#[trigger] task.generations@[j]).class),
                    decreases n - i,
                {
                    match &task.generations[i].class {
                        GenerationClass::OpenNoAttempt => { any = true; },
                        GenerationClass::RetainedIdle { .. } => { any = true; },
                        _ => {},
                    }
                    i = i + 1;
                }
            },
            None => {},
        }
        assert(any == has_closable(*fold, key));
        if any {
            keys.push(key);
        }
        assert(keys@ =~= closable_prefix(*fold, (k + 1) as nat));
        k = k + 1;
    }
    keys
}

/// The outcome a run ends with: halted or budget-stopped where the fold
/// records it, else what the fold derives; refused where the run has not
/// started or is not ending.
pub fn ending_outcome(fold: &TopologyFold) -> (r: Result<RunOutcome, UpstrokeError>)
    ensures
        match ending_outcome_spec(*fold) {
            Ok(outcome) => r == Ok::<RunOutcome, UpstrokeError>(outcome),
            Err(message) => r matches Err(e) && is_refusal(e, message),
        },
{
    if fold.epoch().is_none() {
        return Err(refused(String::from_str(
            "the run has not started, so there is nothing to close and no outcome to derive",
        )));
    }
    if fold.halted_at().is_some() {
        return Ok(RunOutcome::Halted);
    }
    if fold.budget_stopped() {
        return Ok(RunOutcome::BudgetExceeded);
    }
    match fold.derived_outcome() {
        DerivedOutcome::Ending(outcome) => Ok(outcome),
        DerivedOutcome::NotEnding => {
            let mut s = String::from_str(
                "the run is not ending: nothing is selectable and no halting settlement or budget stop is recorded, yet the fold derives NotEnding because ",
            );
            let reasons = blockers(fold);
            let joined = join_strings(&reasons, "; ");
            s.append(joined.as_str());
            s.append(". Nothing was appended");
            Err(refused(s))
        },
        DerivedOutcome::FoldError => Err(refused(String::from_str(
            "the fold derives no outcome for this state (the arm the census asserts unreachable); nothing was appended",
        ))),
    }
}

/// Refuses run-end closure where the fold holds work it does not close.
pub fn refuse_unclosable(fold: &TopologyFold) -> (r: Result<(), UpstrokeError>)
    ensures
        unclosable_spec(*fold).len() == 0 ==> r is Ok,
        unclosable_spec(*fold).len() != 0 ==> (r matches Err(e) && is_refusal(e, unclosable_text(*fold))),
        fold.transaction is Some ==> r is Err,
        r is Ok ==> nothing_unclosable(*fold),
{
    proof { law_unclosable_work_refuses_closure(*fold); }
    let unclosable = unclosable(fold);
    if unclosable.len() == 0 {
        return Ok(());
    }
    let mut s = String::from_str(
        "run-end closure at max_parallel = 1 found work the synchronous loop never leaves open and that a fresh process's recovery settles before the loop runs: ",
    );
    let joined = join_strings(&unclosable, "; ");
    s.append(joined.as_str());
    s.append(
        ". Closure under concurrency (in-flight cancellation, the budget drain, promotion and publication completion inside closure) is PR11's; nothing was appended",
    );
    Err(refused(s))
}

/// Confirms that, with every open generation closed, the fold derives the
/// outcome closure was ending the run as.
pub fn confirm_derived(fold: &TopologyFold, outcome: &RunOutcome) -> (r: Result<(), UpstrokeError>)
    ensures
        match confirm_derived_spec(*fold, *outcome) {
            Ok(()) => r is Ok,
            Err(message) => r matches Err(e) && is_refusal(e, message),
        },
{
    match fold.derived_outcome() {
        DerivedOutcome::Ending(derived) => {
            if derived == *outcome {
                Ok(())
            } else {
                let mut s = String::from_str("closure was ending the run as `");
                s.append(outcome_label(outcome).as_str());
                s.append("` and, with every open generation closed, the fold derives `");
                s.append(outcome_label(&derived).as_str());
                s.append("`; nothing was appended for the end");
                Err(refused(s))
            }
        },
        DerivedOutcome::NotEnding => {
            let mut s = String::from_str(
                "closure closed every open generation and the run is still not ending because ",
            );
            let reasons = blockers(fold);
            s.append(join_strings(&reasons, "; ").as_str());
            s.append("; nothing was appended for the end");
            Err(refused(s))
        },
        DerivedOutcome::FoldError => Err(refused(String::from_str(
            "closure closed every open generation and the fold derives no outcome for what is left (the arm the census asserts unreachable); nothing was appended for the end",
        ))),
    }
}

/// The number of tasks merged and the number parked.
pub fn merged_and_parked(fold: &TopologyFold) -> (counts: (u32, u32))
    requires
        fold.tasks.len() <= u32::MAX,
    ensures
        counts.0 as nat == count_state(fold.tasks@, TaskState::Merged),
        counts.1 as nat == count_state(fold.tasks@, TaskState::Parked),
        counts.0 as nat == in_state(fold.tasks@, TaskState::Merged).len(),
        counts.1 as nat == in_state(fold.tasks@, TaskState::Parked).len(),
{
    proof {
        law_counts_are_the_tasks_in_each_state(fold.tasks@, TaskState::Merged);
        law_counts_are_the_tasks_in_each_state(fold.tasks@, TaskState::Parked);
    }
    let mut merged: u32 = 0;
    let mut parked: u32 = 0;
    let n = fold.tasks.len();
    let mut i: usize = 0;
    while i < n
        invariant
            n == fold.tasks.len(),
            n <= u32::MAX,
            i <= n,
            merged as nat == count_state(fold.tasks@.take(i as int), TaskState::Merged),
            parked as nat == count_state(fold.tasks@.take(i as int), TaskState::Parked),
        decreases n - i,
    {
        proof {
            assert(fold.tasks@.take(i + 1).drop_last() =~= fold.tasks@.take(i as int));
            lemma_count_state_bound(fold.tasks@.take(i as int), TaskState::Merged);
            lemma_count_state_bound(fold.tasks@.take(i as int), TaskState::Parked);
        }
        if fold.tasks[i].state == TaskState::Merged {
            merged = merged + 1;
        }
        if fold.tasks[i].state == TaskState::Parked {
            parked = parked + 1;
        }
        i = i + 1;
    }
    proof {
        assert(fold.tasks@.take(n as int) =~= fold.tasks@);
    }
    (merged, parked)
}

/// The record a run ends with: its outcome, the recorded halt, and the
/// merged and parked counts.
pub fn run_finished(fold: &TopologyFold, outcome: RunOutcome) -> (record: RunFinished4)
    requires
        fold.tasks.len() <= u32::MAX,
    ensures
        record.outcome == outcome,
        record.halted_at == fold.halted_at,
        record.merged as nat == count_state(fold.tasks@, TaskState::Merged),
        record.parked as nat == count_state(fold.tasks@, TaskState::Parked),
        record.merged as nat == in_state(fold.tasks@, TaskState::Merged).len(),
        record.parked as nat == in_state(fold.tasks@, TaskState::Parked).len(),
{
    let (merged, parked) = merged_and_parked(fold);
    RunFinished4 { outcome, halted_at: fold.halted_at(), merged, parked }
}


/// Closure confirms exactly the outcome the fold derives: every other
/// outcome is refused, and a run whose ending outcome comes from the fold
/// (not halted, not stopped at its budget) is confirmed as it.
pub proof fn law_closure_confirms_exactly_the_derived_outcome(fold: TopologyFold, outcome: RunOutcome)
    ensures
        confirm_derived_spec(fold, outcome) is Ok <==> fold.derived == DerivedOutcome::Ending(outcome),
        fold.halted_at is None && !fold.budget_stopped && ending_outcome_spec(fold) == Ok::<RunOutcome, Seq<char>>(outcome)
            ==> confirm_derived_spec(fold, outcome) is Ok,
{
}


proof fn lemma_each_generation_empty(key: TaskKey, gens: Seq<Generation>)
    ensures
        each_generation(key, gens, true).len() == 0 <==> forall|i: int|
            0 <= i < gens.len() ==> !(#[trigger] gens[i].class is InFlight) && !(gens[i].class is Promoting),
    decreases gens.len(),
{
    if gens.len() > 0 {
        lemma_each_generation_empty(key, gens.drop_last());
        assert forall|i: int| 0 <= i < gens.len() - 1 implies gens.drop_last()[i] == gens[i] by {}
        assert(gens.drop_last().len() == gens.len() - 1);
    }
}

proof fn lemma_tasks_unclosable_empty(fold: TopologyFold, n: nat)
    requires
        n <= u32::MAX,
    ensures
        tasks_unclosable(fold, n).len() == 0 <==> forall|k: nat, i: int|
            k < n && #[trigger] fold.task_spec(TaskKey(k as u32)) is Some && 0 <= i
                < fold.task_spec(TaskKey(k as u32))->0.generations@.len() ==> !(#[trigger] fold.task_spec(
                TaskKey(k as u32),
            )->0.generations@[i].class is InFlight) && !(fold.task_spec(TaskKey(k as u32))->0.generations@[i].class is Promoting),
    decreases n,
{
    if n > 0 {
        let m = (n - 1) as nat;
        lemma_tasks_unclosable_empty(fold, m);
        match fold.task_spec(TaskKey(m as u32)) {
            Some(task) => {
                lemma_each_generation_empty(TaskKey(m as u32), task.generations@);
            },
            None => {},
        }
    }
}

/// Run-end closure proceeds only over a fold with nothing it cannot close:
/// an open integration sequence is always named as unclosable work,
/// `integration sequence <seq> of task k<key> is unresolved`, and the list of
/// unclosable work is empty exactly when no integration sequence is open and
/// no generation of a registered task is in flight or promoting.
pub proof fn law_unclosable_work_refuses_closure(fold: TopologyFold)
    ensures
        fold.transaction matches Some(t) ==> unclosable_spec(fold).contains(unresolved_text(t)),
        unclosable_spec(fold).len() == 0 <==> nothing_unclosable(fold),
{
    lemma_tasks_unclosable_empty(fold, key_count(fold));
    match fold.transaction {
        Some(t) => {
            let u = unclosable_spec(fold);
            assert(u[u.len() - 1] == unresolved_text(t));
        },
        None => {
            assert(unclosable_spec(fold) =~= tasks_unclosable(fold, key_count(fold)));
        },
    }
}


/// The count of tasks in a state is the number of tasks whose state it is:
/// the merged count counts the merged tasks and no others, the parked count
/// the parked ones, and the six states part the tasks among them, so a task
/// counts in exactly one state.
pub proof fn law_counts_are_the_tasks_in_each_state(tasks: Seq<crate::fold::TaskRecord>, state: TaskState)
    ensures
        count_state(tasks, state) == in_state(tasks, state).len(),
        forall|i: int| 0 <= i < in_state(tasks, state).len() ==> (#[trigger] in_state(tasks, state)[i]).state == state,
        forall|i: int| 0 <= i < tasks.len() && (#[trigger] tasks[i]).state == state ==> in_state(tasks, state).contains(tasks[i]),
        count_state(tasks, TaskState::Pending) + count_state(tasks, TaskState::Dispatched) + count_state(tasks, TaskState::Deferred)
            + count_state(tasks, TaskState::Queued) + count_state(tasks, TaskState::Merged) + count_state(tasks, TaskState::Parked)
            == tasks.len(),
    decreases tasks.len(),
{
    let pred = |t: crate::fold::TaskRecord| t.state == state;
    tasks.filter_lemma(pred);
    assert forall|i: int| 0 <= i < tasks.len() && (#[trigger] tasks[i]).state == state implies in_state(tasks, state).contains(tasks[i]) by {
        tasks.lemma_filter_contains(pred, i);
    }
    reveal(Seq::filter);
    if tasks.len() > 0 {
        law_counts_are_the_tasks_in_each_state(tasks.drop_last(), state);
    }
}

} // verus!
