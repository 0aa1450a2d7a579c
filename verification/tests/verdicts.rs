use upstroke::review::{
    diff_failure, evaluate_outcome, gate_failure, gate_summary, parse_outcome, review_failure, review_input_failure, tail,
    unresolved_conflict_failure, FailureKind, OutcomeStatus, ReviewResult, TaskKind, FEEDBACK_TAIL_CHARS,
};
use upstroke::runner::ProcessOutput;

fn output(code: Option<i32>, timed_out: bool) -> ProcessOutput {
    ProcessOutput { code, stdout: String::new(), stderr: String::new(), timed_out, output_limited: false }
}

#[test]
fn a_gate_summary_names_the_exit_and_how_it_ended() {
    assert_eq!(gate_summary(Some(0), false, false), "exit 0");
    assert_eq!(gate_summary(Some(101), false, false), "exit 101");
    assert_eq!(gate_summary(Some(-3), false, false), "exit -3");
    assert_eq!(gate_summary(Some(i32::MIN), false, false), "exit -2147483648");
    assert_eq!(gate_summary(None, true, false), "exit signal (timed out)");
    assert_eq!(gate_summary(Some(1), true, true), "exit 1 (timed out) (output truncated)");
}

#[test]
fn the_tail_keeps_the_last_characters() {
    assert_eq!(tail("abcdef", 3), "def");
    assert_eq!(tail("abc", 3), "abc");
    assert_eq!(tail("ab", 10), "ab");
    assert_eq!(tail("", 0), "");
    assert_eq!(tail("äöü-x", 2), "-x");
    let long = "x".repeat(FEEDBACK_TAIL_CHARS + 5);
    assert_eq!(tail(&long, FEEDBACK_TAIL_CHARS).chars().count(), FEEDBACK_TAIL_CHARS);
    assert_eq!(FEEDBACK_TAIL_CHARS, 2000);
}

#[test]
fn a_refused_gate_names_itself_and_feeds_back_its_log() {
    let failure = gate_failure("test", "exit 1", "assertion failed");
    assert_eq!(failure.kind, FailureKind::GateFailed);
    assert_eq!(failure.reason, "gate `test` refused the attempt: exit 1");
    assert_eq!(failure.feedback.as_deref(), Some("assertion failed (exit 1)"));
}

#[test]
fn a_worker_is_read_from_its_exit_and_its_clock() {
    assert_eq!(parse_outcome(&output(Some(0), false)), OutcomeStatus::Completed);
    assert_eq!(parse_outcome(&output(Some(2), false)), OutcomeStatus::Failed);
    assert_eq!(parse_outcome(&output(None, false)), OutcomeStatus::Failed);
    assert_eq!(parse_outcome(&output(Some(0), true)), OutcomeStatus::TimedOut);
    assert!(evaluate_outcome(OutcomeStatus::Completed).is_none());
    let failed = evaluate_outcome(OutcomeStatus::Failed).expect("fails");
    assert_eq!(failed.kind, FailureKind::WorkerFailed);
    assert_eq!(failed.reason, "the worker did not complete");
    let timed_out = evaluate_outcome(OutcomeStatus::TimedOut).expect("fails");
    assert_eq!(timed_out.kind, FailureKind::WorkerTimedOut);
    assert_eq!(timed_out.reason, "the worker timed out");
}

#[test]
fn an_empty_diff_fails_every_task_that_asks_for_a_change() {
    for kind in [TaskKind::Implement, TaskKind::Fix] {
        let failure = diff_failure("", kind).expect("an empty diff cannot pass");
        assert_eq!(failure.kind, FailureKind::EmptyDiff);
        assert_eq!(failure.reason, "the attempt produced an empty diff");
        assert_eq!(failure.feedback.as_deref(), Some("the task asks for a change and the worktree holds none"));
        assert!(diff_failure("diff --git a/x b/x", kind).is_none());
        let blank = diff_failure(" \n\t\r\n", kind).expect("a diff that trims to nothing is empty");
        assert_eq!(blank.kind, FailureKind::EmptyDiff);
        assert!(diff_failure("\n x \n", kind).is_none());
    }
    assert!(diff_failure("", TaskKind::Investigate).is_none());
    assert!(diff_failure("  \n", TaskKind::Investigate).is_none());
}

#[test]
fn a_review_fails_where_it_rejects_or_cannot_judge() {
    let passed = ReviewResult::Judged { pass: true, reasons: Vec::new() };
    assert!(review_failure(&passed, false).is_none());
    let rejected = ReviewResult::Judged { pass: false, reasons: vec!["no test".to_owned(), "wrong bound".to_owned()] };
    let failure = review_failure(&rejected, false).expect("rejected");
    assert_eq!(failure.kind, FailureKind::ReviewRejected);
    assert_eq!(failure.reason, "the review rejected the attempt");
    assert_eq!(failure.feedback.as_deref(), Some("no test\nwrong bound"));
    let unavailable = ReviewResult::Unavailable { detail: "quota".to_owned() };
    let failure = review_failure(&unavailable, false).expect("unavailable");
    assert_eq!(failure.kind, FailureKind::ReviewUnavailable);
    assert_eq!(failure.reason, "the review was unavailable: quota");
    assert_eq!(failure.feedback, None);
    let failure = review_failure(&unavailable, true).expect("never started");
    assert_eq!(failure.reason, "the review never started: quota");
}

#[test]
fn unresolved_conflicts_are_the_workers_error_and_say_how_to_declare() {
    let failure = unresolved_conflict_failure(&vec!["a.txt".to_owned(), "b/c.rs".to_owned()]);
    assert_eq!(failure.kind, FailureKind::AgentError);
    assert_eq!(failure.reason, "the capture left conflicts unresolved: a.txt, b/c.rs");
    let feedback = failure.feedback.expect("feedback");
    assert!(feedback.starts_with("these paths are still conflicted: a.txt, b/c.rs. "));
    assert!(feedback.contains("`.upstroke-resolutions`"));
    assert!(feedback.contains("`resolved <path>` or `deleted <path>`"));
    assert!(feedback.ends_with("Run no git command."));
}

#[test]
fn a_review_input_problem_is_its_own_failure() {
    let failure = review_input_failure("the diff is larger than the review accepts");
    assert_eq!(failure.kind, FailureKind::ReviewInput);
    assert!(failure.reason.contains("the diff is larger than the review accepts"));
}
