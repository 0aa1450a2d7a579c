//! What judging reads and reports: why an attempt failed, the review passes
//! its users implement, the record each pass leaves, and the account a
//! finished pass is charged to.

use vstd::prelude::*;
use crate::error::UpstrokeError;
use crate::identity::InvocationId;
use crate::runner::ProcessOutput;
use crate::text::{decimal, join, join_strings, push_decimal, views};

verus! {

/// What kind of failure ends an attempt.
#[derive(Clone, Copy, Debug, PartialEq, Eq, Structural)]
pub enum FailureKind {
    AgentError,
    WorkerFailed,
    WorkerTimedOut,
    EmptyDiff,
    ReviewInput,
    GateFailed,
    ReviewRejected,
    ReviewUnavailable,
}

/// Why an attempt failed: its kind, the reason, and the feedback the next
/// attempt is given.
#[derive(Clone, Debug, PartialEq, Eq)]
pub struct AttemptFailure {
    pub kind: FailureKind,
    pub reason: String,
    pub feedback: Option<String>,
}

/// A failure, as text.
pub open spec fn failure_view(f: AttemptFailure) -> (FailureKind, Seq<char>, Option<Seq<char>>) {
    (
        f.kind,
        f.reason@,
        match f.feedback {
            Some(t) => Some(t@),
            None => None,
        },
    )
}

pub open spec fn failures_view(f: Option<AttemptFailure>) -> Option<(FailureKind, Seq<char>, Option<Seq<char>>)> {
    match f {
        Some(f) => Some(failure_view(f)),
        None => None,
    }
}

impl AttemptFailure {
    pub fn duplicate(&self) -> (f: AttemptFailure)
        ensures
            f == *self,
    {
        AttemptFailure {
            kind: self.kind,
            reason: self.reason.clone(),
            feedback: match &self.feedback {
                Some(t) => Some(t.clone()),
                None => None,
            },
        }
    }
}

/// How many characters of a gate's log its failure's feedback keeps.
pub const FEEDBACK_TAIL_CHARS: usize = 2000;

/// The last `n` characters of `s`, or all of it.
pub open spec fn tail_spec(s: Seq<char>, n: nat) -> Seq<char> {
    if s.len() <= n {
        s
    } else {
        s.subrange(s.len() - n, s.len() as int)
    }
}

/// The last `n` characters of `s`, or all of it.
pub fn tail(s: &str, n: usize) -> (t: String)
    ensures
        t@ == tail_spec(s@, n as nat),
{
    let len = s.unicode_len();
    if len <= n {
        return String::from_str(s);
    }
    String::from_str(s.substring_char(len - n, len))
}

/// How a gate ended: its exit, and whether it timed out or was truncated.
pub open spec fn gate_summary_spec(code: Option<i32>, timed_out: bool, output_limited: bool) -> Seq<char> {
    "exit "@ + match code {
        Some(c) => if c >= 0 {
            decimal(c as nat)
        } else {
            "-"@ + decimal((-c) as nat)
        },
        None => "signal"@,
    } + if timed_out {
        " (timed out)"@
    } else {
        Seq::empty()
    } + if output_limited {
        " (output truncated)"@
    } else {
        Seq::empty()
    }
}

pub fn gate_summary(code: Option<i32>, timed_out: bool, output_limited: bool) -> (s: String)
    ensures
        s@ == gate_summary_spec(code, timed_out, output_limited),
{
    let mut s = String::from_str("exit ");
    match code {
        Some(c) => {
            if c >= 0 {
                push_decimal(&mut s, c as u64);
            } else {
                s.append("-");
                let magnitude: i64 = -(c as i64);
                push_decimal(&mut s, magnitude as u64);
            }
        },
        None => s.append("signal"),
    }
    if timed_out {
        s.append(" (timed out)");
    }
    if output_limited {
        s.append(" (output truncated)");
    }
    s
}

/// The failure a refused gate gives.
pub open spec fn gate_failure_view(gate: Seq<char>, summary: Seq<char>, log_tail: Seq<char>) -> (FailureKind, Seq<char>, Option<Seq<char>>) {
    (FailureKind::GateFailed, "gate `"@ + gate + "` refused the attempt: "@ + summary, Some(log_tail + " ("@ + summary + ")"@))
}

pub fn gate_failure(gate: &str, summary: &str, log_tail: &str) -> (f: AttemptFailure)
    ensures
        failure_view(f) == gate_failure_view(gate@, summary@, log_tail@),
{
    let mut reason = String::from_str("gate `");
    reason.append(gate);
    reason.append("` refused the attempt: ");
    reason.append(summary);
    let mut feedback = String::from_str(log_tail);
    feedback.append(" (");
    feedback.append(summary);
    feedback.append(")");
    AttemptFailure { kind: FailureKind::GateFailed, reason, feedback: Some(feedback) }
}

/// What a review pass concluded.
#[derive(Clone, Debug, PartialEq, Eq)]
pub enum ReviewResult {
    Judged { pass: bool, reasons: Vec<String> },
    Unavailable { detail: String },
}

/// What a review pass reports: its result, its cost in micro-dollars where
/// known, how many invocations it made, and whether it never started.
#[derive(Clone, Debug, PartialEq, Eq)]
pub struct ReviewOutcome {
    pub result: ReviewResult,
    pub cost_micros: Option<u64>,
    pub invocations: u32,
    pub never_started: bool,
}

/// The failure a review's result gives: none where it passed.
pub open spec fn review_failure_view(result: ReviewResult, never_started: bool) -> Option<(FailureKind, Seq<char>, Option<Seq<char>>)> {
    match result {
        ReviewResult::Judged { pass, reasons } => if pass {
            None
        } else {
            Some((FailureKind::ReviewRejected, "the review rejected the attempt"@, Some(join(views(reasons@), "\n"@))))
        },
        ReviewResult::Unavailable { detail } => Some(
            (
                FailureKind::ReviewUnavailable,
                if never_started {
                    "the review never started: "@ + detail@
                } else {
                    "the review was unavailable: "@ + detail@
                },
                None,
            ),
        ),
    }
}

pub fn review_failure(result: &ReviewResult, never_started: bool) -> (f: Option<AttemptFailure>)
    ensures
        failures_view(f) == review_failure_view(*result, never_started),
{
    match result {
        ReviewResult::Judged { pass, reasons } => {
            if *pass {
                None
            } else {
                Some(
                    AttemptFailure {
                        kind: FailureKind::ReviewRejected,
                        reason: String::from_str("the review rejected the attempt"),
                        feedback: Some(join_strings(reasons, "\n")),
                    },
                )
            }
        },
        ReviewResult::Unavailable { detail } => {
            let mut reason = if never_started {
                String::from_str("the review never started: ")
            } else {
                String::from_str("the review was unavailable: ")
            };
            reason.append(detail.as_str());
            Some(AttemptFailure { kind: FailureKind::ReviewUnavailable, reason, feedback: None })
        },
    }
}

/// What a worker whose capture left conflicts is told to do.
pub open spec fn unresolved_feedback(unresolved: Seq<Seq<char>>) -> Seq<char> {
    "these paths are still conflicted: "@ + join(unresolved, ", "@)
        + ". Resolve each with your file tools, then declare it in `.upstroke-resolutions`, one line per path: `resolved <path>` or `deleted <path>`. Run no git command."@
}

/// The failure of a completed worker that left conflicted paths: the
/// worker's own error.
pub open spec fn unresolved_conflict_view(unresolved: Seq<Seq<char>>) -> (FailureKind, Seq<char>, Option<Seq<char>>) {
    (
        FailureKind::AgentError,
        "the capture left conflicts unresolved: "@ + join(unresolved, ", "@),
        Some(unresolved_feedback(unresolved)),
    )
}

pub fn unresolved_conflict_failure(unresolved: &Vec<String>) -> (f: AttemptFailure)
    ensures
        failure_view(f) == unresolved_conflict_view(views(unresolved@)),
{
    let listed = join_strings(unresolved, ", ");
    let mut reason = String::from_str("the capture left conflicts unresolved: ");
    reason.append(listed.as_str());
    let mut feedback = String::from_str("these paths are still conflicted: ");
    feedback.append(listed.as_str());
    feedback.append(
        ". Resolve each with your file tools, then declare it in `.upstroke-resolutions`, one line per path: `resolved <path>` or `deleted <path>`. Run no git command.",
    );
    AttemptFailure { kind: FailureKind::AgentError, reason, feedback: Some(feedback) }
}

/// How a worker's run ended, as its adapter reads it.
#[derive(Clone, Copy, Debug, PartialEq, Eq, Structural)]
pub enum OutcomeStatus {
    Completed,
    Failed,
    TimedOut,
}

/// A worker's outcome: how it ended, and the diff it left.
#[derive(Clone, Debug, PartialEq, Eq)]
pub struct WorkerOutcome {
    pub status: OutcomeStatus,
    pub diff: String,
}

/// How a worker's output reads: timed out, completed where it exited zero,
/// failed otherwise.
pub open spec fn status_of_output(output: ProcessOutput) -> OutcomeStatus {
    if output.timed_out {
        OutcomeStatus::TimedOut
    } else if output.code == Some(0i32) {
        OutcomeStatus::Completed
    } else {
        OutcomeStatus::Failed
    }
}

pub fn parse_outcome(output: &ProcessOutput) -> (s: OutcomeStatus)
    ensures
        s == status_of_output(*output),
{
    if output.timed_out {
        OutcomeStatus::TimedOut
    } else if output.code == Some(0i32) {
        OutcomeStatus::Completed
    } else {
        OutcomeStatus::Failed
    }
}

/// The failure a worker's own end gives: none where it completed.
pub open spec fn outcome_failure_view(status: OutcomeStatus) -> Option<(FailureKind, Seq<char>, Option<Seq<char>>)> {
    match status {
        OutcomeStatus::Completed => None,
        OutcomeStatus::Failed => Some((FailureKind::WorkerFailed, "the worker did not complete"@, None)),
        OutcomeStatus::TimedOut => Some((FailureKind::WorkerTimedOut, "the worker timed out"@, None)),
    }
}

pub fn evaluate_outcome(status: OutcomeStatus) -> (f: Option<AttemptFailure>)
    ensures
        failures_view(f) == outcome_failure_view(status),
{
    match status {
        OutcomeStatus::Completed => None,
        OutcomeStatus::Failed => Some(
            AttemptFailure { kind: FailureKind::WorkerFailed, reason: String::from_str("the worker did not complete"), feedback: None },
        ),
        OutcomeStatus::TimedOut => Some(
            AttemptFailure { kind: FailureKind::WorkerTimedOut, reason: String::from_str("the worker timed out"), feedback: None },
        ),
    }
}

/// What a task asks for.
#[derive(Clone, Copy, Debug, PartialEq, Eq, Structural)]
pub enum TaskKind {
    Implement,
    Fix,
    Investigate,
}

/// Whether `c` is white space, as std's `char::is_whitespace` answers.
pub uninterp spec fn whitespace(c: char) -> bool;

/// Calls std's `char::is_whitespace`. The contract claims only that the
/// answer is a function of `c`, named `whitespace`; nothing is stated of the
/// Unicode property itself.
#[verifier::external_body]
fn char_is_whitespace(c: char) -> (b: bool)
    ensures
        b == whitespace(c),
{
    c.is_whitespace()
}

/// Whether `s` is white space throughout: what trims to nothing.
pub open spec fn blank(s: Seq<char>) -> bool {
    forall|i: int| 0 <= i < s.len() ==> whitespace(#[trigger] s[i])
}

/// Whether `s` trims to nothing.
pub fn is_blank(s: &str) -> (b: bool)
    ensures
        b == blank(s@),
{
    let n = s.unicode_len();
    let mut i: usize = 0;
    while i < n
        invariant
            n == s@.len(),
            i <= n,
            forall|k: int| 0 <= k < i ==> whitespace(#[trigger] s@[k]),
        decreases n - i,
    {
        if !char_is_whitespace(s.get_char(i)) {
            return false;
        }
        i = i + 1;
    }
    true
}

/// The failure a diff gives: a task that asks for a change and got none (a
/// diff that trims to nothing) fails.
pub open spec fn diff_failure_view(diff: Seq<char>, kind: TaskKind) -> Option<(FailureKind, Seq<char>, Option<Seq<char>>)> {
    if kind != TaskKind::Investigate && blank(diff) {
        Some(
            (
                FailureKind::EmptyDiff,
                "the attempt produced an empty diff"@,
                Some("the task asks for a change and the worktree holds none"@),
            ),
        )
    } else {
        None
    }
}

pub fn diff_failure(diff: &str, kind: TaskKind) -> (f: Option<AttemptFailure>)
    ensures
        failures_view(f) == diff_failure_view(diff@, kind),
{
    if kind != TaskKind::Investigate && is_blank(diff) {
        Some(
            AttemptFailure {
                kind: FailureKind::EmptyDiff,
                reason: String::from_str("the attempt produced an empty diff"),
                feedback: Some(String::from_str("the task asks for a change and the worktree holds none")),
            },
        )
    } else {
        None
    }
}

/// The failure of review inputs the policy found a problem in.
pub open spec fn review_input_view(problem: Seq<char>) -> (FailureKind, Seq<char>, Option<Seq<char>>) {
    (FailureKind::ReviewInput, "the review inputs are unusable: "@ + problem, None)
}

pub fn review_input_failure(problem: &str) -> (f: AttemptFailure)
    ensures
        failure_view(f) == review_input_view(problem@),
{
    let mut reason = String::from_str("the review inputs are unusable: ");
    reason.append(problem);
    AttemptFailure { kind: FailureKind::ReviewInput, reason, feedback: None }
}

/// The identities a review pass reports its invocations under.
#[derive(Clone, Copy, Debug, PartialEq, Eq, Structural)]
pub struct ReviewInvocations {
    pub pass: InvocationId,
    pub reask: InvocationId,
}

/// What a review pass is given: the task, the diff, and what it decided.
#[derive(Clone, Debug, PartialEq, Eq)]
pub struct ReviewInputs {
    pub title: String,
    pub body: String,
    pub acceptance: Vec<String>,
    pub diff: String,
    pub decisions: Vec<String>,
    pub stem: String,
}

/// One review pass to run: its agent and model, its lens, the snapshot it
/// reads, the stem its transcript takes and its timeout.
#[derive(Clone, Debug, PartialEq, Eq)]
pub struct ReviewRequest {
    pub agent: String,
    pub model: String,
    pub lens: String,
    pub workspace: String,
    pub stem: String,
    pub timeout_secs: u64,
}

/// Whether `workspace` is the review snapshot of the pass whose first
/// invocation is `pass`: a directory `snapshot-<stem>-review<n>` under some
/// execution root, `n` that pass's number.
pub open spec fn on_review_snapshot(workspace: Seq<char>, pass: InvocationId) -> bool {
    pass.role matches crate::identity::InvocationRole::ReviewPass { pass: n, .. } && exists|root: Seq<char>, stem: Seq<char>|
        workspace == root + "/"@ + "snapshot-"@ + stem + "-review"@ + decimal(n as nat)
}

/// Runs review passes. Its users implement it; nothing is assumed of what
/// a pass reports. A pass is asked for only on its own review snapshot,
/// never on a task worktree.
/// The review passes keep, in order, every request they were handed and
/// what each pass answered.
pub trait ReviewPasses {
    /// The requests handed to the passes, in order.
    spec fn asked(&self) -> Seq<ReviewRequest>;

    /// What each pass answered, in order.
    spec fn answered(&self) -> Seq<Result<ReviewOutcome, UpstrokeError>>;

    fn run(&mut self, request: &ReviewRequest, inputs: &ReviewInputs, invocations: &ReviewInvocations) -> (r: Result<
        ReviewOutcome,
        UpstrokeError,
    >)
        requires
            on_review_snapshot(request.workspace@, invocations.pass),
        ensures
            final(self).asked() == old(self).asked().push(*request),
            final(self).answered() == old(self).answered().push(r),
    ;
}

/// What a review pass leaves on the record.
#[derive(Clone, Debug, PartialEq, Eq)]
pub struct ReviewRecord {
    pub pass: String,
    pub agent: String,
    pub model: String,
    pub preflight_cli_version: Option<String>,
    pub cost_micros: Option<u64>,
    pub unavailable: bool,
    pub failed: bool,
}

/// Where a finished review pass is charged. Its users implement it; an
/// account keeps, in order, every record it was charged.
pub trait ReviewAccount {
    /// The records charged, in order.
    spec fn charged(&self) -> Seq<ReviewRecord>;

    fn charge(&mut self, review: &ReviewRecord)
        ensures
            final(self).charged() == old(self).charged().push(*review),
    ;
}

/// An account that charges nothing anywhere; it only keeps what it was handed.
pub struct NoReviewAccount {
    pub handed: Ghost<Seq<ReviewRecord>>,
}

impl NoReviewAccount {
    pub fn new() -> (a: NoReviewAccount)
        ensures
            a.handed@ == Seq::<ReviewRecord>::empty(),
    {
        NoReviewAccount { handed: Ghost(Seq::empty()) }
    }
}

impl ReviewAccount for NoReviewAccount {
    open spec fn charged(&self) -> Seq<ReviewRecord> {
        self.handed@
    }

    fn charge(&mut self, review: &ReviewRecord) {
        proof {
            self.handed@ = self.handed@.push(*review);
        }
    }
}

/// Decides whether review inputs are usable. Its users implement it; a
/// policy keeps, in order, the worktree and tree it was asked about and
/// what it answered.
pub trait ReviewInputPolicy {
    /// The worktrees and trees asked about, in order.
    spec fn asked(&self) -> Seq<(Seq<char>, Seq<char>)>;

    /// What the policy answered, in order.
    spec fn answered(&self) -> Seq<Result<Option<String>, UpstrokeError>>;

    fn problem(&mut self, worktree: &String, tree: &String) -> (r: Result<Option<String>, UpstrokeError>)
        ensures
            final(self).asked() == old(self).asked().push((worktree@, tree@)),
            final(self).answered() == old(self).answered().push(r),
    ;
}

} // verus!
