//! Appending an event: the fold plans the transition, the log takes the
//! line, and only then does the fold take the step. An append that was
//! entered and failed has an unknown outcome; the append-error protocol
//! poisons the fold, cancels what the run had reserved, and replays the log's
//! stable prefix to say whether the line is in it.

use vstd::prelude::*;
use crate::effects::{site_name_spec, EffectSiteId, EventSite, Hooks};
use crate::error::UpstrokeError;
use crate::fold::{admits, fold_refusal_text, stepped, TopologyFold};
use crate::identity::{count_status, InvocationLedger, InvocationStatus, Reservations};
use crate::model::{event_kind_spec, TopologyEventBody};
use crate::text::{decimal, push_decimal, same_text};

verus! {

/// An event as the log records it: when, and what.
#[derive(Clone, Debug, PartialEq, Eq)]
pub struct TopologyEvent {
    pub ts: String,
    pub body: TopologyEventBody,
}

/// The step of the stable-prefix barrier that did not hold.
#[derive(Clone, Copy, Debug, PartialEq, Eq, Structural)]
pub enum BarrierStep {
    Reopen,
    Read,
    Truncate,
    Sync,
}

pub open spec fn step_label(step: BarrierStep) -> Seq<char> {
    match step {
        BarrierStep::Reopen => "reopen"@,
        BarrierStep::Read => "read"@,
        BarrierStep::Truncate => "truncate"@,
        BarrierStep::Sync => "sync"@,
    }
}

fn step_text(step: BarrierStep) -> (s: &'static str)
    ensures
        s@ == step_label(step),
{
    match step {
        BarrierStep::Reopen => "reopen",
        BarrierStep::Read => "read",
        BarrierStep::Truncate => "truncate",
        BarrierStep::Sync => "sync",
    }
}

/// Why the barrier did not hold.
#[derive(Clone, Debug, PartialEq, Eq)]
pub struct BarrierFailure {
    pub step: BarrierStep,
    pub detail: String,
}

/// What the next append to a log meets.
#[derive(Clone, Debug, PartialEq, Eq)]
pub enum AppendFault {
    /// The append fails before it writes anything; the log stays usable.
    BeforeWrite { message: String },
    /// The append fails once it has begun writing: the log is poisoned, and
    /// the line is durable or it is not.
    AfterWrite { durable: bool, message: String },
}

/// A run's topology log: its durable lines, the line at which an append of
/// unknown outcome poisoned it, the fault the next append meets, and the
/// failure the stable-prefix barrier meets, if any.
#[derive(Clone, Debug, PartialEq, Eq)]
pub struct EventLog {
    pub lines: Vec<String>,
    pub poisoned_at: Option<usize>,
    pub fault: Option<AppendFault>,
    pub barrier: Option<BarrierFailure>,
}

pub open spec fn poisoned_text(at: nat) -> Seq<char> {
    "the event log is poisoned at line "@ + decimal(at) + "; nothing more is appended to it"@
}

/// Whether `lines` ends with `line`.
pub open spec fn ends_with_line(lines: Seq<String>, line: Seq<char>) -> bool {
    lines.len() > 0 && lines.last()@ == line
}

impl EventLog {
    pub fn new() -> (log: EventLog)
        ensures
            log.lines@.len() == 0,
            log.poisoned_at is None,
            log.fault is None,
            log.barrier is None,
    {
        EventLog { lines: Vec::new(), poisoned_at: None, fault: None, barrier: None }
    }

    /// The line at which the log was poisoned, if it was.
    pub fn poisoned_at(&self) -> (p: Option<usize>)
        ensures
            p == self.poisoned_at,
    {
        self.poisoned_at
    }

    /// Appends `line` at `site`: the hook crossing and a poisoned log refuse
    /// before anything is written; the fault armed on the log fails the
    /// append before or after it begins writing.
    pub fn append_topology(&mut self, site: EventSite, line: &String, hooks: &mut Hooks) -> (r: Result<(), UpstrokeError>)
        ensures
            final(self).barrier == old(self).barrier,
            r is Ok <==> old(hooks).armed != Some(EffectSiteId::Event(site)) && old(self).poisoned_at is None
                && old(self).fault is None,
            r is Ok ==> final(self).lines@ == old(self).lines@.push(*line) && final(self).poisoned_at is None
                && final(self).fault is None,
            r is Err && old(hooks).armed != Some(EffectSiteId::Event(site)) && old(self).poisoned_at is None
                && (old(self).fault matches Some(AppendFault::AfterWrite { durable, .. })) ==> final(self).poisoned_at
                == Some(old(self).lines@.len() as usize) && final(self).fault is None && final(self).lines@ == if (
            old(self).fault matches Some(AppendFault::AfterWrite { durable, .. }) && durable) {
                old(self).lines@.push(*line)
            } else {
                old(self).lines@
            },
            r is Err && !(old(hooks).armed != Some(EffectSiteId::Event(site)) && old(self).poisoned_at is None
                && (old(self).fault matches Some(AppendFault::AfterWrite { .. }))) ==> *final(self) == *old(self),
            old(hooks).armed != Some(EffectSiteId::Event(site)) ==> (old(self).poisoned_at matches Some(at) ==> (r matches Err(
                UpstrokeError::Io { message },
            ) && message@ == poisoned_text(at as nat))),
            old(hooks).armed != Some(EffectSiteId::Event(site)) && old(self).poisoned_at is None ==> match old(self).fault {
                Some(AppendFault::AfterWrite { message, .. }) => r == Err::<(), UpstrokeError>(UpstrokeError::Io { message }),
                Some(AppendFault::BeforeWrite { message }) => r == Err::<(), UpstrokeError>(UpstrokeError::Io { message }),
                None => r is Ok,
            },
            final(hooks).trace@.len() >= old(hooks).trace@.len(),
            final(hooks).trace@.subrange(0, old(hooks).trace@.len() as int) == old(hooks).trace@,
    {
        let effect = EffectSiteId::Event(site);
        hooks.enter(effect)?;
        if let Some(at) = self.poisoned_at {
            let mut message = String::from_str("the event log is poisoned at line ");
            push_decimal(&mut message, at as u64);
            message.append("; nothing more is appended to it");
            return Err(UpstrokeError::Io { message });
        }
        let fault = self.fault.take();
        match fault {
            Some(AppendFault::BeforeWrite { message }) => {
                self.fault = Some(AppendFault::BeforeWrite { message: message.clone() });
                Err(UpstrokeError::Io { message })
            },
            Some(AppendFault::AfterWrite { durable, message }) => {
                self.poisoned_at = Some(self.lines.len());
                if durable {
                    self.lines.push(line.clone());
                }
                Err(UpstrokeError::Io { message })
            },
            None => {
                self.lines.push(line.clone());
                hooks.leave(effect);
                Ok(())
            },
        }
    }
}

/// What the stable-prefix replay says of a line whose append failed.
#[derive(Clone, Debug, PartialEq, Eq)]
pub enum AppendOutcome {
    Present,
    Absent,
    Undetermined { step: BarrierStep, detail: String },
}

pub open spec fn describe_spec(outcome: AppendOutcome) -> Seq<char> {
    match outcome {
        AppendOutcome::Present => "the proven prefix contains the line: the transition is committed and durable"@,
        AppendOutcome::Absent => "the proven prefix does not contain the line: the previous prefix stands and is durable"@,
        AppendOutcome::Undetermined { step, detail } => "the outcome is undetermined — the stable-prefix barrier did not hold at "@
            + step_label(step) + " ("@ + detail@ + "), so neither the line's presence nor its absence is asserted"@,
    }
}

impl AppendOutcome {
    /// What the outcome asserts of the line.
    pub fn describe(&self) -> (s: String)
        ensures
            s@ == describe_spec(*self),
    {
        match self {
            AppendOutcome::Present => String::from_str(
                "the proven prefix contains the line: the transition is committed and durable",
            ),
            AppendOutcome::Absent => String::from_str(
                "the proven prefix does not contain the line: the previous prefix stands and is durable",
            ),
            AppendOutcome::Undetermined { step, detail } => {
                let mut s = String::from_str("the outcome is undetermined — the stable-prefix barrier did not hold at ");
                s.append(step_text(*step));
                s.append(" (");
                s.append(detail.as_str());
                s.append("), so neither the line's presence nor its absence is asserted");
                s
            },
        }
    }
}

/// How the run directory stands after a failed first append.
#[derive(Clone, Copy, Debug, PartialEq, Eq, Structural)]
pub enum FirstAppendDisposition {
    Committed,
    RetainedPossiblyCommitted,
    UndeterminedAndRetained,
}

pub open spec fn disposition_label(d: FirstAppendDisposition) -> Seq<char> {
    match d {
        FirstAppendDisposition::Committed => "committed"@,
        FirstAppendDisposition::RetainedPossiblyCommitted => "retained, possibly committed"@,
        FirstAppendDisposition::UndeterminedAndRetained => "undetermined and retained"@,
    }
}

impl FirstAppendDisposition {
    /// The disposition as a report names it.
    pub fn label(&self) -> (s: &'static str)
        ensures
            s@ == disposition_label(*self),
    {
        match self {
            FirstAppendDisposition::Committed => "committed",
            FirstAppendDisposition::RetainedPossiblyCommitted => "retained, possibly committed",
            FirstAppendDisposition::UndeterminedAndRetained => "undetermined and retained",
        }
    }
}

/// What the run directory is reported as: only a failed first append says.
pub open spec fn creator_disposition_spec(site: EventSite, outcome: AppendOutcome) -> Option<FirstAppendDisposition> {
    if site != EventSite::AppendFirst {
        None
    } else {
        Some(
            match outcome {
                AppendOutcome::Present => FirstAppendDisposition::Committed,
                AppendOutcome::Absent => FirstAppendDisposition::RetainedPossiblyCommitted,
                AppendOutcome::Undetermined { .. } => FirstAppendDisposition::UndeterminedAndRetained,
            },
        )
    }
}

/// The report of an entered append that failed, before the run's in-flight
/// invocations are cancelled.
#[derive(Clone, Debug, PartialEq, Eq)]
pub struct UncancelledAppend {
    pub run_id: String,
    pub kind: &'static str,
    pub site: EventSite,
    pub cause: UpstrokeError,
    pub outcome: AppendOutcome,
    pub cancelled_reservation: bool,
}

/// The report's text.
pub open spec fn report_text(report: UncancelledAppend) -> Seq<char> {
    "run `"@ + report.run_id@ + "`: the `"@ + report.kind@ + "` append at `"@ + site_name_spec(EffectSiteId::Event(report.site))
        + "` was entered and returned an error ("@ + report.cause.message_spec() + "), so its outcome is unknown. "@
        + describe_spec(report.outcome)
        + ". Nothing was retried, no state was derived from this process's fold, and the run is resumable."@
        + match creator_disposition_spec(report.site, report.outcome) {
        Some(d) => " The run directory is reported as "@ + disposition_label(d) + "; neither half is deleted."@,
        None => Seq::empty(),
    }
}

/// The text of an append error whose invocations are not cancelled yet.
pub open spec fn undischarged_text(report: UncancelledAppend) -> Seq<char> {
    "the `"@ + report.kind@ + "` append at `"@ + site_name_spec(EffectSiteId::Event(report.site))
        + "` was entered and returned an error, and its in-flight invocations have not been cancelled yet"@
}

impl UncancelledAppend {
    /// What the run directory is reported as, after a failed first append.
    pub fn creator_disposition(&self) -> (d: Option<FirstAppendDisposition>)
        ensures
            d == creator_disposition_spec(self.site, self.outcome),
    {
        if self.site != EventSite::AppendFirst {
            return None;
        }
        Some(
            match self.outcome {
                AppendOutcome::Present => FirstAppendDisposition::Committed,
                AppendOutcome::Absent => FirstAppendDisposition::RetainedPossiblyCommitted,
                AppendOutcome::Undetermined { .. } => FirstAppendDisposition::UndeterminedAndRetained,
            },
        )
    }

    /// A run whose append failed is always resumable.
    pub fn resumable(&self) -> (b: bool)
        ensures
            b,
    {
        true
    }

    /// The report's text.
    pub fn message(&self) -> (s: String)
        ensures
            s@ == report_text(*self),
    {
        let mut s = String::from_str("run `");
        s.append(self.run_id.as_str());
        s.append("`: the `");
        s.append(self.kind);
        s.append("` append at `");
        s.append(EffectSiteId::Event(self.site).name().as_str());
        s.append("` was entered and returned an error (");
        s.append(self.cause.message().as_str());
        s.append("), so its outcome is unknown. ");
        s.append(self.outcome.describe().as_str());
        s.append(". Nothing was retried, no state was derived from this process's fold, and the run is resumable.");
        match self.creator_disposition() {
            Some(d) => {
                s.append(" The run directory is reported as ");
                s.append(d.label());
                s.append("; neither half is deleted.");
            },
            None => {},
        }
        s
    }

    /// Cancels every invocation still running in `invocations`: the third
    /// obligation of the protocol, which makes the report an error.
    pub fn cancelling(self, invocations: &mut InvocationLedger) -> (e: AppendError)
        ensures
            e.report == self,
            e.cancelled_invocations as nat == count_status(old(invocations).entries@, InvocationStatus::Running),
            final(invocations).balanced(),
            final(invocations).entries@.len() == old(invocations).entries@.len(),
    {
        let cancelled_invocations = invocations.cancel_all_running();
        AppendError { report: self, cancelled_invocations }
    }
}

/// An append error whose in-flight invocations were cancelled.
#[derive(Clone, Debug, PartialEq, Eq)]
pub struct AppendError {
    pub report: UncancelledAppend,
    pub cancelled_invocations: usize,
}

impl AppendError {
    /// The error's text: its report's.
    pub fn message(&self) -> (s: String)
        ensures
            s@ == report_text(self.report),
    {
        self.report.message()
    }
}

/// Why an event was not appended.
#[derive(Clone, Debug, PartialEq, Eq)]
pub enum EmitError {
    /// The event's line is not one line.
    Unserializable(UpstrokeError),
    /// The fold refused the transition; nothing was written.
    Refused(UpstrokeError),
    /// The append failed before it was entered; nothing was written.
    NotEntered(UpstrokeError),
    /// The append was entered and failed: its outcome is unknown.
    AppendFailed(Box<UncancelledAppend>),
}

pub open spec fn emit_error_text(e: EmitError) -> Seq<char> {
    match e {
        EmitError::Unserializable(error) => error.message_spec(),
        EmitError::Refused(error) => error.message_spec(),
        EmitError::NotEntered(error) => error.message_spec(),
        EmitError::AppendFailed(report) => undischarged_text(*report),
    }
}

impl EmitError {
    pub open spec fn wrote_nothing_spec(self) -> bool {
        !(self is AppendFailed)
    }

    /// Whether nothing was written: every error but an entered append's.
    pub fn wrote_nothing(&self) -> (b: bool)
        ensures
            b == !(*self is AppendFailed),
    {
        match self {
            EmitError::AppendFailed(_) => false,
            _ => true,
        }
    }

    /// The report of an entered append, if this is one.
    pub fn append_error(&self) -> (r: Option<&UncancelledAppend>)
        ensures
            match *self {
                EmitError::AppendFailed(report) => r == Some(&*report),
                _ => r is None,
            },
    {
        match self {
            EmitError::AppendFailed(report) => Some(&**report),
            _ => None,
        }
    }

    /// The error's text.
    pub fn message(&self) -> (s: String)
        ensures
            s@ == emit_error_text(*self),
    {
        match self {
            EmitError::Unserializable(error) => error.message(),
            EmitError::Refused(error) => error.message(),
            EmitError::NotEntered(error) => error.message(),
            EmitError::AppendFailed(report) => undischarged_message(report),
        }
    }

    /// The error the run reports, once an entered append's in-flight
    /// invocations are cancelled.
    pub fn discharging(self, invocations: &mut InvocationLedger) -> (e: UpstrokeError)
        ensures
            match self {
                EmitError::Unserializable(error) => e == error && *final(invocations) == *old(invocations),
                EmitError::NotEntered(error) => e == error && *final(invocations) == *old(invocations),
                EmitError::Refused(error) => e is Refused && e.message_spec() == error.message_spec()
                    && *final(invocations) == *old(invocations),
                EmitError::AppendFailed(report) => e is Refused && e.message_spec() == report_text(*report)
                    && final(invocations).balanced(),
            },
    {
        match self {
            EmitError::Unserializable(error) => error,
            EmitError::NotEntered(error) => error,
            EmitError::Refused(error) => UpstrokeError::Refused { message: error.message() },
            EmitError::AppendFailed(report) => UpstrokeError::Refused { message: (*report).cancelling(invocations).message() },
        }
    }
}

fn undischarged_message(report: &UncancelledAppend) -> (s: String)
    ensures
        s@ == undischarged_text(*report),
{
    let mut s = String::from_str("the `");
    s.append(report.kind);
    s.append("` append at `");
    s.append(EffectSiteId::Event(report.site).name().as_str());
    s.append("` was entered and returned an error, and its in-flight invocations have not been cancelled yet");
    s
}

/// Why an operation that appends did not complete: cleanly, or with an
/// entered append whose invocations are still to be cancelled.
#[derive(Clone, Debug, PartialEq, Eq)]
pub enum EmitFailure {
    Clean(UpstrokeError),
    Undischarged(Box<UncancelledAppend>),
}

pub open spec fn failure_text(f: EmitFailure) -> Seq<char> {
    match f {
        EmitFailure::Clean(error) => error.message_spec(),
        EmitFailure::Undischarged(report) => undischarged_text(*report),
    }
}

impl EmitFailure {
    /// A failure that wrote nothing.
    pub fn from_upstroke(error: UpstrokeError) -> (f: EmitFailure)
        ensures
            f == EmitFailure::Clean(error),
    {
        EmitFailure::Clean(error)
    }

    /// The failure an emit error is: only an entered append is undischarged.
    pub fn from_emit(error: EmitError) -> (f: EmitFailure)
        ensures
            match error {
                EmitError::AppendFailed(report) => f == EmitFailure::Undischarged(report),
                EmitError::Unserializable(e) => f == EmitFailure::Clean(e),
                EmitError::NotEntered(e) => f == EmitFailure::Clean(e),
                EmitError::Refused(e) => f matches EmitFailure::Clean(c) && c is Refused && c.message_spec() == e.message_spec(),
            },
            f.wrote_nothing_spec() == !(error is AppendFailed),
    {
        match error {
            EmitError::AppendFailed(report) => EmitFailure::Undischarged(report),
            EmitError::Unserializable(e) => EmitFailure::Clean(e),
            EmitError::NotEntered(e) => EmitFailure::Clean(e),
            EmitError::Refused(e) => EmitFailure::Clean(UpstrokeError::Refused { message: e.message() }),
        }
    }

    pub open spec fn wrote_nothing_spec(self) -> bool {
        self is Clean
    }

    /// Whether nothing was written.
    pub fn wrote_nothing(&self) -> (b: bool)
        ensures
            b == self.wrote_nothing_spec(),
    {
        match self {
            EmitFailure::Clean(_) => true,
            EmitFailure::Undischarged(_) => false,
        }
    }

    /// The failure's text.
    pub fn message(&self) -> (s: String)
        ensures
            s@ == failure_text(*self),
    {
        match self {
            EmitFailure::Clean(error) => error.message(),
            EmitFailure::Undischarged(report) => undischarged_message(report),
        }
    }

    /// The error the run reports, once an entered append's in-flight
    /// invocations are cancelled.
    pub fn discharging(self, invocations: &mut InvocationLedger) -> (e: UpstrokeError)
        ensures
            match self {
                EmitFailure::Clean(error) => e == error && *final(invocations) == *old(invocations),
                EmitFailure::Undischarged(report) => e is Refused && e.message_spec() == report_text(*report)
                    && final(invocations).balanced(),
            },
    {
        match self {
            EmitFailure::Clean(error) => error,
            EmitFailure::Undischarged(report) => UpstrokeError::Refused { message: (*report).cancelling(invocations).message() },
        }
    }
}

/// The run an emitter appends for.
#[derive(Clone, Debug, PartialEq, Eq)]
pub struct RunIdentity {
    pub run_id: String,
}

/// What emitting reads and writes: the fold, the log, the events appended,
/// the reservations a failed append cancels, and whether the fold is poisoned.
#[derive(Clone, Debug, PartialEq, Eq)]
pub struct EmitState {
    pub fold: TopologyFold,
    pub log: EventLog,
    pub events: Vec<TopologyEvent>,
    pub reservations: Reservations,
    pub fold_poisoned: bool,
}

pub open spec fn not_one_line_text(kind: Seq<char>) -> Seq<char> {
    "the `"@ + kind + "` event does not serialize to a single line"@
}

pub open spec fn poisoned_fold_text() -> Seq<char> {
    "the fold is poisoned: an append's outcome is unknown and no state is derived from it"@
}

/// Whether `line` is one line: not empty and holding no line break.
pub open spec fn is_one_line(line: Seq<char>) -> bool {
    line.len() > 0 && forall|i: int| 0 <= i < line.len() ==> line[i] != '\n'
}

fn one_line(line: &String) -> (b: bool)
    ensures
        b == is_one_line(line@),
{
    let s = line.as_str();
    let n = s.unicode_len();
    if n == 0 {
        return false;
    }
    let mut i: usize = 0;
    while i < n
        invariant
            n == s@.len(),
            s@ == line@,
            i <= n,
            forall|j: int| 0 <= j < i ==> s@[j] != '\n',
        decreases n - i,
    {
        if s.get_char(i) == '\n' {
            return false;
        }
        i = i + 1;
    }
    true
}

/// Whether an append of `line` at `site` would succeed.
pub open spec fn appends(log: EventLog, hooks: Hooks, site: EventSite) -> bool {
    hooks.armed != Some(EffectSiteId::Event(site)) && log.poisoned_at is None && log.fault is None
}

/// Whether an append of a line at `site` enters the log and then fails: the
/// site is not armed, the log is not poisoned, and the fault armed on it
/// strikes after the write begins.
pub open spec fn entered(log: EventLog, hooks: Hooks, site: EventSite) -> bool {
    hooks.armed != Some(EffectSiteId::Event(site)) && log.poisoned_at is None && (log.fault matches Some(AppendFault::AfterWrite { .. }))
}

/// Appends `body`, at time `ts`, as the log line `line` that the caller
/// serialized it to. The fold plans the transition before the log is
/// touched, and steps only once the line is appended.
pub fn emit(
    identity: &RunIdentity,
    state: &mut EmitState,
    ts: String,
    body: TopologyEventBody,
    line: String,
    hooks: &mut Hooks,
) -> (r: Result<(), EmitError>)
    ensures
        r is Ok <==> is_one_line(line@) && !old(state).fold_poisoned && admits(old(state).fold, body) && appends(
            old(state).log,
            *old(hooks),
            EventSite::Append,
        ),
        r is Ok ==> stepped(old(state).fold, final(state).fold, body) && final(state).log.lines@ == old(
            state,
        ).log.lines@.push(line) && final(state).events@ == old(state).events@.push(TopologyEvent { ts, body })
            && final(state).reservations == old(state).reservations && !final(state).fold_poisoned,
        !is_one_line(line@) ==> (r matches Err(EmitError::Unserializable(e)) && e.message_spec() == not_one_line_text(
            event_kind_spec(body),
        )),
        is_one_line(line@) && old(state).fold_poisoned ==> (r matches Err(EmitError::Refused(e)) && e.message_spec()
            == poisoned_fold_text()),
        is_one_line(line@) && !old(state).fold_poisoned && !admits(old(state).fold, body) ==> (r matches Err(
            EmitError::Refused(e),
        ) && e.message_spec() == fold_refusal_text(body)),
        r matches Err(e) && e.wrote_nothing_spec() ==> *final(state) == *old(state),
        is_one_line(line@) && !old(state).fold_poisoned && admits(old(state).fold, body) && !appends(
            old(state).log,
            *old(hooks),
            EventSite::Append,
        ) && !entered(old(state).log, *old(hooks), EventSite::Append) ==> (r matches Err(EmitError::NotEntered(_))
            && *final(state) == *old(state)),
        is_one_line(line@) && !old(state).fold_poisoned && admits(old(state).fold, body) && entered(
            old(state).log,
            *old(hooks),
            EventSite::Append,
        ) ==> (r matches Err(EmitError::AppendFailed(report)) && (old(state).log.fault matches Some(
            AppendFault::AfterWrite { message, .. },
        ) && report.cause == (UpstrokeError::Io { message }))),
        r matches Err(EmitError::AppendFailed(report)) ==> final(state).fold_poisoned && final(state).fold == old(state).fold
            && final(state).events == old(state).events && final(state).reservations.held is None
            && report.cancelled_reservation == (old(state).reservations.held is Some) && report.run_id@ == identity.run_id@
            && report.kind@ == event_kind_spec(body) && report.site == EventSite::Append && final(state).log.poisoned_at
            is Some && report.outcome == match final(state).log.barrier {
            Some(f) => AppendOutcome::Undetermined { step: f.step, detail: f.detail },
            None => if ends_with_line(final(state).log.lines@, line@) {
                AppendOutcome::Present
            } else {
                AppendOutcome::Absent
            },
        },
        final(hooks).trace@.len() >= old(hooks).trace@.len(),
        final(hooks).trace@.subrange(0, old(hooks).trace@.len() as int) == old(hooks).trace@,
{
    if !one_line(&line) {
        let mut message = String::from_str("the `");
        message.append(body.kind());
        message.append("` event does not serialize to a single line");
        return Err(EmitError::Unserializable(UpstrokeError::Refused { message }));
    }
    if state.fold_poisoned {
        return Err(
            EmitError::Refused(
                UpstrokeError::Refused {
                    message: String::from_str(
                        "the fold is poisoned: an append's outcome is unknown and no state is derived from it",
                    ),
                },
            ),
        );
    }
    if !state.fold.admits_event(&body) {
        return Err(EmitError::Refused(UpstrokeError::Refused { message: refusal_message(&body) }));
    }
    let site = EventSite::Append;
    let poisoned_before = state.log.poisoned_at().is_some();
    match state.log.append_topology(site, &line, hooks) {
        Ok(()) => {
            let applied = state.fold.apply(&body);
            assert(applied is Ok);
            state.events.push(TopologyEvent { ts, body });
            Ok(())
        },
        Err(cause) => {
            let kind = body.kind();
            if poisoned_before || state.log.poisoned_at().is_none() {
                Err(EmitError::NotEntered(cause))
            } else {
                Err(EmitError::AppendFailed(Box::new(protocol(identity, state, &line, kind, site, cause))))
            }
        },
    }
}

/// The append-error protocol: poison the fold, cancel the reservation, and
/// replay the stable prefix to say whether the line is in it.
fn protocol(
    identity: &RunIdentity,
    state: &mut EmitState,
    line: &String,
    kind: &'static str,
    site: EventSite,
    cause: UpstrokeError,
) -> (report: UncancelledAppend)
    ensures
        final(state).fold_poisoned,
        final(state).fold == old(state).fold,
        final(state).log == old(state).log,
        final(state).events == old(state).events,
        final(state).reservations.held is None,
        report.cancelled_reservation == (old(state).reservations.held is Some),
        report.run_id@ == identity.run_id@,
        report.kind == kind,
        report.site == site,
        report.cause == cause,
        report.outcome == match old(state).log.barrier {
            Some(f) => AppendOutcome::Undetermined { step: f.step, detail: f.detail },
            None => if ends_with_line(old(state).log.lines@, line@) {
                AppendOutcome::Present
            } else {
                AppendOutcome::Absent
            },
        },
{
    state.fold_poisoned = true;
    let cancelled_reservation = state.reservations.cancel_any();
    let outcome = match &state.log.barrier {
        Some(failure) => AppendOutcome::Undetermined { step: failure.step, detail: failure.detail.clone() },
        None => {
            let n = state.log.lines.len();
            if n > 0 && same_text(state.log.lines[n - 1].as_str(), line.as_str()) {
                AppendOutcome::Present
            } else {
                AppendOutcome::Absent
            }
        },
    };
    UncancelledAppend { run_id: identity.run_id.clone(), kind, site, cause, outcome, cancelled_reservation }
}

fn refusal_message(body: &TopologyEventBody) -> (s: String)
    ensures
        s@ == fold_refusal_text(*body),
{
    match body {
        TopologyEventBody::RunFinished { .. } => String::from_str("the fold refuses `run_finished`: the run is not ending"),
        _ => {
            let mut message = String::from_str("the fold refuses `");
            message.append(body.kind());
            message.append("` in the generation's present state");
            message
        },
    }
}

} // verus!
