//! What the engine asks of the process runner: a request per process, the
//! output it reports, and the runner itself, which its users implement.

use vstd::prelude::*;
use crate::error::UpstrokeError;
use crate::identity::InvocationId;
use crate::text::{lemma_views_push, views};

verus! {

/// The agent a process runs as.
#[derive(Clone, Debug, PartialEq, Eq)]
pub struct AgentId(pub String);

impl AgentId {
    pub fn new(name: &str) -> (a: AgentId)
        ensures
            a.0@ == name@,
    {
        AgentId(String::from_str(name))
    }

    pub fn as_str(&self) -> (s: &str)
        ensures
            s@ == self.0@,
    {
        self.0.as_str()
    }
}

/// A command: a program and its arguments.
#[derive(Clone, Debug, PartialEq, Eq)]
pub struct CommandSpec {
    pub program: String,
    pub args: Vec<String>,
}

impl CommandSpec {
    /// A copy of this command.
    pub fn duplicate(&self) -> (c: CommandSpec)
        ensures
            command_view(c) == command_view(*self),
    {
        let mut args: Vec<String> = Vec::new();
        let n = self.args.len();
        let mut i: usize = 0;
        while i < n
            invariant
                n == self.args@.len(),
                i <= n,
                views(args@) == views(self.args@.take(i as int)),
            decreases n - i,
        {
            let ghost before = args@;
            let a = self.args[i].clone();
            args.push(a);
            proof {
                lemma_views_push(before, a);
                assert(self.args@.take(i + 1) =~= self.args@.take(i as int).push(self.args@[i as int]));
                lemma_views_push(self.args@.take(i as int), self.args@[i as int]);
            }
            i = i + 1;
        }
        proof {
            assert(self.args@.take(n as int) =~= self.args@);
        }
        CommandSpec { program: self.program.clone(), args }
    }
}

/// A command as text: its program and its arguments.
pub open spec fn command_view(c: CommandSpec) -> (Seq<char>, Seq<Seq<char>>) {
    (c.program@, views(c.args@))
}

/// A request as the runner reads it: its role, command, workspace, agent,
/// timeout and invocation.
pub open spec fn request_view(r: RunnerRequest) -> (ExecutionRole, (Seq<char>, Seq<Seq<char>>), Seq<char>, Option<Seq<char>>, u64, InvocationId) {
    (
        r.role,
        command_view(r.command),
        r.workspace@,
        match r.agent {
            Some(a) => Some(a.0@),
            None => None,
        },
        r.timeout_secs,
        r.invocation,
    )
}

/// What a process is run as.
#[derive(Clone, Copy, Debug, PartialEq, Eq, Structural)]
pub enum ExecutionRole {
    Implement,
    Gate,
    Review,
}

/// One process the runner is asked for.
#[derive(Clone, Debug, PartialEq, Eq)]
pub struct RunnerRequest {
    pub role: ExecutionRole,
    pub command: CommandSpec,
    pub workspace: String,
    pub agent: Option<AgentId>,
    pub timeout_secs: u64,
    pub invocation: InvocationId,
}

/// The request for an attempt's worker: an agent process in the task worktree.
pub fn worker_request(command: CommandSpec, workspace: String, agent: AgentId, timeout_secs: u64, invocation: InvocationId) -> (r: RunnerRequest)
    ensures
        r == (RunnerRequest {
            role: ExecutionRole::Implement,
            command,
            workspace,
            agent: Some(agent),
            timeout_secs,
            invocation,
        }),
{
    RunnerRequest { role: ExecutionRole::Implement, command, workspace, agent: Some(agent), timeout_secs, invocation }
}

/// The request for a gate: a command bound to no agent.
pub fn gate_request(command: CommandSpec, workspace: String, timeout_secs: u64, invocation: InvocationId) -> (r: RunnerRequest)
    ensures
        r == (RunnerRequest { role: ExecutionRole::Gate, command, workspace, agent: None, timeout_secs, invocation }),
{
    RunnerRequest { role: ExecutionRole::Gate, command, workspace, agent: None, timeout_secs, invocation }
}

/// What a process that ran reports.
#[derive(Clone, Debug, PartialEq, Eq)]
pub struct ProcessOutput {
    pub code: Option<i32>,
    pub stdout: String,
    pub stderr: String,
    pub timed_out: bool,
    pub output_limited: bool,
}

/// Why the runner could not run a process.
#[derive(Clone, Debug, PartialEq, Eq)]
pub struct RunnerError {
    pub message: String,
}

impl RunnerError {
    /// The engine error a runner error is.
    pub fn into_error(self) -> (e: UpstrokeError)
        ensures
            e == (UpstrokeError::Runner { message: self.message }),
    {
        UpstrokeError::Runner { message: self.message }
    }
}

/// Runs processes. Its users implement it; nothing is assumed of what a
/// run reports. A runner keeps, in order, every request it was handed and
/// what it answered to each.
pub trait Runner {
    /// The requests this runner was handed, in order.
    spec fn asked(&self) -> Seq<RunnerRequest>;

    /// What this runner answered, in order, one answer per request.
    spec fn answered(&self) -> Seq<Result<ProcessOutput, RunnerError>>;

    fn run(&mut self, request: &RunnerRequest) -> (r: Result<ProcessOutput, RunnerError>)
        ensures
            final(self).asked() == old(self).asked().push(*request),
            final(self).answered() == old(self).answered().push(r),
    ;
}

} // verus!
