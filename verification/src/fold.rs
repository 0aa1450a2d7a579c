//! The topology fold: what the run's event log folds to, and the transitions
//! the events this engine appends make of it.

use vstd::prelude::*;
use crate::error::UpstrokeError;
use crate::model::{AttemptNumber, CandidateRef, CommitSha, DerivedOutcome, Epoch, GenerationId, SequenceId, SessionId, TaskKey, TopologyEventBody, event_kind_spec};

verus! {

/// Where a generation stands.
#[derive(Clone, Debug, PartialEq, Eq)]
pub enum GenerationClass {
    OpenNoAttempt,
    InFlight { attempt: AttemptNumber },
    RetainedIdle { session: SessionId, incarnation: Epoch },
    Promoting,
    Closed,
}

impl GenerationClass {
    pub fn is_promoting(&self) -> (b: bool)
        ensures
            b == (*self is Promoting),
    {
        match self {
            GenerationClass::Promoting => true,
            _ => false,
        }
    }

    pub fn is_in_flight(&self) -> (b: bool)
        ensures
            b == (*self is InFlight),
    {
        match self {
            GenerationClass::InFlight { .. } => true,
            _ => false,
        }
    }
}

/// What `candidate_prepared` recorded of a generation's candidate.
#[derive(Clone, Debug, PartialEq, Eq)]
pub struct PreparedRecord {
    pub candidate: CandidateRef,
    pub base_sha: CommitSha,
    pub tree_sha: CommitSha,
}

/// One generation of a task.
#[derive(Clone, Debug, PartialEq, Eq)]
pub struct Generation {
    pub id: GenerationId,
    pub class: GenerationClass,
    pub candidate: Option<PreparedRecord>,
}

/// Where a task stands.
#[derive(Clone, Copy, Debug, PartialEq, Eq, Structural)]
pub enum TaskState {
    Pending,
    Dispatched,
    Deferred,
    Queued,
    Merged,
    Parked,
}

/// A task's state and its generations, oldest first.
#[derive(Clone, Debug, PartialEq, Eq)]
pub struct TaskRecord {
    pub state: TaskState,
    pub generations: Vec<Generation>,
}

/// An unresolved integration sequence.
#[derive(Clone, Debug, PartialEq, Eq)]
pub struct Transaction {
    pub sequence: SequenceId,
    pub candidate: CandidateRef,
}

/// A candidate's position in the integration queue.
#[derive(Clone, Debug, PartialEq, Eq)]
pub struct QueueEntry {
    pub candidate: CandidateRef,
    pub verification_deferred: bool,
}

/// The integration queue.
#[derive(Clone, Debug, PartialEq, Eq)]
pub struct Queue {
    pub entries: Vec<QueueEntry>,
}

impl Queue {
    pub fn entries(&self) -> (e: &Vec<QueueEntry>)
        ensures
            *e == self.entries,
    {
        &self.entries
    }
}

/// A registered task.
#[derive(Clone, Copy, Debug, PartialEq, Eq, Structural)]
pub struct RegistryEntry {
    pub key: TaskKey,
}

/// The frozen task registry.
#[derive(Clone, Debug, PartialEq, Eq)]
pub struct TaskRegistry {
    pub entries: Vec<RegistryEntry>,
}

impl TaskRegistry {
    pub fn entries(&self) -> (e: &Vec<RegistryEntry>)
        ensures
            *e == self.entries,
    {
        &self.entries
    }

    pub fn len(&self) -> (n: usize)
        ensures
            n == self.entries.len(),
    {
        self.entries.len()
    }
}

/// The fold of a run's topology log.
#[derive(Clone, Debug, PartialEq, Eq)]
pub struct TopologyFold {
    /// The epoch of the incarnation that started the run, once it has started.
    pub epoch: Option<Epoch>,
    /// The task a halting settlement was recorded for.
    pub halted_at: Option<TaskKey>,
    /// Whether a budget stop is recorded.
    pub budget_stopped: bool,
    pub registry: Option<TaskRegistry>,
    /// The task records, indexed by task key.
    pub tasks: Vec<TaskRecord>,
    pub transaction: Option<Transaction>,
    pub queue: Option<Queue>,
    /// Whether any work is structurally admissible.
    pub admissible: bool,
    /// The outcome the fold derives of its state.
    pub derived: DerivedOutcome,
    /// Whether `run_finished` has been folded.
    pub finished: bool,
}

/// The index of the first generation of `gens` with id `id`.
pub open spec fn generation_index(gens: Seq<Generation>, id: GenerationId) -> Option<int>
    decreases gens.len(),
{
    if gens.len() == 0 {
        None
    } else if gens[0].id == id {
        Some(0)
    } else {
        match generation_index(gens.drop_first(), id) {
            Some(i) => Some(i + 1),
            None => None,
        }
    }
}

pub proof fn lemma_generation_index(gens: Seq<Generation>, id: GenerationId)
    ensures
        generation_index(gens, id) matches Some(i) ==> 0 <= i < gens.len() && gens[i].id == id
            && forall|j: int| 0 <= j < i ==> gens[j].id != id,
        generation_index(gens, id) is None ==> forall|j: int| 0 <= j < gens.len() ==> gens[j].id != id,
    decreases gens.len(),
{
    if gens.len() > 0 {
        lemma_generation_index(gens.drop_first(), id);
        if gens[0].id != id {
            assert forall|j: int| 1 <= j < gens.len() implies gens[j] == gens.drop_first()[j - 1] by {}
        }
    }
}

/// Replacing a generation by one of the same id moves no generation's index.
pub proof fn lemma_generation_index_update(gens: Seq<Generation>, i: int, g: Generation, id: GenerationId)
    requires
        0 <= i < gens.len(),
        g.id == gens[i].id,
    ensures
        generation_index(gens.update(i, g), id) == generation_index(gens, id),
{
    let new = gens.update(i, g);
    lemma_generation_index(gens, id);
    lemma_generation_index(new, id);
    assert forall|j: int| 0 <= j < gens.len() implies new[j].id == gens[j].id by {}
    match (generation_index(gens, id), generation_index(new, id)) {
        (Some(a), Some(b)) => {
            if a < b {
                assert(new[a].id == id);
            } else if b < a {
                assert(gens[b].id == id);
            }
        },
        (Some(a), None) => {
            assert(new[a].id == id);
        },
        (None, Some(b)) => {
            assert(gens[b].id == id);
        },
        (None, None) => {},
    }
}

/// Folding an admitted event about an existing generation leaves that
/// generation as `generation_after` makes it, and the queue's presence as it was.
pub proof fn lemma_stepped_generation(old: TopologyFold, new: TopologyFold, body: TopologyEventBody, key: TaskKey, generation: GenerationId)
    requires
        stepped(old, new, body),
        event_target(body) == Some((key, generation)),
        !(body is TaskDispatched),
        old.generation_spec(key, generation) is Some,
    ensures
        new.generation_spec(key, generation) == Some(generation_after(old.generation_spec(key, generation).unwrap(), body)),
        new.queue is Some <== old.queue is Some,
{
    let k = key.0 as int;
    let gens = old.tasks@[k].generations@;
    lemma_generation_index(gens, generation);
    let i = generation_index(gens, generation).unwrap();
    let g = generation_after(gens[i], body);
    lemma_generation_index_update(gens, i, g, generation);
    assert(new.tasks@[k].generations@ == gens.update(i, g));
}

impl TopologyFold {
    pub fn epoch(&self) -> (e: Option<Epoch>)
        ensures
            e == self.epoch,
    {
        self.epoch
    }

    pub fn halted_at(&self) -> (h: Option<TaskKey>)
        ensures
            h == self.halted_at,
    {
        self.halted_at
    }

    pub fn budget_stopped(&self) -> (b: bool)
        ensures
            b == self.budget_stopped,
    {
        self.budget_stopped
    }

    pub fn derived_outcome(&self) -> (d: DerivedOutcome)
        ensures
            d == self.derived,
    {
        self.derived
    }

    pub fn structurally_admissible(&self) -> (b: bool)
        ensures
            b == self.admissible,
    {
        self.admissible
    }

    pub fn registry(&self) -> (r: Option<&TaskRegistry>)
        ensures
            r == match self.registry {
                Some(registry) => Some(&registry),
                None => None::<&TaskRegistry>,
            },
    {
        match &self.registry {
            Some(registry) => Some(registry),
            None => None,
        }
    }

    pub fn transaction(&self) -> (t: Option<&Transaction>)
        ensures
            t == match self.transaction {
                Some(t) => Some(&t),
                None => None::<&Transaction>,
            },
    {
        match &self.transaction {
            Some(t) => Some(t),
            None => None,
        }
    }

    pub fn queue(&self) -> (q: Option<&Queue>)
        ensures
            q == match self.queue {
                Some(q) => Some(&q),
                None => None::<&Queue>,
            },
    {
        match &self.queue {
            Some(q) => Some(q),
            None => None,
        }
    }

    /// The record of task `key`.
    pub open spec fn task_spec(self, key: TaskKey) -> Option<TaskRecord> {
        if key.0 < self.tasks.len() {
            Some(self.tasks[key.0 as int])
        } else {
            None
        }
    }

    pub fn task(&self, key: TaskKey) -> (t: Option<&TaskRecord>)
        ensures
            t == match self.task_spec(key) {
                Some(t) => Some(&t),
                None => None::<&TaskRecord>,
            },
    {
        if (key.0 as usize) < self.tasks.len() {
            Some(&self.tasks[key.0 as usize])
        } else {
            None
        }
    }

    /// The generation `generation` of task `key`.
    pub open spec fn generation_spec(self, key: TaskKey, generation: GenerationId) -> Option<Generation> {
        match self.task_spec(key) {
            Some(task) => match generation_index(task.generations@, generation) {
                Some(i) => Some(task.generations@[i]),
                None => None,
            },
            None => None,
        }
    }
}


// ----- copies ----------------------------------------------------------------

impl GenerationClass {
    pub fn duplicate(&self) -> (c: Self)
        ensures
            c == *self,
    {
        match self {
            GenerationClass::OpenNoAttempt => GenerationClass::OpenNoAttempt,
            GenerationClass::InFlight { attempt } => GenerationClass::InFlight { attempt: *attempt },
            GenerationClass::RetainedIdle { session, incarnation } => GenerationClass::RetainedIdle {
                session: SessionId(session.0.clone()),
                incarnation: *incarnation,
            },
            GenerationClass::Promoting => GenerationClass::Promoting,
            GenerationClass::Closed => GenerationClass::Closed,
        }
    }
}

impl PreparedRecord {
    pub fn duplicate(&self) -> (r: Self)
        ensures
            r == *self,
    {
        PreparedRecord {
            candidate: self.candidate.duplicate(),
            base_sha: self.base_sha.duplicate(),
            tree_sha: self.tree_sha.duplicate(),
        }
    }
}

impl Generation {
    pub fn duplicate(&self) -> (g: Self)
        ensures
            g == *self,
    {
        Generation {
            id: self.id,
            class: self.class.duplicate(),
            candidate: match &self.candidate {
                Some(c) => Some(c.duplicate()),
                None => None,
            },
        }
    }
}

impl TaskRecord {
    pub fn duplicate(&self) -> (t: Self)
        ensures
            t.state == self.state,
            t.generations@ == self.generations@,
    {
        let mut generations: Vec<Generation> = Vec::new();
        let n = self.generations.len();
        let mut i: usize = 0;
        while i < n
            invariant
                n == self.generations.len(),
                i <= n,
                generations@ == self.generations@.take(i as int),
            decreases n - i,
        {
            generations.push(self.generations[i].duplicate());
            assert(generations@ =~= self.generations@.take(i + 1));
            i = i + 1;
        }
        assert(generations@ =~= self.generations@);
        TaskRecord { state: self.state, generations }
    }
}

// ----- transitions -----------------------------------------------------------

/// The generation an event body is about, where it is about one.
pub open spec fn event_target(body: TopologyEventBody) -> Option<(TaskKey, GenerationId)> {
    match body {
        TopologyEventBody::TaskDispatched { data } => Some((data.key, data.generation)),
        TopologyEventBody::AttemptStarted { data } => Some((data.key, data.generation)),
        TopologyEventBody::AttemptInterrupted { data } => Some((data.key, data.generation)),
        TopologyEventBody::CandidatePrepared { data } => Some((data.key, data.generation)),
        TopologyEventBody::TaskCandidateCreated { data } => Some((data.candidate.key, data.candidate.generation)),
        TopologyEventBody::GenerationClosed { data } => Some((data.key, data.generation)),
        TopologyEventBody::RunFinished { .. } => None,
    }
}

/// Whether the fold accepts `body` in its present state.
pub open spec fn admits(fold: TopologyFold, body: TopologyEventBody) -> bool {
    match body {
        TopologyEventBody::TaskDispatched { data } => fold.task_spec(data.key) is Some
            && fold.generation_spec(data.key, data.generation) is None,
        TopologyEventBody::AttemptStarted { data } => match fold.generation_spec(data.key, data.generation) {
            Some(g) => g.class is OpenNoAttempt || g.class is RetainedIdle,
            None => false,
        },
        TopologyEventBody::AttemptInterrupted { data } => match fold.generation_spec(data.key, data.generation) {
            Some(g) => g.class == (GenerationClass::InFlight { attempt: data.attempt }),
            None => false,
        },
        TopologyEventBody::CandidatePrepared { data } => match fold.generation_spec(data.key, data.generation) {
            Some(g) => g.class is InFlight,
            None => false,
        },
        TopologyEventBody::TaskCandidateCreated { data } => fold.queue is Some && match fold.generation_spec(
            data.candidate.key,
            data.candidate.generation,
        ) {
            Some(g) => g.class is Promoting,
            None => false,
        },
        TopologyEventBody::GenerationClosed { data } => match fold.generation_spec(data.key, data.generation) {
            Some(g) => !(g.class is Closed),
            None => false,
        },
        TopologyEventBody::RunFinished { data } => !fold.finished && fold.derived == DerivedOutcome::Ending(data.outcome),
    }
}

/// Two task records hold the same state and generations.
pub open spec fn same_task(a: TaskRecord, b: TaskRecord) -> bool {
    a.state == b.state && a.generations@ == b.generations@
}

/// `new` holds `old`'s tasks, but for task `k`.
pub open spec fn tasks_except(old: TopologyFold, new: TopologyFold, k: int) -> bool {
    new.tasks@.len() == old.tasks@.len() && forall|j: int|
        0 <= j < old.tasks@.len() && j != k ==> same_task(#[trigger] new.tasks@[j], old.tasks@[j])
}

/// `new` agrees with `old` on everything but the tasks, the queue and whether it is finished.
pub open spec fn same_rest(old: TopologyFold, new: TopologyFold) -> bool {
    &&& new.epoch == old.epoch
    &&& new.halted_at == old.halted_at
    &&& new.budget_stopped == old.budget_stopped
    &&& new.registry == old.registry
    &&& new.transaction == old.transaction
    &&& new.admissible == old.admissible
    &&& new.derived == old.derived
}

/// What an event makes of the generation it is about.
pub open spec fn generation_after(old: Generation, body: TopologyEventBody) -> Generation {
    match body {
        TopologyEventBody::AttemptStarted { data } => Generation { class: GenerationClass::InFlight { attempt: data.attempt }, ..old },
        TopologyEventBody::AttemptInterrupted { .. } => Generation { class: GenerationClass::Closed, ..old },
        TopologyEventBody::CandidatePrepared { data } => Generation {
            class: GenerationClass::Promoting,
            candidate: Some(PreparedRecord {
                candidate: CandidateRef {
                    key: data.key,
                    generation: data.generation,
                    commit_sha: data.commit_sha,
                    candidate_ref: data.candidate_ref,
                },
                base_sha: data.base_sha,
                tree_sha: data.tree_sha,
            }),
            ..old
        },
        TopologyEventBody::TaskCandidateCreated { .. } => Generation { class: GenerationClass::Closed, ..old },
        TopologyEventBody::GenerationClosed { .. } => Generation { class: GenerationClass::Closed, ..old },
        _ => old,
    }
}

/// The state an event leaves its task in.
pub open spec fn state_after(old: TaskState, body: TopologyEventBody) -> TaskState {
    match body {
        TopologyEventBody::TaskDispatched { .. } => TaskState::Dispatched,
        TopologyEventBody::AttemptInterrupted { .. } => TaskState::Pending,
        TopologyEventBody::TaskCandidateCreated { .. } => TaskState::Queued,
        _ => old,
    }
}

/// The generations an event leaves its task with.
pub open spec fn generations_after(old: Seq<Generation>, body: TopologyEventBody) -> Seq<Generation> {
    match body {
        TopologyEventBody::TaskDispatched { data } => old.push(
            Generation { id: data.generation, class: GenerationClass::OpenNoAttempt, candidate: None },
        ),
        _ => match event_target(body) {
            Some((_, generation)) => match generation_index(old, generation) {
                Some(i) => old.update(i, generation_after(old[i], body)),
                None => old,
            },
            None => old,
        },
    }
}

/// `new` is what folding the admitted `body` into `old` gives.
pub open spec fn stepped(old: TopologyFold, new: TopologyFold, body: TopologyEventBody) -> bool {
    &&& same_rest(old, new)
    &&& match body {
        TopologyEventBody::RunFinished { .. } => new.tasks == old.tasks && new.queue == old.queue && new.finished,
        _ => {
            let (key, _) = event_target(body).unwrap();
            let k = key.0 as int;
            &&& new.finished == old.finished
            &&& tasks_except(old, new, k)
            &&& new.tasks@[k].state == state_after(old.tasks@[k].state, body)
            &&& new.tasks@[k].generations@ == generations_after(old.tasks@[k].generations@, body)
            &&& match body {
                TopologyEventBody::TaskCandidateCreated { data } => new.queue matches Some(q) && old.queue matches Some(
                    oq,
                ) && q.entries@ == oq.entries@.push(QueueEntry { candidate: data.candidate, verification_deferred: false }),
                _ => new.queue == old.queue,
            }
        },
    }
}

/// What the fold refuses an event with.
pub open spec fn fold_refusal_text(body: TopologyEventBody) -> Seq<char> {
    match body {
        TopologyEventBody::RunFinished { .. } => "the fold refuses `run_finished`: the run is not ending"@,
        _ => "the fold refuses `"@ + event_kind_spec(body) + "` in the generation's present state"@,
    }
}

fn find_generation(gens: &Vec<Generation>, id: GenerationId) -> (i: Option<usize>)
    ensures
        match i {
            Some(j) => generation_index(gens@, id) == Some(j as int) && j < gens.len(),
            None => generation_index(gens@, id) is None,
        },
{
    proof { lemma_generation_index(gens@, id); }
    let n = gens.len();
    let mut i: usize = 0;
    while i < n
        invariant
            n == gens.len(),
            i <= n,
            forall|j: int| 0 <= j < i ==> gens@[j].id != id,
        decreases n - i,
    {
        if gens[i].id == id {
            proof { lemma_generation_index(gens@, id); }
            return Some(i);
        }
        i = i + 1;
    }
    None
}

impl TopologyFold {
    /// Folds `body` where the fold admits it; refuses and changes nothing otherwise.
    pub fn apply(&mut self, body: &TopologyEventBody) -> (r: Result<(), UpstrokeError>)
        ensures
            r is Ok <==> admits(*old(self), *body),
            r is Ok ==> stepped(*old(self), *final(self), *body),
            r is Err ==> *final(self) == *old(self) && (r matches Err(UpstrokeError::Refused { message })
                && message@ == fold_refusal_text(*body)),
    {
        let target = match body {
            TopologyEventBody::RunFinished { data } => {
                let ending = match self.derived {
                    DerivedOutcome::Ending(outcome) => outcome == data.outcome,
                    _ => false,
                };
                if self.finished || !ending {
                    return Err(UpstrokeError::Refused {
                        message: String::from_str("the fold refuses `run_finished`: the run is not ending"),
                    });
                }
                self.finished = true;
                return Ok(());
            },
            TopologyEventBody::TaskDispatched { data } => (data.key, data.generation),
            TopologyEventBody::AttemptStarted { data } => (data.key, data.generation),
            TopologyEventBody::AttemptInterrupted { data } => (data.key, data.generation),
            TopologyEventBody::CandidatePrepared { data } => (data.key, data.generation),
            TopologyEventBody::TaskCandidateCreated { data } => (data.candidate.key, data.candidate.generation),
            TopologyEventBody::GenerationClosed { data } => (data.key, data.generation),
        };
        let (key, generation) = target;
        let k = key.0 as usize;
        let refusal = {
            let mut message = String::from_str("the fold refuses `");
            message.append(body.kind());
            message.append("` in the generation's present state");
            message
        };
        if k >= self.tasks.len() {
            return Err(UpstrokeError::Refused { message: refusal });
        }
        let found = find_generation(&self.tasks[k].generations, generation);
        proof {
            lemma_generation_index(self.tasks@[k as int].generations@, generation);
        }
        let admitted = match body {
            TopologyEventBody::TaskDispatched { .. } => found.is_none(),
            TopologyEventBody::AttemptStarted { .. } => match found {
                Some(i) => match &self.tasks[k].generations[i].class {
                    GenerationClass::OpenNoAttempt => true,
                    GenerationClass::RetainedIdle { .. } => true,
                    _ => false,
                },
                None => false,
            },
            TopologyEventBody::AttemptInterrupted { data } => match found {
                Some(i) => match &self.tasks[k].generations[i].class {
                    GenerationClass::InFlight { attempt } => *attempt == data.attempt,
                    _ => false,
                },
                None => false,
            },
            TopologyEventBody::CandidatePrepared { .. } => match found {
                Some(i) => self.tasks[k].generations[i].class.is_in_flight(),
                None => false,
            },
            TopologyEventBody::TaskCandidateCreated { .. } => self.queue.is_some() && match found {
                Some(i) => self.tasks[k].generations[i].class.is_promoting(),
                None => false,
            },
            TopologyEventBody::GenerationClosed { .. } => match found {
                Some(i) => match &self.tasks[k].generations[i].class {
                    GenerationClass::Closed => false,
                    _ => true,
                },
                None => false,
            },
            TopologyEventBody::RunFinished { .. } => false,
        };
        assert(self.task_spec(key) == Some(self.tasks@[k as int]));
        assert(generation_index(self.tasks@[k as int].generations@, generation) == match found {
            Some(i) => Some(i as int),
            None => None::<int>,
        });
        assert(self.generation_spec(key, generation) == match found {
            Some(i) => Some(self.tasks@[k as int].generations@[i as int]),
            None => None::<Generation>,
        });
        assert(event_target(*body) == Some((key, generation)));
        assert(admitted == admits(*self, *body));
        if !admitted {
            return Err(UpstrokeError::Refused { message: refusal });
        }
        let mut task = self.tasks[k].duplicate();
        match body {
            TopologyEventBody::TaskDispatched { data } => {
                task.generations.push(Generation { id: data.generation, class: GenerationClass::OpenNoAttempt, candidate: None });
                task.state = TaskState::Dispatched;
            },
            _ => {
                let i = found.unwrap();
                let mut g = task.generations[i].duplicate();
                match body {
                    TopologyEventBody::AttemptStarted { data } => {
                        g.class = GenerationClass::InFlight { attempt: data.attempt };
                    },
                    TopologyEventBody::AttemptInterrupted { .. } => {
                        g.class = GenerationClass::Closed;
                        task.state = TaskState::Pending;
                    },
                    TopologyEventBody::CandidatePrepared { data } => {
                        g.class = GenerationClass::Promoting;
                        g.candidate = Some(PreparedRecord {
                            candidate: data.candidate(),
                            base_sha: data.base_sha.duplicate(),
                            tree_sha: data.tree_sha.duplicate(),
                        });
                    },
                    TopologyEventBody::TaskCandidateCreated { data } => {
                        g.class = GenerationClass::Closed;
                        task.state = TaskState::Queued;
                        match &mut self.queue {
                            Some(q) => {
                                q.entries.push(QueueEntry { candidate: data.candidate.duplicate(), verification_deferred: false });
                            },
                            None => {},
                        }
                    },
                    TopologyEventBody::GenerationClosed { .. } => {
                        g.class = GenerationClass::Closed;
                    },
                    _ => {},
                }
                task.generations.set(i, g);
            },
        }
        self.tasks.set(k, task);
        Ok(())
    }
    /// Whether the fold admits `body`: what `apply` decides, without applying.
    pub fn admits_event(&self, body: &TopologyEventBody) -> (b: bool)
        ensures
            b == admits(*self, *body),
    {
        let (key, generation) = match body {
            TopologyEventBody::RunFinished { data } => {
                let ending = match self.derived {
                    DerivedOutcome::Ending(outcome) => outcome == data.outcome,
                    _ => false,
                };
                return !self.finished && ending;
            },
            TopologyEventBody::TaskDispatched { data } => (data.key, data.generation),
            TopologyEventBody::AttemptStarted { data } => (data.key, data.generation),
            TopologyEventBody::AttemptInterrupted { data } => (data.key, data.generation),
            TopologyEventBody::CandidatePrepared { data } => (data.key, data.generation),
            TopologyEventBody::TaskCandidateCreated { data } => (data.candidate.key, data.candidate.generation),
            TopologyEventBody::GenerationClosed { data } => (data.key, data.generation),
        };
        let k = key.0 as usize;
        if k >= self.tasks.len() {
            return false;
        }
        let found = find_generation(&self.tasks[k].generations, generation);
        proof {
            lemma_generation_index(self.tasks@[k as int].generations@, generation);
        }
        let admitted = match body {
            TopologyEventBody::TaskDispatched { .. } => found.is_none(),
            TopologyEventBody::AttemptStarted { .. } => match found {
                Some(i) => match &self.tasks[k].generations[i].class {
                    GenerationClass::OpenNoAttempt => true,
                    GenerationClass::RetainedIdle { .. } => true,
                    _ => false,
                },
                None => false,
            },
            TopologyEventBody::AttemptInterrupted { data } => match found {
                Some(i) => match &self.tasks[k].generations[i].class {
                    GenerationClass::InFlight { attempt } => *attempt == data.attempt,
                    _ => false,
                },
                None => false,
            },
            TopologyEventBody::CandidatePrepared { .. } => match found {
                Some(i) => self.tasks[k].generations[i].class.is_in_flight(),
                None => false,
            },
            TopologyEventBody::TaskCandidateCreated { .. } => self.queue.is_some() && match found {
                Some(i) => self.tasks[k].generations[i].class.is_promoting(),
                None => false,
            },
            TopologyEventBody::GenerationClosed { .. } => match found {
                Some(i) => match &self.tasks[k].generations[i].class {
                    GenerationClass::Closed => false,
                    _ => true,
                },
                None => false,
            },
            TopologyEventBody::RunFinished { .. } => false,
        };
        assert(self.task_spec(key) == Some(self.tasks@[k as int]));
        assert(generation_index(self.tasks@[k as int].generations@, generation) == match found {
            Some(i) => Some(i as int),
            None => None::<int>,
        });
        assert(self.generation_spec(key, generation) == match found {
            Some(i) => Some(self.tasks@[k as int].generations@[i as int]),
            None => None::<Generation>,
        });
        assert(event_target(*body) == Some((key, generation)));
        admitted
    }
}

} // verus!
