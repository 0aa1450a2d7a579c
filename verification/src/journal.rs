//! The run's durable event journal: the events appended, in order, and the
//! fold they fold to. An append the fold refuses writes nothing.

use vstd::prelude::*;
use crate::effects::{extended_at, EffectSiteId, EventSite, Hooks};
use crate::emit::EmitFailure;
use crate::error::UpstrokeError;
use crate::fold::{admits, stepped, GenerationClass, TopologyFold, generation_index, lemma_generation_index};
use crate::model::{event_kind_spec, GenerationId, TaskKey, TopologyEventBody};
use crate::text::same_text;

verus! {

/// Whether an append of `body` is owed success: the appender owes it, the
/// fold admits `body`, and `armed`, the site the hooks hold armed, is not
/// `Event.Append`.
pub open spec fn append_owed(owes_success: bool, fold: TopologyFold, body: TopologyEventBody, armed: Option<EffectSiteId>) -> bool {
    owes_success && admits(fold, body) && armed != Some(EffectSiteId::Event(EventSite::Append))
}

/// What the candidate sequence appends through.
pub trait CandidateJournal {
    spec fn fold_view(&self) -> TopologyFold;

    spec fn events_view(&self) -> Seq<TopologyEventBody>;

    /// Whether this journal owes success on every append that the fold
    /// admits and that no armed `Event.Append` hook refuses: true of an
    /// in-memory journal; one that writes to storage may owe none.
    spec fn owes_success(&self) -> bool;

    /// Appends `body`, crossing the `Event.Append` site of `hooks`: folded
    /// and recorded where the fold admits it; nothing changes where the
    /// append fails.
    fn emit(&mut self, body: TopologyEventBody, hooks: &mut Hooks) -> (r: Result<(), UpstrokeError>)
        ensures
            append_owed(old(self).owes_success(), old(self).fold_view(), body, old(hooks).armed) ==> r is Ok,
            final(self).owes_success() == old(self).owes_success(),
            r is Ok ==> final(hooks).armed == old(hooks).armed,
            r is Ok ==> admits(old(self).fold_view(), body) && stepped(old(self).fold_view(), final(self).fold_view(), body)
                && final(self).events_view() == old(self).events_view().push(body),
            r is Err ==> final(self).fold_view() == old(self).fold_view() && final(self).events_view() == old(self).events_view(),
            !admits(old(self).fold_view(), body) ==> r is Err,
            final(hooks).trace@.len() >= old(hooks).trace@.len(),
            final(hooks).trace@.subrange(0, old(hooks).trace@.len() as int) == old(hooks).trace@,
            extended_at(old(hooks).trace@, final(hooks).trace@, set![EffectSiteId::Event(EventSite::Append)]),
    ;

    fn fold(&self) -> (f: &TopologyFold)
        ensures
            *f == self.fold_view(),
    ;
}

/// What dispatch and the attempt append through; the append crosses the
/// `Event.Append` site of `hooks`.
pub trait EventEmitter {
    spec fn fold_view(&self) -> TopologyFold;

    spec fn events_view(&self) -> Seq<TopologyEventBody>;

    /// Whether this emitter owes success on every append that the fold
    /// admits and that no armed `Event.Append` hook refuses: true of an
    /// in-memory journal; one that writes to storage may owe none.
    spec fn owes_success(&self) -> bool;

    fn emit(&mut self, body: TopologyEventBody, hooks: &mut Hooks) -> (r: Result<(), EmitFailure>)
        ensures
            append_owed(old(self).owes_success(), old(self).fold_view(), body, old(hooks).armed) ==> r is Ok,
            final(self).owes_success() == old(self).owes_success(),
            r is Ok ==> admits(old(self).fold_view(), body) && stepped(old(self).fold_view(), final(self).fold_view(), body)
                && final(self).events_view() == old(self).events_view().push(body),
            r is Err ==> final(self).fold_view() == old(self).fold_view() && final(self).events_view() == old(self).events_view(),
            !admits(old(self).fold_view(), body) ==> r is Err,
            final(hooks).trace@.len() >= old(hooks).trace@.len(),
            final(hooks).trace@.subrange(0, old(hooks).trace@.len() as int) == old(hooks).trace@,
            r is Ok ==> final(hooks).armed == old(hooks).armed,
    ;
}

/// An in-memory journal: the events appended and their fold.
#[derive(Debug)]
pub struct Journal {
    pub fold: TopologyFold,
    pub events: Vec<TopologyEventBody>,
}

/// The number of `events` written under `kind`.
pub open spec fn count_kind(events: Seq<TopologyEventBody>, kind: Seq<char>) -> nat
    decreases events.len(),
{
    if events.len() == 0 {
        0
    } else {
        count_kind(events.drop_last(), kind) + if event_kind_spec(events.last()) == kind { 1nat } else { 0nat }
    }
}

pub proof fn lemma_count_kind_bound(events: Seq<TopologyEventBody>, kind: Seq<char>)
    ensures
        count_kind(events, kind) <= events.len(),
    decreases events.len(),
{
    if events.len() > 0 {
        lemma_count_kind_bound(events.drop_last(), kind);
    }
}

impl Journal {
    pub fn new(fold: TopologyFold) -> (j: Journal)
        ensures
            j.fold == fold,
            j.events@ == Seq::<TopologyEventBody>::empty(),
    {
        Journal { fold, events: Vec::new() }
    }

    fn append(&mut self, body: TopologyEventBody) -> (r: Result<(), UpstrokeError>)
        ensures
            r is Ok <==> admits(old(self).fold, body),
            r is Ok ==> stepped(old(self).fold, final(self).fold, body) && final(self).events@ == old(self).events@.push(body),
            r is Err ==> final(self).fold == old(self).fold && final(self).events@ == old(self).events@,
    {
        self.fold.apply(&body)?;
        self.events.push(body);
        Ok(())
    }

    /// The number of appended events written under `kind`.
    pub fn count(&self, kind: &str) -> (n: usize)
        ensures
            n as nat == count_kind(self.events@, kind@),
    {
        let mut n: usize = 0;
        let len = self.events.len();
        let mut i: usize = 0;
        while i < len
            invariant
                len == self.events.len(),
                i <= len,
                n as nat == count_kind(self.events@.take(i as int), kind@),
            decreases len - i,
        {
            proof {
                assert(self.events@.take(i + 1).drop_last() =~= self.events@.take(i as int));
                lemma_count_kind_bound(self.events@.take(i as int), kind@);
            }
            if same_text(self.events[i].kind(), kind) {
                n = n + 1;
            }
            i = i + 1;
        }
        assert(self.events@.take(len as int) =~= self.events@);
        n
    }

    /// The names of the appended events, in order.
    pub fn durable_kinds(&self) -> (kinds: Vec<&'static str>)
        ensures
            kinds@.len() == self.events@.len(),
            forall|i: int| 0 <= i < kinds@.len() ==> (#[trigger] kinds@[i])@ == event_kind_spec(self.events@[i]),
    {
        let mut kinds: Vec<&'static str> = Vec::new();
        let n = self.events.len();
        let mut i: usize = 0;
        while i < n
            invariant
                n == self.events.len(),
                i <= n,
                kinds@.len() == i,
                forall|j: int| 0 <= j < i ==> (#[trigger] kinds@[j])@ == event_kind_spec(self.events@[j]),
            decreases n - i,
        {
            kinds.push(self.events[i].kind());
            i = i + 1;
        }
        kinds
    }

    /// Where generation `generation` of task `key` stands.
    pub fn generation_class(&self, key: TaskKey, generation: GenerationId) -> (c: Option<GenerationClass>)
        ensures
            match self.fold.generation_spec(key, generation) {
                Some(g) => c == Some(g.class),
                None => c is None,
            },
    {
        match self.fold.task(key) {
            Some(task) => {
                proof { lemma_generation_index(task.generations@, generation); }
                let n = task.generations.len();
                let mut i: usize = 0;
                while i < n
                    invariant
                        n == task.generations.len(),
                        i <= n,
                        self.fold.task_spec(key) == Some(*task),
                        forall|j: int| 0 <= j < i ==> task.generations@[j].id != generation,
                    decreases n - i,
                {
                    if task.generations[i].id == generation {
                        proof { lemma_generation_index(task.generations@, generation); }
                        return Some(task.generations[i].class.duplicate());
                    }
                    i = i + 1;
                }
                None
            },
            None => None,
        }
    }
}

impl CandidateJournal for Journal {
    open spec fn fold_view(&self) -> TopologyFold {
        self.fold
    }

    open spec fn events_view(&self) -> Seq<TopologyEventBody> {
        self.events@
    }

    open spec fn owes_success(&self) -> bool {
        true
    }

    fn emit(&mut self, body: TopologyEventBody, hooks: &mut Hooks) -> (r: Result<(), UpstrokeError>) {
        let site = EffectSiteId::Event(EventSite::Append);
        hooks.enter(site)?;
        self.append(body)?;
        hooks.leave(site);
        Ok(())
    }

    fn fold(&self) -> (f: &TopologyFold) {
        &self.fold
    }
}

impl EventEmitter for Journal {
    open spec fn fold_view(&self) -> TopologyFold {
        self.fold
    }

    open spec fn events_view(&self) -> Seq<TopologyEventBody> {
        self.events@
    }

    open spec fn owes_success(&self) -> bool {
        true
    }

    fn emit(&mut self, body: TopologyEventBody, hooks: &mut Hooks) -> (r: Result<(), EmitFailure>) {
        let site = EffectSiteId::Event(EventSite::Append);
        match hooks.enter(site) {
            Ok(()) => {},
            Err(e) => {
                return Err(EmitFailure::Clean(e));
            },
        }
        match self.append(body) {
            Ok(()) => {},
            Err(e) => {
                return Err(EmitFailure::Clean(e));
            },
        }
        hooks.leave(site);
        Ok(())
    }
}

} // verus!
