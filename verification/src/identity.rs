//! Process identities and the sequential accounting of every process a run
//! starts: the invocation ledger, where each registration is settled once,
//! and the slot assertion, which lets one agent process run at a time.

use vstd::prelude::*;
use crate::error::UpstrokeError;
use crate::model::TaskKey;
use crate::text::{decimal, push_decimal};

verus! {

/// Whom a process runs for: an attempt, or an integration sequence.
#[derive(Clone, Copy, Debug, PartialEq, Eq, Structural)]
pub enum InvocationScope {
    Attempt { key: u32, generation: u32, attempt: u32 },
    Sequence { sequence: u64 },
}

/// What a process is.
#[derive(Clone, Copy, Debug, PartialEq, Eq, Structural)]
pub enum InvocationRole {
    Worker,
    Gate { gate: u32, ordinal: u32 },
    ReviewPass { pass: u32, ordinal: u32 },
    ReviewReask { reask: u32, ordinal: u32 },
}

/// The identity of one process.
#[derive(Clone, Copy, Debug, PartialEq, Eq, Structural)]
pub struct InvocationId {
    pub scope: InvocationScope,
    pub role: InvocationRole,
}

pub open spec fn render_spec(id: InvocationId) -> Seq<char> {
    (match id.scope {
        InvocationScope::Attempt { key, generation, attempt } => "k"@ + decimal(key as nat) + "-g"@ + decimal(generation as nat)
            + "-a"@ + decimal(attempt as nat),
        InvocationScope::Sequence { sequence } => "s"@ + decimal(sequence as nat),
    }) + match id.role {
        InvocationRole::Worker => "-worker"@,
        InvocationRole::Gate { gate, ordinal } => "-gate"@ + decimal(gate as nat) + "."@ + decimal(ordinal as nat),
        InvocationRole::ReviewPass { pass, ordinal } => "-review"@ + decimal(pass as nat) + "."@ + decimal(ordinal as nat),
        InvocationRole::ReviewReask { reask, ordinal } => "-reask"@ + decimal(reask as nat) + "."@ + decimal(ordinal as nat),
    }
}

impl InvocationId {
    /// The identity as it is written.
    pub fn render(&self) -> (s: String)
        ensures
            s@ == render_spec(*self),
    {
        let mut s = String::new();
        match self.scope {
            InvocationScope::Attempt { key, generation, attempt } => {
                s.append("k");
                push_decimal(&mut s, key as u64);
                s.append("-g");
                push_decimal(&mut s, generation as u64);
                s.append("-a");
                push_decimal(&mut s, attempt as u64);
            },
            InvocationScope::Sequence { sequence } => {
                s.append("s");
                push_decimal(&mut s, sequence);
            },
        }
        match self.role {
            InvocationRole::Worker => s.append("-worker"),
            InvocationRole::Gate { gate, ordinal } => {
                s.append("-gate");
                push_decimal(&mut s, gate as u64);
                s.append(".");
                push_decimal(&mut s, ordinal as u64);
            },
            InvocationRole::ReviewPass { pass, ordinal } => {
                s.append("-review");
                push_decimal(&mut s, pass as u64);
                s.append(".");
                push_decimal(&mut s, ordinal as u64);
            },
            InvocationRole::ReviewReask { reask, ordinal } => {
                s.append("-reask");
                push_decimal(&mut s, reask as u64);
                s.append(".");
                push_decimal(&mut s, ordinal as u64);
            },
        }
        s
    }
}

/// Whether a process takes a slot pair: workers and review passes run an
/// agent CLI and do; gates do not.
pub open spec fn is_slotted_spec(id: InvocationId) -> bool {
    !(id.role is Gate)
}

pub fn is_slotted(id: &InvocationId) -> (b: bool)
    ensures
        b == is_slotted_spec(*id),
{
    match id.role {
        InvocationRole::Gate { .. } => false,
        _ => true,
    }
}

/// The identities of an attempt's processes.
#[derive(Clone, Copy, Debug, PartialEq, Eq, Structural)]
pub struct AttemptIdentities {
    pub key: u32,
    pub generation: u32,
    pub attempt: u32,
}

impl AttemptIdentities {
    pub fn new(key: crate::model::TaskKey, generation: crate::model::GenerationId, attempt: crate::model::AttemptNumber) -> (ids: Self)
        ensures
            ids.key == key.0 && ids.generation == generation.0 && ids.attempt == attempt.0,
    {
        AttemptIdentities { key: key.0, generation: generation.0, attempt: attempt.0 }
    }

    pub open spec fn scope(self) -> InvocationScope {
        InvocationScope::Attempt { key: self.key, generation: self.generation, attempt: self.attempt }
    }

    pub open spec fn worker_spec(self) -> InvocationId {
        InvocationId { scope: self.scope(), role: InvocationRole::Worker }
    }

    pub fn worker(&self) -> (id: InvocationId)
        ensures
            id == (InvocationId { scope: self.scope(), role: InvocationRole::Worker }),
    {
        InvocationId {
            scope: InvocationScope::Attempt { key: self.key, generation: self.generation, attempt: self.attempt },
            role: InvocationRole::Worker,
        }
    }

    pub fn gate(&self, gate: u32, ordinal: u32) -> (id: InvocationId)
        ensures
            id == (InvocationId { scope: self.scope(), role: InvocationRole::Gate { gate, ordinal } }),
    {
        InvocationId {
            scope: InvocationScope::Attempt { key: self.key, generation: self.generation, attempt: self.attempt },
            role: InvocationRole::Gate { gate, ordinal },
        }
    }

    pub fn review_pass(&self, pass: u32, ordinal: u32) -> (id: InvocationId)
        ensures
            id == (InvocationId { scope: self.scope(), role: InvocationRole::ReviewPass { pass, ordinal } }),
    {
        InvocationId {
            scope: InvocationScope::Attempt { key: self.key, generation: self.generation, attempt: self.attempt },
            role: InvocationRole::ReviewPass { pass, ordinal },
        }
    }

    pub fn review_reask(&self, reask: u32, ordinal: u32) -> (id: InvocationId)
        ensures
            id == (InvocationId { scope: self.scope(), role: InvocationRole::ReviewReask { reask, ordinal } }),
    {
        InvocationId {
            scope: InvocationScope::Attempt { key: self.key, generation: self.generation, attempt: self.attempt },
            role: InvocationRole::ReviewReask { reask, ordinal },
        }
    }
}

/// The identities of an integration sequence's processes.
#[derive(Clone, Copy, Debug, PartialEq, Eq, Structural)]
pub struct SequenceIdentities {
    pub sequence: u64,
}

impl SequenceIdentities {
    pub fn new(sequence: crate::model::SequenceId) -> (ids: Self)
        ensures
            ids.sequence == sequence.0,
    {
        SequenceIdentities { sequence: sequence.0 }
    }

    pub fn gate(&self, gate: u32, ordinal: u32) -> (id: InvocationId)
        ensures
            id == (InvocationId { scope: InvocationScope::Sequence { sequence: self.sequence }, role: InvocationRole::Gate { gate, ordinal } }),
    {
        InvocationId { scope: InvocationScope::Sequence { sequence: self.sequence }, role: InvocationRole::Gate { gate, ordinal } }
    }

    pub fn review_pass(&self, pass: u32, ordinal: u32) -> (id: InvocationId)
        ensures
            id == (InvocationId {
                scope: InvocationScope::Sequence { sequence: self.sequence },
                role: InvocationRole::ReviewPass { pass, ordinal },
            }),
    {
        InvocationId { scope: InvocationScope::Sequence { sequence: self.sequence }, role: InvocationRole::ReviewPass { pass, ordinal } }
    }

    pub fn review_reask(&self, reask: u32, ordinal: u32) -> (id: InvocationId)
        ensures
            id == (InvocationId {
                scope: InvocationScope::Sequence { sequence: self.sequence },
                role: InvocationRole::ReviewReask { reask, ordinal },
            }),
    {
        InvocationId {
            scope: InvocationScope::Sequence { sequence: self.sequence },
            role: InvocationRole::ReviewReask { reask, ordinal },
        }
    }
}

/// Where a registered invocation stands.
#[derive(Clone, Copy, Debug, PartialEq, Eq, Structural)]
pub enum InvocationStatus {
    Running,
    Completed,
    Cancelled,
}

/// The status of `id`: the last entry of that identity.
pub open spec fn status_of(entries: Seq<(InvocationId, InvocationStatus)>, id: InvocationId) -> Option<InvocationStatus>
    decreases entries.len(),
{
    if entries.len() == 0 {
        None
    } else if entries.last().0 == id {
        Some(entries.last().1)
    } else {
        status_of(entries.drop_last(), id)
    }
}

/// The number of entries in `status`.
pub open spec fn count_status(entries: Seq<(InvocationId, InvocationStatus)>, status: InvocationStatus) -> nat
    decreases entries.len(),
{
    if entries.len() == 0 {
        0
    } else {
        count_status(entries.drop_last(), status) + if entries.last().1 == status { 1nat } else { 0nat }
    }
}

pub proof fn lemma_count_status_bound(entries: Seq<(InvocationId, InvocationStatus)>, status: InvocationStatus)
    ensures
        count_status(entries, status) <= entries.len(),
    decreases entries.len(),
{
    if entries.len() > 0 {
        lemma_count_status_bound(entries.drop_last(), status);
    }
}

pub open spec fn already_registered_text(id: InvocationId) -> Seq<char> {
    "invocation `"@ + render_spec(id) + "` is already registered"@
}

pub open spec fn not_running_text(id: InvocationId) -> Seq<char> {
    "invocation `"@ + render_spec(id) + "` is not running, so it cannot be settled"@
}

/// Every process a run starts: registered before it is asked for, settled
/// (completed or cancelled) exactly once after.
#[derive(Clone, Debug, PartialEq, Eq)]
pub struct InvocationLedger {
    pub entries: Vec<(InvocationId, InvocationStatus)>,
    /// Settlements asked of an invocation that was not running.
    pub duplicates: usize,
}

impl InvocationLedger {
    pub fn new() -> (l: Self)
        ensures
            l.entries@ == Seq::<(InvocationId, InvocationStatus)>::empty(),
            l.duplicates == 0,
    {
        InvocationLedger { entries: Vec::new(), duplicates: 0 }
    }

    pub open spec fn status(self, id: InvocationId) -> Option<InvocationStatus> {
        status_of(self.entries@, id)
    }

    /// Whether nothing is running.
    pub open spec fn balanced(self) -> bool {
        forall|i: int| 0 <= i < self.entries@.len() ==> (#[trigger] self.entries@[i]).1 != InvocationStatus::Running
    }

    fn index_of(&self, id: InvocationId) -> (i: Option<usize>)
        ensures
            match i {
                Some(i) => i < self.entries.len() && self.entries@[i as int].0 == id && status_of(self.entries@, id) == Some(
                    self.entries@[i as int].1,
                ) && forall|j: int| i < j < self.entries@.len() ==> (#[trigger] self.entries@[j]).0 != id,
                None => status_of(self.entries@, id) is None,
            },
    {
        let mut i = self.entries.len();
        proof {
            assert(self.entries@.take(i as int) =~= self.entries@);
        }
        while i > 0
            invariant
                i <= self.entries.len(),
                status_of(self.entries@, id) == status_of(self.entries@.take(i as int), id),
                forall|j: int| i <= j < self.entries@.len() ==> (#[trigger] self.entries@[j]).0 != id,
            decreases i,
        {
            proof {
                assert(self.entries@.take(i as int).drop_last() =~= self.entries@.take(i - 1));
            }
            if self.entries[i - 1].0 == id {
                return Some(i - 1);
            }
            i = i - 1;
        }
        None
    }

    /// Registers `id` as running; an identity registered before refuses.
    pub fn register(&mut self, id: &InvocationId) -> (r: Result<(), UpstrokeError>)
        ensures
            r is Ok <==> old(self).status(*id) is None,
            r is Ok ==> final(self).entries@ == old(self).entries@.push((*id, InvocationStatus::Running))
                && final(self).duplicates == old(self).duplicates,
            r is Ok ==> final(self).status(*id) == Some(InvocationStatus::Running),
            r is Ok ==> forall|other: InvocationId| other != *id ==> #[trigger] final(self).status(other) == old(self).status(other),
            r is Ok ==> count_status(final(self).entries@, InvocationStatus::Running) == count_status(old(self).entries@, InvocationStatus::Running) + 1,
            r matches Err(e) ==> *final(self) == *old(self) && e is Refused && e.message_spec() == already_registered_text(*id),
    {
        if self.index_of(*id).is_some() {
            let mut message = String::from_str("invocation `");
            message.append(id.render().as_str());
            message.append("` is already registered");
            return Err(UpstrokeError::Refused { message });
        }
        let ghost before = self.entries@;
        self.entries.push((*id, InvocationStatus::Running));
        proof {
            assert(self.entries@.drop_last() =~= before);
        }
        Ok(())
    }

    fn settle(&mut self, id: &InvocationId, status: InvocationStatus) -> (r: Result<(), UpstrokeError>)
        ensures
            r is Ok <==> old(self).status(*id) == Some(InvocationStatus::Running),
            r is Ok ==> final(self).duplicates == old(self).duplicates && exists|i: int| 0 <= i < old(self).entries@.len()
                && old(self).entries@[i] == (*id, InvocationStatus::Running)
                && final(self).entries@ == old(self).entries@.update(i, (*id, status))
                && status_of(final(self).entries@, *id) == Some(status)
                && forall|other: InvocationId| other != *id ==> #[trigger] status_of(final(self).entries@, other) == status_of(old(self).entries@, other),
            r matches Err(e) ==> final(self).entries == old(self).entries && final(self).duplicates == if old(self).duplicates < usize::MAX {
                (old(self).duplicates + 1) as usize
            } else {
                old(self).duplicates
            } && e.message_spec() == not_running_text(*id),
    {
        match self.index_of(*id) {
            Some(i) => {
                if self.entries[i].1 == InvocationStatus::Running {
                    let ghost before = self.entries@;
                    self.entries.set(i, (*id, status));
                    proof {
                        lemma_status_of_update(before, i as int, status);
                    }
                    return Ok(());
                }
            },
            None => {},
        }
        if self.duplicates < usize::MAX {
            self.duplicates = self.duplicates + 1;
        }
        let mut message = String::from_str("invocation `");
        message.append(id.render().as_str());
        message.append("` is not running, so it cannot be settled");
        Err(UpstrokeError::Refused { message })
    }

    /// Settles a running `id` as completed.
    pub fn complete(&mut self, id: &InvocationId) -> (r: Result<(), UpstrokeError>)
        ensures
            r is Ok <==> old(self).status(*id) == Some(InvocationStatus::Running),
            r is Ok ==> count_status(final(self).entries@, InvocationStatus::Running) + 1 == count_status(old(self).entries@, InvocationStatus::Running),
            r is Ok ==> final(self).status(*id) == Some(InvocationStatus::Completed)
                && forall|other: InvocationId| other != *id ==> #[trigger] final(self).status(other) == old(self).status(other),
            r is Ok ==> final(self).entries@.len() == old(self).entries@.len() && final(self).duplicates == old(self).duplicates,
            r is Err ==> final(self).entries == old(self).entries,
    {
        let ghost before = self.entries@;
        let r = self.settle(id, InvocationStatus::Completed);
        proof {
            if r is Ok {
                let i = choose|i: int| 0 <= i < before.len() && before[i] == (*id, InvocationStatus::Running)
                    && self.entries@ == before.update(i, (*id, InvocationStatus::Completed));
                lemma_count_status_update(before, i, (*id, InvocationStatus::Completed), InvocationStatus::Running);
            }
        }
        r
    }

    /// Settles a running `id` as cancelled.
    pub fn cancel(&mut self, id: &InvocationId) -> (r: Result<(), UpstrokeError>)
        ensures
            r is Ok <==> old(self).status(*id) == Some(InvocationStatus::Running),
            r is Ok ==> count_status(final(self).entries@, InvocationStatus::Running) + 1 == count_status(old(self).entries@, InvocationStatus::Running),
            r is Ok ==> final(self).status(*id) == Some(InvocationStatus::Cancelled)
                && forall|other: InvocationId| other != *id ==> #[trigger] final(self).status(other) == old(self).status(other),
            r is Ok ==> final(self).entries@.len() == old(self).entries@.len() && final(self).duplicates == old(self).duplicates,
            r is Err ==> final(self).entries == old(self).entries,
    {
        let ghost before = self.entries@;
        let r = self.settle(id, InvocationStatus::Cancelled);
        proof {
            if r is Ok {
                let i = choose|i: int| 0 <= i < before.len() && before[i] == (*id, InvocationStatus::Running)
                    && self.entries@ == before.update(i, (*id, InvocationStatus::Cancelled));
                lemma_count_status_update(before, i, (*id, InvocationStatus::Cancelled), InvocationStatus::Running);
            }
        }
        r
    }

    /// Cancels every running invocation and returns how many it cancelled.
    pub fn cancel_all_running(&mut self) -> (n: usize)
        ensures
            final(self).balanced(),
            n as nat == count_status(old(self).entries@, InvocationStatus::Running),
            final(self).entries@.len() == old(self).entries@.len(),
            final(self).duplicates == old(self).duplicates,
            forall|i: int| 0 <= i < old(self).entries@.len() ==> (#[trigger] final(self).entries@[i]).0 == old(self).entries@[i].0
                && final(self).entries@[i].1 == if old(self).entries@[i].1 == InvocationStatus::Running {
                InvocationStatus::Cancelled
            } else {
                old(self).entries@[i].1
            },
    {
        let ghost before = self.entries@;
        let ghost duplicates = self.duplicates;
        let mut n: usize = 0;
        let len = self.entries.len();
        let mut i: usize = 0;
        while i < len
            invariant
                self.duplicates == duplicates,
                len == self.entries.len(),
                len == before.len(),
                i <= len,
                n as nat == count_status(before.take(i as int), InvocationStatus::Running),
                forall|j: int| 0 <= j < len ==> (#[trigger] self.entries@[j]).0 == before[j].0,
                forall|j: int| 0 <= j < i ==> self.entries@[j].1 == if before[j].1 == InvocationStatus::Running {
                    InvocationStatus::Cancelled
                } else {
                    before[j].1
                },
                forall|j: int| i <= j < len ==> self.entries@[j] == before[j],
            decreases len - i,
        {
            proof {
                assert(before.take(i + 1).drop_last() =~= before.take(i as int));
                lemma_count_status_bound(before.take(i as int), InvocationStatus::Running);
            }
            if self.entries[i].1 == InvocationStatus::Running {
                let id = self.entries[i].0;
                self.entries.set(i, (id, InvocationStatus::Cancelled));
                n = n + 1;
            }
            i = i + 1;
        }
        assert(before.take(len as int) =~= before);
        n
    }

    /// The rendered identities still running, in registration order.
    pub fn running(&self) -> (ids: Vec<String>)
        ensures
            ids@.len() == count_status(self.entries@, InvocationStatus::Running),
    {
        let mut ids: Vec<String> = Vec::new();
        let n = self.entries.len();
        let mut i: usize = 0;
        while i < n
            invariant
                n == self.entries.len(),
                i <= n,
                ids@.len() == count_status(self.entries@.take(i as int), InvocationStatus::Running),
            decreases n - i,
        {
            proof {
                assert(self.entries@.take(i + 1).drop_last() =~= self.entries@.take(i as int));
            }
            if self.entries[i].1 == InvocationStatus::Running {
                ids.push(self.entries[i].0.render());
            }
            i = i + 1;
        }
        assert(self.entries@.take(n as int) =~= self.entries@);
        ids
    }

    fn count(&self, status: InvocationStatus) -> (c: usize)
        ensures
            c as nat == count_status(self.entries@, status),
    {
        let mut c: usize = 0;
        let n = self.entries.len();
        let mut i: usize = 0;
        while i < n
            invariant
                n == self.entries.len(),
                i <= n,
                c as nat == count_status(self.entries@.take(i as int), status),
            decreases n - i,
        {
            proof {
                assert(self.entries@.take(i + 1).drop_last() =~= self.entries@.take(i as int));
                lemma_count_status_bound(self.entries@.take(i as int), status);
            }
            if self.entries[i].1 == status {
                c = c + 1;
            }
            i = i + 1;
        }
        assert(self.entries@.take(n as int) =~= self.entries@);
        c
    }

    pub fn completed(&self) -> (c: usize)
        ensures
            c as nat == count_status(self.entries@, InvocationStatus::Completed),
    {
        self.count(InvocationStatus::Completed)
    }

    pub fn cancelled(&self) -> (c: usize)
        ensures
            c as nat == count_status(self.entries@, InvocationStatus::Cancelled),
    {
        self.count(InvocationStatus::Cancelled)
    }

    pub fn duplicates(&self) -> (d: usize)
        ensures
            d == self.duplicates,
    {
        self.duplicates
    }

    /// Whether nothing is running.
    pub fn balances(&self) -> (b: bool)
        ensures
            b == self.balanced(),
    {
        let n = self.entries.len();
        let mut i: usize = 0;
        while i < n
            invariant
                n == self.entries.len(),
                i <= n,
                forall|j: int| 0 <= j < i ==> (#[trigger] self.entries@[j]).1 != InvocationStatus::Running,
            decreases n - i,
        {
            if self.entries[i].1 == InvocationStatus::Running {
                return false;
            }
            i = i + 1;
        }
        true
    }
}

pub proof fn lemma_count_status_update(
    entries: Seq<(InvocationId, InvocationStatus)>,
    i: int,
    x: (InvocationId, InvocationStatus),
    status: InvocationStatus,
)
    requires
        0 <= i < entries.len(),
    ensures
        count_status(entries.update(i, x), status) + (if entries[i].1 == status { 1int } else { 0int }) == count_status(entries, status)
            + (if x.1 == status { 1int } else { 0int }),
    decreases entries.len(),
{
    let updated = entries.update(i, x);
    if i == entries.len() - 1 {
        assert(updated.drop_last() =~= entries.drop_last());
    } else {
        assert(updated.drop_last() =~= entries.drop_last().update(i, x));
        lemma_count_status_update(entries.drop_last(), i, x, status);
    }
}

/// A ledger balances exactly when no entry is running.
pub proof fn lemma_balanced_count(ledger: InvocationLedger)
    ensures
        ledger.balanced() <==> count_status(ledger.entries@, InvocationStatus::Running) == 0,
{
    lemma_balanced_count_seq(ledger.entries@);
}

proof fn lemma_balanced_count_seq(entries: Seq<(InvocationId, InvocationStatus)>)
    ensures
        (forall|i: int| 0 <= i < entries.len() ==> (#[trigger] entries[i]).1 != InvocationStatus::Running) <==> count_status(
            entries,
            InvocationStatus::Running,
        ) == 0,
    decreases entries.len(),
{
    if entries.len() > 0 {
        lemma_balanced_count_seq(entries.drop_last());
        if forall|i: int| 0 <= i < entries.len() ==> (#[trigger] entries[i]).1 != InvocationStatus::Running {
            assert forall|i: int| 0 <= i < entries.drop_last().len() implies (#[trigger] entries.drop_last()[i]).1 != InvocationStatus::Running by {
                assert(entries.drop_last()[i] == entries[i]);
            }
            assert(entries[entries.len() - 1] == entries.last());
        }
        if count_status(entries, InvocationStatus::Running) == 0 {
            assert forall|i: int| 0 <= i < entries.len() implies (#[trigger] entries[i]).1 != InvocationStatus::Running by {
                if i < entries.len() - 1 {
                    assert(entries.drop_last()[i] == entries[i]);
                }
            }
        }
    }
}

pub proof fn lemma_status_of_update(entries: Seq<(InvocationId, InvocationStatus)>, i: int, status: InvocationStatus)
    requires
        0 <= i < entries.len(),
        status_of(entries, entries[i].0) == Some(entries[i].1),
        forall|j: int| i < j < entries.len() ==> entries[j].0 != entries[i].0,
    ensures
        status_of(entries.update(i, (entries[i].0, status)), entries[i].0) == Some(status),
        forall|other: InvocationId| other != entries[i].0 ==> #[trigger] status_of(entries.update(i, (entries[i].0, status)), other)
            == status_of(entries, other),
    decreases entries.len(),
{
    let updated = entries.update(i, (entries[i].0, status));
    if i == entries.len() - 1 {
        assert(updated.drop_last() =~= entries.drop_last());
    } else {
        assert(updated.drop_last() =~= entries.drop_last().update(i, (entries[i].0, status)));
        assert(entries.last().0 != entries[i].0);
        assert(entries.drop_last()[i] == entries[i]);
        lemma_status_of_update(entries.drop_last(), i, status);
    }
    assert forall|other: InvocationId| other != entries[i].0 implies #[trigger] status_of(updated, other) == status_of(
        entries,
        other,
    ) by {
        assert(updated.last().0 == entries.last().0);
        if updated.last().0 != other {
            assert(status_of(updated, other) == status_of(updated.drop_last(), other));
            assert(status_of(entries, other) == status_of(entries.drop_last(), other));
            if i == entries.len() - 1 {
                assert(updated.drop_last() =~= entries.drop_last());
            } else {
                let shorter = entries.drop_last();
                assert(updated.drop_last() =~= shorter.update(i, (shorter[i].0, status)));
                assert(status_of(shorter.update(i, (shorter[i].0, status)), other) == status_of(shorter, other));
            }
        } else {
            assert(i != entries.len() - 1);
            assert(updated.last() == entries.last());
        }
    }
}

/// The pair an agent process takes: its agent, and the pool it draws from.
#[derive(Clone, Debug, PartialEq, Eq)]
pub struct SlotPair {
    pub agent: String,
    pub pool: Option<String>,
}

impl SlotPair {
    pub fn duplicate(&self) -> (p: SlotPair)
        ensures
            p == *self,
    {
        SlotPair {
            agent: self.agent.clone(),
            pool: match &self.pool {
                Some(pool) => Some(pool.clone()),
                None => None,
            },
        }
    }
}

pub open spec fn acquires_no_slot_text(id: InvocationId) -> Seq<char> {
    "invocation `"@ + render_spec(id) + "` is a gate and acquires no slot"@
}

pub open spec fn slot_taken_text(id: InvocationId, holder: InvocationId) -> Seq<char> {
    "invocation `"@ + render_spec(id) + "` asked for a slot pair while `"@ + render_spec(holder) + "` holds one"@
}

pub open spec fn not_held_text(id: InvocationId) -> Seq<char> {
    "invocation `"@ + render_spec(id) + "` released a slot pair it does not hold"@
}

/// The slot pairs held: at most one agent process runs at a time.
#[derive(Clone, Debug, PartialEq, Eq)]
pub struct SlotAssertion {
    pub holder: Option<(InvocationId, SlotPair)>,
}

impl SlotAssertion {
    pub fn new() -> (s: SlotAssertion)
        ensures
            s.holder is None,
    {
        SlotAssertion { holder: None }
    }

    /// Takes `pair` for `id`: a gate takes none, and none is taken while one is held.
    pub fn acquire(&mut self, id: &InvocationId, pair: SlotPair) -> (r: Result<(), UpstrokeError>)
        ensures
            r is Ok <==> is_slotted_spec(*id) && old(self).holder is None,
            r is Ok ==> final(self).holder == Some((*id, pair)),
            r is Err ==> *final(self) == *old(self),
            !is_slotted_spec(*id) ==> (r matches Err(e) && e.message_spec() == acquires_no_slot_text(*id)),
            is_slotted_spec(*id) ==> (old(self).holder matches Some((holder, _)) ==> (r matches Err(e)
                && e.message_spec() == slot_taken_text(*id, holder))),
    {
        if !is_slotted(id) {
            let mut message = String::from_str("invocation `");
            message.append(id.render().as_str());
            message.append("` is a gate and acquires no slot");
            return Err(UpstrokeError::Refused { message });
        }
        match &self.holder {
            Some((holder, _)) => {
                let mut message = String::from_str("invocation `");
                message.append(id.render().as_str());
                message.append("` asked for a slot pair while `");
                message.append(holder.render().as_str());
                message.append("` holds one");
                Err(UpstrokeError::Refused { message })
            },
            None => {
                self.holder = Some((*id, pair));
                Ok(())
            },
        }
    }

    /// Releases the pair `id` holds.
    pub fn release(&mut self, id: &InvocationId) -> (r: Result<(), UpstrokeError>)
        ensures
            r is Ok <==> (old(self).holder matches Some((holder, _)) && holder == *id),
            r is Ok ==> final(self).holder is None,
            r matches Err(e) ==> *final(self) == *old(self) && e.message_spec() == not_held_text(*id),
    {
        let holds = match &self.holder {
            Some((holder, _)) => *holder == *id,
            None => false,
        };
        if holds {
            self.holder = None;
            Ok(())
        } else {
            let mut message = String::from_str("invocation `");
            message.append(id.render().as_str());
            message.append("` released a slot pair it does not hold");
            Err(UpstrokeError::Refused { message })
        }
    }

    /// The invocation that holds a pair, if one does.
    pub fn held(&self) -> (h: Option<&InvocationId>)
        ensures
            match self.holder {
                Some((holder, _)) => h == Some(&holder),
                None => h is None,
            },
    {
        match &self.holder {
            Some((holder, _)) => Some(holder),
            None => None,
        }
    }

    /// Whether no pair is held.
    pub fn balances(&self) -> (b: bool)
        ensures
            b == (self.holder is None),
    {
        self.holder.is_none()
    }

    /// Whether no pair is held.
    pub fn is_empty(&self) -> (b: bool)
        ensures
            b == (self.holder is None),
    {
        self.holder.is_none()
    }
}

/// What a reservation is held for.
#[derive(Clone, Copy, Debug, PartialEq, Eq, Structural)]
pub enum ReservationKind {
    Retry,
    Repair,
}

/// The reservation a settlement takes for the attempt it decides on, until
/// that attempt is appended (converted) or the run cancels it.
#[derive(Clone, Copy, Debug, PartialEq, Eq, Structural)]
pub struct Reservations {
    pub held: Option<Reservation>,
}

/// One reservation: the task it is for, and why.
#[derive(Clone, Copy, Debug, PartialEq, Eq, Structural)]
pub struct Reservation {
    pub key: TaskKey,
    pub kind: ReservationKind,
}

pub open spec fn reservation_held_text() -> Seq<char> {
    "a reservation is already held"@
}

pub open spec fn no_reservation_text() -> Seq<char> {
    "no such reservation is held"@
}

impl Reservations {
    pub fn new() -> (r: Reservations)
        ensures
            r.held is None,
    {
        Reservations { held: None }
    }

    /// Reserves for task `key`; refused while one is held.
    pub fn reserve(&mut self, key: TaskKey, kind: ReservationKind) -> (r: Result<(), UpstrokeError>)
        ensures
            r is Ok <==> old(self).held is None,
            r is Ok ==> final(self).held == Some(Reservation { key, kind }),
            r matches Err(e) ==> *final(self) == *old(self) && e.message_spec() == reservation_held_text(),
    {
        if self.held.is_some() {
            return Err(UpstrokeError::Refused { message: String::from_str("a reservation is already held") });
        }
        self.held = Some(Reservation { key, kind });
        Ok(())
    }

    /// Converts the reservation of `key` and `kind` into the attempt it was for.
    pub fn convert(&mut self, key: TaskKey, kind: ReservationKind) -> (r: Result<(), UpstrokeError>)
        ensures
            r is Ok <==> old(self).held == Some(Reservation { key, kind }),
            r is Ok ==> final(self).held is None,
            r matches Err(e) ==> *final(self) == *old(self) && e.message_spec() == no_reservation_text(),
    {
        if self.held == Some(Reservation { key, kind }) {
            self.held = None;
            return Ok(());
        }
        Err(UpstrokeError::Refused { message: String::from_str("no such reservation is held") })
    }

    /// Cancels whatever reservation is held; whether there was one.
    pub fn cancel_any(&mut self) -> (cancelled: bool)
        ensures
            cancelled == (old(self).held is Some),
            final(self).held is None,
    {
        let cancelled = self.held.is_some();
        self.held = None;
        cancelled
    }

    pub fn is_empty(&self) -> (b: bool)
        ensures
            b == (self.held is None),
    {
        self.held.is_none()
    }
}


/// Registering an invocation and then settling it, as completed or as
/// cancelled, leaves as many invocations running as before, and the
/// settled identity is no longer running, so a second settlement of it
/// is refused.
pub proof fn law_register_then_settle_balances(
    entries: Seq<(InvocationId, InvocationStatus)>,
    id: InvocationId,
    status: InvocationStatus,
)
    requires
        status_of(entries, id) is None,
        status != InvocationStatus::Running,
    ensures
        count_status(entries.push((id, InvocationStatus::Running)).update(entries.len() as int, (id, status)), InvocationStatus::Running)
            == count_status(entries, InvocationStatus::Running),
        status_of(entries.push((id, InvocationStatus::Running)).update(entries.len() as int, (id, status)), id) == Some(status),
{
    let registered = entries.push((id, InvocationStatus::Running));
    let settled = registered.update(entries.len() as int, (id, status));
    assert(settled =~= entries.push((id, status)));
    assert(settled.drop_last() =~= entries);
    assert(registered.drop_last() =~= entries);
}

} // verus!
