//! The workspace the engine owns: the repository, the worktrees it has added
//! (task worktrees and verification snapshots), and the durable intents that
//! name each slot before its worktree exists.

use vstd::prelude::*;
use crate::effects::{extended_at, lemma_trace_extends, EffectSiteId, Hooks, ObjectSite, SnapshotSite, WorktreeSite};
use crate::error::UpstrokeError;
use crate::refs::{ObjectValue, Repository, RefValue, has_prefix, starts_with, unexpected_text};
use crate::resolution::{DeclaredResolution, ResolutionManifest};
use crate::text::lemma_views_push;
use crate::text::{decimal, push_decimal, same_text, views};

verus! {

/// A worktree slot: a task generation's, or a named snapshot's.
#[derive(Clone, Debug, PartialEq, Eq)]
pub enum Slot {
    Task { key: String, generation: u32 },
    Snapshot { name: String },
}

/// The directory name a slot takes under the execution root.
pub open spec fn slot_name_spec(slot: Slot) -> Seq<char> {
    match slot {
        Slot::Task { key, generation } => "k"@ + key@ + "-g"@ + decimal(generation as nat),
        Slot::Snapshot { name } => "snapshot-"@ + name@,
    }
}

/// A slot's own name: a task's key, or a snapshot's name.
pub open spec fn slot_own(slot: Slot) -> Seq<char> {
    match slot {
        Slot::Task { key, .. } => key@,
        Slot::Snapshot { name } => name@,
    }
}

/// Whether a slot's own name would leave the execution root.
pub open spec fn slot_escapes(slot: Slot) -> bool {
    let own = slot_own(slot);
    exists|i: int| 0 <= i < own.len() && (own[i] == '/' || own[i] == '\\')
}

impl Slot {
    pub fn name(&self) -> (s: String)
        ensures
            s@ == slot_name_spec(*self),
    {
        match self {
            Slot::Task { key, generation } => {
                let mut s = String::from_str("k");
                s.append(key.as_str());
                s.append("-g");
                push_decimal(&mut s, *generation as u64);
                s
            },
            Slot::Snapshot { name } => {
                let mut s = String::from_str("snapshot-");
                s.append(name.as_str());
                s
            },
        }
    }

    pub fn is_snapshot(&self) -> (b: bool)
        ensures
            b == (*self is Snapshot),
    {
        match self {
            Slot::Snapshot { .. } => true,
            _ => false,
        }
    }

    pub fn duplicate(&self) -> (s: Slot)
        ensures
            s == *self,
    {
        match self {
            Slot::Task { key, generation } => Slot::Task { key: key.clone(), generation: *generation },
            Slot::Snapshot { name } => Slot::Snapshot { name: name.clone() },
        }
    }

    fn escapes(&self) -> (b: bool)
        ensures
            b == slot_escapes(*self),
    {
        let own = match self {
            Slot::Task { key, .. } => key.as_str(),
            Slot::Snapshot { name } => name.as_str(),
        };
        let ghost spec_own = slot_own(*self);
        assert(own@ == spec_own);
        let n = own.unicode_len();
        let mut i: usize = 0;
        while i < n
            invariant
                n == own@.len(),
                own@ == spec_own,
                spec_own == slot_own(*self),
                i <= n,
                forall|j: int| 0 <= j < i ==> !(own@[j] == '/' || own@[j] == '\\'),
            decreases n - i,
        {
            let c = own.get_char(i);
            if c == '/' || c == '\\' {
                assert(slot_own(*self)[i as int] == c);
                return true;
            }
            i = i + 1;
        }
        false
    }

    /// The site family a slot's effects cross.
    pub open spec fn site_spec(self, worktree: WorktreeSite, snapshot: SnapshotSite) -> EffectSiteId {
        match self {
            Slot::Task { .. } => EffectSiteId::Worktree(worktree),
            Slot::Snapshot { .. } => EffectSiteId::Snapshot(snapshot),
        }
    }

    fn site(&self, worktree: WorktreeSite, snapshot: SnapshotSite) -> (s: EffectSiteId)
        ensures
            s == self.site_spec(worktree, snapshot),
    {
        match self {
            Slot::Task { .. } => EffectSiteId::Worktree(worktree),
            Slot::Snapshot { .. } => EffectSiteId::Snapshot(snapshot),
        }
    }
}

/// A worktree's index, as the capture reads it.
#[derive(Clone, Debug, PartialEq, Eq)]
pub struct IndexState {
    /// Conflicted entries.
    pub unmerged: Vec<String>,
    /// Entries a previous capture of the generation resolved.
    pub resolved: Vec<String>,
    /// The worker's resolution manifest.
    pub manifest: ResolutionManifest,
    /// Whether the checkout holds edits the index has not recorded.
    pub dirty: bool,
    /// What the last staging recorded in the index: each declared path, as
    /// a resolved file or a deletion.
    pub staged: Vec<DeclaredResolution>,
}

/// A worktree the engine added.
#[derive(Clone, Debug, PartialEq, Eq)]
pub struct Worktree {
    pub slot: Slot,
    /// The commit it was added at.
    pub head: String,
    /// The tree its index records.
    pub tree: String,
    pub index: IndexState,
}

/// What a retained or fresh worktree must show to be reused.
#[derive(Clone, Debug, PartialEq, Eq)]
pub enum Quiescence {
    AtBase(String),
    HoldsTree(String),
}

/// Why a worktree did not verify.
#[derive(Clone, Debug, PartialEq, Eq)]
pub enum VerifyFailure {
    Missing,
    Unquiescent,
}

/// What applying a repair's source candidate to its worktree observed.
#[derive(Clone, Copy, Debug, PartialEq, Eq, Structural)]
pub enum Materialized {
    Clean,
    Conflict,
    Empty,
}

/// The name a verification snapshot takes.
#[derive(Clone, Debug, PartialEq, Eq)]
pub struct SnapshotName(pub String);

impl SnapshotName {
    pub fn gates(generation: u32, attempt: u32) -> (n: SnapshotName)
        ensures
            n.0@ == "g"@ + decimal(generation as nat) + "-a"@ + decimal(attempt as nat) + "-gates"@,
    {
        let mut s = String::from_str("g");
        push_decimal(&mut s, generation as u64);
        s.append("-a");
        push_decimal(&mut s, attempt as u64);
        s.append("-gates");
        SnapshotName(s)
    }

    pub fn review(generation: u32, attempt: u32, pass: u32) -> (n: SnapshotName)
        ensures
            n.0@ == "g"@ + decimal(generation as nat) + "-a"@ + decimal(attempt as nat) + "-review"@ + decimal(pass as nat),
    {
        let mut s = String::from_str("g");
        push_decimal(&mut s, generation as u64);
        s.append("-a");
        push_decimal(&mut s, attempt as u64);
        s.append("-review");
        push_decimal(&mut s, pass as u64);
        SnapshotName(s)
    }

    pub fn integration(sequence: u64) -> (n: SnapshotName)
        ensures
            n.0@ == "s"@ + decimal(sequence as nat) + "-gates"@,
    {
        let mut s = String::from_str("s");
        push_decimal(&mut s, sequence);
        s.append("-gates");
        SnapshotName(s)
    }

    pub fn integration_review(sequence: u64, pass: u32) -> (n: SnapshotName)
        ensures
            n.0@ == "s"@ + decimal(sequence as nat) + "-review"@ + decimal(pass as nat),
    {
        let mut s = String::from_str("s");
        push_decimal(&mut s, sequence);
        s.append("-review");
        push_decimal(&mut s, pass as u64);
        SnapshotName(s)
    }
}

/// A full object id, checked.
#[derive(Clone, Debug, PartialEq, Eq)]
pub struct ObjectId(String);

impl ObjectId {
    pub closed spec fn view_text(self) -> Seq<char> {
        self.0@
    }

    /// `value` as an object id; refused, saying why, where it is not one.
    pub fn new(value: String) -> (r: Result<ObjectId, String>)
        ensures
            crate::refs::is_object_id_spec(value@) ==> (r matches Ok(id) && id.view_text() == value@),
            !crate::refs::is_object_id_spec(value@) ==> (r matches Err(refusal) && refusal@ == "`"@ + value@
                + "` is not a full hexadecimal object id"@),
    {
        if crate::refs::is_object_id(value.as_str()) {
            Ok(ObjectId(value))
        } else {
            let mut refusal = String::from_str("`");
            refusal.append(value.as_str());
            refusal.append("` is not a full hexadecimal object id");
            Err(refusal)
        }
    }

    pub fn as_str(&self) -> (s: &str)
        ensures
            s@ == self.view_text(),
    {
        self.0.as_str()
    }

    pub fn duplicate(&self) -> (o: ObjectId)
        ensures
            o == *self,
    {
        ObjectId(self.0.clone())
    }
}

/// What a snapshot is taken of.
#[derive(Clone, Debug, PartialEq, Eq)]
pub enum SnapshotInput {
    Tree { tree: ObjectId, parent: ObjectId },
    Commit(ObjectId),
}

/// A verification snapshot: its slot, its path, and the ephemeral commit a
/// tree input was committed as.
#[derive(Clone, Debug, PartialEq, Eq)]
pub struct Snapshot {
    pub slot: Slot,
    pub path: String,
    pub ephemeral: Option<String>,
}

impl Snapshot {
    pub fn path(&self) -> (p: &String)
        ensures
            *p == self.path,
    {
        &self.path
    }

    pub fn slot(&self) -> (s: &Slot)
        ensures
            *s == self.slot,
    {
        &self.slot
    }
}

/// The workspace the engine owns.
#[derive(Clone, Debug, PartialEq, Eq)]
pub struct WorkspaceManager {
    /// The execution root every slot's directory is under.
    pub root: String,
    pub repo: Repository,
    pub worktrees: Vec<Worktree>,
    pub intents: Vec<Slot>,
    /// The commits whose materialization conflicts, with the paths each
    /// leaves unmerged.
    pub conflicts: Vec<(String, Vec<String>)>,
    /// Whether the host's Git reads a backslash in a path as a separator.
    pub backslash_separates: bool,
}

/// Whether some worktree holds a slot of name `name`.
pub open spec fn has_worktree(worktrees: Seq<Worktree>, name: Seq<char>) -> bool {
    exists|i: int| 0 <= i < worktrees.len() && slot_name_spec((#[trigger] worktrees[i]).slot) == name
}

/// Whether some intent names a slot of name `name`.
pub open spec fn has_intent(intents: Seq<Slot>, name: Seq<char>) -> bool {
    exists|i: int| 0 <= i < intents.len() && slot_name_spec(#[trigger] intents[i]) == name
}

/// The worktree of slot name `name`: the last one of that name.
pub open spec fn worktree_at(worktrees: Seq<Worktree>, name: Seq<char>) -> Option<Worktree>
    decreases worktrees.len(),
{
    if worktrees.len() == 0 {
        None
    } else if slot_name_spec(worktrees.last().slot) == name {
        Some(worktrees.last())
    } else {
        worktree_at(worktrees.drop_last(), name)
    }
}

pub proof fn lemma_worktree_at(worktrees: Seq<Worktree>, name: Seq<char>)
    ensures
        worktree_at(worktrees, name) is Some <==> has_worktree(worktrees, name),
    decreases worktrees.len(),
{
    if worktrees.len() > 0 {
        lemma_worktree_at(worktrees.drop_last(), name);
        if has_worktree(worktrees, name) && slot_name_spec(worktrees.last().slot) != name {
            let i = choose|i: int| 0 <= i < worktrees.len() && slot_name_spec((#[trigger] worktrees[i]).slot) == name;
            assert(worktrees.drop_last()[i] == worktrees[i]);
        }
        if has_worktree(worktrees.drop_last(), name) {
            let i = choose|i: int| 0 <= i < worktrees.len() - 1 && slot_name_spec((#[trigger] worktrees.drop_last()[i]).slot) == name;
            assert(worktrees[i] == worktrees.drop_last()[i]);
        }
    }
}

/// `worktrees` without those of slot name `name`.
pub open spec fn without_worktree(worktrees: Seq<Worktree>, name: Seq<char>) -> Seq<Worktree> {
    worktrees.filter(|w: Worktree| slot_name_spec(w.slot) != name)
}

/// `intents` without those of slot name `name`.
pub open spec fn without_intent(intents: Seq<Slot>, name: Seq<char>) -> Seq<Slot> {
    intents.filter(|s: Slot| slot_name_spec(s) != name)
}

pub proof fn lemma_worktree_at_without(worktrees: Seq<Worktree>, name: Seq<char>, other: Seq<char>)
    ensures
        worktree_at(without_worktree(worktrees, name), other) == if other == name {
            None
        } else {
            worktree_at(worktrees, other)
        },
    decreases worktrees.len(),
{
    reveal(Seq::filter);
    if worktrees.len() > 0 {
        lemma_worktree_at_without(worktrees.drop_last(), name, other);
        if slot_name_spec(worktrees.last().slot) != name {
            assert(without_worktree(worktrees, name).drop_last() =~= without_worktree(worktrees.drop_last(), name));
        }
    }
}

pub proof fn lemma_has_intent_without(intents: Seq<Slot>, name: Seq<char>, other: Seq<char>)
    ensures
        has_intent(without_intent(intents, name), other) == (other != name && has_intent(intents, other)),
    decreases intents.len(),
{
    reveal(Seq::filter);
    if intents.len() > 0 {
        lemma_has_intent_without(intents.drop_last(), name, other);
        let kept = without_intent(intents, name);
        let prev = without_intent(intents.drop_last(), name);
        if slot_name_spec(intents.last()) != name {
            assert(kept.drop_last() =~= prev);
        } else {
            assert(kept =~= prev);
        }
        if has_intent(kept, other) {
            let j = choose|j: int| 0 <= j < kept.len() && slot_name_spec(#[trigger] kept[j]) == other;
            if j < prev.len() {
                assert(prev[j] == kept[j]);
                let k = choose|k: int| 0 <= k < intents.len() - 1 && slot_name_spec(#[trigger] intents.drop_last()[k]) == other;
                assert(intents[k] == intents.drop_last()[k]);
            } else {
                assert(kept[j] == intents.last());
            }
        }
        if other != name && has_intent(intents, other) {
            let k = choose|k: int| 0 <= k < intents.len() && slot_name_spec(#[trigger] intents[k]) == other;
            if k < intents.len() - 1 {
                assert(intents.drop_last()[k] == intents[k]);
                let j = choose|j: int| 0 <= j < prev.len() && slot_name_spec(#[trigger] prev[j]) == other;
                assert(kept[j] == prev[j]);
            } else {
                assert(kept[kept.len() - 1] == intents.last());
            }
        }
        assert forall|j: int| 0 <= j < kept.len() implies slot_name_spec(#[trigger] kept[j]) != name by {
            if j < prev.len() {
                assert(kept[j] == prev[j]);
            }
        }
    }
}

pub open spec fn exists_text(name: Seq<char>) -> Seq<char> {
    "slot `"@ + name + "` already has a worktree"@
}

pub open spec fn escapes_text(name: Seq<char>) -> Seq<char> {
    "refusing slot `"@ + name + "`: its name escapes the execution root"@
}

pub open spec fn not_a_commit_text(commit: Seq<char>) -> Seq<char> {
    "`"@ + commit + "` is not a commit in this repository"@
}

pub open spec fn no_worktree_text(name: Seq<char>) -> Seq<char> {
    "slot `"@ + name + "` has no worktree"@
}

impl WorkspaceManager {
    pub open spec fn has_worktree_spec(self, slot: Slot) -> bool {
        has_worktree(self.worktrees@, slot_name_spec(slot))
    }

    pub open spec fn has_intent_spec(self, slot: Slot) -> bool {
        has_intent(self.intents@, slot_name_spec(slot))
    }

    pub open spec fn worktree_spec(self, slot: Slot) -> Option<Worktree> {
        worktree_at(self.worktrees@, slot_name_spec(slot))
    }

    /// The path a slot's worktree takes.
    pub fn slot_path(&self, slot: &Slot) -> (p: String)
        ensures
            p@ == self.root@ + "/"@ + slot_name_spec(*slot),
    {
        let mut p = self.root.clone();
        p.append("/");
        p.append(slot.name().as_str());
        p
    }

    fn worktree_index(&self, slot: &Slot) -> (i: Option<usize>)
        ensures
            match i {
                Some(i) => i < self.worktrees.len() && worktree_at(self.worktrees@, slot_name_spec(*slot))
                    == Some(self.worktrees@[i as int]) && slot_name_spec(self.worktrees@[i as int].slot) == slot_name_spec(*slot)
                    && forall|j: int| i < j < self.worktrees@.len() ==> slot_name_spec((#[trigger] self.worktrees@[j]).slot)
                    != slot_name_spec(*slot),
                None => worktree_at(self.worktrees@, slot_name_spec(*slot)) is None,
            },
    {
        let name = slot.name();
        let mut i = self.worktrees.len();
        proof {
            assert(self.worktrees@.take(i as int) =~= self.worktrees@);
        }
        while i > 0
            invariant
                i <= self.worktrees.len(),
                name@ == slot_name_spec(*slot),
                worktree_at(self.worktrees@, name@) == worktree_at(self.worktrees@.take(i as int), name@),
                forall|j: int| i <= j < self.worktrees@.len() ==> slot_name_spec((#[trigger] self.worktrees@[j]).slot) != name@,
            decreases i,
        {
            proof {
                assert(self.worktrees@.take(i as int).drop_last() =~= self.worktrees@.take(i - 1));
            }
            if same_text(self.worktrees[i - 1].slot.name().as_str(), name.as_str()) {
                return Some(i - 1);
            }
            i = i - 1;
        }
        None
    }

    fn intent_index(&self, slot: &Slot) -> (i: Option<usize>)
        ensures
            match i {
                Some(i) => i < self.intents.len() && slot_name_spec(self.intents@[i as int]) == slot_name_spec(*slot),
                None => !has_intent(self.intents@, slot_name_spec(*slot)),
            },
    {
        let name = slot.name();
        let n = self.intents.len();
        let mut i: usize = 0;
        while i < n
            invariant
                n == self.intents.len(),
                i <= n,
                name@ == slot_name_spec(*slot),
                forall|j: int| 0 <= j < i ==> slot_name_spec(#[trigger] self.intents@[j]) != name@,
            decreases n - i,
        {
            if same_text(self.intents[i].name().as_str(), name.as_str()) {
                return Some(i);
            }
            i = i + 1;
        }
        None
    }

    /// Records the durable intent that names `slot`; one that exists stays.
    pub fn write_intent(&mut self, hooks: &mut Hooks, slot: &Slot) -> (r: Result<(), UpstrokeError>)
        ensures
            final(self).root == old(self).root,
            final(self).conflicts == old(self).conflicts,
            final(self).repo == old(self).repo,
            final(self).worktrees == old(self).worktrees,
            r is Ok <==> old(hooks).armed != Some(slot.site_spec(WorktreeSite::WriteIntent, SnapshotSite::WriteIntent)),
            r is Ok ==> final(self).has_intent_spec(*slot),
            forall|name: Seq<char>| name != slot_name_spec(*slot) ==> has_intent(final(self).intents@, name) == has_intent(
                old(self).intents@,
                name,
            ),
            r is Err ==> final(self).intents == old(self).intents,
            final(hooks).trace@.len() >= old(hooks).trace@.len(),
            final(hooks).trace@.subrange(0, old(hooks).trace@.len() as int) == old(hooks).trace@,
            r is Ok ==> final(hooks).armed == old(hooks).armed,
    {
        let site = slot.site(WorktreeSite::WriteIntent, SnapshotSite::WriteIntent);
        hooks.enter(site)?;
        if self.intent_index(slot).is_none() {
            let ghost before = self.intents@;
            self.intents.push(slot.duplicate());
            proof {
                assert(self.intents@[before.len() as int] == *slot);
                assert forall|name: Seq<char>| name != slot_name_spec(*slot) implies has_intent(self.intents@, name)
                    == has_intent(before, name) by {
                    if has_intent(self.intents@, name) {
                        let i = choose|i: int| 0 <= i < self.intents@.len() && slot_name_spec(#[trigger] self.intents@[i]) == name;
                        assert(before[i] == self.intents@[i]);
                    }
                    if has_intent(before, name) {
                        let i = choose|i: int| 0 <= i < before.len() && slot_name_spec(#[trigger] before[i]) == name;
                        assert(before[i] == self.intents@[i]);
                    }
                }
            }
        }
        hooks.leave(site);
        Ok(())
    }

    /// Adds `slot`'s worktree at commit `base`: refused where the slot
    /// already has one or `base` is not a commit.
    pub fn add_worktree(&mut self, hooks: &mut Hooks, slot: &Slot, base: &str) -> (r: Result<String, UpstrokeError>)
        ensures
            final(self).root == old(self).root,
            final(self).conflicts == old(self).conflicts,
            final(self).repo == old(self).repo,
            final(self).intents == old(self).intents,
            r is Ok <==> !old(self).has_worktree_spec(*slot) && old(self).repo.object_spec(base@) is Some
                && old(self).repo.object_spec(base@).unwrap() is Commit
                && old(hooks).armed != Some(slot.site_spec(WorktreeSite::Add, SnapshotSite::Add)),
            !old(self).has_worktree_spec(*slot) && !(old(self).repo.object_spec(base@) matches Some(ObjectValue::Commit { .. }))
                ==> (r matches Err(UpstrokeError::Git { message }) && message@ == not_a_commit_text(base@)),
            r matches Ok(path) ==> (path@ == old(self).root@ + "/"@ + slot_name_spec(*slot)
                && (final(self).worktree_spec(*slot) matches Some(w) && w.head@ == base@ && !w.index.dirty
                && w.index.unmerged@.len() == 0 && w.index.resolved@.len() == 0)),
            r is Ok ==> forall|name: Seq<char>| name != slot_name_spec(*slot) ==> worktree_at(final(self).worktrees@, name)
                == worktree_at(old(self).worktrees@, name),
            r is Err ==> final(self).worktrees == old(self).worktrees,
            final(hooks).trace@.len() >= old(hooks).trace@.len(),
            final(hooks).trace@.subrange(0, old(hooks).trace@.len() as int) == old(hooks).trace@,
            r is Ok ==> final(hooks).armed == old(hooks).armed,
    {
        proof { lemma_worktree_at(self.worktrees@, slot_name_spec(*slot)); }
        if self.worktree_index(slot).is_some() {
            let mut message = String::from_str("slot `");
            message.append(slot.name().as_str());
            message.append("` already has a worktree");
            return Err(UpstrokeError::Refused { message });
        }
        let tree = match self.repo.commit_tree_sha(base) {
            Some(tree) => tree,
            None => {
                let mut message = String::from_str("`");
                message.append(base);
                message.append("` is not a commit in this repository");
                return Err(UpstrokeError::Git { message });
            },
        };
        let site = slot.site(WorktreeSite::Add, SnapshotSite::Add);
        hooks.enter(site)?;
        let worktree = Worktree {
            slot: slot.duplicate(),
            head: String::from_str(base),
            tree,
            index: IndexState {
                unmerged: Vec::new(),
                resolved: Vec::new(),
                manifest: ResolutionManifest::Absent,
                dirty: false,
                staged: Vec::new(),
            },
        };
        let ghost before = self.worktrees@;
        self.worktrees.push(worktree);
        proof {
            assert(self.worktrees@.drop_last() =~= before);
        }
        hooks.leave(site);
        Ok(self.slot_path(slot))
    }

    /// Removes `slot`'s worktree, forcing through whatever residue it holds;
    /// one already gone is removed again without error. A slot whose name
    /// escapes the execution root refuses.
    pub fn remove_worktree(&mut self, hooks: &mut Hooks, slot: &Slot) -> (r: Result<(), UpstrokeError>)
        ensures
            final(self).root == old(self).root,
            final(self).conflicts == old(self).conflicts,
            final(self).repo == old(self).repo,
            final(self).intents == old(self).intents,
            r is Ok <==> !slot_escapes(*slot) && old(hooks).armed != Some(slot.site_spec(WorktreeSite::Remove, SnapshotSite::Remove)),
            r is Ok ==> !final(self).has_worktree_spec(*slot),
            r is Ok ==> forall|name: Seq<char>| name != slot_name_spec(*slot) ==> worktree_at(final(self).worktrees@, name)
                == worktree_at(old(self).worktrees@, name),
            slot_escapes(*slot) ==> (r matches Err(e) && e.message_spec() == escapes_text(slot_name_spec(*slot))),
            r is Err ==> final(self).worktrees == old(self).worktrees,
            final(hooks).trace@.len() >= old(hooks).trace@.len(),
            final(hooks).trace@.subrange(0, old(hooks).trace@.len() as int) == old(hooks).trace@,
            extended_at(old(hooks).trace@, final(hooks).trace@, set![slot.site_spec(WorktreeSite::Remove, SnapshotSite::Remove)]),
            r is Ok ==> final(hooks).armed == old(hooks).armed,
    {
        if slot.escapes() {
            let mut message = String::from_str("refusing slot `");
            message.append(slot.name().as_str());
            message.append("`: its name escapes the execution root");
            return Err(UpstrokeError::Refused { message });
        }
        let site = slot.site(WorktreeSite::Remove, SnapshotSite::Remove);
        hooks.enter(site)?;
        let name = slot.name();
        let ghost held = self.worktrees@;
        let mut rest: Vec<Worktree> = Vec::new();
        std::mem::swap(&mut rest, &mut self.worktrees);
        let mut kept: Vec<Worktree> = Vec::new();
        let ghost mut taken: int = 0;
        while rest.len() > 0
            invariant
                name@ == slot_name_spec(*slot),
                0 <= taken <= held.len(),
                rest@ == held.skip(taken),
                kept@ == without_worktree(held.take(taken), name@),
            decreases rest.len(),
        {
            let w = rest.remove(0);
            proof {
                assert(w == held[taken]);
                assert(held.take(taken + 1).drop_last() =~= held.take(taken));
                assert(held.take(taken + 1).last() == w);
                reveal(Seq::filter);
            }
            if !same_text(w.slot.name().as_str(), name.as_str()) {
                kept.push(w);
            }
            proof {
                taken = taken + 1;
                assert(rest@ =~= held.skip(taken));
            }
        }
        proof {
            assert(held.take(taken) =~= held);
            assert forall|other: Seq<char>| other != name@ implies #[trigger] worktree_at(kept@, other) == worktree_at(held, other) by {
                lemma_worktree_at_without(held, name@, other);
            }
            lemma_worktree_at_without(held, name@, name@);
            lemma_worktree_at(kept@, name@);
        }
        self.worktrees = kept;
        hooks.leave(site);
        Ok(())
    }

    /// Removes the intent naming `slot`; one already gone is removed again
    /// without error.
    pub fn remove_intent(&mut self, hooks: &mut Hooks, slot: &Slot) -> (r: Result<(), UpstrokeError>)
        ensures
            final(self).root == old(self).root,
            final(self).conflicts == old(self).conflicts,
            final(self).repo == old(self).repo,
            final(self).worktrees == old(self).worktrees,
            r is Ok <==> old(hooks).armed != Some(slot.site_spec(WorktreeSite::RemoveIntent, SnapshotSite::RemoveIntent)),
            r is Ok ==> !final(self).has_intent_spec(*slot),
            r is Ok ==> forall|name: Seq<char>| name != slot_name_spec(*slot) ==> has_intent(final(self).intents@, name)
                == has_intent(old(self).intents@, name),
            r is Err ==> final(self).intents == old(self).intents,
            final(hooks).trace@.len() >= old(hooks).trace@.len(),
            final(hooks).trace@.subrange(0, old(hooks).trace@.len() as int) == old(hooks).trace@,
            extended_at(old(hooks).trace@, final(hooks).trace@, set![slot.site_spec(WorktreeSite::RemoveIntent, SnapshotSite::RemoveIntent)]),
            r is Ok ==> final(hooks).armed == old(hooks).armed,
    {
        let site = slot.site(WorktreeSite::RemoveIntent, SnapshotSite::RemoveIntent);
        hooks.enter(site)?;
        let name = slot.name();
        let mut kept: Vec<Slot> = Vec::new();
        let n = self.intents.len();
        let mut i: usize = 0;
        while i < n
            invariant
                n == self.intents.len(),
                i <= n,
                name@ == slot_name_spec(*slot),
                kept@ == without_intent(self.intents@.take(i as int), name@),
            decreases n - i,
        {
            proof {
                assert(self.intents@.take(i + 1).drop_last() =~= self.intents@.take(i as int));
                reveal(Seq::filter);
            }
            if !same_text(self.intents[i].name().as_str(), name.as_str()) {
                kept.push(self.intents[i].duplicate());
            }
            i = i + 1;
        }
        proof {
            assert(self.intents@.take(n as int) =~= self.intents@);
            assert forall|other: Seq<char>| other != name@ implies has_intent(kept@, other) == has_intent(self.intents@, other) by {
                lemma_has_intent_without(self.intents@, name@, other);
            }
            lemma_has_intent_without(self.intents@, name@, name@);
        }
        self.intents = kept;
        hooks.leave(site);
        Ok(())
    }

    /// Commits the judged `tree` on `base`: the candidate commit, which
    /// nothing references until it is pinned.
    pub fn candidate_commit_tree(&mut self, hooks: &mut Hooks, tree: &str, base: &str, message: &str) -> (r: Result<String, UpstrokeError>)
        ensures
            final(self).worktrees == old(self).worktrees,
            final(self).intents == old(self).intents,
            final(self).repo.refs == old(self).repo.refs,
            r is Ok <==> old(hooks).armed != Some(EffectSiteId::Object(ObjectSite::CandidateCommitTree)),
            r matches Ok(id) ==> final(self).repo.object_spec(id@) == Some(ObjectValue::Commit { parent: Some(base@), tree: tree@ })
                && forall|other: Seq<char>| other != id@ ==> #[trigger] final(self).repo.object_spec(other) == old(self).repo.object_spec(other),
            r matches Ok(id) ==> id@ == crate::refs::written_commit_id(old(self).repo, tree@, base@),
            r is Err ==> final(self).repo == old(self).repo,
            final(hooks).trace@.len() >= old(hooks).trace@.len(),
            final(hooks).trace@.subrange(0, old(hooks).trace@.len() as int) == old(hooks).trace@,
            r is Ok ==> final(hooks).armed == old(hooks).armed,
    {
        let site = EffectSiteId::Object(ObjectSite::CandidateCommitTree);
        hooks.enter(site)?;
        let id = self.repo.write_commit(tree, base);
        hooks.leave(site);
        Ok(id)
    }

    /// Refuses any ref under `namespace` that `expected` does not name.
    pub fn refuse_unexpected_refs(&self, namespace: &str, expected: &Vec<String>) -> (r: Result<(), UpstrokeError>)
        ensures
            r is Ok <==> forall|i: int| 0 <= i < self.repo.refs@.len() && starts_with((#[trigger] self.repo.refs@[i]).name@, namespace@)
                ==> views(expected@).contains(self.repo.refs@[i].name@),
            r matches Err(e) ==> exists|i: int| 0 <= i < self.repo.refs@.len() && starts_with((#[trigger] self.repo.refs@[i]).name@, namespace@)
                && !views(expected@).contains(self.repo.refs@[i].name@) && e.message_spec() == unexpected_text(
                self.repo.refs@[i].name@,
                namespace@,
            ) && forall|j: int| 0 <= j < i && starts_with((#[trigger] self.repo.refs@[j]).name@, namespace@)
                ==> views(expected@).contains(self.repo.refs@[j].name@),
    {
        let n = self.repo.refs.len();
        let mut i: usize = 0;
        while i < n
            invariant
                n == self.repo.refs.len(),
                i <= n,
                forall|j: int| 0 <= j < i && starts_with((#[trigger] self.repo.refs@[j]).name@, namespace@)
                    ==> views(expected@).contains(self.repo.refs@[j].name@),
            decreases n - i,
        {
            let name = self.repo.refs[i].name.as_str();
            if has_prefix(name, namespace) {
                let mut found = false;
                let m = expected.len();
                let mut j: usize = 0;
                while j < m
                    invariant
                        m == expected.len(),
                        j <= m,
                        found ==> views(expected@).contains(name@),
                        !found ==> forall|k: int| 0 <= k < j ==> expected@[k]@ != name@,
                    decreases m - j,
                {
                    if same_text(expected[j].as_str(), name) {
                        assert(views(expected@)[j as int] == name@);
                        found = true;
                    }
                    j = j + 1;
                }
                if !found {
                    assert(!views(expected@).contains(name@));
                    let mut message = String::from_str("unexpected ref `");
                    message.append(name);
                    message.append("` under `");
                    message.append(namespace);
                    message.append("`: nothing the run recorded accounts for it");
                    return Err(UpstrokeError::Refused { message });
                }
            }
            i = i + 1;
        }
        Ok(())
    }

    /// Every direct ref under `namespace`, with its target, in the order the refs were written.
    pub fn refs_under(&self, namespace: &str) -> (found: Vec<(String, String)>)
        ensures
            pair_views(found@) == listed_under(self.repo.refs@, self.repo.refs@, namespace@),
            forall|i: int| 0 <= i < found@.len() ==> starts_with((#[trigger] found@[i]).0@, namespace@)
                && self.repo.ref_spec(found@[i].0@) == Some(RefValue::Direct(found@[i].1@)),
    {
        let mut found: Vec<(String, String)> = Vec::new();
        let n = self.repo.refs.len();
        let mut i: usize = 0;
        while i < n
            invariant
                n == self.repo.refs.len(),
                i <= n,
                forall|k: int| 0 <= k < found@.len() ==> starts_with((#[trigger] found@[k]).0@, namespace@)
                    && self.repo.ref_spec(found@[k].0@) == Some(RefValue::Direct(found@[k].1@)),
                pair_views(found@) == listed_under(self.repo.refs@, self.repo.refs@.take(i as int), namespace@),
            decreases n - i,
        {
            proof {
                assert(self.repo.refs@.take(i + 1).drop_last() =~= self.repo.refs@.take(i as int));
            }
            let ghost before = found@;
            let name = self.repo.refs[i].name.as_str();
            if has_prefix(name, namespace) {
                match self.repo.direct_ref_target(name) {
                    Ok(Some(target)) => {
                        found.push((String::from_str(name), target));
                        proof {
                            assert(pair_views(found@) =~= pair_views(before).push((name@, target@)));
                        }
                    },
                    _ => {},
                }
            }
            i = i + 1;
        }
        proof {
            assert(self.repo.refs@.take(n as int) =~= self.repo.refs@);
        }
        found
    }

    /// Every slot an intent names.
    pub fn intents(&self) -> (slots: Vec<Slot>)
        ensures
            slots@ == self.intents@,
    {
        let mut slots: Vec<Slot> = Vec::new();
        let n = self.intents.len();
        let mut i: usize = 0;
        while i < n
            invariant
                n == self.intents.len(),
                i <= n,
                slots@ == self.intents@.take(i as int),
            decreases n - i,
        {
            slots.push(self.intents[i].duplicate());
            assert(slots@ =~= self.intents@.take(i + 1));
            i = i + 1;
        }
        assert(slots@ =~= self.intents@);
        slots
    }
}

/// Whether some resolution of `staged` names `path`.
pub open spec fn staged_names(staged: Seq<DeclaredResolution>, path: Seq<char>) -> bool {
    exists|i: int| 0 <= i < staged.len() && (#[trigger] staged[i]).path@ == path
}

/// Whether a worktree shows what `quiescence` asks of it in `repo`.
pub open spec fn quiescent(w: Worktree, repo: Repository, quiescence: Quiescence) -> bool {
    &&& !w.index.dirty
    &&& w.index.unmerged@.len() == 0
    &&& match quiescence {
        Quiescence::AtBase(base) => w.head@ == base@ && (repo.object_spec(base@) matches Some(ObjectValue::Commit { tree, .. })
            && tree == w.tree@),
        Quiescence::HoldsTree(tree) => w.tree@ == tree@,
    }
}

/// The paths a materialization of `commit` leaves unmerged, in `conflicts`.
pub open spec fn conflict_at(conflicts: Seq<(String, Vec<String>)>, commit: Seq<char>) -> Option<Seq<Seq<char>>>
    decreases conflicts.len(),
{
    if conflicts.len() == 0 {
        None
    } else if conflicts.last().0@ == commit {
        Some(views(conflicts.last().1@))
    } else {
        conflict_at(conflicts.drop_last(), commit)
    }
}

pub open spec fn unmerged_left_text(name: Seq<char>) -> Seq<char> {
    "the index of slot `"@ + name + "` holds unmerged entries, and `git write-tree` refuses it"@
}

/// A copy of `v`.
pub fn copy_strings(v: &Vec<String>) -> (c: Vec<String>)
    ensures
        c@ == v@,
{
    let mut c: Vec<String> = Vec::new();
    let n = v.len();
    let mut i: usize = 0;
    while i < n
        invariant
            n == v.len(),
            i <= n,
            c@ == v@.take(i as int),
        decreases n - i,
    {
        c.push(v[i].clone());
        assert(c@ =~= v@.take(i + 1));
        i = i + 1;
    }
    assert(c@ =~= v@);
    c
}

/// A copy of `v`, each resolution's path and kind kept.
fn copy_resolutions(v: &Vec<DeclaredResolution>) -> (c: Vec<DeclaredResolution>)
    ensures
        crate::resolution::staged_views(c@) == crate::resolution::staged_views(v@),
{
    let mut c: Vec<DeclaredResolution> = Vec::new();
    let n = v.len();
    let mut i: usize = 0;
    while i < n
        invariant
            n == v.len(),
            i <= n,
            crate::resolution::staged_views(c@) == crate::resolution::staged_views(v@.take(i as int)),
            c@.len() == i,
        decreases n - i,
    {
        let d = DeclaredResolution { path: v[i].path.clone(), kind: v[i].kind };
        let ghost before = c@;
        c.push(d);
        proof {
            assert(c@ =~= before.push(d));
            assert(v@.take(i + 1) =~= v@.take(i as int).push(v@[i as int]));
            assert(d.path@ == v@[i as int].path@);
            assert forall|k: int| 0 <= k < i + 1 implies crate::resolution::staged_views(c@)[k] == crate::resolution::staged_views(
                v@.take(i + 1),
            )[k] by {
                if k < i {
                    assert(crate::resolution::staged_views(before)[k] == crate::resolution::staged_views(v@.take(i as int))[k]);
                    assert(c@[k] == before[k]);
                    assert(v@.take(i + 1)[k] == v@.take(i as int)[k]);
                }
            }
            assert(crate::resolution::staged_views(c@) =~= crate::resolution::staged_views(v@.take(i + 1)));
        }
        i = i + 1;
    }
    proof {
        assert(v@.take(n as int) =~= v@);
    }
    c
}

fn staged_names_exec(staged: &Vec<DeclaredResolution>, path: &str) -> (b: bool)
    ensures
        b == staged_names(staged@, path@),
{
    let n = staged.len();
    let mut i: usize = 0;
    while i < n
        invariant
            n == staged.len(),
            i <= n,
            forall|j: int| 0 <= j < i ==> (#[trigger] staged@[j]).path@ != path@,
        decreases n - i,
    {
        if same_text(staged[i].path.as_str(), path) {
            return true;
        }
        i = i + 1;
    }
    false
}

impl WorkspaceManager {
    fn no_worktree(slot: &Slot) -> (e: UpstrokeError)
        ensures
            e.message_spec() == no_worktree_text(slot_name_spec(*slot)),
    {
        let mut message = String::from_str("slot `");
        message.append(slot.name().as_str());
        message.append("` has no worktree");
        UpstrokeError::Refused { message }
    }

    /// The index's unmerged entries in `slot`'s worktree.
    pub fn unresolved_conflicts(&self, slot: &Slot) -> (r: Result<&Vec<String>, UpstrokeError>)
        ensures
            match self.worktree_spec(*slot) {
                Some(w) => r matches Ok(paths) && *paths == w.index.unmerged,
                None => r matches Err(e) && e.message_spec() == no_worktree_text(slot_name_spec(*slot)),
            },
    {
        match self.worktree_index(slot) {
            Some(i) => Ok(&self.worktrees[i].index.unmerged),
            None => Err(Self::no_worktree(slot)),
        }
    }

    /// The entries a previous capture of `slot`'s generation resolved.
    pub fn resolved_conflicts(&self, slot: &Slot) -> (r: Result<&Vec<String>, UpstrokeError>)
        ensures
            match self.worktree_spec(*slot) {
                Some(w) => r matches Ok(paths) && *paths == w.index.resolved,
                None => r matches Err(e) && e.message_spec() == no_worktree_text(slot_name_spec(*slot)),
            },
    {
        match self.worktree_index(slot) {
            Some(i) => Ok(&self.worktrees[i].index.resolved),
            None => Err(Self::no_worktree(slot)),
        }
    }

    /// The worker's resolution manifest in `slot`'s worktree.
    pub fn resolution_manifest(&self, slot: &Slot) -> (r: Result<&ResolutionManifest, UpstrokeError>)
        ensures
            match self.worktree_spec(*slot) {
                Some(w) => r matches Ok(m) && *m == w.index.manifest,
                None => r matches Err(e) && e.message_spec() == no_worktree_text(slot_name_spec(*slot)),
            },
    {
        match self.worktree_index(slot) {
            Some(i) => Ok(&self.worktrees[i].index.manifest),
            None => Err(Self::no_worktree(slot)),
        }
    }

    fn take_worktree(&mut self, i: usize) -> (w: Worktree)
        requires
            i < old(self).worktrees.len(),
        ensures
            w == old(self).worktrees@[i as int],
            final(self).worktrees@ == old(self).worktrees@.remove(i as int),
            final(self).repo == old(self).repo,
            final(self).intents == old(self).intents,
            final(self).root == old(self).root,
            final(self).conflicts == old(self).conflicts,
    {
        self.worktrees.remove(i)
    }

    fn put_worktree(&mut self, i: usize, w: Worktree, Ghost(before): Ghost<Seq<Worktree>>)
        requires
            i < before.len(),
            old(self).worktrees@ == before.remove(i as int),
            slot_name_spec(before[i as int].slot) == slot_name_spec(w.slot),
            forall|j: int| i < j < before.len() ==> slot_name_spec((#[trigger] before[j]).slot) != slot_name_spec(w.slot),
        ensures
            final(self).repo == old(self).repo,
            final(self).intents == old(self).intents,
            final(self).root == old(self).root,
            final(self).conflicts == old(self).conflicts,
            worktree_at(final(self).worktrees@, slot_name_spec(w.slot)) == Some(w),
            forall|name: Seq<char>| name != slot_name_spec(w.slot) ==> #[trigger] worktree_at(final(self).worktrees@, name)
                == worktree_at(before, name),
    {
        let ghost gw = w;
        self.worktrees.insert(i, w);
        proof {
            assert(self.worktrees@ =~= before.update(i as int, gw));
            lemma_worktree_at_update(before, i as int, gw);
        }
    }

    /// Stages `resolutions` and the worktree's edits in `slot`'s index; the
    /// staging removes the worker's resolution manifest.
    pub fn candidate_stage(&mut self, hooks: &mut Hooks, slot: &Slot, resolutions: &Vec<DeclaredResolution>) -> (r: Result<(), UpstrokeError>)
        ensures
            final(self).repo == old(self).repo,
            final(self).intents == old(self).intents,
            r is Ok <==> old(self).worktree_spec(*slot) is Some && old(hooks).armed != Some(
                EffectSiteId::Object(ObjectSite::CandidateStage),
            ),
            r is Ok ==> (old(self).worktree_spec(*slot) matches Some(w) && final(self).worktree_spec(*slot) matches Some(nw)
                && nw.slot == w.slot && nw.head == w.head && nw.tree == w.tree
                && nw.index.manifest == ResolutionManifest::Absent
                && nw.index.dirty == (w.index.dirty || resolutions@.len() > 0)
                && (forall|p: Seq<char>| #[trigger] views(nw.index.unmerged@).contains(p) <==> views(w.index.unmerged@).contains(p)
                    && !staged_names(resolutions@, p))
                && (forall|p: Seq<char>| #[trigger] views(nw.index.resolved@).contains(p) <==> views(w.index.resolved@).contains(p)
                    || staged_names(resolutions@, p))
                && crate::resolution::staged_views(nw.index.staged@) == crate::resolution::staged_views(resolutions@)),
            r is Ok ==> forall|name: Seq<char>| name != slot_name_spec(*slot) ==> #[trigger] worktree_at(final(self).worktrees@, name)
                == worktree_at(old(self).worktrees@, name),
            r is Err ==> *final(self) == *old(self),
            old(self).worktree_spec(*slot) is None ==> (r matches Err(e) && e.message_spec() == no_worktree_text(slot_name_spec(*slot))),
            final(hooks).trace@.len() >= old(hooks).trace@.len(),
            final(hooks).trace@.subrange(0, old(hooks).trace@.len() as int) == old(hooks).trace@,
            r is Ok ==> final(hooks).armed == old(hooks).armed,
    {
        let i = match self.worktree_index(slot) {
            Some(i) => i,
            None => {
                return Err(Self::no_worktree(slot));
            },
        };
        let site = EffectSiteId::Object(ObjectSite::CandidateStage);
        hooks.enter(site)?;
        let ghost old_w = self.worktrees@[i as int];
        let ghost before = self.worktrees@;
        let mut w = self.take_worktree(i);
        let mut unmerged: Vec<String> = Vec::new();
        let n = w.index.unmerged.len();
        let mut j: usize = 0;
        while j < n
            invariant
                n == w.index.unmerged.len(),
                w.index.unmerged@ == old_w.index.unmerged@,
                j <= n,
                forall|p: Seq<char>| #[trigger] views(unmerged@).contains(p) <==> (views(w.index.unmerged@.take(j as int)).contains(p)
                    && !staged_names(resolutions@, p)),
            decreases n - j,
        {
            let ghost before = unmerged@;
            let ghost x = w.index.unmerged@[j as int];
            proof {
                lemma_views_push(w.index.unmerged@.take(j as int), x);
                assert(w.index.unmerged@.take(j + 1) =~= w.index.unmerged@.take(j as int).push(x));
            }
            let keep = !staged_names_exec(resolutions, w.index.unmerged[j].as_str());
            if keep {
                proof { lemma_views_push(unmerged@, x); }
                unmerged.push(w.index.unmerged[j].clone());
            }
            proof {
                assert forall|p: Seq<char>| #[trigger] views(unmerged@).contains(p) <==> (views(w.index.unmerged@.take(j + 1)).contains(p)
                    && !staged_names(resolutions@, p)) by {
                    lemma_contains_push(views(w.index.unmerged@.take(j as int)), x@, p);
                    lemma_contains_push(views(before), x@, p);
                }
            }
            j = j + 1;
        }
        proof { assert(w.index.unmerged@.take(n as int) =~= w.index.unmerged@); }
        let mut resolved = copy_strings(&w.index.resolved);
        let m = resolutions.len();
        let mut k: usize = 0;
        while k < m
            invariant
                m == resolutions.len(),
                k <= m,
                w.index.resolved@ == old_w.index.resolved@,
                forall|p: Seq<char>| #[trigger] views(resolved@).contains(p) <==> (views(w.index.resolved@).contains(p)
                    || staged_names(resolutions@.take(k as int), p)),
            decreases m - k,
        {
            let ghost before = resolved@;
            proof {
                lemma_views_push(resolved@, resolutions@[k as int].path);
                assert(resolutions@.take(k + 1) =~= resolutions@.take(k as int).push(resolutions@[k as int]));
                assert forall|p: Seq<char>| staged_names(resolutions@.take(k + 1), p) <==> (staged_names(resolutions@.take(k as int), p)
                    || resolutions@[k as int].path@ == p) by {
                    if staged_names(resolutions@.take(k + 1), p) {
                        let x = choose|x: int| 0 <= x < k + 1 && (#[trigger] resolutions@.take(k + 1)[x]).path@ == p;
                        if x < k {
                            assert(resolutions@.take(k as int)[x] == resolutions@.take(k + 1)[x]);
                        }
                    }
                    if staged_names(resolutions@.take(k as int), p) {
                        let x = choose|x: int| 0 <= x < k && (#[trigger] resolutions@.take(k as int)[x]).path@ == p;
                        assert(resolutions@.take(k as int)[x] == resolutions@.take(k + 1)[x]);
                    }
                    if resolutions@[k as int].path@ == p {
                        assert(resolutions@.take(k + 1)[k as int] == resolutions@[k as int]);
                    }
                }
            }
            resolved.push(resolutions[k].path.clone());
            proof {
                assert forall|p: Seq<char>| #[trigger] views(resolved@).contains(p) <==> (views(w.index.resolved@).contains(p)
                    || staged_names(resolutions@.take(k + 1), p)) by {
                    lemma_contains_push(views(before), resolutions@[k as int].path@, p);
                }
            }
            k = k + 1;
        }
        proof { assert(resolutions@.take(m as int) =~= resolutions@); }
        w.index.unmerged = unmerged;
        w.index.resolved = resolved;
        w.index.staged = copy_resolutions(resolutions);
        w.index.manifest = ResolutionManifest::Absent;
        w.index.dirty = w.index.dirty || resolutions.len() > 0;
        self.put_worktree(i, w, Ghost(before));
        hooks.leave(site);
        Ok(())
    }

    /// Writes the tree `slot`'s index records: refused while the index
    /// holds unmerged entries; a changed index is written as a new tree.
    pub fn candidate_write_tree(&mut self, hooks: &mut Hooks, slot: &Slot) -> (r: Result<String, UpstrokeError>)
        ensures
            final(self).intents == old(self).intents,
            final(self).repo.refs == old(self).repo.refs,
            r is Ok <==> (old(self).worktree_spec(*slot) matches Some(w) && w.index.unmerged@.len() == 0) && old(hooks).armed
                != Some(EffectSiteId::Object(ObjectSite::CandidateWriteTree)),
            r matches Ok(tree) ==> (old(self).worktree_spec(*slot) matches Some(w) && final(self).worktree_spec(*slot) matches Some(
                nw,
            ) && nw.tree@ == tree@ && !nw.index.dirty && nw.index.unmerged == w.index.unmerged && nw.index.resolved == w.index.resolved
                && nw.index.staged == w.index.staged
                && nw.index.manifest == w.index.manifest && nw.head == w.head && (if w.index.dirty {
                final(self).repo.object_spec(tree@) == Some(ObjectValue::Tree)
            } else {
                tree@ == w.tree@ && final(self).repo == old(self).repo
            })),
            r is Ok ==> forall|name: Seq<char>| name != slot_name_spec(*slot) ==> #[trigger] worktree_at(final(self).worktrees@, name)
                == worktree_at(old(self).worktrees@, name),
            r is Err ==> *final(self) == *old(self),
            (old(self).worktree_spec(*slot) matches Some(w) && w.index.unmerged@.len() > 0) ==> (r matches Err(e)
                && e.message_spec() == unmerged_left_text(slot_name_spec(*slot))),
            final(hooks).trace@.len() >= old(hooks).trace@.len(),
            final(hooks).trace@.subrange(0, old(hooks).trace@.len() as int) == old(hooks).trace@,
            r is Ok ==> final(hooks).armed == old(hooks).armed,
    {
        let i = match self.worktree_index(slot) {
            Some(i) => i,
            None => {
                return Err(Self::no_worktree(slot));
            },
        };
        if self.worktrees[i].index.unmerged.len() > 0 {
            let mut message = String::from_str("the index of slot `");
            message.append(slot.name().as_str());
            message.append("` holds unmerged entries, and `git write-tree` refuses it");
            return Err(UpstrokeError::Git { message });
        }
        let site = EffectSiteId::Object(ObjectSite::CandidateWriteTree);
        hooks.enter(site)?;
        if !self.worktrees[i].index.dirty {
            let tree = self.worktrees[i].tree.clone();
            hooks.leave(site);
            return Ok(tree);
        }
        let tree = self.repo.write_tree();
        let ghost before = self.worktrees@;
        let mut w = self.take_worktree(i);
        w.tree = tree.clone();
        w.index.dirty = false;
        self.put_worktree(i, w, Ghost(before));
        hooks.leave(site);
        Ok(tree)
    }
}

pub proof fn lemma_worktree_at_update(worktrees: Seq<Worktree>, i: int, w: Worktree)
    requires
        0 <= i < worktrees.len(),
        slot_name_spec(worktrees[i].slot) == slot_name_spec(w.slot),
        forall|j: int| i < j < worktrees.len() ==> slot_name_spec((#[trigger] worktrees[j]).slot) != slot_name_spec(w.slot),
    ensures
        worktree_at(worktrees.update(i, w), slot_name_spec(w.slot)) == Some(w),
        forall|name: Seq<char>| name != slot_name_spec(w.slot) ==> #[trigger] worktree_at(worktrees.update(i, w), name)
            == worktree_at(worktrees, name),
    decreases worktrees.len(),
{
    let updated = worktrees.update(i, w);
    let name = slot_name_spec(w.slot);
    if i < worktrees.len() - 1 {
        let shorter = worktrees.drop_last();
        assert(updated.drop_last() =~= shorter.update(i, w));
        assert(slot_name_spec(worktrees[worktrees.len() - 1].slot) != name);
        assert forall|j: int| i < j < shorter.len() implies slot_name_spec((#[trigger] shorter[j]).slot) != name by {
            assert(shorter[j] == worktrees[j]);
        }
        lemma_worktree_at_update(shorter, i, w);
    } else {
        assert(updated.drop_last() =~= worktrees.drop_last());
    }
    assert forall|other: Seq<char>| other != name implies #[trigger] worktree_at(updated, other) == worktree_at(worktrees, other) by {
        if i < worktrees.len() - 1 {
            let shorter = worktrees.drop_last();
            assert(updated.drop_last() =~= shorter.update(i, w));
            assert(updated.last() == worktrees.last());
            assert(worktree_at(shorter.update(i, w), other) == worktree_at(shorter, other));
        } else {
            assert(updated.drop_last() =~= worktrees.drop_last());
        }
    }
}

pub proof fn lemma_contains_push(s: Seq<Seq<char>>, x: Seq<char>, p: Seq<char>)
    ensures
        s.push(x).contains(p) <==> (s.contains(p) || x == p),
{
    if s.push(x).contains(p) {
        let i = choose|i: int| 0 <= i < s.push(x).len() && s.push(x)[i] == p;
        if i < s.len() {
            assert(s[i] == p);
        }
    }
    if s.contains(p) {
        let i = choose|i: int| 0 <= i < s.len() && s[i] == p;
        assert(s.push(x)[i] == p);
    }
    if x == p {
        assert(s.push(x)[s.len() as int] == p);
    }
}

impl WorkspaceManager {
    /// Verifies that `slot`'s worktree exists and shows what `quiescence`
    /// asks; the check crosses `Worktree.Verify`.
    pub fn verify_worktree(&self, hooks: &mut Hooks, slot: &Slot, quiescence: &Quiescence) -> (r: Result<Result<(), VerifyFailure>, UpstrokeError>)
        ensures
            r is Ok <==> old(hooks).armed != Some(EffectSiteId::Worktree(WorktreeSite::Verify)),
            r matches Ok(v) ==> match self.worktree_spec(*slot) {
                None => v == Err::<(), VerifyFailure>(VerifyFailure::Missing),
                Some(w) => if quiescent(w, self.repo, *quiescence) {
                    v is Ok
                } else {
                    v == Err::<(), VerifyFailure>(VerifyFailure::Unquiescent)
                },
            },
            final(hooks).trace@.len() >= old(hooks).trace@.len(),
            final(hooks).trace@.subrange(0, old(hooks).trace@.len() as int) == old(hooks).trace@,
            r is Ok ==> final(hooks).armed == old(hooks).armed,
    {
        let site = EffectSiteId::Worktree(WorktreeSite::Verify);
        hooks.enter(site)?;
        let verdict = match self.worktree_index(slot) {
            None => Err(VerifyFailure::Missing),
            Some(i) => {
                let w = &self.worktrees[i];
                let shape = !w.index.dirty && w.index.unmerged.len() == 0;
                let matches = match quiescence {
                    Quiescence::AtBase(base) => same_text(w.head.as_str(), base.as_str()) && match self.repo.commit_tree_sha(base.as_str()) {
                        Some(tree) => same_text(tree.as_str(), w.tree.as_str()),
                        None => false,
                    },
                    Quiescence::HoldsTree(tree) => same_text(w.tree.as_str(), tree.as_str()),
                };
                if shape && matches {
                    Ok(())
                } else {
                    Err(VerifyFailure::Unquiescent)
                }
            },
        };
        hooks.leave(site);
        Ok(verdict)
    }

    fn conflict_index(&self, commit: &str) -> (i: Option<usize>)
        ensures
            match i {
                Some(i) => i < self.conflicts.len() && conflict_at(self.conflicts@, commit@) == Some(views(self.conflicts@[i as int].1@)),
                None => conflict_at(self.conflicts@, commit@) is None,
            },
    {
        let mut i = self.conflicts.len();
        proof {
            assert(self.conflicts@.take(i as int) =~= self.conflicts@);
        }
        while i > 0
            invariant
                i <= self.conflicts.len(),
                conflict_at(self.conflicts@, commit@) == conflict_at(self.conflicts@.take(i as int), commit@),
            decreases i,
        {
            proof {
                assert(self.conflicts@.take(i as int).drop_last() =~= self.conflicts@.take(i - 1));
            }
            if same_text(self.conflicts[i - 1].0.as_str(), commit) {
                return Some(i - 1);
            }
            i = i - 1;
        }
        None
    }

    /// Applies commit `source` to `slot`'s worktree without committing it:
    /// already present where its tree is the worktree's, conflicted where the
    /// repository records a conflict for it, applied cleanly otherwise.
    pub fn repair_materialize(&mut self, hooks: &mut Hooks, slot: &Slot, source: &str) -> (r: Result<Materialized, UpstrokeError>)
        ensures
            final(self).root == old(self).root,
            final(self).repo == old(self).repo,
            final(self).intents == old(self).intents,
            r is Ok <==> old(self).worktree_spec(*slot) is Some && (old(self).repo.object_spec(source@) matches Some(
                ObjectValue::Commit { .. },
            )) && old(hooks).armed != Some(EffectSiteId::Object(ObjectSite::RepairMaterialize)),
            old(self).worktree_spec(*slot) is Some && !(old(self).repo.object_spec(source@) matches Some(ObjectValue::Commit { .. }))
                ==> (r matches Err(UpstrokeError::Git { message }) && message@ == not_a_commit_text(source@)),
            r matches Ok(m) ==> (old(self).worktree_spec(*slot) matches Some(w) && old(self).repo.object_spec(source@) matches Some(
                ObjectValue::Commit { tree, .. },
            ) && final(self).worktree_spec(*slot) matches Some(nw) && m == (if tree == w.tree@ {
                Materialized::Empty
            } else if conflict_at(old(self).conflicts@, source@) is Some {
                Materialized::Conflict
            } else {
                Materialized::Clean
            }) && nw.slot == w.slot && nw.head == w.head && nw.tree@ == w.tree@ && (m == Materialized::Conflict ==> views(nw.index.unmerged@)
                == conflict_at(old(self).conflicts@, source@).unwrap()) && (m == Materialized::Clean ==> nw.index.dirty)),
            r is Ok ==> forall|name: Seq<char>| name != slot_name_spec(*slot) ==> #[trigger] worktree_at(final(self).worktrees@, name)
                == worktree_at(old(self).worktrees@, name),
            r is Err ==> *final(self) == *old(self),
            final(hooks).trace@.len() >= old(hooks).trace@.len(),
            final(hooks).trace@.subrange(0, old(hooks).trace@.len() as int) == old(hooks).trace@,
            r is Ok ==> final(hooks).armed == old(hooks).armed,
    {
        let i = match self.worktree_index(slot) {
            Some(i) => i,
            None => {
                return Err(Self::no_worktree(slot));
            },
        };
        let tree = match self.repo.commit_tree_sha(source) {
            Some(tree) => tree,
            None => {
                let mut message = String::from_str("`");
                message.append(source);
                message.append("` is not a commit in this repository");
                return Err(UpstrokeError::Git { message });
            },
        };
        let site = EffectSiteId::Object(ObjectSite::RepairMaterialize);
        hooks.enter(site)?;
        if same_text(tree.as_str(), self.worktrees[i].tree.as_str()) {
            hooks.leave(site);
            return Ok(Materialized::Empty);
        }
        let conflict = self.conflict_index(source);
        let ghost before = self.worktrees@;
        let mut w = self.take_worktree(i);
        let observed = match conflict {
            Some(c) => {
                w.index.unmerged = copy_strings(&self.conflicts[c].1);
                Materialized::Conflict
            },
            None => {
                w.index.dirty = true;
                Materialized::Clean
            },
        };
        self.put_worktree(i, w, Ghost(before));
        hooks.leave(site);
        Ok(observed)
    }

    /// Takes a verification snapshot of `input` named `name`: a tree input
    /// is first committed as an ephemeral commit, then the intent is written
    /// and the snapshot's worktree added at the commit.
    pub fn add_snapshot(&mut self, hooks: &mut Hooks, name: &SnapshotName, input: &SnapshotInput) -> (r: Result<Snapshot, UpstrokeError>)
        ensures
            final(self).root == old(self).root,
            final(self).repo.refs == old(self).repo.refs,
            r matches Ok(snapshot) ==> snapshot.slot == (Slot::Snapshot { name: name.0 }) && snapshot.path@ == old(self).root@ + "/"@
                + slot_name_spec(snapshot.slot) && final(self).has_intent_spec(snapshot.slot) && final(self).has_worktree_spec(snapshot.slot)
                && match *input {
                SnapshotInput::Commit(c) => snapshot.ephemeral is None && (final(self).worktree_spec(snapshot.slot) matches Some(w)
                    && w.head@ == c.view_text()),
                SnapshotInput::Tree { tree, parent } => snapshot.ephemeral matches Some(e) && final(self).repo.object_spec(e@) == Some(
                    ObjectValue::Commit { parent: Some(parent.view_text()), tree: tree.view_text() },
                ) && (final(self).worktree_spec(snapshot.slot) matches Some(w) && w.head@ == e@),
            },
            r is Ok <==> snapshot_owed(*old(self), old(hooks).armed, Slot::Snapshot { name: name.0 }, *input),
            r is Ok ==> forall|n: Seq<char>| n != "snapshot-"@ + name.0@ ==> #[trigger] worktree_at(final(self).worktrees@, n)
                == worktree_at(old(self).worktrees@, n) && has_intent(final(self).intents@, n) == has_intent(old(self).intents@, n),
            r is Ok ==> final(hooks).armed == old(hooks).armed,
            final(hooks).trace@.len() >= old(hooks).trace@.len(),
            final(hooks).trace@.subrange(0, old(hooks).trace@.len() as int) == old(hooks).trace@,
    {
        let slot = Slot::Snapshot { name: name.0.clone() };
        let (commit, ephemeral) = match input {
            SnapshotInput::Tree { tree, parent } => {
                let site = EffectSiteId::Object(ObjectSite::SnapshotCommitTree);
                hooks.enter(site)?;
                let id = self.repo.write_commit(tree.as_str(), parent.as_str());
                hooks.leave(site);
                (id.clone(), Some(id))
            },
            SnapshotInput::Commit(c) => (String::from_str(c.as_str()), None),
        };
        let ghost t1 = hooks.trace@;
        assert(t1.subrange(0, old(hooks).trace@.len() as int) =~= old(hooks).trace@);
        let written = self.write_intent(hooks, &slot);
        proof { lemma_trace_extends(old(hooks).trace@, t1, hooks.trace@); }
        written?;
        let ghost t2 = hooks.trace@;
        let added = self.add_worktree(hooks, &slot, commit.as_str());
        proof { lemma_trace_extends(old(hooks).trace@, t2, hooks.trace@); }
        let path = added?;
        proof {
            lemma_worktree_at(self.worktrees@, slot_name_spec(slot));
        }
        Ok(Snapshot { slot, path, ephemeral })
    }

    /// Removes a snapshot's worktree, then its intent.
    pub fn remove_snapshot(&mut self, hooks: &mut Hooks, snapshot: &Snapshot) -> (r: Result<(), UpstrokeError>)
        ensures
            final(self).repo == old(self).repo,
            final(self).root == old(self).root,
            r is Ok ==> !final(self).has_worktree_spec(snapshot.slot) && !final(self).has_intent_spec(snapshot.slot),
            r is Ok ==> forall|name: Seq<char>| name != slot_name_spec(snapshot.slot) ==> #[trigger] worktree_at(final(self).worktrees@, name)
                == worktree_at(old(self).worktrees@, name) && has_intent(final(self).intents@, name) == has_intent(old(self).intents@, name),
            final(hooks).trace@.len() >= old(hooks).trace@.len(),
            final(hooks).trace@.subrange(0, old(hooks).trace@.len() as int) == old(hooks).trace@,
            r is Ok ==> final(hooks).armed == old(hooks).armed,
            r is Ok <==> reclaimable(snapshot.slot, old(hooks).armed),
            slot_escapes(snapshot.slot) ==> (r matches Err(e) && e.message_spec() == escapes_text(slot_name_spec(snapshot.slot))),
    {
        self.remove_worktree(hooks, &snapshot.slot)?;
        let ghost t1 = hooks.trace@;
        let removed = self.remove_intent(hooks, &snapshot.slot);
        proof { lemma_trace_extends(old(hooks).trace@, t1, hooks.trace@); }
        removed
    }
}

/// The texts of a list of pairs of strings.
pub open spec fn pair_views(v: Seq<(String, String)>) -> Seq<(Seq<char>, Seq<char>)> {
    v.map_values(|p: (String, String)| (p.0@, p.1@))
}

/// The direct refs under `namespace` among the entries `written`, in their
/// order, each with its target as `refs` holds it.
pub open spec fn listed_under(refs: Seq<crate::refs::RefEntry>, written: Seq<crate::refs::RefEntry>, namespace: Seq<char>) -> Seq<(Seq<char>, Seq<char>)>
    decreases written.len(),
{
    if written.len() == 0 {
        Seq::empty()
    } else {
        let name = written.last().name@;
        let rest = listed_under(refs, written.drop_last(), namespace);
        if starts_with(name, namespace) {
            match crate::refs::ref_at(refs, name) {
                Some(RefValue::Direct(t)) => rest.push((name, t)),
                _ => rest,
            }
        } else {
            rest
        }
    }
}

/// Whether a snapshot of `input` can be taken in `slot`, with `armed` the
/// site the hooks hold armed: the slot has no worktree, the input commits
/// (or is a commit), and no site the snapshot crosses is armed.
pub open spec fn snapshot_owed(m: WorkspaceManager, armed: Option<EffectSiteId>, slot: Slot, input: SnapshotInput) -> bool {
    &&& match input {
        SnapshotInput::Tree { .. } => armed != Some(EffectSiteId::Object(ObjectSite::SnapshotCommitTree)),
        SnapshotInput::Commit(c) => m.repo.object_spec(c.view_text()) matches Some(ObjectValue::Commit { .. }),
    }
    &&& armed != Some(slot.site_spec(WorktreeSite::WriteIntent, SnapshotSite::WriteIntent))
    &&& armed != Some(slot.site_spec(WorktreeSite::Add, SnapshotSite::Add))
    &&& !m.has_worktree_spec(slot)
}

/// Whether a snapshot of `input` named `name` can be taken: as
/// `snapshot_owed`, for the snapshot slot of that name.
pub open spec fn snapshot_named_owed(m: WorkspaceManager, armed: Option<EffectSiteId>, name: Seq<char>, input: SnapshotInput) -> bool {
    &&& match input {
        SnapshotInput::Tree { .. } => armed != Some(EffectSiteId::Object(ObjectSite::SnapshotCommitTree)),
        SnapshotInput::Commit(c) => m.repo.object_spec(c.view_text()) matches Some(ObjectValue::Commit { .. }),
    }
    &&& armed != Some(EffectSiteId::Snapshot(SnapshotSite::WriteIntent))
    &&& armed != Some(EffectSiteId::Snapshot(SnapshotSite::Add))
    &&& !has_worktree(m.worktrees@, "snapshot-"@ + name)
}

/// Whether `slot`'s worktree and intent can be removed, with `armed` the
/// site the hooks hold armed: its name stays inside the execution root and
/// neither removal's site is armed.
pub open spec fn reclaimable(slot: Slot, armed: Option<EffectSiteId>) -> bool {
    &&& !slot_escapes(slot)
    &&& armed != Some(slot.site_spec(WorktreeSite::Remove, SnapshotSite::Remove))
    &&& armed != Some(slot.site_spec(WorktreeSite::RemoveIntent, SnapshotSite::RemoveIntent))
}

impl WorkspaceManager {
    /// Reclaims every slot an intent names as residue: its worktree, then
    /// its intent. Returns the slots it reclaimed.
    pub fn reclaim_intents(&mut self, hooks: &mut Hooks) -> (r: Result<Vec<Slot>, UpstrokeError>)
        ensures
            final(self).repo == old(self).repo,
            r matches Ok(slots) ==> slots@ == old(self).intents@ && forall|i: int| 0 <= i < slots@.len()
                ==> !final(self).has_worktree_spec(#[trigger] slots@[i]) && !final(self).has_intent_spec(slots@[i]),
            final(hooks).trace@.len() >= old(hooks).trace@.len(),
            final(hooks).trace@.subrange(0, old(hooks).trace@.len() as int) == old(hooks).trace@,
            r is Ok <==> forall|i: int| 0 <= i < old(self).intents@.len() ==> #[trigger] reclaimable(old(self).intents@[i], old(hooks).armed),
    {
        let slots = self.intents();
        let n = slots.len();
        let mut i: usize = 0;
        while i < n
            invariant
                n == slots@.len(),
                slots@ == old(self).intents@,
                self.repo == old(self).repo,
                i <= n,
                hooks.trace@.len() >= old(hooks).trace@.len(),
                hooks.trace@.subrange(0, old(hooks).trace@.len() as int) == old(hooks).trace@,
                forall|j: int| 0 <= j < i ==> !self.has_intent_spec(#[trigger] slots@[j]) && !self.has_worktree_spec(slots@[j]),
                hooks.armed == old(hooks).armed,
                forall|j: int| 0 <= j < i ==> #[trigger] reclaimable(slots@[j], old(hooks).armed),
            decreases n - i,
        {
            let ghost before = *self;
            let ghost t0 = hooks.trace@;
            let removed = self.remove_worktree(hooks, &slots[i]);
            proof {
                lemma_trace_extends(old(hooks).trace@, t0, hooks.trace@);
                if removed is Err {
                    assert(!reclaimable(slots@[i as int], old(hooks).armed));
                    assert(old(self).intents@[i as int] == slots@[i as int]);
                }
            }
            removed?;
            let ghost middle = *self;
            let ghost t1 = hooks.trace@;
            let dropped = self.remove_intent(hooks, &slots[i]);
            proof {
                lemma_trace_extends(old(hooks).trace@, t1, hooks.trace@);
                if dropped is Err {
                    assert(!reclaimable(slots@[i as int], old(hooks).armed));
                    assert(old(self).intents@[i as int] == slots@[i as int]);
                }
            }
            dropped?;
            proof {
                assert forall|j: int| 0 <= j < i + 1 implies !self.has_intent_spec(#[trigger] slots@[j]) && !self.has_worktree_spec(slots@[j]) by {
                    let name = slot_name_spec(slots@[j]);
                    if name != slot_name_spec(slots@[i as int]) {
                        lemma_worktree_at(before.worktrees@, name);
                        lemma_worktree_at(middle.worktrees@, name);
                    } else {
                        lemma_worktree_at(middle.worktrees@, name);
                    }
                }
            }
            i = i + 1;
        }
        Ok(slots)
    }
}

} // verus!
