//! The repository's refs and objects as the engine observes them: each ref a
//! direct or symbolic target, each object a commit (its parent and tree) or a
//! tree.

use vstd::prelude::*;
use crate::effects::{extended_at, EffectSiteId, Hooks, RefSite};
use crate::error::UpstrokeError;
use crate::text::same_text;

verus! {

/// What a ref points at.
#[derive(Clone, Debug, PartialEq, Eq)]
pub enum RefTarget {
    Direct(String),
    Symbolic(String),
}

/// A ref's value, as text.
pub enum RefValue {
    Direct(Seq<char>),
    Symbolic(Seq<char>),
}

impl RefTarget {
    pub open spec fn value(self) -> RefValue {
        match self {
            RefTarget::Direct(s) => RefValue::Direct(s@),
            RefTarget::Symbolic(s) => RefValue::Symbolic(s@),
        }
    }
}

#[derive(Clone, Debug, PartialEq, Eq)]
pub struct RefEntry {
    pub name: String,
    pub target: RefTarget,
}

/// What an object is.
#[derive(Clone, Debug, PartialEq, Eq)]
pub enum ObjectKind {
    Commit { parent: Option<String>, tree: String },
    Tree,
}

/// An object, as text.
pub enum ObjectValue {
    Commit { parent: Option<Seq<char>>, tree: Seq<char> },
    Tree,
}

impl ObjectKind {
    pub open spec fn value(self) -> ObjectValue {
        match self {
            ObjectKind::Commit { parent, tree } => ObjectValue::Commit {
                parent: match parent {
                    Some(p) => Some(p@),
                    None => None,
                },
                tree: tree@,
            },
            ObjectKind::Tree => ObjectValue::Tree,
        }
    }
}

#[derive(Clone, Debug, PartialEq, Eq)]
pub struct ObjectRecord {
    pub id: String,
    pub kind: ObjectKind,
}

/// The value of ref `name`: the last entry of that name.
pub open spec fn ref_at(refs: Seq<RefEntry>, name: Seq<char>) -> Option<RefValue>
    decreases refs.len(),
{
    if refs.len() == 0 {
        None
    } else if refs.last().name@ == name {
        Some(refs.last().target.value())
    } else {
        ref_at(refs.drop_last(), name)
    }
}

/// The object of id `id`: the last record of that id.
pub open spec fn object_at(objects: Seq<ObjectRecord>, id: Seq<char>) -> Option<ObjectValue>
    decreases objects.len(),
{
    if objects.len() == 0 {
        None
    } else if objects.last().id@ == id {
        Some(objects.last().kind.value())
    } else {
        object_at(objects.drop_last(), id)
    }
}

/// Whether `c` is a hexadecimal digit.
pub open spec fn is_hex_digit(c: char) -> bool {
    ('0' <= c <= '9') || ('a' <= c <= 'f') || ('A' <= c <= 'F')
}

/// Whether `s` is a full object id: forty (SHA-1) or sixty-four (SHA-256)
/// hexadecimal digits.
pub open spec fn is_object_id_spec(s: Seq<char>) -> bool {
    (s.len() == 40 || s.len() == 64) && forall|i: int| 0 <= i < s.len() ==> is_hex_digit(#[trigger] s[i])
}

/// Whether `s` is a full object id.
pub fn is_object_id(s: &str) -> (b: bool)
    ensures
        b == is_object_id_spec(s@),
{
    let n = s.unicode_len();
    if n != 40 && n != 64 {
        return false;
    }
    let mut i: usize = 0;
    while i < n
        invariant
            n == s@.len(),
            i <= n,
            forall|j: int| 0 <= j < i ==> is_hex_digit(#[trigger] s@[j]),
        decreases n - i,
    {
        let c = s.get_char(i);
        if !(('0' <= c && c <= '9') || ('a' <= c && c <= 'f') || ('A' <= c && c <= 'F')) {
            return false;
        }
        i = i + 1;
    }
    true
}

/// Whether `s` starts with `prefix`.
pub open spec fn starts_with(s: Seq<char>, prefix: Seq<char>) -> bool {
    prefix.len() <= s.len() && s.subrange(0, prefix.len() as int) == prefix
}

/// Whether `s` starts with `prefix`.
pub fn has_prefix(s: &str, prefix: &str) -> (b: bool)
    ensures
        b == starts_with(s@, prefix@),
{
    let n = prefix.unicode_len();
    if n > s.unicode_len() {
        return false;
    }
    let mut i: usize = 0;
    while i < n
        invariant
            n == prefix@.len(),
            n <= s@.len(),
            i <= n,
            forall|j: int| 0 <= j < i ==> s@[j] == prefix@[j],
        decreases n - i,
    {
        if s.get_char(i) != prefix.get_char(i) {
            assert(s@.subrange(0, n as int)[i as int] != prefix@[i as int]);
            return false;
        }
        i = i + 1;
    }
    assert(s@.subrange(0, n as int) =~= prefix@);
    true
}

/// The repository as the engine sees it: its refs and its objects, and the
/// number of objects the engine has written, which names the next one.
#[derive(Clone, Debug, PartialEq, Eq)]
pub struct Repository {
    pub refs: Vec<RefEntry>,
    pub objects: Vec<ObjectRecord>,
    pub written: u64,
}

/// `refs` without the entries named `name`.
pub open spec fn without_ref(refs: Seq<RefEntry>, name: Seq<char>) -> Seq<RefEntry> {
    refs.filter(|e: RefEntry| e.name@ != name)
}

pub proof fn lemma_ref_at_without(refs: Seq<RefEntry>, name: Seq<char>, other: Seq<char>)
    ensures
        ref_at(without_ref(refs, name), other) == if other == name {
            None
        } else {
            ref_at(refs, other)
        },
    decreases refs.len(),
{
    reveal(Seq::filter);
    if refs.len() > 0 {
        lemma_ref_at_without(refs.drop_last(), name, other);
        assert(without_ref(refs, name) == if refs.last().name@ != name {
            without_ref(refs.drop_last(), name).push(refs.last())
        } else {
            without_ref(refs.drop_last(), name)
        });
        if refs.last().name@ != name {
            assert(without_ref(refs, name).drop_last() =~= without_ref(refs.drop_last(), name));
        }
    }
}

pub proof fn lemma_ref_at_push(refs: Seq<RefEntry>, e: RefEntry, other: Seq<char>)
    ensures
        ref_at(refs.push(e), other) == if other == e.name@ {
            Some(e.target.value())
        } else {
            ref_at(refs, other)
        },
{
    assert(refs.push(e).drop_last() =~= refs);
}

pub proof fn lemma_object_at_push(objects: Seq<ObjectRecord>, o: ObjectRecord, other: Seq<char>)
    ensures
        object_at(objects.push(o), other) == if other == o.id@ {
            Some(o.kind.value())
        } else {
            object_at(objects, other)
        },
{
    assert(objects.push(o).drop_last() =~= objects);
}

/// What reading `name` as a direct ref yields: its target, nothing, or the
/// refusal a symbolic ref earns.
pub open spec fn symbolic_text(name: Seq<char>, target: Seq<char>) -> Seq<char> {
    "`"@ + name + "` is a symbolic ref to `"@ + target + "`, and the engine reads and writes only direct refs"@
}

pub open spec fn exists_text(name: Seq<char>, target: Seq<char>) -> Seq<char> {
    "refusing to create `"@ + name + "`: it already exists at "@ + target
}

pub open spec fn exists_symbolic_text(name: Seq<char>, target: Seq<char>) -> Seq<char> {
    "refusing to create `"@ + name + "`: it already exists as a symbolic ref to "@ + target
}

pub open spec fn not_at_text(name: Seq<char>, old: Seq<char>) -> Seq<char> {
    "refusing to delete `"@ + name + "`: it is not a direct ref at "@ + old
}

pub open spec fn unexpected_text(name: Seq<char>, namespace: Seq<char>) -> Seq<char> {
    "unexpected ref `"@ + name + "` under `"@ + namespace + "`: nothing the run recorded accounts for it"@
}

/// `n` zero digits.
pub open spec fn zeros(n: nat) -> Seq<char> {
    Seq::new(n, |_i: int| '0')
}

/// The number the next written object takes, after `written` objects.
pub open spec fn next_number(written: u64) -> nat {
    if written < u64::MAX { (written + 1) as nat } else { u64::MAX as nat }
}

/// The id of the object numbered `n`: its decimal digits, zero-padded to forty.
pub open spec fn object_id_text(n: nat) -> Seq<char> {
    let d = crate::text::decimal(n);
    zeros(if d.len() < 40 { (40 - d.len()) as nat } else { 0 }) + d
}

/// Whether record `k` is the first whose id names a commit of `tree` on `parent`.
pub open spec fn is_first_commit(objects: Seq<ObjectRecord>, k: int, parent: Seq<char>, tree: Seq<char>) -> bool {
    &&& 0 <= k < objects.len()
    &&& object_at(objects, objects[k].id@) == Some(ObjectValue::Commit { parent: Some(parent), tree })
    &&& forall|j: int| 0 <= j < k ==> #[trigger] object_at(objects, objects[j].id@) != Some(
        ObjectValue::Commit { parent: Some(parent), tree },
    )
}

/// The id a commit of `tree` on `parent` takes in `repo`: that of the
/// commit already written, where there is one, else the next object's id.
pub open spec fn written_commit_id(repo: Repository, tree: Seq<char>, parent: Seq<char>) -> Seq<char> {
    if exists|k: int| is_first_commit(repo.objects@, k, parent, tree) {
        repo.objects@[choose|k: int| is_first_commit(repo.objects@, k, parent, tree)].id@
    } else {
        object_id_text(next_number(repo.written))
    }
}

impl Repository {
    pub fn new() -> (r: Repository)
        ensures
            r.refs@ == Seq::<RefEntry>::empty(),
            r.objects@ == Seq::<ObjectRecord>::empty(),
            r.written == 0,
    {
        Repository { refs: Vec::new(), objects: Vec::new(), written: 0 }
    }

    pub open spec fn ref_spec(self, name: Seq<char>) -> Option<RefValue> {
        ref_at(self.refs@, name)
    }

    pub open spec fn object_spec(self, id: Seq<char>) -> Option<ObjectValue> {
        object_at(self.objects@, id)
    }

    /// The entry index of ref `name`: the last one of that name.
    fn ref_index(&self, name: &str) -> (i: Option<usize>)
        ensures
            match i {
                Some(i) => i < self.refs.len() && self.refs@[i as int].name@ == name@
                    && ref_at(self.refs@, name@) == Some(self.refs@[i as int].target.value()),
                None => ref_at(self.refs@, name@) is None,
            },
    {
        let mut i = self.refs.len();
        proof {
            assert(self.refs@.take(i as int) =~= self.refs@);
        }
        while i > 0
            invariant
                i <= self.refs.len(),
                ref_at(self.refs@, name@) == ref_at(self.refs@.take(i as int), name@),
            decreases i,
        {
            proof {
                assert(self.refs@.take(i as int).drop_last() =~= self.refs@.take(i - 1));
            }
            if same_text(self.refs[i - 1].name.as_str(), name) {
                return Some(i - 1);
            }
            i = i - 1;
        }
        None
    }

    /// Reads `name` as a direct ref: its target, or `None` where it is absent;
    /// a symbolic ref refuses, naming its target.
    pub fn direct_ref_target(&self, name: &str) -> (r: Result<Option<String>, UpstrokeError>)
        ensures
            match self.ref_spec(name@) {
                None => r == Ok::<Option<String>, UpstrokeError>(None),
                Some(RefValue::Direct(t)) => r matches Ok(Some(found)) && found@ == t,
                Some(RefValue::Symbolic(t)) => r matches Err(UpstrokeError::Refused { message })
                    && message@ == symbolic_text(name@, t),
            },
    {
        match self.ref_index(name) {
            None => Ok(None),
            Some(i) => match &self.refs[i].target {
                RefTarget::Direct(t) => Ok(Some(t.clone())),
                RefTarget::Symbolic(t) => {
                    let mut message = String::from_str("`");
                    message.append(name);
                    message.append("` is a symbolic ref to `");
                    message.append(t.as_str());
                    message.append("`, and the engine reads and writes only direct refs");
                    Err(UpstrokeError::Refused { message })
                },
            },
        }
    }

    /// Creates `name` at `target` where it does not exist (Git's zero old
    /// value); where it exists, refuses and changes nothing.
    pub fn create_ref_zero_old(
        &mut self,
        hooks: &mut Hooks,
        site: RefSite,
        name: &str,
        target: &str,
    ) -> (r: Result<(), UpstrokeError>)
        ensures
            final(self).objects == old(self).objects,
            final(self).written == old(self).written,
            final(hooks).trace@.len() >= old(hooks).trace@.len(),
            final(hooks).trace@.subrange(0, old(hooks).trace@.len() as int) == old(hooks).trace@,
            extended_at(old(hooks).trace@, final(hooks).trace@, set![EffectSiteId::Ref(site)]),
            r is Ok ==> final(hooks).armed == old(hooks).armed,
            r is Ok <==> old(self).ref_spec(name@) is None && old(hooks).armed != Some(EffectSiteId::Ref(site)),
            r is Ok ==> forall|n: Seq<char>| #[trigger] final(self).ref_spec(n) == if n == name@ {
                Some(RefValue::Direct(target@))
            } else {
                old(self).ref_spec(n)
            },
            r is Err ==> final(self).refs == old(self).refs,
            old(self).ref_spec(name@) matches Some(RefValue::Direct(t)) ==> (r matches Err(UpstrokeError::Refused { message })
                && message@ == exists_text(name@, t)),
            old(self).ref_spec(name@) matches Some(RefValue::Symbolic(t)) ==> (r matches Err(UpstrokeError::Refused { message })
                && message@ == exists_symbolic_text(name@, t)),
            old(self).ref_spec(name@) is None && old(hooks).armed == Some(EffectSiteId::Ref(site)) ==> (r matches Err(e)
                && e.message_spec() == crate::effects::injected_text(EffectSiteId::Ref(site))),
    {
        match self.ref_index(name) {
            Some(i) => {
                let mut message = String::from_str("refusing to create `");
                message.append(name);
                match &self.refs[i].target {
                    RefTarget::Direct(t) => {
                        message.append("`: it already exists at ");
                        message.append(t.as_str());
                    },
                    RefTarget::Symbolic(t) => {
                        message.append("`: it already exists as a symbolic ref to ");
                        message.append(t.as_str());
                    },
                }
                return Err(UpstrokeError::Refused { message });
            },
            None => {},
        }
        let site_id = EffectSiteId::Ref(site);
        hooks.enter(site_id)?;
        let entry = RefEntry {
            name: String::from_str(name),
            target: RefTarget::Direct(String::from_str(target)),
        };
        proof {
            assert forall|n: Seq<char>| #[trigger] ref_at(self.refs@.push(entry), n) == if n == name@ {
                Some(RefValue::Direct(target@))
            } else {
                ref_at(self.refs@, n)
            } by {
                lemma_ref_at_push(self.refs@, entry, n);
            }
        }
        self.refs.push(entry);
        hooks.leave(site_id);
        Ok(())
    }

    /// Deletes `name` where it is a direct ref at `expected`; otherwise
    /// refuses and changes nothing.
    pub fn delete_ref_expected_old(
        &mut self,
        hooks: &mut Hooks,
        site: RefSite,
        name: &str,
        expected: &str,
    ) -> (r: Result<(), UpstrokeError>)
        ensures
            final(self).objects == old(self).objects,
            final(self).written == old(self).written,
            final(hooks).trace@.len() >= old(hooks).trace@.len(),
            final(hooks).trace@.subrange(0, old(hooks).trace@.len() as int) == old(hooks).trace@,
            extended_at(old(hooks).trace@, final(hooks).trace@, set![EffectSiteId::Ref(site)]),
            r is Ok ==> final(hooks).armed == old(hooks).armed,
            r is Ok <==> old(self).ref_spec(name@) == Some(RefValue::Direct(expected@))
                && old(hooks).armed != Some(EffectSiteId::Ref(site)),
            old(self).ref_spec(name@) != Some(RefValue::Direct(expected@)) ==> (r matches Err(e) && e.message_spec() == not_at_text(
                name@,
                expected@,
            )),
            r is Ok ==> forall|n: Seq<char>| #[trigger] final(self).ref_spec(n) == if n == name@ {
                None
            } else {
                old(self).ref_spec(n)
            },
            r is Err ==> final(self).refs == old(self).refs,
    {
        let at = match self.ref_index(name) {
            Some(i) => match &self.refs[i].target {
                RefTarget::Direct(t) => same_text(t.as_str(), expected),
                RefTarget::Symbolic(_) => false,
            },
            None => false,
        };
        if !at {
            let mut message = String::from_str("refusing to delete `");
            message.append(name);
            message.append("`: it is not a direct ref at ");
            message.append(expected);
            return Err(UpstrokeError::Refused { message });
        }
        let site_id = EffectSiteId::Ref(site);
        hooks.enter(site_id)?;
        let mut kept: Vec<RefEntry> = Vec::new();
        let n = self.refs.len();
        let mut i: usize = 0;
        while i < n
            invariant
                n == self.refs.len(),
                i <= n,
                kept@ == without_ref(self.refs@.take(i as int), name@),
            decreases n - i,
        {
            proof {
                reveal(Seq::filter);
                assert(self.refs@.take(i + 1).drop_last() =~= self.refs@.take(i as int));
            }
            if !same_text(self.refs[i].name.as_str(), name) {
                kept.push(self.refs[i].clone_entry());
            }
            i = i + 1;
        }
        proof {
            assert(self.refs@.take(n as int) =~= self.refs@);
            assert forall|other: Seq<char>| #[trigger] ref_at(kept@, other) == if other == name@ {
                None
            } else {
                ref_at(self.refs@, other)
            } by {
                lemma_ref_at_without(self.refs@, name@, other);
            }
        }
        self.refs = kept;
        hooks.leave(site_id);
        Ok(())
    }

    /// Whether `id` names an object.
    pub fn object_exists(&self, id: &str) -> (b: bool)
        ensures
            b == self.object_spec(id@) is Some,
    {
        self.object_index(id).is_some()
    }

    fn object_index(&self, id: &str) -> (i: Option<usize>)
        ensures
            match i {
                Some(i) => i < self.objects.len() && self.objects@[i as int].id@ == id@
                    && object_at(self.objects@, id@) == Some(self.objects@[i as int].kind.value()),
                None => object_at(self.objects@, id@) is None,
            },
    {
        let mut i = self.objects.len();
        proof {
            assert(self.objects@.take(i as int) =~= self.objects@);
        }
        while i > 0
            invariant
                i <= self.objects.len(),
                object_at(self.objects@, id@) == object_at(self.objects@.take(i as int), id@),
            decreases i,
        {
            proof {
                assert(self.objects@.take(i as int).drop_last() =~= self.objects@.take(i - 1));
            }
            if same_text(self.objects[i - 1].id.as_str(), id) {
                return Some(i - 1);
            }
            i = i - 1;
        }
        None
    }

    /// The parent of commit `id`, where `id` is a commit with one.
    pub fn commit_parent(&self, id: &str) -> (p: Option<String>)
        ensures
            match self.object_spec(id@) {
                Some(ObjectValue::Commit { parent: Some(parent), .. }) => p matches Some(found) && found@ == parent,
                _ => p is None,
            },
    {
        match self.object_index(id) {
            Some(i) => match &self.objects[i].kind {
                ObjectKind::Commit { parent: Some(parent), .. } => Some(parent.clone()),
                _ => None,
            },
            None => None,
        }
    }

    /// The tree of commit `id`, where `id` is a commit.
    pub fn commit_tree_sha(&self, id: &str) -> (t: Option<String>)
        ensures
            match self.object_spec(id@) {
                Some(ObjectValue::Commit { tree, .. }) => t matches Some(found) && found@ == tree,
                _ => t is None,
            },
    {
        match self.object_index(id) {
            Some(i) => match &self.objects[i].kind {
                ObjectKind::Commit { tree, .. } => Some(tree.clone()),
                _ => None,
            },
            None => None,
        }
    }

    /// The id the next written object takes: the count of written objects,
    /// one more, zero-padded to forty decimal digits.
    fn next_id(&self) -> (id: String)
        ensures
            id@ == object_id_text(next_number(self.written)),
    {
        let number = if self.written < u64::MAX { self.written + 1 } else { u64::MAX };
        let digits = crate::text::decimal_text(number);
        let mut id = String::new();
        let mut pad: usize = digits.unicode_len();
        proof {
            reveal_strlit("0");
            assert(id@ =~= zeros(0));
        }
        while pad < 40
            invariant
                digits@.len() <= pad,
                pad <= 40 || pad == digits@.len(),
                id@ == zeros((pad - digits@.len()) as nat),
            decreases 40 - pad,
        {
            proof { reveal_strlit("0"); }
            id.append("0");
            proof {
                assert(id@ =~= zeros((pad + 1 - digits@.len()) as nat));
            }
            pad = pad + 1;
        }
        id.append(digits.as_str());
        id
    }

    /// The first record whose id names a commit of `tree` on `parent`.
    fn commit_index(&self, tree: &str, parent: &str) -> (i: Option<usize>)
        ensures
            match i {
                Some(i) => i < self.objects.len() && object_at(self.objects@, self.objects@[i as int].id@) == Some(
                    ObjectValue::Commit { parent: Some(parent@), tree: tree@ },
                ) && forall|k: int| 0 <= k < i ==> #[trigger] object_at(self.objects@, self.objects@[k].id@) != Some(
                    ObjectValue::Commit { parent: Some(parent@), tree: tree@ },
                ),
                None => forall|k: int| 0 <= k < self.objects@.len() ==> #[trigger] object_at(self.objects@, self.objects@[k].id@) != Some(
                    ObjectValue::Commit { parent: Some(parent@), tree: tree@ },
                ),
            },
    {
        let n = self.objects.len();
        let mut i: usize = 0;
        while i < n
            invariant
                n == self.objects.len(),
                i <= n,
                forall|k: int| 0 <= k < i ==> #[trigger] object_at(self.objects@, self.objects@[k].id@) != Some(
                    ObjectValue::Commit { parent: Some(parent@), tree: tree@ },
                ),
            decreases n - i,
        {
            match self.object_index(self.objects[i].id.as_str()) {
                Some(j) => {
                    let same = match &self.objects[j].kind {
                        ObjectKind::Commit { parent: Some(p), tree: t } => same_text(p.as_str(), parent) && same_text(
                            t.as_str(),
                            tree,
                        ),
                        _ => false,
                    };
                    if same {
                        return Some(i);
                    }
                },
                None => {},
            }
            i = i + 1;
        }
        None
    }

    /// Writes a commit of `tree` on `parent` and returns its id; a commit
    /// of the same tree on the same parent is the same object.
    pub fn write_commit(&mut self, tree: &str, parent: &str) -> (id: String)
        ensures
            id@ == written_commit_id(*old(self), tree@, parent@),
            final(self).refs == old(self).refs,
            final(self).object_spec(id@) == Some(ObjectValue::Commit { parent: Some(parent@), tree: tree@ }),
            forall|other: Seq<char>| other != id@ ==> #[trigger] final(self).object_spec(other) == old(self).object_spec(other),
    {
        match self.commit_index(tree, parent) {
            Some(i) => {
                proof {
                    assert(is_first_commit(self.objects@, i as int, parent@, tree@));
                    let k = choose|k: int| is_first_commit(self.objects@, k, parent@, tree@);
                    if k < i {
                        assert(object_at(self.objects@, self.objects@[k].id@) != Some(
                            ObjectValue::Commit { parent: Some(parent@), tree: tree@ },
                        ));
                    } else if i < k {
                        assert(object_at(self.objects@, self.objects@[i as int].id@) != Some(
                            ObjectValue::Commit { parent: Some(parent@), tree: tree@ },
                        ));
                    }
                }
                return self.objects[i].id.clone();
            },
            None => {},
        }
        proof {
            if exists|k: int| is_first_commit(self.objects@, k, parent@, tree@) {
                let k = choose|k: int| is_first_commit(self.objects@, k, parent@, tree@);
                assert(object_at(self.objects@, self.objects@[k].id@) == Some(
                    ObjectValue::Commit { parent: Some(parent@), tree: tree@ },
                ));
            }
        }
        let id = self.next_id();
        let record = ObjectRecord {
            id: id.clone(),
            kind: ObjectKind::Commit { parent: Some(String::from_str(parent)), tree: String::from_str(tree) },
        };
        proof {
            assert forall|other: Seq<char>| other != id@ implies #[trigger] object_at(self.objects@.push(record), other) == object_at(self.objects@, other) by {
                lemma_object_at_push(self.objects@, record, other);
            }
            lemma_object_at_push(self.objects@, record, id@);
        }
        self.objects.push(record);
        if self.written < u64::MAX {
            self.written = self.written + 1;
        }
        id
    }

    /// Writes a tree and returns its id.
    pub fn write_tree(&mut self) -> (id: String)
        ensures
            final(self).refs == old(self).refs,
            final(self).object_spec(id@) == Some(ObjectValue::Tree),
            forall|other: Seq<char>| other != id@ ==> #[trigger] final(self).object_spec(other) == old(self).object_spec(other),
    {
        let id = self.next_id();
        let record = ObjectRecord { id: id.clone(), kind: ObjectKind::Tree };
        proof {
            assert forall|other: Seq<char>| other != id@ implies #[trigger] object_at(self.objects@.push(record), other) == object_at(self.objects@, other) by {
                lemma_object_at_push(self.objects@, record, other);
            }
            lemma_object_at_push(self.objects@, record, id@);
        }
        self.objects.push(record);
        if self.written < u64::MAX {
            self.written = self.written + 1;
        }
        id
    }
}

impl RefEntry {
    pub fn clone_entry(&self) -> (e: RefEntry)
        ensures
            e == *self,
    {
        RefEntry {
            name: self.name.clone(),
            target: match &self.target {
                RefTarget::Direct(t) => RefTarget::Direct(t.clone()),
                RefTarget::Symbolic(t) => RefTarget::Symbolic(t.clone()),
            },
        }
    }
}

} // verus!
