//! Dispatching a generation: the dispatch is durable before its worktree
//! exists, a repair's source candidate is checked before anything is
//! appended, and a retained worktree is reused only where it verifies.

use vstd::prelude::*;
use crate::effects::{lemma_trace_extends, EffectSiteId, Hooks, ObjectSite, WorktreeSite};
use crate::emit::EmitFailure;
use crate::error::UpstrokeError;
use crate::fold::{admits, stepped};
use crate::journal::{append_owed, EventEmitter};
use crate::model::{
    CandidateRef, CommitSha, GenerationClosed, GenerationCloseReason, GenerationId, GenerationLease, LeaseDisposition,
    LeaseGrant, Materialization, RunOutcome, TaskDispatched, TaskKey, TopologyEventBody,
};
use crate::refs::{ObjectValue, RefValue};
use crate::text::{decimal, push_decimal};
use crate::workspace::{
    copy_strings, has_intent, quiescent, slot_name_spec, worktree_at, Materialized, Quiescence, Slot, VerifyFailure,
    WorkspaceManager,
};

verus! {

/// What a dispatch is: an ordinary one, predicted to touch `paths`, or the
/// repair of a candidate of the lineage rooted at `root`.
#[derive(Clone, Debug, PartialEq, Eq)]
pub enum DispatchKind {
    Ordinary { paths: Vec<String> },
    Repair { root: TaskKey, source: CandidateRef },
}

/// The lease a dispatch records, as text: predicted paths, or a lineage.
pub open spec fn grant_matches(grant: LeaseGrant, kind: DispatchKind) -> bool {
    match kind {
        DispatchKind::Ordinary { paths } => grant matches LeaseGrant::Predicted { paths: granted } && granted@ == paths@,
        DispatchKind::Repair { root, .. } => grant == (LeaseGrant::InheritedLineage { root }),
    }
}

pub open spec fn source_spec(kind: DispatchKind) -> Option<CandidateRef> {
    match kind {
        DispatchKind::Ordinary { .. } => None,
        DispatchKind::Repair { source, .. } => Some(source),
    }
}

pub open spec fn lease_spec(kind: DispatchKind) -> GenerationLease {
    match kind {
        DispatchKind::Ordinary { .. } => GenerationLease::Own,
        DispatchKind::Repair { root, .. } => GenerationLease::InheritedLineage { root },
    }
}

/// Two kinds that say the same: the same paths, or the same repair.
pub open spec fn same_kind(a: DispatchKind, b: DispatchKind) -> bool {
    match (a, b) {
        (DispatchKind::Ordinary { paths: p }, DispatchKind::Ordinary { paths: q }) => p@ == q@,
        (DispatchKind::Repair { .. }, DispatchKind::Repair { .. }) => a == b,
        _ => false,
    }
}

impl DispatchKind {
    fn grant(&self) -> (g: LeaseGrant)
        ensures
            grant_matches(g, *self),
    {
        match self {
            DispatchKind::Ordinary { paths } => LeaseGrant::Predicted { paths: copy_strings(paths) },
            DispatchKind::Repair { root, .. } => LeaseGrant::InheritedLineage { root: *root },
        }
    }

    fn source_candidate(&self) -> (c: Option<CandidateRef>)
        ensures
            c == source_spec(*self),
    {
        match self {
            DispatchKind::Ordinary { .. } => None,
            DispatchKind::Repair { source, .. } => Some(source.duplicate()),
        }
    }

    fn lease(&self) -> (l: GenerationLease)
        ensures
            l == lease_spec(*self),
    {
        match self {
            DispatchKind::Ordinary { .. } => GenerationLease::Own,
            DispatchKind::Repair { root, .. } => GenerationLease::InheritedLineage { root: *root },
        }
    }

    /// The disposition a close of the generation records: its lease, not retained.
    fn closing_disposition(&self) -> (d: LeaseDisposition)
        ensures
            d == lease_spec(*self).expected_spec(false),
    {
        self.lease().expected(false)
    }

    fn duplicate(&self) -> (k: DispatchKind)
        ensures
            same_kind(k, *self),
    {
        match self {
            DispatchKind::Ordinary { paths } => DispatchKind::Ordinary { paths: copy_strings(paths) },
            DispatchKind::Repair { root, source } => DispatchKind::Repair { root: *root, source: source.duplicate() },
        }
    }
}

/// A dispatched generation.
#[derive(Clone, Debug, PartialEq, Eq)]
pub struct Dispatched {
    pub key: TaskKey,
    pub generation: GenerationId,
    pub base: CommitSha,
    pub slot: Slot,
    pub worktree: String,
    pub kind: DispatchKind,
    pub materialized: Option<Materialization>,
}

impl Dispatched {
    /// What its fresh worktree shows: the base.
    pub fn quiescence(&self) -> (q: Quiescence)
        ensures
            q matches Quiescence::AtBase(b) && b@ == self.base.0@,
    {
        Quiescence::AtBase(self.base.0.clone())
    }

    /// The open generation it is.
    pub fn open_generation(&self) -> (o: OpenGeneration)
        ensures
            o == (OpenGeneration {
                key: self.key,
                generation: self.generation,
                base: self.base,
                slot: self.slot,
                source: source_spec(self.kind),
            }),
    {
        OpenGeneration {
            key: self.key,
            generation: self.generation,
            base: self.base.duplicate(),
            slot: self.slot.duplicate(),
            source: self.kind.source_candidate(),
        }
    }

    /// The disposition a close of the generation records.
    pub fn closing_disposition(&self) -> (d: LeaseDisposition)
        ensures
            d == lease_spec(self.kind).expected_spec(false),
    {
        self.kind.closing_disposition()
    }

    /// The candidate a repair reproduces.
    pub fn source(&self) -> (s: Option<&CandidateRef>)
        ensures
            match self.kind {
                DispatchKind::Ordinary { .. } => s is None,
                DispatchKind::Repair { source, .. } => s == Some(&source),
            },
    {
        match &self.kind {
            DispatchKind::Ordinary { .. } => None,
            DispatchKind::Repair { source, .. } => Some(source),
        }
    }
}

/// A generation that is open: what resuming it needs.
#[derive(Clone, Debug, PartialEq, Eq)]
pub struct OpenGeneration {
    pub key: TaskKey,
    pub generation: GenerationId,
    pub base: CommitSha,
    pub slot: Slot,
    pub source: Option<CandidateRef>,
}

impl OpenGeneration {
    /// What its worktree shows when nothing has run in it: the base.
    pub fn quiescence(&self) -> (q: Quiescence)
        ensures
            q matches Quiescence::AtBase(b) && b@ == self.base.0@,
    {
        Quiescence::AtBase(self.base.0.clone())
    }
}

/// The slot of generation `generation` of task `key`.
pub fn task_slot(key: TaskKey, generation: GenerationId) -> (s: Slot)
    ensures
        s matches Slot::Task { key: k, generation: g } && k@ == decimal(key.0 as nat) && g == generation.0,
        slot_name_spec(s) == "k"@ + decimal(key.0 as nat) + "-g"@ + decimal(generation.0 as nat),
{
    let mut k = String::new();
    push_decimal(&mut k, key.0 as u64);
    Slot::Task { key: k, generation: generation.0 }
}

/// What is asked to be dispatched.
#[derive(Clone, Debug, PartialEq, Eq)]
pub struct DispatchRequest {
    pub key: TaskKey,
    pub generation: GenerationId,
    pub base: CommitSha,
    pub kind: DispatchKind,
}

/// Whether a repair's source candidate is present: its commit is an object
/// and its authoritative ref names it, case aside.
pub open spec fn source_present(manager: WorkspaceManager, source: CandidateRef) -> bool {
    &&& manager.repo.object_spec(source.commit_sha.0@) is Some
    &&& manager.repo.ref_spec(source.candidate_ref.0@) matches Some(RefValue::Direct(t)) && same_ignoring_ascii_case(
        t,
        source.commit_sha.0@,
    )
}

/// The code of `c`'s ASCII lowercase.
pub open spec fn ascii_lower(c: char) -> u32 {
    let x = c as u32;
    if 65 <= x && x <= 90 {
        (x + 32) as u32
    } else {
        x
    }
}

/// Whether `a` and `b` are the same text once ASCII case is ignored.
pub open spec fn same_ignoring_ascii_case(a: Seq<char>, b: Seq<char>) -> bool {
    a.len() == b.len() && forall|i: int| 0 <= i < a.len() ==> ascii_lower(#[trigger] a[i]) == ascii_lower(b[i])
}

fn lower(c: char) -> (l: u32)
    ensures
        l == ascii_lower(c),
{
    let x = c as u32;
    if 65 <= x && x <= 90 {
        x + 32
    } else {
        x
    }
}

/// `eq_ignore_ascii_case`.
fn same_ignoring_case(a: &str, b: &str) -> (same: bool)
    ensures
        same == same_ignoring_ascii_case(a@, b@),
{
    let n = a.unicode_len();
    if n != b.unicode_len() {
        return false;
    }
    let mut i: usize = 0;
    while i < n
        invariant
            n == a@.len(),
            n == b@.len(),
            i <= n,
            forall|j: int| 0 <= j < i ==> ascii_lower(#[trigger] a@[j]) == ascii_lower(b@[j]),
        decreases n - i,
    {
        if lower(a.get_char(i)) != lower(b.get_char(i)) {
            return false;
        }
        i = i + 1;
    }
    true
}

pub open spec fn repair_prefix(source: CandidateRef) -> Seq<char> {
    "refusing to dispatch a repair of candidate "@ + decimal(source.generation.0 as nat) + " of task "@ + decimal(
        source.key.0 as nat,
    )
}

fn push_repair_prefix(s: &mut String, source: &CandidateRef)
    ensures
        final(s)@ == old(s)@ + repair_prefix(*source),
{
    s.append("refusing to dispatch a repair of candidate ");
    push_decimal(s, source.generation.0 as u64);
    s.append(" of task ");
    push_decimal(s, source.key.0 as u64);
}

pub open spec fn missing_object_text(source: CandidateRef) -> Seq<char> {
    repair_prefix(source) + ": its commit `"@ + source.commit_sha.0@
        + "` is not an object in this repository, and `T-DISPATCH` refuses a dispatch whose source candidate object is missing"@
}

pub open spec fn ref_elsewhere_text(source: CandidateRef, target: Seq<char>) -> Seq<char> {
    repair_prefix(source) + ": `"@ + source.candidate_ref.0@ + "` names `"@ + target + "` and the recorded candidate is `"@
        + source.commit_sha.0@ + "`"@
}

pub open spec fn ref_missing_text(source: CandidateRef) -> Seq<char> {
    repair_prefix(source) + ": its authoritative ref `"@ + source.candidate_ref.0@
        + "` does not exist, and it is what keeps the candidate reachable"@
}

/// Refuses a repair whose source candidate is not present.
fn refuse_absent_source(manager: &WorkspaceManager, source: &CandidateRef) -> (r: Result<(), UpstrokeError>)
    ensures
        r is Ok <==> source_present(*manager, *source),
        manager.repo.object_spec(source.commit_sha.0@) is None ==> (r matches Err(e) && e.message_spec() == missing_object_text(
            *source,
        )),
        manager.repo.object_spec(source.commit_sha.0@) is Some ==> match manager.repo.ref_spec(source.candidate_ref.0@) {
            None => r matches Err(e) && e.message_spec() == ref_missing_text(*source),
            Some(RefValue::Direct(t)) => !same_ignoring_ascii_case(t, source.commit_sha.0@) ==> (r matches Err(e)
                && e.message_spec() == ref_elsewhere_text(*source, t)),
            Some(RefValue::Symbolic(_)) => r is Err,
        },
        r is Err ==> r matches Err(UpstrokeError::Refused { .. }),
{
    if !manager.repo.object_exists(source.commit_sha.as_str()) {
        let mut message = String::new();
        push_repair_prefix(&mut message, source);
        message.append(": its commit `");
        message.append(source.commit_sha.as_str());
        message.append("` is not an object in this repository, and `T-DISPATCH` refuses a dispatch whose source candidate object is missing");
        return Err(UpstrokeError::Refused { message });
    }
    match manager.repo.direct_ref_target(source.candidate_ref.as_str())? {
        Some(target) => {
            if same_ignoring_case(target.as_str(), source.commit_sha.as_str()) {
                Ok(())
            } else {
                let mut message = String::new();
                push_repair_prefix(&mut message, source);
                message.append(": `");
                message.append(source.candidate_ref.as_str());
                message.append("` names `");
                message.append(target.as_str());
                message.append("` and the recorded candidate is `");
                message.append(source.commit_sha.as_str());
                message.append("`");
                Err(UpstrokeError::Refused { message })
            }
        },
        None => {
            let mut message = String::new();
            push_repair_prefix(&mut message, source);
            message.append(": its authoritative ref `");
            message.append(source.candidate_ref.as_str());
            message.append("` does not exist, and it is what keeps the candidate reachable");
            Err(UpstrokeError::Refused { message })
        },
    }
}

/// Writes the slot's intent, then adds its worktree at the base.
fn create_worktree(manager: &mut WorkspaceManager, hooks: &mut Hooks, open: &OpenGeneration) -> (r: Result<String, UpstrokeError>)
    ensures
        final(manager).repo == old(manager).repo,
        final(manager).root == old(manager).root,
        r matches Ok(path) ==> path@ == old(manager).root@ + "/"@ + slot_name_spec(open.slot) && final(manager).has_intent_spec(
            open.slot,
        ) && (final(manager).worktree_spec(open.slot) matches Some(w) && w.head@ == open.base.0@ && !w.index.dirty
            && w.index.unmerged@.len() == 0),
        r is Ok <==> old(hooks).armed != Some(open.slot.site_spec(WorktreeSite::WriteIntent, crate::effects::SnapshotSite::WriteIntent))
            && !old(manager).has_worktree_spec(open.slot) && (old(manager).repo.object_spec(open.base.0@) matches Some(
            ObjectValue::Commit { .. },
        )) && old(hooks).armed != Some(open.slot.site_spec(WorktreeSite::Add, crate::effects::SnapshotSite::Add)),
        r is Ok ==> forall|name: Seq<char>| name != slot_name_spec(open.slot) ==> #[trigger] worktree_at(final(manager).worktrees@, name)
            == worktree_at(old(manager).worktrees@, name),
        final(hooks).trace@.len() >= old(hooks).trace@.len(),
        final(hooks).trace@.subrange(0, old(hooks).trace@.len() as int) == old(hooks).trace@,
        r is Ok ==> final(hooks).armed == old(hooks).armed,
{
    manager.write_intent(hooks, &open.slot)?;
    let ghost t = hooks.trace@;
    let added = manager.add_worktree(hooks, &open.slot, open.base.as_str());
    proof { lemma_trace_extends(old(hooks).trace@, t, hooks.trace@); }
    added
}

/// Whether a dispatch of `kind` may proceed past its source: an ordinary
/// dispatch has none, and a repair's must be present.
pub open spec fn source_admitted(manager: WorkspaceManager, kind: DispatchKind) -> bool {
    match kind {
        DispatchKind::Repair { source, .. } => source_present(manager, source),
        DispatchKind::Ordinary { .. } => true,
    }
}

/// The event a dispatch appends.
pub open spec fn dispatched_body_matches(body: TopologyEventBody, request: DispatchRequest, path: Seq<char>) -> bool {
    body matches TopologyEventBody::TaskDispatched { data } && data.key == request.key && data.generation == request.generation
        && data.base_sha == request.base && data.worktree_path@ == path && grant_matches(data.lease, request.kind)
        && data.source_candidate == source_spec(request.kind)
}

/// Whether a dispatch of `request` is owed success: its source (for a
/// repair) is present and a commit, the emitter owes the append, the task
/// exists without this generation, nothing is armed, the slot has no
/// worktree, and the base is a commit.
pub open spec fn dispatch_owed(
    manager: WorkspaceManager,
    owes_success: bool,
    fold: crate::fold::TopologyFold,
    armed: Option<EffectSiteId>,
    request: DispatchRequest,
) -> bool {
    &&& source_admitted(manager, request.kind)
    &&& request.kind matches DispatchKind::Repair { source, .. } ==> (manager.repo.object_spec(source.commit_sha.0@) matches Some(
        ObjectValue::Commit { .. },
    ))
    &&& owes_success
    &&& fold.task_spec(request.key) is Some
    &&& fold.generation_spec(request.key, request.generation) is None
    &&& armed is None
    &&& !crate::workspace::has_worktree(
        manager.worktrees@,
        "k"@ + decimal(request.key.0 as nat) + "-g"@ + decimal(request.generation.0 as nat),
    )
    &&& manager.repo.object_spec(request.base.0@) matches Some(ObjectValue::Commit { .. })
}

/// Dispatches `request`: a repair's source candidate is checked first, then
/// `task_dispatched` is appended, and only then is the worktree created and,
/// for a repair, the source materialized into it.
pub fn dispatch<E: EventEmitter>(
    manager: &mut WorkspaceManager,
    hooks: &mut Hooks,
    emitter: &mut E,
    request: &DispatchRequest,
) -> (r: Result<Dispatched, EmitFailure>)
    ensures
        (request.kind matches DispatchKind::Repair { source, .. } && !source_present(*old(manager), source)) ==> (r matches Err(
            f,
        ) && f.wrote_nothing_spec() && *final(manager) == *old(manager) && final(emitter).events_view() == old(
            emitter,
        ).events_view()),
        r matches Ok(d) ==> d.key == request.key && d.generation == request.generation && d.base == request.base && same_kind(
            d.kind,
            request.kind,
        ) && (d.materialized is Some <==> request.kind is Repair) && d.worktree@ == old(manager).root@ + "/"@ + slot_name_spec(d.slot)
            && slot_name_spec(d.slot) == "k"@ + decimal(request.key.0 as nat) + "-g"@ + decimal(request.generation.0 as nat)
            && final(emitter).events_view().len() == old(emitter).events_view().len() + 1 && dispatched_body_matches(
            final(emitter).events_view().last(),
            *request,
            d.worktree@,
        ) && final(emitter).events_view().drop_last() == old(emitter).events_view() && stepped(
            old(emitter).fold_view(),
            final(emitter).fold_view(),
            final(emitter).events_view().last(),
        ) && final(manager).has_intent_spec(d.slot) && final(manager).has_worktree_spec(d.slot),
        (request.kind matches DispatchKind::Repair { source, .. } && old(manager).repo.object_spec(source.commit_sha.0@) is None)
            ==> (r matches Err(EmitFailure::Clean(e)) && e.message_spec() == missing_object_text(source_spec(request.kind).unwrap())),
        (request.kind matches DispatchKind::Repair { source, .. } && old(manager).repo.object_spec(source.commit_sha.0@) is Some
            && old(manager).repo.ref_spec(source.candidate_ref.0@) is None) ==> (r matches Err(EmitFailure::Clean(e))
            && e.message_spec() == ref_missing_text(source_spec(request.kind).unwrap())),
        (request.kind matches DispatchKind::Repair { source, .. } && old(manager).repo.object_spec(source.commit_sha.0@) is Some
            && (old(manager).repo.ref_spec(source.candidate_ref.0@) matches Some(RefValue::Direct(t)) && !same_ignoring_ascii_case(
            t,
            source.commit_sha.0@,
        ))) ==> (r matches Err(EmitFailure::Clean(e)) && e.message_spec() == ref_elsewhere_text(
            source_spec(request.kind).unwrap(),
            old(manager).repo.ref_spec(source_spec(request.kind).unwrap().candidate_ref.0@).unwrap()->Direct_0,
        )),
        source_admitted(*old(manager), request.kind) && !(old(emitter).fold_view().task_spec(request.key) is Some
            && old(emitter).fold_view().generation_spec(request.key, request.generation) is None) ==> (r is Err
            && final(emitter).events_view() == old(emitter).events_view() && *final(manager) == *old(manager)),
        r is Ok ==> final(manager).root == old(manager).root,
        r matches Ok(d) ==> (final(manager).worktree_spec(d.slot) matches Some(w) && w.head@ == request.base.0@),
        !source_admitted(*old(manager), request.kind) ==> r matches Err(EmitFailure::Clean(UpstrokeError::Refused { .. })),
        final(emitter).events_view() == old(emitter).events_view() ==> *final(manager) == *old(manager),
        dispatch_owed(*old(manager), old(emitter).owes_success(), old(emitter).fold_view(), old(hooks).armed, *request) ==> r is Ok,
        final(emitter).owes_success() == old(emitter).owes_success(),
        final(hooks).trace@.len() >= old(hooks).trace@.len(),
        final(hooks).trace@.subrange(0, old(hooks).trace@.len() as int) == old(hooks).trace@,
{
    match &request.kind {
        DispatchKind::Repair { source, .. } => {
            match refuse_absent_source(manager, source) {
                Ok(()) => {},
                Err(e) => {
                    return Err(EmitFailure::Clean(e));
                },
            }
        },
        DispatchKind::Ordinary { .. } => {},
    }
    let slot = task_slot(request.key, request.generation);
    let worktree = manager.slot_path(&slot);
    let body = TopologyEventBody::TaskDispatched {
        data: TaskDispatched {
            key: request.key,
            generation: request.generation,
            base_sha: request.base.duplicate(),
            worktree_path: worktree.clone(),
            lease: request.kind.grant(),
            source_candidate: request.kind.source_candidate(),
        },
    };
    let ghost appended = body;
    emitter.emit(body, hooks)?;
    proof {
        assert(final_events_last(emitter.events_view(), appended));
    }
    let mut dispatched = Dispatched {
        key: request.key,
        generation: request.generation,
        base: request.base.duplicate(),
        slot,
        worktree,
        kind: request.kind.duplicate(),
        materialized: None,
    };
    let open = dispatched.open_generation();
    let ghost t1 = hooks.trace@;
    let created = create_worktree(manager, hooks, &open);
    proof { lemma_trace_extends(old(hooks).trace@, t1, hooks.trace@); }
    match created {
        Ok(path) => {
            dispatched.worktree = path;
            proof { crate::workspace::lemma_worktree_at(manager.worktrees@, slot_name_spec(dispatched.slot)); }
        },
        Err(e) => {
            return Err(EmitFailure::Clean(e));
        },
    }
    if dispatched.source().is_some() {
        let ghost t2 = hooks.trace@;
        let materialized = materialize_repair(manager, hooks, &open);
        proof { lemma_trace_extends(old(hooks).trace@, t2, hooks.trace@); }
        match materialized {
            Ok(m) => {
                dispatched.materialized = Some(m);
            },
            Err(e) => {
                return Err(EmitFailure::Clean(e));
            },
        }
    }
    Ok(dispatched)
}

spec fn final_events_last(events: Seq<TopologyEventBody>, body: TopologyEventBody) -> bool {
    events.len() > 0 && events.last() == body
}

/// Whether a worktree was reused or recreated, and why.
#[derive(Clone, Debug, PartialEq, Eq)]
pub enum Reuse {
    Verified,
    Recreated { failure: VerifyFailure },
}

impl Reuse {
    /// Whether the worktree was reused as it stood.
    pub fn reused(&self) -> (b: bool)
        ensures
            b == (*self is Verified),
    {
        match self {
            Reuse::Verified => true,
            _ => false,
        }
    }
}

/// Reuses `open`'s worktree where it verifies against `quiescence`;
/// otherwise removes it and creates it afresh at the base.
pub fn verify_or_recreate(
    manager: &mut WorkspaceManager,
    hooks: &mut Hooks,
    open: &OpenGeneration,
    quiescence: &Quiescence,
) -> (r: Result<Reuse, UpstrokeError>)
    ensures
        r matches Ok(reuse) ==> (reuse is Verified <==> (old(manager).worktree_spec(open.slot) matches Some(w) && quiescent(
            w,
            old(manager).repo,
            *quiescence,
        ))),
        r matches Ok(Reuse::Verified) ==> *final(manager) == *old(manager),
        r matches Ok(Reuse::Recreated { failure }) ==> failure == (if old(manager).worktree_spec(open.slot) is None {
            VerifyFailure::Missing
        } else {
            VerifyFailure::Unquiescent
        }),
        r matches Ok(Reuse::Recreated { failure }) ==> (failure == VerifyFailure::Missing <==> old(manager).worktree_spec(open.slot) is None)
            && (final(manager).worktree_spec(open.slot) matches Some(w) && w.head@ == open.base.0@ && !w.index.dirty),
        final(hooks).trace@.len() >= old(hooks).trace@.len(),
        final(hooks).trace@.subrange(0, old(hooks).trace@.len() as int) == old(hooks).trace@,
        r is Ok <==> reuse_owed(*old(manager), old(hooks).armed, *open, *quiescence),
        r is Ok ==> final(hooks).armed == old(hooks).armed && final(manager).has_worktree_spec(open.slot),
        final(manager).repo == old(manager).repo,
{
    match verify_reuse(manager, hooks, open, quiescence)? {
        Ok(()) => {
            proof { crate::workspace::lemma_worktree_at(manager.worktrees@, slot_name_spec(open.slot)); }
            Ok(Reuse::Verified)
        },
        Err(failure) => {
            let ghost t1 = hooks.trace@;
            let removed = manager.remove_worktree(hooks, &open.slot);
            proof { lemma_trace_extends(old(hooks).trace@, t1, hooks.trace@); }
            removed?;
            proof { crate::workspace::lemma_worktree_at(manager.worktrees@, slot_name_spec(open.slot)); }
            let ghost t2 = hooks.trace@;
            let created = create_worktree(manager, hooks, open);
            proof { lemma_trace_extends(old(hooks).trace@, t2, hooks.trace@); }
            created?;
            proof { crate::workspace::lemma_worktree_at(manager.worktrees@, slot_name_spec(open.slot)); }
            Ok(Reuse::Recreated { failure })
        },
    }
}

/// Whether reusing or recreating `open`'s worktree is owed success, with
/// `armed` the site the hooks hold armed: the verification's site is not
/// armed, and where the worktree does not verify, its removal and creation
/// afresh at the base are owed.
pub open spec fn reuse_owed(manager: WorkspaceManager, armed: Option<EffectSiteId>, open: OpenGeneration, quiescence: Quiescence) -> bool {
    &&& armed != Some(EffectSiteId::Worktree(WorktreeSite::Verify))
    &&& !(manager.worktree_spec(open.slot) matches Some(w) && quiescent(w, manager.repo, quiescence)) ==> {
        &&& !crate::workspace::slot_escapes(open.slot)
        &&& armed != Some(open.slot.site_spec(WorktreeSite::Remove, crate::effects::SnapshotSite::Remove))
        &&& armed != Some(open.slot.site_spec(WorktreeSite::WriteIntent, crate::effects::SnapshotSite::WriteIntent))
        &&& armed != Some(open.slot.site_spec(WorktreeSite::Add, crate::effects::SnapshotSite::Add))
        &&& manager.repo.object_spec(open.base.0@) matches Some(ObjectValue::Commit { .. })
    }
}

/// Verifies `open`'s worktree against `quiescence`.
pub fn verify_reuse(
    manager: &WorkspaceManager,
    hooks: &mut Hooks,
    open: &OpenGeneration,
    quiescence: &Quiescence,
) -> (r: Result<Result<(), VerifyFailure>, UpstrokeError>)
    ensures
        r is Ok <==> old(hooks).armed != Some(EffectSiteId::Worktree(WorktreeSite::Verify)),
        r matches Ok(v) ==> match manager.worktree_spec(open.slot) {
            None => v == Err::<(), VerifyFailure>(VerifyFailure::Missing),
            Some(w) => if quiescent(w, manager.repo, *quiescence) {
                v is Ok
            } else {
                v == Err::<(), VerifyFailure>(VerifyFailure::Unquiescent)
            },
        },
        final(hooks).trace@.len() >= old(hooks).trace@.len(),
        final(hooks).trace@.subrange(0, old(hooks).trace@.len() as int) == old(hooks).trace@,
        r is Ok ==> final(hooks).armed == old(hooks).armed,
{
    manager.verify_worktree(hooks, &open.slot, quiescence)
}

pub open spec fn ordinary_text(open: OpenGeneration) -> Seq<char> {
    "task "@ + decimal(open.key.0 as nat) + " generation "@ + decimal(open.generation.0 as nat)
        + " is an ordinary dispatch and has no recorded materialization to reproduce"@
}

/// Reproduces a repair's materialization of its source candidate in its
/// worktree; an ordinary dispatch has none to reproduce.
pub fn materialize_repair(manager: &mut WorkspaceManager, hooks: &mut Hooks, open: &OpenGeneration) -> (r: Result<
    Materialization,
    UpstrokeError,
>)
    ensures
        final(manager).root == old(manager).root,
        final(manager).repo == old(manager).repo,
        final(manager).intents == old(manager).intents,
        open.source is None ==> (r matches Err(e) && e.message_spec() == ordinary_text(*open)) && *final(manager) == *old(manager),
        open.source matches Some(source) ==> (r is Ok <==> old(manager).worktree_spec(open.slot) is Some && (old(manager).repo.object_spec(
            source.commit_sha.0@,
        ) matches Some(ObjectValue::Commit { .. })) && old(hooks).armed != Some(EffectSiteId::Object(ObjectSite::RepairMaterialize))),
        r matches Ok(m) ==> (old(manager).worktree_spec(open.slot) matches Some(w) && open.source matches Some(source)
            && old(manager).repo.object_spec(source.commit_sha.0@) matches Some(ObjectValue::Commit { tree, .. }) && m == (if tree
            == w.tree@ {
            Materialization::Empty
        } else if crate::workspace::conflict_at(old(manager).conflicts@, source.commit_sha.0@) is Some {
            Materialization::Conflict
        } else {
            Materialization::Clean
        })),
        r is Ok ==> final(manager).has_worktree_spec(open.slot) == old(manager).has_worktree_spec(open.slot),
        r is Ok ==> (old(manager).worktree_spec(open.slot) matches Some(w) && final(manager).worktree_spec(open.slot) matches Some(nw)
            && nw.head == w.head),
        final(hooks).trace@.len() >= old(hooks).trace@.len(),
        final(hooks).trace@.subrange(0, old(hooks).trace@.len() as int) == old(hooks).trace@,
{
    let source = match &open.source {
        Some(source) => source,
        None => {
            let mut message = String::from_str("task ");
            push_decimal(&mut message, open.key.0 as u64);
            message.append(" generation ");
            push_decimal(&mut message, open.generation.0 as u64);
            message.append(" is an ordinary dispatch and has no recorded materialization to reproduce");
            return Err(UpstrokeError::Refused { message });
        },
    };
    let observed = manager.repair_materialize(hooks, &open.slot, source.commit_sha.as_str())?;
    proof {
        crate::workspace::lemma_worktree_at(manager.worktrees@, slot_name_spec(open.slot));
        crate::workspace::lemma_worktree_at(old(manager).worktrees@, slot_name_spec(open.slot));
    }
    Ok(observed_kind(observed))
}

fn observed_kind(observed: Materialized) -> (m: Materialization)
    ensures
        m == match observed {
            Materialized::Clean => Materialization::Clean,
            Materialized::Conflict => Materialization::Conflict,
            Materialized::Empty => Materialization::Empty,
        },
{
    match observed {
        Materialized::Clean => Materialization::Clean,
        Materialized::Conflict => Materialization::Conflict,
        Materialized::Empty => Materialization::Empty,
    }
}

/// What resuming an open generation that never started an attempt found.
#[derive(Clone, Debug, PartialEq, Eq)]
pub struct Resumed {
    pub reuse: Reuse,
    pub materialized: Option<Materialization>,
}

/// Resumes an open generation that never started an attempt: its worktree
/// is reused or recreated at the base, and a repair's materialization is
/// reproduced.
pub fn resume_open_no_attempt(manager: &mut WorkspaceManager, hooks: &mut Hooks, open: &OpenGeneration) -> (r: Result<
    Resumed,
    UpstrokeError,
>)
    ensures
        r matches Ok(resumed) ==> (resumed.materialized is Some <==> open.source is Some) && (resumed.reuse is Verified
            <==> (old(manager).worktree_spec(open.slot) matches Some(w) && quiescent(
            w,
            old(manager).repo,
            Quiescence::AtBase(open.base.0),
        ))),
        final(hooks).trace@.len() >= old(hooks).trace@.len(),
        final(hooks).trace@.subrange(0, old(hooks).trace@.len() as int) == old(hooks).trace@,
        r is Ok <==> reuse_owed(*old(manager), old(hooks).armed, *open, Quiescence::AtBase(open.base.0)) && (open.source matches Some(
            source,
        ) ==> (old(manager).repo.object_spec(source.commit_sha.0@) matches Some(ObjectValue::Commit { .. })) && old(hooks).armed
            != Some(EffectSiteId::Object(ObjectSite::RepairMaterialize))),
{
    let quiescence = open.quiescence();
    let reuse = verify_or_recreate(manager, hooks, open, &quiescence)?;
    let materialized = if open.source.is_some() {
        let ghost t = hooks.trace@;
        let m = materialize_repair(manager, hooks, open);
        proof { lemma_trace_extends(old(hooks).trace@, t, hooks.trace@); }
        Some(m?)
    } else {
        None
    };
    Ok(Resumed { reuse, materialized })
}

/// The close a run's end records for a dispatched generation.
pub open spec fn run_end_close_matches(body: TopologyEventBody, dispatched: Dispatched, outcome: RunOutcome) -> bool {
    body == TopologyEventBody::GenerationClosed {
        data: GenerationClosed {
            key: dispatched.key,
            generation: dispatched.generation,
            reason: GenerationCloseReason::RunEnding { outcome },
            lease: lease_spec(dispatched.kind).expected_spec(false),
        },
    }
}

/// Closes a dispatched generation as the run ends: the close is appended,
/// then the worktree and its intent are scrubbed.
pub fn close_at_run_end<E: EventEmitter>(
    manager: &mut WorkspaceManager,
    hooks: &mut Hooks,
    emitter: &mut E,
    dispatched: &Dispatched,
    outcome: RunOutcome,
) -> (r: Result<(), EmitFailure>)
    ensures
        !admits(old(emitter).fold_view(), TopologyEventBody::GenerationClosed {
            data: GenerationClosed {
                key: dispatched.key,
                generation: dispatched.generation,
                reason: GenerationCloseReason::RunEnding { outcome },
                lease: lease_spec(dispatched.kind).expected_spec(false),
            },
        }) ==> r is Err && *final(manager) == *old(manager),
        r is Ok ==> final(emitter).events_view().len() == old(emitter).events_view().len() + 1 && run_end_close_matches(
            final(emitter).events_view().last(),
            *dispatched,
            outcome,
        ) && !final(manager).has_worktree_spec(dispatched.slot) && !final(manager).has_intent_spec(dispatched.slot),
        final(hooks).trace@.len() >= old(hooks).trace@.len(),
        final(hooks).trace@.subrange(0, old(hooks).trace@.len() as int) == old(hooks).trace@,
        append_owed(old(emitter).owes_success(), old(emitter).fold_view(), TopologyEventBody::GenerationClosed {
            data: GenerationClosed {
                key: dispatched.key,
                generation: dispatched.generation,
                reason: GenerationCloseReason::RunEnding { outcome },
                lease: lease_spec(dispatched.kind).expected_spec(false),
            },
        }, old(hooks).armed) && crate::workspace::reclaimable(dispatched.slot, old(hooks).armed) ==> r is Ok,
        final(emitter).owes_success() == old(emitter).owes_success(),
        final(emitter).events_view() == old(emitter).events_view() ==> *final(manager) == *old(manager),
{
    let body = TopologyEventBody::GenerationClosed {
        data: GenerationClosed {
            key: dispatched.key,
            generation: dispatched.generation,
            reason: GenerationCloseReason::RunEnding { outcome },
            lease: dispatched.kind.closing_disposition(),
        },
    };
    emitter.emit(body, hooks)?;
    assert(emitter.events_view().len() == old(emitter).events_view().len() + 1);
    let ghost t = hooks.trace@;
    let scrubbed = scrub(manager, hooks, &dispatched.slot);
    proof { lemma_trace_extends(old(hooks).trace@, t, hooks.trace@); }
    match scrubbed {
        Ok(()) => Ok(()),
        Err(e) => Err(EmitFailure::Clean(e)),
    }
}

/// Removes a slot's worktree, then its intent.
pub fn scrub(manager: &mut WorkspaceManager, hooks: &mut Hooks, slot: &Slot) -> (r: Result<(), UpstrokeError>)
    ensures
        r is Ok <==> !crate::workspace::slot_escapes(*slot) && old(hooks).armed != Some(slot.site_spec(WorktreeSite::Remove, crate::effects::SnapshotSite::Remove))
            && old(hooks).armed != Some(slot.site_spec(WorktreeSite::RemoveIntent, crate::effects::SnapshotSite::RemoveIntent)),
        final(manager).repo == old(manager).repo,
        final(manager).root == old(manager).root,
        r is Ok ==> !final(manager).has_worktree_spec(*slot) && !final(manager).has_intent_spec(*slot),
        r is Ok ==> forall|name: Seq<char>| name != slot_name_spec(*slot) ==> #[trigger] worktree_at(final(manager).worktrees@, name)
            == worktree_at(old(manager).worktrees@, name) && has_intent(final(manager).intents@, name) == has_intent(
            old(manager).intents@,
            name,
        ),
        final(hooks).trace@.len() >= old(hooks).trace@.len(),
        final(hooks).trace@.subrange(0, old(hooks).trace@.len() as int) == old(hooks).trace@,
        r is Ok ==> final(hooks).armed == old(hooks).armed,
{
    manager.remove_worktree(hooks, slot)?;
    let ghost t = hooks.trace@;
    let removed = manager.remove_intent(hooks, slot);
    proof { lemma_trace_extends(old(hooks).trace@, t, hooks.trace@); }
    removed
}

} // verus!
