//! Promotion of a judged tree: the candidate commit, its prepared pin, the
//! `candidate_prepared` append, the authoritative candidates ref, the
//! `task_candidate_created` append and the reclaim of pin and worktree; and
//! what a resume owes of a promotion a kill interrupted.

use vstd::prelude::*;
use crate::effects::{crossed_between, extended_at, lemma_crossed_join, lemma_crossed_kept, lemma_trace_extends, EffectSiteId, EventSite, HookPhase, Hooks, RefSite, SnapshotSite, WorktreeSite};
use crate::error::UpstrokeError;
use crate::fold::{admits, stepped, generation_index, GenerationClass, TopologyFold, PreparedRecord};
use crate::journal::{append_owed, CandidateJournal};
use crate::model::{AttemptRecord, CandidateLeaseEffect, CandidatePrepared, CandidateRef, CommitSha, GenerationId, GitRef, TaskCandidateCreated, TaskKey, TopologyEventBody};
use crate::refs::{is_object_id, is_object_id_spec, starts_with, ObjectValue, RefValue};
use crate::text::{decimal, push_decimal, same_text, views, lemma_views_push};
use crate::workspace::{has_intent, slot_escapes, Slot, WorkspaceManager};

verus! {

/// The root every run's refs are under.
pub const RUN_REF_ROOT: &'static str = "refs/upstroke/runs";

pub open spec fn run_namespace_spec(run_id: Seq<char>) -> Seq<char> {
    "refs/upstroke/runs/"@ + run_id + "/"@
}

pub open spec fn pin_ref_spec(run_id: Seq<char>, key: TaskKey, generation: GenerationId) -> Seq<char> {
    run_namespace_spec(run_id) + "candidate-prepared/"@ + decimal(key.0 as nat) + "/"@ + decimal(generation.0 as nat)
}

pub open spec fn candidates_ref_spec(run_id: Seq<char>, key: TaskKey, generation: GenerationId) -> Seq<char> {
    run_namespace_spec(run_id) + "candidates/"@ + decimal(key.0 as nat) + "/"@ + decimal(generation.0 as nat)
}

/// The namespace every ref of run `run_id` is under.
pub fn run_namespace(run_id: &str) -> (s: String)
    ensures
        s@ == run_namespace_spec(run_id@),
{
    let mut s = String::from_str(RUN_REF_ROOT);
    s.append("/");
    s.append(run_id);
    s.append("/");
    proof {
        reveal_strlit("refs/upstroke/runs");
        reveal_strlit("/");
        reveal_strlit("refs/upstroke/runs/");
    }
    assert(s@ =~= run_namespace_spec(run_id@));
    s
}

/// The pin that holds a prepared candidate's commit until its candidates ref exists.
pub fn candidate_pin_ref(run_id: &str, key: TaskKey, generation: GenerationId) -> (r: GitRef)
    ensures
        r.0@ == pin_ref_spec(run_id@, key, generation),
{
    let mut s = run_namespace(run_id);
    s.append("candidate-prepared/");
    push_decimal(&mut s, key.0 as u64);
    s.append("/");
    push_decimal(&mut s, generation.0 as u64);
    GitRef(s)
}

/// The authoritative ref a candidate is created at.
pub fn candidates_ref(run_id: &str, key: TaskKey, generation: GenerationId) -> (r: GitRef)
    ensures
        r.0@ == candidates_ref_spec(run_id@, key, generation),
{
    let mut s = run_namespace(run_id);
    s.append("candidates/");
    push_decimal(&mut s, key.0 as u64);
    s.append("/");
    push_decimal(&mut s, generation.0 as u64);
    GitRef(s)
}

/// The two names a generation's candidate takes.
#[derive(Clone, Debug, PartialEq, Eq)]
pub struct CandidateNames {
    pub prepared_ref: GitRef,
    pub candidate_ref: GitRef,
}

impl CandidateNames {
    pub fn of(run_id: &str, key: TaskKey, generation: GenerationId) -> (n: CandidateNames)
        ensures
            n.prepared_ref.0@ == pin_ref_spec(run_id@, key, generation),
            n.candidate_ref.0@ == candidates_ref_spec(run_id@, key, generation),
    {
        CandidateNames {
            prepared_ref: candidate_pin_ref(run_id, key, generation),
            candidate_ref: candidates_ref(run_id, key, generation),
        }
    }

    fn duplicate(&self) -> (n: CandidateNames)
        ensures
            n == *self,
    {
        CandidateNames { prepared_ref: self.prepared_ref.duplicate(), candidate_ref: self.candidate_ref.duplicate() }
    }
}

/// Why a promotion step refuses.
#[derive(Clone, Debug, PartialEq, Eq)]
pub enum Refusal {
    ObjectMissing { key: u32, generation: u32, commit: String },
    RefAtAnotherSha { refname: String, found: String, expected: String },
    MalformedCommit { key: u32, generation: u32, value: String },
}

pub open spec fn refusal_text(r: Refusal) -> Seq<char> {
    match r {
        Refusal::ObjectMissing { key, generation, commit } => "refusing to promote `"@ + decimal(key as nat) + "`/`"@
            + decimal(generation as nat) + "`: its candidate commit "@ + commit@
            + " is not an object in this repository, and a candidates ref may only be created for the exact commit `candidate_prepared` recorded"@,
        Refusal::RefAtAnotherSha { refname, found, expected } => "refusing to promote `"@ + refname@ + "`: it is present at "@
            + found@ + " and `candidate_prepared` recorded "@ + expected@
            + ". The candidates ref is authoritative (R11) and is never moved, and the prepared pin binds to the recorded commit; neither is removed on a mismatch, so the substitution stays visible"@,
        Refusal::MalformedCommit { key, generation, value } => "refusing `"@ + value@ + "` as the candidate commit of `"@
            + decimal(key as nat) + "`/`"@ + decimal(generation as nat) + "`: the sequence takes a full hexadecimal object id"@,
    }
}

impl Refusal {
    /// The refusal's text.
    pub fn message(&self) -> (s: String)
        ensures
            s@ == refusal_text(*self),
    {
        match self {
            Refusal::ObjectMissing { key, generation, commit } => {
                let mut s = String::from_str("refusing to promote `");
                push_decimal(&mut s, *key as u64);
                s.append("`/`");
                push_decimal(&mut s, *generation as u64);
                s.append("`: its candidate commit ");
                s.append(commit.as_str());
                s.append(
                    " is not an object in this repository, and a candidates ref may only be created for the exact commit `candidate_prepared` recorded",
                );
                s
            },
            Refusal::RefAtAnotherSha { refname, found, expected } => {
                let mut s = String::from_str("refusing to promote `");
                s.append(refname.as_str());
                s.append("`: it is present at ");
                s.append(found.as_str());
                s.append(" and `candidate_prepared` recorded ");
                s.append(expected.as_str());
                s.append(
                    ". The candidates ref is authoritative (R11) and is never moved, and the prepared pin binds to the recorded commit; neither is removed on a mismatch, so the substitution stays visible",
                );
                s
            },
            Refusal::MalformedCommit { key, generation, value } => {
                let mut s = String::from_str("refusing `");
                s.append(value.as_str());
                s.append("` as the candidate commit of `");
                push_decimal(&mut s, *key as u64);
                s.append("`/`");
                push_decimal(&mut s, *generation as u64);
                s.append("`: the sequence takes a full hexadecimal object id");
                s
            },
        }
    }

    /// The engine error a refusal is reported as.
    pub fn into_error(self) -> (e: UpstrokeError)
        ensures
            e matches UpstrokeError::Refused { message } && message@ == refusal_text(self),
    {
        UpstrokeError::Refused { message: self.message() }
    }
}

/// A tree the attempt's judgement accepted, with what its candidate records.
#[derive(Clone, Debug, PartialEq, Eq)]
pub struct JudgedTree {
    pub key: TaskKey,
    pub generation: GenerationId,
    pub attempt: AttemptRecord,
    pub base_sha: CommitSha,
    pub tree_sha: CommitSha,
    pub message: String,
    pub actual_paths: Vec<String>,
    pub lease_effect: CandidateLeaseEffect,
}

/// A candidate commit nothing references yet.
#[derive(Debug, PartialEq)]
pub struct UnpinnedCandidate {
    pub judged: JudgedTree,
    pub names: CandidateNames,
    pub commit_sha: CommitSha,
}

impl UnpinnedCandidate {
    pub fn commit_sha(&self) -> (c: &CommitSha)
        ensures
            *c == self.commit_sha,
    {
        &self.commit_sha
    }
}

/// A candidate commit its prepared pin holds.
#[derive(Debug, PartialEq)]
pub struct PinnedCandidate {
    pub judged: JudgedTree,
    pub names: CandidateNames,
    pub commit_sha: CommitSha,
}

/// A candidate `candidate_prepared` recorded, whose generation is promoting.
#[derive(Debug, PartialEq, Eq)]
pub struct PromotingCandidate {
    pub candidate: CandidateRef,
    pub prepared_ref: GitRef,
    pub base: CommitSha,
    pub tree: CommitSha,
}

impl PromotingCandidate {
    pub fn candidate(&self) -> (c: &CandidateRef)
        ensures
            *c == self.candidate,
    {
        &self.candidate
    }

    pub fn prepared_ref(&self) -> (r: &GitRef)
        ensures
            *r == self.prepared_ref,
    {
        &self.prepared_ref
    }

    pub fn base(&self) -> (b: &CommitSha)
        ensures
            *b == self.base,
    {
        &self.base
    }
}

/// A candidate that holds its queue position.
#[derive(Debug, PartialEq, Eq)]
pub struct QueuedCandidate {
    pub candidate: CandidateRef,
}

impl QueuedCandidate {
    pub fn candidate(&self) -> (c: &CandidateRef)
        ensures
            *c == self.candidate,
    {
        &self.candidate
    }
}

/// A candidate whose candidates ref exists.
#[derive(Debug)]
pub struct ReferencedCandidate {
    pub candidate: CandidateRef,
    pub prepared_ref: GitRef,
}

/// A candidate whose queue position is recorded, still owning its pin and worktree.
#[derive(Debug)]
pub struct CreatedCandidate {
    pub candidate: CandidateRef,
    pub prepared_ref: GitRef,
}

/// A pin no durable record names.
#[derive(Debug, PartialEq, Eq)]
pub struct OrphanPin {
    pub refname: GitRef,
    pub object: CommitSha,
}

/// What a resume owes a task's last generation.
#[derive(Debug, PartialEq, Eq)]
pub struct CandidateRecovery {
    pub promotion: Option<PromotingCandidate>,
    pub orphan_pin: Option<OrphanPin>,
    pub settles_interrupted: bool,
}

impl CandidateRecovery {
    pub fn nothing() -> (r: CandidateRecovery)
        ensures
            r.promotion is None,
            r.orphan_pin is None,
            !r.settles_interrupted,
    {
        CandidateRecovery { promotion: None, orphan_pin: None, settles_interrupted: false }
    }

    /// Whether the resume owes nothing.
    pub fn is_empty(&self) -> (b: bool)
        ensures
            b == (self.promotion is None && self.orphan_pin is None && !self.settles_interrupted),
    {
        self.promotion.is_none() && self.orphan_pin.is_none() && !self.settles_interrupted
    }
}

// ----- the sequence ----------------------------------------------------------

/// Refuses a candidate commit that is not a full hexadecimal object id.
pub fn refuse_malformed_commit(key: TaskKey, generation: GenerationId, commit: &CommitSha) -> (r: Result<(), Refusal>)
    ensures
        r is Ok <==> is_object_id_spec(commit.0@),
        r matches Err(refusal) ==> refusal == (Refusal::MalformedCommit { key: key.0, generation: generation.0, value: commit.0 }),
{
    if is_object_id(commit.as_str()) {
        return Ok(());
    }
    Err(Refusal::MalformedCommit { key: key.0, generation: generation.0, value: commit.0.clone() })
}

/// Commits the judged tree on its base. The commit is Git's until
/// `pin_candidate` takes it.
pub fn write_candidate_commit(
    manager: &mut WorkspaceManager,
    hooks: &mut Hooks,
    run_id: &str,
    judged: JudgedTree,
) -> (r: Result<UnpinnedCandidate, UpstrokeError>)
    ensures
        final(manager).repo.refs == old(manager).repo.refs,
        final(manager).worktrees == old(manager).worktrees,
        final(manager).intents == old(manager).intents,
        r matches Ok(u) ==> u.judged == judged
            && u.names.prepared_ref.0@ == pin_ref_spec(run_id@, judged.key, judged.generation)
            && u.names.candidate_ref.0@ == candidates_ref_spec(run_id@, judged.key, judged.generation)
            && is_object_id_spec(u.commit_sha.0@)
            && final(manager).repo.object_spec(u.commit_sha.0@) == Some(ObjectValue::Commit {
                parent: Some(judged.base_sha.0@),
                tree: judged.tree_sha.0@,
            }),
        r matches Ok(u) ==> u.commit_sha.0@ == crate::refs::written_commit_id(old(manager).repo, judged.tree_sha.0@, judged.base_sha.0@),
        r is Ok <==> old(hooks).armed != Some(crate::effects::EffectSiteId::Object(crate::effects::ObjectSite::CandidateCommitTree))
            && is_object_id_spec(crate::refs::written_commit_id(old(manager).repo, judged.tree_sha.0@, judged.base_sha.0@)),
        old(hooks).armed != Some(crate::effects::EffectSiteId::Object(crate::effects::ObjectSite::CandidateCommitTree))
            && !is_object_id_spec(crate::refs::written_commit_id(old(manager).repo, judged.tree_sha.0@, judged.base_sha.0@)) ==> (
        r matches Err(e) && e is Refused && exists|v: String| v@ == crate::refs::written_commit_id(old(manager).repo, judged.tree_sha.0@, judged.base_sha.0@)
            && e.message_spec() == refusal_text(Refusal::MalformedCommit { key: judged.key.0, generation: judged.generation.0, value: v })),
{
    let names = CandidateNames::of(run_id, judged.key, judged.generation);
    let commit = manager.candidate_commit_tree(
        hooks,
        judged.tree_sha.as_str(),
        judged.base_sha.as_str(),
        judged.message.as_str(),
    )?;
    let commit_sha = CommitSha(commit);
    match refuse_malformed_commit(judged.key, judged.generation, &commit_sha) {
        Ok(()) => {},
        Err(refusal) => return Err(refusal.into_error()),
    }
    Ok(UnpinnedCandidate { judged, names, commit_sha })
}

/// Pins the candidate commit at its prepared ref, which must not exist.
pub fn pin_candidate(manager: &mut WorkspaceManager, hooks: &mut Hooks, unpinned: UnpinnedCandidate) -> (r: Result<
    PinnedCandidate,
    UpstrokeError,
>)
    ensures
        final(manager).repo.objects == old(manager).repo.objects,
        final(manager).worktrees == old(manager).worktrees,
        final(manager).intents == old(manager).intents,
        r is Ok <==> old(manager).repo.ref_spec(unpinned.names.prepared_ref.0@) is None
            && old(hooks).armed != Some(crate::effects::EffectSiteId::Ref(RefSite::PinCandidatePrepared)),
        r matches Ok(p) ==> p.judged == unpinned.judged && p.names == unpinned.names && p.commit_sha == unpinned.commit_sha,
        old(manager).repo.ref_spec(unpinned.names.prepared_ref.0@) matches Some(RefValue::Direct(t)) ==> (r matches Err(e)
            && e.message_spec() == crate::refs::exists_text(unpinned.names.prepared_ref.0@, t)),
        old(manager).repo.ref_spec(unpinned.names.prepared_ref.0@) matches Some(RefValue::Symbolic(t)) ==> (r matches Err(e)
            && e.message_spec() == crate::refs::exists_symbolic_text(unpinned.names.prepared_ref.0@, t)),
        old(manager).repo.ref_spec(unpinned.names.prepared_ref.0@) is None && old(hooks).armed == Some(
            crate::effects::EffectSiteId::Ref(RefSite::PinCandidatePrepared),
        ) ==> (r matches Err(e) && e.message_spec() == crate::effects::injected_text(
            crate::effects::EffectSiteId::Ref(RefSite::PinCandidatePrepared),
        )),
        r is Ok ==> forall|n: Seq<char>| #[trigger] final(manager).repo.ref_spec(n) == if n == unpinned.names.prepared_ref.0@ {
            Some(RefValue::Direct(unpinned.commit_sha.0@))
        } else {
            old(manager).repo.ref_spec(n)
        },
        r is Err ==> final(manager).repo.refs == old(manager).repo.refs,
{
    let UnpinnedCandidate { judged, names, commit_sha } = unpinned;
    manager.repo.create_ref_zero_old(hooks, RefSite::PinCandidatePrepared, names.prepared_ref.as_str(), commit_sha.as_str())?;
    Ok(PinnedCandidate { judged, names, commit_sha })
}

/// The `candidate_prepared` record a pinned candidate is appended as.
pub open spec fn prepared_body(p: PinnedCandidate) -> CandidatePrepared {
    CandidatePrepared {
        key: p.judged.key,
        generation: p.judged.generation,
        attempt: p.judged.attempt,
        base_sha: p.judged.base_sha,
        parent_sha: p.judged.base_sha,
        tree_sha: p.judged.tree_sha,
        commit_sha: p.commit_sha,
        message: p.judged.message,
        prepared_ref: p.names.prepared_ref,
        candidate_ref: p.names.candidate_ref,
        actual_paths: p.judged.actual_paths,
        lease_effect: p.judged.lease_effect,
    }
}

/// The sites a promotion's appends cross.
pub open spec fn append_site() -> Set<EffectSiteId> {
    set![EffectSiteId::Event(EventSite::Append)]
}

/// The site the candidates ref is created at.
pub open spec fn create_site() -> Set<EffectSiteId> {
    set![EffectSiteId::Ref(RefSite::CreateCandidates)]
}

/// The site the prepared pin is deleted at.
pub open spec fn unpin_site() -> Set<EffectSiteId> {
    set![EffectSiteId::Ref(RefSite::DeleteCandidatePin)]
}

/// The sites `worktree` and its intent are removed at.
pub open spec fn reclaim_sites(worktree: Slot) -> Set<EffectSiteId> {
    set![
        worktree.site_spec(WorktreeSite::Remove, SnapshotSite::Remove),
        worktree.site_spec(WorktreeSite::RemoveIntent, SnapshotSite::RemoveIntent),
    ]
}

/// Every site a promotion of `worktree`'s candidate crosses.
pub open spec fn promotion_sites(worktree: Slot) -> Set<EffectSiteId> {
    append_site().union(create_site()).union(unpin_site()).union(reclaim_sites(worktree))
}

/// Whether the crossings of `t` from `from` on are the pin's deletion, then
/// the removal of `worktree` and of its intent.
pub open spec fn reclaim_order(t: Seq<(EffectSiteId, HookPhase)>, from: int, worktree: Slot) -> bool {
    exists|d: int| #[trigger] crossed_between(t, from, d, unpin_site()) && crossed_between(t, d, t.len() as int, reclaim_sites(worktree))
}

/// Whether the crossings of `t` from `from` on are the creation of the
/// candidates ref, then the `task_candidate_created` append, then the reclaim.
pub open spec fn completion_order(t: Seq<(EffectSiteId, HookPhase)>, from: int, worktree: Slot) -> bool {
    exists|b: int, c: int|
        #![trigger crossed_between(t, from, b, create_site()), crossed_between(t, b, c, append_site())]
        crossed_between(t, from, b, create_site()) && crossed_between(t, b, c, append_site()) && reclaim_order(t, c, worktree)
}

/// Whether the crossings of `t` from `from` on are the `candidate_prepared`
/// append, then the completion.
pub open spec fn promotion_order(t: Seq<(EffectSiteId, HookPhase)>, from: int, worktree: Slot) -> bool {
    exists|a: int| #[trigger] crossed_between(t, from, a, append_site()) && completion_order(t, a, worktree)
}

proof fn lemma_reclaim_order(t: Seq<(EffectSiteId, HookPhase)>, from: int, d: int, worktree: Slot)
    requires
        crossed_between(t, from, d, unpin_site()),
        crossed_between(t, d, t.len() as int, reclaim_sites(worktree)),
    ensures
        reclaim_order(t, from, worktree),
{
}

proof fn lemma_completion_order(t: Seq<(EffectSiteId, HookPhase)>, from: int, b: int, c: int, worktree: Slot)
    requires
        crossed_between(t, from, b, create_site()),
        crossed_between(t, b, c, append_site()),
        reclaim_order(t, c, worktree),
    ensures
        completion_order(t, from, worktree),
{
}

proof fn lemma_promotion_order(t: Seq<(EffectSiteId, HookPhase)>, from: int, a: int, worktree: Slot)
    requires
        crossed_between(t, from, a, append_site()),
        completion_order(t, a, worktree),
    ensures
        promotion_order(t, from, worktree),
        crossed_between(t, from, t.len() as int, promotion_sites(worktree)),
{
    let (b, c) = choose|b: int, c: int|
        #![trigger crossed_between(t, a, b, create_site()), crossed_between(t, b, c, append_site())]
        crossed_between(t, a, b, create_site()) && crossed_between(t, b, c, append_site()) && reclaim_order(t, c, worktree);
    let d = choose|d: int| #[trigger] crossed_between(t, c, d, unpin_site()) && crossed_between(t, d, t.len() as int, reclaim_sites(worktree));
    let all = promotion_sites(worktree);
    lemma_crossed_join(t, from, a, b, append_site(), create_site(), all);
    lemma_crossed_join(t, from, b, c, all, append_site(), all);
    lemma_crossed_join(t, from, c, d, all, unpin_site(), all);
    lemma_crossed_join(t, from, d, t.len() as int, all, reclaim_sites(worktree), all);
}

/// Appends `candidate_prepared`, the sole successful settlement of the
/// attempt: from here the generation is promoting.
pub fn append_candidate_prepared<J: CandidateJournal>(journal: &mut J, hooks: &mut Hooks, pinned: PinnedCandidate) -> (r: Result<
    PromotingCandidate,
    UpstrokeError,
>)
    ensures
        r is Ok ==> final(journal).events_view() == old(journal).events_view().push(
            TopologyEventBody::CandidatePrepared { data: prepared_body(pinned) },
        ) && stepped(old(journal).fold_view(), final(journal).fold_view(), TopologyEventBody::CandidatePrepared { data: prepared_body(pinned) }),
        r is Err ==> final(journal).fold_view() == old(journal).fold_view() && final(journal).events_view() == old(journal).events_view(),
        !admits(old(journal).fold_view(), TopologyEventBody::CandidatePrepared { data: prepared_body(pinned) }) ==> r is Err,
        append_owed(
            old(journal).owes_success(),
            old(journal).fold_view(),
            TopologyEventBody::CandidatePrepared { data: prepared_body(pinned) },
            old(hooks).armed,
        ) ==> r is Ok,
        final(journal).owes_success() == old(journal).owes_success(),
        r is Ok ==> final(hooks).armed == old(hooks).armed,
        final(hooks).trace@.len() >= old(hooks).trace@.len(),
        final(hooks).trace@.subrange(0, old(hooks).trace@.len() as int) == old(hooks).trace@,
        extended_at(old(hooks).trace@, final(hooks).trace@, append_site()),
        r matches Ok(p) ==> p.candidate == (CandidateRef {
            key: pinned.judged.key,
            generation: pinned.judged.generation,
            commit_sha: pinned.commit_sha,
            candidate_ref: pinned.names.candidate_ref,
        }) && p.prepared_ref == pinned.names.prepared_ref && p.base == pinned.judged.base_sha && p.tree == pinned.judged.tree_sha,
{
    let ghost body = prepared_body(pinned);
    let PinnedCandidate { judged, names, commit_sha } = pinned;
    let prepared = CandidatePrepared {
        key: judged.key,
        generation: judged.generation,
        attempt: judged.attempt,
        base_sha: judged.base_sha.duplicate(),
        parent_sha: judged.base_sha.duplicate(),
        tree_sha: judged.tree_sha.duplicate(),
        commit_sha,
        message: judged.message,
        prepared_ref: names.prepared_ref.duplicate(),
        candidate_ref: names.candidate_ref,
        actual_paths: judged.actual_paths,
        lease_effect: judged.lease_effect,
    };
    assert(prepared == body);
    let candidate = prepared.candidate();
    journal.emit(TopologyEventBody::CandidatePrepared { data: prepared }, hooks)?;
    Ok(PromotingCandidate { candidate, prepared_ref: names.prepared_ref, base: judged.base_sha, tree: judged.tree_sha })
}

/// Whether `repo` holds `commit` as the commit of the judged `tree` on `base`.
pub open spec fn is_judged_commit(manager: WorkspaceManager, commit: Seq<char>, base: Seq<char>, tree: Seq<char>) -> bool {
    manager.repo.object_spec(commit) == Some(ObjectValue::Commit { parent: Some(base), tree })
}

/// Refuses a candidate whose commit is not the commit of the judged tree on
/// the recorded base: absent, a tree, on another parent, or of another tree.
fn verify_object(manager: &WorkspaceManager, candidate: &CandidateRef, base: &CommitSha, tree: &CommitSha) -> (r: Result<(), UpstrokeError>)
    ensures
        r is Ok <==> is_judged_commit(*manager, candidate.commit_sha.0@, base.0@, tree.0@),
        r matches Err(e) ==> e is Refused && e.message_spec() == refusal_text(Refusal::ObjectMissing {
            key: candidate.key.0,
            generation: candidate.generation.0,
            commit: candidate.commit_sha.0,
        }),
{
    let missing = Refusal::ObjectMissing {
        key: candidate.key.0,
        generation: candidate.generation.0,
        commit: candidate.commit_sha.0.clone(),
    };
    if !manager.repo.object_exists(candidate.commit_sha.as_str()) {
        return Err(missing.into_error());
    }
    let parent_ok = match manager.repo.commit_parent(candidate.commit_sha.as_str()) {
        Some(parent) => same_text(parent.as_str(), base.as_str()),
        None => false,
    };
    if !parent_ok {
        return Err(missing.into_error());
    }
    let tree_ok = match manager.repo.commit_tree_sha(candidate.commit_sha.as_str()) {
        Some(found) => same_text(found.as_str(), tree.as_str()),
        None => false,
    };
    if !tree_ok {
        return Err(missing.into_error());
    }
    Ok(())
}

/// Creates the candidates ref at the recorded commit, after verifying the
/// commit is the judged one; a ref already at that commit is kept, and one at
/// another commit refuses and is never moved.
pub fn create_candidates_ref(manager: &mut WorkspaceManager, hooks: &mut Hooks, promoting: PromotingCandidate) -> (r: Result<
    ReferencedCandidate,
    UpstrokeError,
>)
    ensures
        final(manager).repo.objects == old(manager).repo.objects,
        final(manager).worktrees == old(manager).worktrees,
        final(manager).intents == old(manager).intents,
        r is Ok ==> is_judged_commit(*old(manager), promoting.candidate.commit_sha.0@, promoting.base.0@, promoting.tree.0@),
        !is_judged_commit(*old(manager), promoting.candidate.commit_sha.0@, promoting.base.0@, promoting.tree.0@) ==> (r matches Err(e) && e is Refused
            && e.message_spec() == refusal_text(Refusal::ObjectMissing {
                key: promoting.candidate.key.0,
                generation: promoting.candidate.generation.0,
                commit: promoting.candidate.commit_sha.0,
            })),
        is_judged_commit(*old(manager), promoting.candidate.commit_sha.0@, promoting.base.0@, promoting.tree.0@) ==> match old(
            manager,
        ).repo.ref_spec(promoting.candidate.candidate_ref.0@) {
            None => r is Ok <==> old(hooks).armed != Some(crate::effects::EffectSiteId::Ref(RefSite::CreateCandidates)),
            Some(RefValue::Direct(found)) => if found == promoting.candidate.commit_sha.0@ {
                r is Ok
            } else {
                r matches Err(e) && e is Refused && exists|f: String| f@ == found && e.message_spec() == refusal_text(Refusal::RefAtAnotherSha {
                    refname: promoting.candidate.candidate_ref.0,
                    found: f,
                    expected: promoting.candidate.commit_sha.0,
                })
            },
            Some(RefValue::Symbolic(_)) => r is Err,
        },
        r matches Ok(rc) ==> rc.candidate == promoting.candidate && rc.prepared_ref == promoting.prepared_ref,
        r is Ok ==> final(hooks).armed == old(hooks).armed,
        final(hooks).trace@.len() >= old(hooks).trace@.len(),
        final(hooks).trace@.subrange(0, old(hooks).trace@.len() as int) == old(hooks).trace@,
        extended_at(old(hooks).trace@, final(hooks).trace@, create_site()),
        is_judged_commit(*old(manager), promoting.candidate.commit_sha.0@, promoting.base.0@, promoting.tree.0@) && old(manager).repo.ref_spec(
            promoting.candidate.candidate_ref.0@,
        ) == Some(RefValue::Direct(promoting.candidate.commit_sha.0@)) ==> r is Ok && *final(manager) == *old(manager) && *final(hooks)
            == *old(hooks),
        r is Ok ==> forall|n: Seq<char>| #[trigger] final(manager).repo.ref_spec(n) == if n == promoting.candidate.candidate_ref.0@ {
            Some(RefValue::Direct(promoting.candidate.commit_sha.0@))
        } else {
            old(manager).repo.ref_spec(n)
        },
        r is Err ==> final(manager).repo.refs == old(manager).repo.refs,
{
    let PromotingCandidate { candidate, prepared_ref, base, tree } = promoting;
    verify_object(manager, &candidate, &base, &tree)?;
    match manager.repo.direct_ref_target(candidate.candidate_ref.as_str())? {
        None => {
            manager.repo.create_ref_zero_old(hooks, RefSite::CreateCandidates, candidate.candidate_ref.as_str(), candidate.commit_sha.as_str())?;
        },
        Some(found) => {
            if !same_text(found.as_str(), candidate.commit_sha.as_str()) {
                let refusal = Refusal::RefAtAnotherSha {
                    refname: candidate.candidate_ref.0.clone(),
                    found,
                    expected: candidate.commit_sha.0.clone(),
                };
                return Err(refusal.into_error());
            }
        },
    }
    Ok(ReferencedCandidate { candidate, prepared_ref })
}

/// Whether generation `generation` of task `key` is promoting.
pub open spec fn is_promoting_spec(fold: TopologyFold, key: TaskKey, generation: GenerationId) -> bool {
    match fold.task_spec(key) {
        Some(task) => exists|i: int| 0 <= i < task.generations@.len() && (#[trigger] task.generations@[i]).id == generation
            && task.generations@[i].class is Promoting,
        None => false,
    }
}

fn is_promoting(fold: &TopologyFold, key: TaskKey, generation: GenerationId) -> (b: bool)
    ensures
        b == is_promoting_spec(*fold, key, generation),
{
    match fold.task(key) {
        Some(task) => {
            let n = task.generations.len();
            let mut i: usize = 0;
            while i < n
                invariant
                    n == task.generations.len(),
                    i <= n,
                    fold.task_spec(key) == Some(*task),
                    forall|j: int| 0 <= j < i ==> !((#[trigger] task.generations@[j]).id == generation && task.generations@[j].class is Promoting),
                decreases n - i,
            {
                if task.generations[i].id == generation && task.generations[i].class.is_promoting() {
                    return true;
                }
                i = i + 1;
            }
            false
        },
        None => false,
    }
}

/// Appends `task_candidate_created` where the generation is still promoting;
/// a generation that no longer is appends nothing, so the queue position is
/// taken once.
pub fn append_candidate_created<J: CandidateJournal>(journal: &mut J, hooks: &mut Hooks, referenced: ReferencedCandidate) -> (r: Result<
    CreatedCandidate,
    UpstrokeError,
>)
    ensures
        is_promoting_spec(old(journal).fold_view(), referenced.candidate.key, referenced.candidate.generation) ==> (
            r is Ok ==> final(journal).events_view() == old(journal).events_view().push(
                TopologyEventBody::TaskCandidateCreated { data: TaskCandidateCreated { candidate: referenced.candidate } },
            ) && stepped(
                old(journal).fold_view(),
                final(journal).fold_view(),
                TopologyEventBody::TaskCandidateCreated { data: TaskCandidateCreated { candidate: referenced.candidate } },
            )),
        !is_promoting_spec(old(journal).fold_view(), referenced.candidate.key, referenced.candidate.generation) ==> r is Ok
            && final(journal).fold_view() == old(journal).fold_view() && final(journal).events_view() == old(journal).events_view(),
        r is Err ==> final(journal).fold_view() == old(journal).fold_view() && final(journal).events_view() == old(journal).events_view(),
        r matches Ok(c) ==> c.candidate == referenced.candidate && c.prepared_ref == referenced.prepared_ref,
        append_owed(old(journal).owes_success(), old(journal).fold_view(), created_body(referenced.candidate), old(hooks).armed) ==> r is Ok,
        final(journal).events_view().len() >= old(journal).events_view().len(),
        final(journal).owes_success() == old(journal).owes_success(),
        r is Ok ==> final(hooks).armed == old(hooks).armed,
        final(hooks).trace@.len() >= old(hooks).trace@.len(),
        final(hooks).trace@.subrange(0, old(hooks).trace@.len() as int) == old(hooks).trace@,
        extended_at(old(hooks).trace@, final(hooks).trace@, append_site()),
{
    let ReferencedCandidate { candidate, prepared_ref } = referenced;
    if is_promoting(journal.fold(), candidate.key, candidate.generation) {
        journal.emit(TopologyEventBody::TaskCandidateCreated { data: TaskCandidateCreated { candidate: candidate.duplicate() } }, hooks)?;
    }
    Ok(CreatedCandidate { candidate, prepared_ref })
}

/// Prunes the prepared pin, which must be at the recorded commit where it
/// exists, then removes the task worktree and its intent.
pub fn reclaim_after_creation(manager: &mut WorkspaceManager, hooks: &mut Hooks, worktree: &Slot, created: CreatedCandidate) -> (r: Result<
    QueuedCandidate,
    UpstrokeError,
>)
    ensures
        final(manager).repo.objects == old(manager).repo.objects,
        r matches Ok(q) ==> q.candidate == created.candidate,
        r is Ok ==> final(manager).repo.ref_spec(created.prepared_ref.0@) is None && !final(manager).has_worktree_spec(*worktree)
            && !final(manager).has_intent_spec(*worktree),
        r is Ok ==> forall|n: Seq<char>| n != created.prepared_ref.0@ ==> #[trigger] final(manager).repo.ref_spec(n)
            == old(manager).repo.ref_spec(n),
        match old(manager).repo.ref_spec(created.prepared_ref.0@) {
            Some(RefValue::Direct(found)) => found != created.candidate.commit_sha.0@ ==> (r matches Err(e) && e is Refused
                && *final(manager) == *old(manager) && exists|f: String| f@ == found && e.message_spec() == refusal_text(
                Refusal::RefAtAnotherSha { refname: created.prepared_ref.0, found: f, expected: created.candidate.commit_sha.0 },
            )),
            Some(RefValue::Symbolic(_)) => r is Err && *final(manager) == *old(manager),
            None => true,
        },
        slot_escapes(*worktree) ==> r is Err,
        old(manager).repo.ref_spec(created.prepared_ref.0@) is None ==> final(manager).repo == old(manager).repo,
        old(hooks).armed is None && !slot_escapes(*worktree) && match old(manager).repo.ref_spec(created.prepared_ref.0@) {
            Some(RefValue::Direct(found)) => found == created.candidate.commit_sha.0@,
            Some(RefValue::Symbolic(_)) => false,
            None => true,
        } ==> r is Ok,
        final(hooks).trace@.len() >= old(hooks).trace@.len(),
        final(hooks).trace@.subrange(0, old(hooks).trace@.len() as int) == old(hooks).trace@,
        reclaim_order(final(hooks).trace@, old(hooks).trace@.len() as int, *worktree),
{
    let ghost t0 = hooks.trace@;
    proof {
        lemma_reclaim_order(t0, t0.len() as int, t0.len() as int, *worktree);
    }
    let CreatedCandidate { candidate, prepared_ref } = created;
    match manager.repo.direct_ref_target(prepared_ref.as_str())? {
        Some(found) => {
            if !same_text(found.as_str(), candidate.commit_sha.as_str()) {
                let refusal = Refusal::RefAtAnotherSha {
                    refname: prepared_ref.0.clone(),
                    found,
                    expected: candidate.commit_sha.0.clone(),
                };
                return Err(refusal.into_error());
            }
            let unpinned = manager.repo.delete_ref_expected_old(hooks, RefSite::DeleteCandidatePin, prepared_ref.as_str(), found.as_str());
            proof {
                lemma_reclaim_order(hooks.trace@, t0.len() as int, hooks.trace@.len() as int, *worktree);
            }
            unpinned?;
        },
        None => {},
    }
    let ghost t1 = hooks.trace@;
    let removed = manager.remove_worktree(hooks, worktree);
    let ghost t2 = hooks.trace@;
    proof {
        assert(t1.subrange(0, t0.len() as int) =~= t0);
        lemma_crossed_kept(t1, t2, t0.len() as int, t1.len() as int, unpin_site());
        lemma_crossed_join(t2, t1.len() as int, t1.len() as int, t2.len() as int, reclaim_sites(*worktree), set![
            worktree.site_spec(WorktreeSite::Remove, SnapshotSite::Remove),
        ], reclaim_sites(*worktree));
        lemma_reclaim_order(t2, t0.len() as int, t1.len() as int, *worktree);
        lemma_trace_extends(t0, t1, t2);
    }
    removed?;
    let dropped = manager.remove_intent(hooks, worktree);
    proof {
        let t3 = hooks.trace@;
        lemma_trace_extends(t1, t2, t3);
        lemma_trace_extends(t0, t1, t3);
        lemma_crossed_kept(t1, t3, t0.len() as int, t1.len() as int, unpin_site());
        lemma_crossed_kept(t2, t3, t1.len() as int, t2.len() as int, reclaim_sites(*worktree));
        lemma_crossed_join(t3, t1.len() as int, t2.len() as int, t3.len() as int, reclaim_sites(*worktree), set![
            worktree.site_spec(WorktreeSite::RemoveIntent, SnapshotSite::RemoveIntent),
        ], reclaim_sites(*worktree));
        lemma_reclaim_order(t3, t0.len() as int, t1.len() as int, *worktree);
    }
    dropped?;
    Ok(QueuedCandidate { candidate })
}


/// The `task_candidate_created` body for `candidate`.
pub open spec fn created_body(candidate: CandidateRef) -> TopologyEventBody {
    TopologyEventBody::TaskCandidateCreated { data: TaskCandidateCreated { candidate } }
}

/// Completes a promotion: the candidates ref, the queue position where the
/// generation is still promoting, then the reclaim of pin and worktree. The
/// closure procedure runs it again on a resume; a second run appends nothing.
pub fn complete_promotion<J: CandidateJournal>(
    manager: &mut WorkspaceManager,
    hooks: &mut Hooks,
    journal: &mut J,
    worktree: &Slot,
    promoting: PromotingCandidate,
) -> (r: Result<QueuedCandidate, UpstrokeError>)
    ensures
        final(manager).repo.objects == old(manager).repo.objects,
        r matches Ok(q) ==> q.candidate == promoting.candidate,
        r is Ok ==> is_judged_commit(*old(manager), promoting.candidate.commit_sha.0@, promoting.base.0@, promoting.tree.0@)
            && (promoting.candidate.candidate_ref.0@ != promoting.prepared_ref.0@ ==> final(manager).repo.ref_spec(
            promoting.candidate.candidate_ref.0@,
        ) == Some(RefValue::Direct(promoting.candidate.commit_sha.0@)))
            && final(manager).repo.ref_spec(promoting.prepared_ref.0@) is None
            && !final(manager).has_worktree_spec(*worktree) && !final(manager).has_intent_spec(*worktree),
        r is Ok && is_promoting_spec(old(journal).fold_view(), promoting.candidate.key, promoting.candidate.generation)
            ==> final(journal).events_view() == old(journal).events_view().push(created_body(promoting.candidate))
            && stepped(old(journal).fold_view(), final(journal).fold_view(), created_body(promoting.candidate)),
        !is_promoting_spec(old(journal).fold_view(), promoting.candidate.key, promoting.candidate.generation)
            ==> final(journal).fold_view() == old(journal).fold_view() && final(journal).events_view() == old(journal).events_view(),
        !is_judged_commit(*old(manager), promoting.candidate.commit_sha.0@, promoting.base.0@, promoting.tree.0@) ==> (r matches Err(e) && e is Refused
            && e.message_spec() == refusal_text(Refusal::ObjectMissing {
                key: promoting.candidate.key.0,
                generation: promoting.candidate.generation.0,
                commit: promoting.candidate.commit_sha.0,
            }) && final(manager).repo.refs == old(manager).repo.refs && final(journal).fold_view() == old(journal).fold_view()
            && final(journal).events_view() == old(journal).events_view()),
        (old(manager).repo.ref_spec(promoting.candidate.candidate_ref.0@) matches Some(RefValue::Direct(found))
            && found != promoting.candidate.commit_sha.0@) ==> (r is Err && final(manager).repo.refs == old(manager).repo.refs
            && final(journal).fold_view() == old(journal).fold_view() && final(journal).events_view() == old(journal).events_view()),
        completion_owed(*old(manager), old(hooks).armed, *worktree, promoting) && (is_promoting_spec(
            old(journal).fold_view(),
            promoting.candidate.key,
            promoting.candidate.generation,
        ) ==> append_owed(old(journal).owes_success(), old(journal).fold_view(), created_body(promoting.candidate), None)) ==> r is Ok,
        final(journal).owes_success() == old(journal).owes_success(),
        r is Ok ==> forall|n: Seq<char>| n != promoting.prepared_ref.0@ && n != promoting.candidate.candidate_ref.0@
            ==> #[trigger] final(manager).repo.ref_spec(n) == old(manager).repo.ref_spec(n),
        final(journal).events_view().len() >= old(journal).events_view().len(),
        r is Ok && promoting.candidate.candidate_ref.0@ != promoting.prepared_ref.0@ && unique_generations(
            old(journal).fold_view(),
            promoting.candidate.key,
        ) ==> promotion_settled(*final(manager), final(journal).fold_view(), *worktree, promoting),
        promotion_settled(*old(manager), old(journal).fold_view(), *worktree, promoting) && old(hooks).armed is None
            ==> r is Ok && final(journal).events_view() == old(journal).events_view() && final(journal).fold_view() == old(
            journal,
        ).fold_view() && final(manager).repo == old(manager).repo,
        final(hooks).trace@.len() >= old(hooks).trace@.len(),
        final(hooks).trace@.subrange(0, old(hooks).trace@.len() as int) == old(hooks).trace@,
        completion_order(final(hooks).trace@, old(hooks).trace@.len() as int, *worktree),
        completion_contract(
            *old(manager),
            old(journal).fold_view(),
            old(journal).events_view(),
            old(hooks).armed,
            *worktree,
            promoting,
            r is Ok,
            *final(manager),
            final(journal).fold_view(),
            final(journal).events_view(),
        ),
{
    let ghost fold0 = journal.fold_view();
    let ghost t0 = hooks.trace@;
    let referenced = create_candidates_ref(manager, hooks, promoting);
    let ghost t1 = hooks.trace@;
    proof {
        lemma_reclaim_order(t1, t1.len() as int, t1.len() as int, *worktree);
        lemma_completion_order(t1, t0.len() as int, t1.len() as int, t1.len() as int, *worktree);
    }
    let referenced = referenced?;
    let created = append_candidate_created(journal, hooks, referenced);
    let ghost t2 = hooks.trace@;
    proof {
        lemma_trace_extends(t0, t1, t2);
        lemma_crossed_kept(t1, t2, t0.len() as int, t1.len() as int, create_site());
        lemma_reclaim_order(t2, t2.len() as int, t2.len() as int, *worktree);
        lemma_completion_order(t2, t0.len() as int, t1.len() as int, t2.len() as int, *worktree);
    }
    let created = created?;
    proof {
        if is_promoting_spec(fold0, promoting.candidate.key, promoting.candidate.generation) && unique_generations(
            fold0,
            promoting.candidate.key,
        ) {
            lemma_created_not_promoting(fold0, journal.fold_view(), promoting.candidate);
        }
    }
    let r = reclaim_after_creation(manager, hooks, worktree, created);
    proof {
        let t3 = hooks.trace@;
        lemma_trace_extends(t1, t2, t3);
        lemma_crossed_kept(t1, t3, t0.len() as int, t1.len() as int, create_site());
        lemma_crossed_kept(t2, t3, t1.len() as int, t2.len() as int, append_site());
        lemma_completion_order(t3, t0.len() as int, t1.len() as int, t2.len() as int, *worktree);
        lemma_trace_extends(t0, t2, t3);
    }
    r
}

/// What a completion of `p` promises of the state it leaves, from
/// `m0`, `f0` and `e0` with `armed` armed, to `m1`, `f1` and `e1`, `ok`
/// whether it succeeded: one that succeeds leaves the promotion settled,
/// and one of a settled promotion succeeds and changes nothing.
pub open spec fn completion_contract(
    m0: WorkspaceManager,
    f0: TopologyFold,
    e0: Seq<TopologyEventBody>,
    armed: Option<crate::effects::EffectSiteId>,
    w: Slot,
    p: PromotingCandidate,
    ok: bool,
    m1: WorkspaceManager,
    f1: TopologyFold,
    e1: Seq<TopologyEventBody>,
) -> bool {
    &&& ok && p.candidate.candidate_ref.0@ != p.prepared_ref.0@ && unique_generations(f0, p.candidate.key) ==> promotion_settled(m1, f1, w, p)
    &&& promotion_settled(m0, f0, w, p) && armed is None ==> ok && e1 == e0 && f1 == f0 && m1.repo == m0.repo
}

/// Completing a promotion twice completes it once: after a completion that
/// succeeded, a second one with nothing armed succeeds, appends nothing and
/// changes no ref, so the candidates ref stays at the commit and the pin
/// stays gone.
pub proof fn law_completing_a_promotion_twice_completes_it_once(
    m0: WorkspaceManager,
    f0: TopologyFold,
    e0: Seq<TopologyEventBody>,
    m1: WorkspaceManager,
    f1: TopologyFold,
    e1: Seq<TopologyEventBody>,
    m2: WorkspaceManager,
    f2: TopologyFold,
    e2: Seq<TopologyEventBody>,
    w: Slot,
    p: PromotingCandidate,
    second: bool,
)
    requires
        completion_contract(m0, f0, e0, None, w, p, true, m1, f1, e1),
        completion_contract(m1, f1, e1, None, w, p, second, m2, f2, e2),
        p.candidate.candidate_ref.0@ != p.prepared_ref.0@,
        unique_generations(f0, p.candidate.key),
    ensures
        second,
        e2 == e1,
        f2 == f1,
        m2.repo == m1.repo,
        m2.repo.ref_spec(p.candidate.candidate_ref.0@) == Some(RefValue::Direct(p.candidate.commit_sha.0@)),
        m2.repo.ref_spec(p.prepared_ref.0@) is None,
{
}

/// After a completed promotion, a resume owes nothing: where the completed
/// generation is the task's last, with its candidate recorded and the pin
/// the promotion named, recovery's conditions for owing nothing hold.
pub proof fn law_a_completed_promotion_owes_no_recovery(
    m0: WorkspaceManager,
    f0: TopologyFold,
    e0: Seq<TopologyEventBody>,
    m1: WorkspaceManager,
    f1: TopologyFold,
    e1: Seq<TopologyEventBody>,
    run_id: Seq<char>,
    w: Slot,
    p: PromotingCandidate,
)
    requires
        completion_contract(m0, f0, e0, None, w, p, true, m1, f1, e1),
        p.candidate.candidate_ref.0@ != p.prepared_ref.0@,
        unique_generations(f0, p.candidate.key),
        last_generation(f1, p.candidate.key) matches Some(g) && g.id == p.candidate.generation && g.candidate is Some,
        p.prepared_ref.0@ == pin_ref_spec(run_id, p.candidate.key, p.candidate.generation),
    ensures
        last_generation(f1, p.candidate.key) matches Some(g) && g.candidate is Some && !(g.class is Promoting)
            && m1.repo.ref_spec(pin_ref_spec(run_id, p.candidate.key, g.id)) is None,
{
    law_a_settled_promotion_owes_no_recovery(m1, f1, run_id, w, p);
}

/// Whether the generations of task `key` have distinct ids.
pub open spec fn unique_generations(fold: TopologyFold, key: TaskKey) -> bool {
    fold.task_spec(key) matches Some(t) ==> forall|i: int, j: int| 0 <= i < j < t.generations@.len()
        ==> (#[trigger] t.generations@[i]).id != (#[trigger] t.generations@[j]).id
}

/// Whether the promotion of `promoting` is complete: the generation is not
/// promoting, the commit is the judged one, the candidates ref is at it,
/// the pin is gone, and so are the task worktree and its intent.
pub open spec fn promotion_settled(manager: WorkspaceManager, fold: TopologyFold, worktree: Slot, promoting: PromotingCandidate) -> bool {
    &&& !is_promoting_spec(fold, promoting.candidate.key, promoting.candidate.generation)
    &&& is_judged_commit(manager, promoting.candidate.commit_sha.0@, promoting.base.0@, promoting.tree.0@)
    &&& manager.repo.ref_spec(promoting.candidate.candidate_ref.0@) == Some(RefValue::Direct(promoting.candidate.commit_sha.0@))
    &&& manager.repo.ref_spec(promoting.prepared_ref.0@) is None
    &&& !slot_escapes(worktree)
    &&& !manager.has_worktree_spec(worktree)
    &&& !manager.has_intent_spec(worktree)
}

/// Once a promotion is complete, a resume owes its generation nothing: where
/// that generation is the task's last, has its candidate recorded, and its
/// pin is the one the promotion named, recovery's conditions for owing
/// nothing hold.
pub proof fn law_a_settled_promotion_owes_no_recovery(
    manager: WorkspaceManager,
    fold: TopologyFold,
    run_id: Seq<char>,
    worktree: Slot,
    promoting: PromotingCandidate,
)
    requires
        promotion_settled(manager, fold, worktree, promoting),
        last_generation(fold, promoting.candidate.key) matches Some(g) && g.id == promoting.candidate.generation && g.candidate is Some,
        promoting.prepared_ref.0@ == pin_ref_spec(run_id, promoting.candidate.key, promoting.candidate.generation),
    ensures
        last_generation(fold, promoting.candidate.key) matches Some(g) && g.candidate is Some && !(g.class is Promoting)
            && manager.repo.ref_spec(pin_ref_spec(run_id, promoting.candidate.key, g.id)) is None,
{
    let task = fold.task_spec(promoting.candidate.key).unwrap();
    let last = task.generations@.len() - 1;
    assert(task.generations@[last].id == promoting.candidate.generation);
}

/// Folding `task_candidate_created` leaves its generation, the only one of
/// its id, no longer promoting.
proof fn lemma_created_not_promoting(old: TopologyFold, new: TopologyFold, c: CandidateRef)
    requires
        stepped(old, new, created_body(c)),
        is_promoting_spec(old, c.key, c.generation),
        unique_generations(old, c.key),
    ensures
        !is_promoting_spec(new, c.key, c.generation),
{
    let k = c.key.0 as int;
    let gens = old.tasks@[k].generations@;
    crate::fold::lemma_generation_index(gens, c.generation);
    let i = generation_index(gens, c.generation).unwrap();
    let ng = new.tasks@[k].generations@;
    assert(ng == gens.update(i, crate::fold::generation_after(gens[i], created_body(c))));
    assert forall|j: int| 0 <= j < ng.len() && (#[trigger] ng[j]).id == c.generation implies !(ng[j].class is Promoting) by {
        if j != i {
            assert(ng[j] == gens[j]);
            if j < i {
                assert(gens[j].id != gens[i].id);
            } else {
                assert(gens[i].id != gens[j].id);
            }
        }
    }
}

/// Appends `candidate_prepared` for a pinned candidate, then completes the
/// promotion. Its crossings come in that order: the append, the candidates
/// ref, the `task_candidate_created` append, the pin's deletion, then the
/// worktree's removal; the candidates ref is never deleted.
pub fn promote<J: CandidateJournal>(
    manager: &mut WorkspaceManager,
    hooks: &mut Hooks,
    journal: &mut J,
    worktree: &Slot,
    pinned: PinnedCandidate,
) -> (r: Result<QueuedCandidate, UpstrokeError>)
    ensures
        final(manager).repo.objects == old(manager).repo.objects,
        r matches Ok(q) ==> q.candidate == (CandidateRef {
            key: pinned.judged.key,
            generation: pinned.judged.generation,
            commit_sha: pinned.commit_sha,
            candidate_ref: pinned.names.candidate_ref,
        }),
        r is Ok ==> (pinned.names.candidate_ref.0@ != pinned.names.prepared_ref.0@ ==> final(manager).repo.ref_spec(
            pinned.names.candidate_ref.0@,
        ) == Some(RefValue::Direct(pinned.commit_sha.0@))) && final(manager).repo.ref_spec(pinned.names.prepared_ref.0@) is None
            && !final(manager).has_worktree_spec(*worktree) && !final(manager).has_intent_spec(*worktree),
        !admits(old(journal).fold_view(), TopologyEventBody::CandidatePrepared { data: prepared_body(pinned) }) ==> (r is Err
            && *final(manager) == *old(manager) && final(journal).events_view() == old(journal).events_view()),
        append_owed(
            old(journal).owes_success(),
            old(journal).fold_view(),
            TopologyEventBody::CandidatePrepared { data: prepared_body(pinned) },
            old(hooks).armed,
        ) && old(journal).fold_view().queue is Some && completion_owed(*old(manager), old(hooks).armed, *worktree, PromotingCandidate {
            candidate: CandidateRef {
                key: pinned.judged.key,
                generation: pinned.judged.generation,
                commit_sha: pinned.commit_sha,
                candidate_ref: pinned.names.candidate_ref,
            },
            prepared_ref: pinned.names.prepared_ref,
            base: pinned.judged.base_sha,
            tree: pinned.judged.tree_sha,
        }) ==> r is Ok,
        r is Ok ==> forall|n: Seq<char>| n != pinned.names.prepared_ref.0@ && n != pinned.names.candidate_ref.0@
            ==> #[trigger] final(manager).repo.ref_spec(n) == old(manager).repo.ref_spec(n),
        final(journal).events_view() == old(journal).events_view() ==> *final(manager) == *old(manager),
        final(hooks).trace@.len() >= old(hooks).trace@.len(),
        final(hooks).trace@.subrange(0, old(hooks).trace@.len() as int) == old(hooks).trace@,
        promotion_order(final(hooks).trace@, old(hooks).trace@.len() as int, *worktree),
        forall|k: int| old(hooks).trace@.len() <= k < final(hooks).trace@.len() ==> (#[trigger] final(hooks).trace@[k]).0
            != EffectSiteId::Ref(RefSite::DeleteCandidatesRef),
{
    let ghost fold0 = journal.fold_view();
    let ghost events0 = journal.events_view();
    let ghost body = TopologyEventBody::CandidatePrepared { data: prepared_body(pinned) };
    let ghost t0 = hooks.trace@;
    let prepared = append_candidate_prepared(journal, hooks, pinned);
    let ghost t1 = hooks.trace@;
    proof {
        lemma_reclaim_order(t1, t1.len() as int, t1.len() as int, *worktree);
        lemma_completion_order(t1, t1.len() as int, t1.len() as int, t1.len() as int, *worktree);
        lemma_promotion_order(t1, t0.len() as int, t1.len() as int, *worktree);
    }
    let promoting = prepared?;
    proof {
        if admits(fold0, body) {
            crate::fold::lemma_stepped_generation(fold0, journal.fold_view(), body, pinned.judged.key, pinned.judged.generation);
            assert(admits(journal.fold_view(), created_body(promoting.candidate)) <== fold0.queue is Some);
        }
        assert(journal.events_view().len() == events0.len() + 1);
    }
    let r = complete_promotion(manager, hooks, journal, worktree, promoting);
    proof {
        let t2 = hooks.trace@;
        lemma_trace_extends(t0, t1, t2);
        lemma_crossed_kept(t1, t2, t0.len() as int, t1.len() as int, append_site());
        lemma_promotion_order(t2, t0.len() as int, t1.len() as int, *worktree);
    }
    r
}

/// Whether the repository side of a promotion is owed success, with `armed`
/// the site the hooks hold armed: nothing is armed, the slot stays inside
/// the execution root, the commit is the judged one, and the candidates ref
/// and the pin are absent or at the commit.
pub open spec fn completion_owed(manager: WorkspaceManager, armed: Option<crate::effects::EffectSiteId>, worktree: Slot, promoting: PromotingCandidate) -> bool {
    &&& armed is None
    &&& !slot_escapes(worktree)
    &&& is_judged_commit(manager, promoting.candidate.commit_sha.0@, promoting.base.0@, promoting.tree.0@)
    &&& at_or_absent(manager.repo.ref_spec(promoting.candidate.candidate_ref.0@), promoting.candidate.commit_sha.0@)
    &&& promoting.candidate.candidate_ref.0@ != promoting.prepared_ref.0@ ==> at_or_absent(
        manager.repo.ref_spec(promoting.prepared_ref.0@),
        promoting.candidate.commit_sha.0@,
    )
}

/// Whether a ref's value is absent or a direct ref at `commit`.
pub open spec fn at_or_absent(value: Option<RefValue>, commit: Seq<char>) -> bool {
    match value {
        None => true,
        Some(RefValue::Direct(found)) => found == commit,
        Some(RefValue::Symbolic(_)) => false,
    }
}

/// Deletes a pin no durable record names, at the exact target it was found at.
pub fn prune_orphan_pin(manager: &mut WorkspaceManager, hooks: &mut Hooks, pin: OrphanPin) -> (r: Result<(), UpstrokeError>)
    ensures
        final(manager).repo.objects == old(manager).repo.objects,
        final(manager).worktrees == old(manager).worktrees,
        final(manager).intents == old(manager).intents,
        r is Ok <==> old(manager).repo.ref_spec(pin.refname.0@) == Some(RefValue::Direct(pin.object.0@))
            && old(hooks).armed != Some(crate::effects::EffectSiteId::Ref(RefSite::DeleteCandidatePin)),
        r is Ok ==> forall|n: Seq<char>| #[trigger] final(manager).repo.ref_spec(n) == if n == pin.refname.0@ {
            None
        } else {
            old(manager).repo.ref_spec(n)
        },
        r is Err ==> final(manager).repo.refs == old(manager).repo.refs,
{
    manager.repo.delete_ref_expected_old(hooks, RefSite::DeleteCandidatePin, pin.refname.as_str(), pin.object.as_str())
}

/// The last generation of task `key`.
pub open spec fn last_generation(fold: TopologyFold, key: TaskKey) -> Option<crate::fold::Generation> {
    match fold.task_spec(key) {
        Some(task) => if task.generations@.len() > 0 {
            Some(task.generations@.last())
        } else {
            None
        },
        None => None,
    }
}

/// The recovery of a generation whose candidate `candidate_prepared`
/// recorded: the promotion, where the generation is promoting or its pin remains.
pub open spec fn promotion_owed(
    r: Result<CandidateRecovery, UpstrokeError>,
    g: crate::fold::Generation,
    prepared: PreparedRecord,
    pin: Seq<char>,
    pinned: bool,
) -> bool {
    r matches Ok(rec) && rec.orphan_pin is None && !rec.settles_interrupted
        && (rec.promotion is Some <==> (g.class is Promoting || pinned))
        && (rec.promotion matches Some(p) ==> p.candidate == prepared.candidate && p.prepared_ref.0@ == pin
        && p.base == prepared.base_sha && p.tree == prepared.tree_sha)
}

/// What a resume owes the last generation of task `key`: an unsettled
/// attempt and the orphan pin it may have left where nothing durable names a
/// candidate; the unfinished promotion where one does, refusing a pin at
/// another commit.
pub fn recovery_for(manager: &WorkspaceManager, run_id: &str, fold: &TopologyFold, key: TaskKey) -> (r: Result<
    CandidateRecovery,
    UpstrokeError,
>)
    ensures
        (last_generation(*fold, key) matches Some(g) && g.candidate is Some && !(g.class is Promoting) && manager.repo.ref_spec(
            pin_ref_spec(run_id@, key, g.id),
        ) is None) ==> (r matches Ok(rec) && rec.promotion is None && rec.orphan_pin is None && !rec.settles_interrupted),
        match last_generation(*fold, key) {
            None => r matches Ok(rec) && rec.promotion is None && rec.orphan_pin is None && !rec.settles_interrupted,
            Some(g) => {
                let pin = pin_ref_spec(run_id@, key, g.id);
                match manager.repo.ref_spec(pin) {
                    Some(RefValue::Symbolic(t)) => r matches Err(e) && e.message_spec() == crate::refs::symbolic_text(pin, t),
                    pinned => match g.candidate {
                        None => r matches Ok(rec) && rec.promotion is None && rec.settles_interrupted == (g.class is InFlight)
                            && match pinned {
                            Some(RefValue::Direct(t)) => rec.orphan_pin matches Some(o) && o.refname.0@ == pin && o.object.0@ == t,
                            _ => rec.orphan_pin is None,
                        },
                        Some(prepared) => match pinned {
                            Some(RefValue::Direct(t)) => if t != prepared.candidate.commit_sha.0@ {
                                r matches Err(e) && e is Refused && exists|f: String, rn: String| f@ == t && rn@ == pin && e.message_spec() == refusal_text(
                                    Refusal::RefAtAnotherSha { refname: rn, found: f, expected: prepared.candidate.commit_sha.0 },
                                )
                            } else {
                                promotion_owed(r, g, prepared, pin, true)
                            },
                            _ => promotion_owed(r, g, prepared, pin, false),
                        },
                    },
                }
            },
        },
{
    let generation = match fold.task(key) {
        Some(task) => {
            if task.generations.len() == 0 {
                return Ok(CandidateRecovery::nothing());
            }
            &task.generations[task.generations.len() - 1]
        },
        None => return Ok(CandidateRecovery::nothing()),
    };
    let names = CandidateNames::of(run_id, key, generation.id);
    let pin = manager.repo.direct_ref_target(names.prepared_ref.as_str())?;
    match &generation.candidate {
        None => {
            let orphan_pin = match pin {
                Some(object) => Some(OrphanPin { refname: names.prepared_ref, object: CommitSha(object) }),
                None => None,
            };
            Ok(CandidateRecovery { promotion: None, orphan_pin, settles_interrupted: generation.class.is_in_flight() })
        },
        Some(prepared) => {
            match &pin {
                Some(found) => {
                    if !same_text(found.as_str(), prepared.candidate.commit_sha.as_str()) {
                        let refusal = Refusal::RefAtAnotherSha {
                            refname: names.prepared_ref.0.clone(),
                            found: found.clone(),
                            expected: prepared.candidate.commit_sha.0.clone(),
                        };
                        return Err(refusal.into_error());
                    }
                },
                None => {},
            }
            let unfinished = generation.class.is_promoting() || pin.is_some();
            let promotion = if unfinished {
                Some(PromotingCandidate {
                    candidate: prepared.candidate.duplicate(),
                    prepared_ref: names.prepared_ref,
                    base: prepared.base_sha.duplicate(),
                    tree: prepared.tree_sha.duplicate(),
                })
            } else {
                None
            };
            Ok(CandidateRecovery { promotion, orphan_pin: None, settles_interrupted: false })
        },
    }
}


/// The refs a generation accounts for: its candidates ref once a candidate
/// is prepared, and its pin.
pub open spec fn generation_expected(run_id: Seq<char>, key: TaskKey, g: crate::fold::Generation) -> Seq<Seq<char>> {
    (if g.candidate is Some {
        seq![candidates_ref_spec(run_id, key, g.id)]
    } else {
        Seq::empty()
    }) + seq![pin_ref_spec(run_id, key, g.id)]
}

pub open spec fn generations_expected(run_id: Seq<char>, key: TaskKey, gens: Seq<crate::fold::Generation>) -> Seq<Seq<char>>
    decreases gens.len(),
{
    if gens.len() == 0 {
        Seq::empty()
    } else {
        generations_expected(run_id, key, gens.drop_last()) + generation_expected(run_id, key, gens.last())
    }
}

pub open spec fn entries_expected(run_id: Seq<char>, fold: TopologyFold, entries: Seq<crate::fold::RegistryEntry>) -> Seq<Seq<char>>
    decreases entries.len(),
{
    if entries.len() == 0 {
        Seq::empty()
    } else {
        entries_expected(run_id, fold, entries.drop_last()) + match fold.task_spec(entries.last().key) {
            Some(task) => generations_expected(run_id, entries.last().key, task.generations@),
            None => Seq::empty(),
        }
    }
}

/// Every ref under the run's namespace the fold accounts for.
pub open spec fn expected_spec(run_id: Seq<char>, fold: TopologyFold) -> Seq<Seq<char>> {
    match fold.registry {
        Some(registry) => entries_expected(run_id, fold, registry.entries@),
        None => Seq::empty(),
    }
}

fn push_ref(expected: &mut Vec<String>, r: GitRef)
    ensures
        views(final(expected)@) == views(old(expected)@).push(r.0@),
{
    proof { lemma_views_push(expected@, r.0); }
    expected.push(r.0);
}

/// Every ref under the run's namespace the fold accounts for: for each
/// generation of each registered task, its candidates ref once a candidate is
/// prepared, and its pin, whether or not either is on disk.
pub fn expected_refs(run_id: &str, fold: &TopologyFold) -> (expected: Vec<String>)
    ensures
        views(expected@) == expected_spec(run_id@, *fold),
        forall|e: int, i: int| #[trigger] generation_of(*fold, e, i) is Some ==> accounted_for(
            run_id@,
            *fold,
            views(expected@),
            e,
            i,
        ),
{
    proof {
        assert forall|e: int, i: int| #[trigger] generation_of(*fold, e, i) is Some implies accounted_for(
            run_id@,
            *fold,
            expected_spec(run_id@, *fold),
            e,
            i,
        ) by {
            law_every_generation_is_accounted_for(run_id@, *fold, e, i);
        }
    }
    let mut expected: Vec<String> = Vec::new();
    let registry = match fold.registry() {
        Some(registry) => registry,
        None => return expected,
    };
    let entries = registry.entries();
    let n = entries.len();
    let mut i: usize = 0;
    while i < n
        invariant
            n == entries.len(),
            i <= n,
            views(expected@) == entries_expected(run_id@, *fold, entries@.take(i as int)),
        decreases n - i,
    {
        proof {
            assert(entries@.take(i + 1).drop_last() =~= entries@.take(i as int));
        }
        let key = entries[i].key;
        let ghost before = views(expected@);
        match fold.task(key) {
            Some(task) => {
                let m = task.generations.len();
                let mut j: usize = 0;
                while j < m
                    invariant
                        m == task.generations.len(),
                        j <= m,
                        views(expected@) == before + generations_expected(run_id@, key, task.generations@.take(j as int)),
                    decreases m - j,
                {
                    proof {
                        assert(task.generations@.take(j + 1).drop_last() =~= task.generations@.take(j as int));
                    }
                    let generation = &task.generations[j];
                    let names = CandidateNames::of(run_id, key, generation.id);
                    let ghost mid = views(expected@);
                    if generation.candidate.is_some() {
                        push_ref(&mut expected, names.candidate_ref);
                    }
                    push_ref(&mut expected, names.prepared_ref);
                    assert(views(expected@) =~= mid + generation_expected(run_id@, key, task.generations@[j as int]));
                    j = j + 1;
                }
                assert(task.generations@.take(m as int) =~= task.generations@);
            },
            None => {},
        }
        assert(views(expected@) =~= entries_expected(run_id@, *fold, entries@.take(i + 1)));
        i = i + 1;
    }
    assert(entries@.take(n as int) =~= entries@);
    expected
}

// ----- laws ------------------------------------------------------------------

/// Whether the generations of task `key` carry distinct ids.
pub open spec fn generation_ids_unique(fold: TopologyFold, key: TaskKey) -> bool {
    match fold.task_spec(key) {
        Some(task) => forall|i: int, j: int| 0 <= i < j < task.generations@.len()
            ==> (#[trigger] task.generations@[i]).id != (#[trigger] task.generations@[j]).id,
        None => true,
    }
}

/// A generation's two candidate names are distinct, and both lie under the
/// run's namespace.
pub proof fn law_candidate_names_are_distinct_and_namespaced(run_id: Seq<char>, key: TaskKey, generation: GenerationId)
    ensures
        pin_ref_spec(run_id, key, generation) != candidates_ref_spec(run_id, key, generation),
        starts_with(pin_ref_spec(run_id, key, generation), run_namespace_spec(run_id)),
        starts_with(candidates_ref_spec(run_id, key, generation), run_namespace_spec(run_id)),
{
    reveal_strlit("refs/upstroke/runs/");
    reveal_strlit("/");
    reveal_strlit("candidate-prepared/");
    reveal_strlit("candidates/");
    let ns = run_namespace_spec(run_id);
    let pin = pin_ref_spec(run_id, key, generation);
    let cand = candidates_ref_spec(run_id, key, generation);
    assert(pin.subrange(0, ns.len() as int) =~= ns);
    assert(cand.subrange(0, ns.len() as int) =~= ns);
    assert(pin[ns.len() as int + 9] == '-');
    assert(cand[ns.len() as int + 9] == 's');
}

/// The queue position is taken once: once `task_candidate_created` is folded
/// for a generation whose ids are distinct, that generation is no longer
/// promoting, so a second completion of its promotion appends nothing.
pub proof fn law_candidate_created_once(old: TopologyFold, new: TopologyFold, candidate: CandidateRef)
    requires
        generation_ids_unique(old, candidate.key),
        admits(old, created_body(candidate)),
        stepped(old, new, created_body(candidate)),
    ensures
        !is_promoting_spec(new, candidate.key, candidate.generation),
        generation_ids_unique(new, candidate.key),
{
    let body = created_body(candidate);
    let k = candidate.key.0 as int;
    let gens = old.tasks@[k].generations@;
    crate::fold::lemma_generation_index(gens, candidate.generation);
    let i = generation_index(gens, candidate.generation).unwrap();
    let new_gens = new.tasks@[k].generations@;
    assert(new_gens == gens.update(i, crate::fold::generation_after(gens[i], body)));
    assert forall|j: int| 0 <= j < new_gens.len() && (#[trigger] new_gens[j]).id == candidate.generation implies !(new_gens[j].class is Promoting) by {
        if j != i {
            assert(new_gens[j] == gens[j]);
            if j < i {
                assert(gens[j].id != gens[i].id);
            } else {
                assert(gens[i].id != gens[j].id);
            }
        }
    }
    assert forall|a: int, b: int| 0 <= a < b < new_gens.len() implies (#[trigger] new_gens[a]).id != (#[trigger] new_gens[b]).id by {
        assert(new_gens[a].id == gens[a].id);
        assert(new_gens[b].id == gens[b].id);
    }
}


/// The key of registry entry `e` and generation `i` of its task, where the
/// registry has entry `e` and its task has generation `i`.
pub open spec fn generation_of(fold: TopologyFold, e: int, i: int) -> Option<(TaskKey, crate::fold::Generation)> {
    match fold.registry {
        Some(registry) => if 0 <= e < registry.entries@.len() {
            match fold.task_spec(registry.entries@[e].key) {
                Some(task) => if 0 <= i < task.generations@.len() {
                    Some((registry.entries@[e].key, task.generations@[i]))
                } else {
                    None
                },
                None => None,
            }
        } else {
            None
        },
        None => None,
    }
}

/// `refs` holds the pin of generation `i` of registry entry `e`, and its
/// candidates ref where the generation records a prepared candidate.
pub open spec fn accounted_for(run_id: Seq<char>, fold: TopologyFold, refs: Seq<Seq<char>>, e: int, i: int) -> bool {
    match generation_of(fold, e, i) {
        Some((key, g)) => refs.contains(pin_ref_spec(run_id, key, g.id)) && (g.candidate is Some ==> refs.contains(
            candidates_ref_spec(run_id, key, g.id),
        )),
        None => true,
    }
}

proof fn lemma_contains_left(a: Seq<Seq<char>>, b: Seq<Seq<char>>, x: Seq<char>)
    requires
        a.contains(x),
    ensures
        (a + b).contains(x),
{
    let j = choose|j: int| 0 <= j < a.len() && a[j] == x;
    assert((a + b)[j] == x);
}

proof fn lemma_contains_right(a: Seq<Seq<char>>, b: Seq<Seq<char>>, x: Seq<char>)
    requires
        b.contains(x),
    ensures
        (a + b).contains(x),
{
    let j = choose|j: int| 0 <= j < b.len() && b[j] == x;
    assert((a + b)[a.len() + j] == x);
}

proof fn lemma_generations_expected_hold(run_id: Seq<char>, key: TaskKey, gens: Seq<crate::fold::Generation>, i: int)
    requires
        0 <= i < gens.len(),
    ensures
        generations_expected(run_id, key, gens).contains(pin_ref_spec(run_id, key, gens[i].id)),
        gens[i].candidate is Some ==> generations_expected(run_id, key, gens).contains(candidates_ref_spec(run_id, key, gens[i].id)),
    decreases gens.len(),
{
    let rest = generations_expected(run_id, key, gens.drop_last());
    let own = generation_expected(run_id, key, gens.last());
    if i == gens.len() - 1 {
        assert(own[own.len() - 1] == pin_ref_spec(run_id, key, gens[i].id));
        lemma_contains_right(rest, own, pin_ref_spec(run_id, key, gens[i].id));
        if gens[i].candidate is Some {
            assert(own[0] == candidates_ref_spec(run_id, key, gens[i].id));
            lemma_contains_right(rest, own, candidates_ref_spec(run_id, key, gens[i].id));
        }
    } else {
        lemma_generations_expected_hold(run_id, key, gens.drop_last(), i);
        assert(gens.drop_last()[i] == gens[i]);
        lemma_contains_left(rest, own, pin_ref_spec(run_id, key, gens[i].id));
        if gens[i].candidate is Some {
            lemma_contains_left(rest, own, candidates_ref_spec(run_id, key, gens[i].id));
        }
    }
}

proof fn lemma_entries_expected_hold(
    run_id: Seq<char>,
    fold: TopologyFold,
    entries: Seq<crate::fold::RegistryEntry>,
    e: int,
    x: Seq<char>,
)
    requires
        0 <= e < entries.len(),
        fold.task_spec(entries[e].key) is Some,
        generations_expected(run_id, entries[e].key, fold.task_spec(entries[e].key)->0.generations@).contains(x),
    ensures
        entries_expected(run_id, fold, entries).contains(x),
    decreases entries.len(),
{
    let rest = entries_expected(run_id, fold, entries.drop_last());
    let own = match fold.task_spec(entries.last().key) {
        Some(task) => generations_expected(run_id, entries.last().key, task.generations@),
        None => Seq::empty(),
    };
    assert(entries_expected(run_id, fold, entries) == rest + own);
    if e == entries.len() - 1 {
        lemma_contains_right(rest, own, x);
    } else {
        assert(entries.drop_last()[e] == entries[e]);
        lemma_entries_expected_hold(run_id, fold, entries.drop_last(), e, x);
        lemma_contains_left(rest, own, x);
    }
}

/// Every generation of every registered task is accounted for, not only the
/// task's last: its pin ref is expected, and so is its candidates ref where
/// the generation records a prepared candidate.
pub proof fn law_every_generation_is_accounted_for(run_id: Seq<char>, fold: TopologyFold, e: int, i: int)
    ensures
        accounted_for(run_id, fold, expected_spec(run_id, fold), e, i),
{
    match generation_of(fold, e, i) {
        Some((key, g)) => {
            let registry = fold.registry->0;
            let task = fold.task_spec(key)->0;
            lemma_generations_expected_hold(run_id, key, task.generations@, i);
            lemma_entries_expected_hold(run_id, fold, registry.entries@, e, pin_ref_spec(run_id, key, g.id));
            if g.candidate is Some {
                lemma_entries_expected_hold(run_id, fold, registry.entries@, e, candidates_ref_spec(run_id, key, g.id));
            }
        },
        None => {},
    }
}


/// `r` is the pin of generation `g` of task `key`, or its candidates ref
/// where `g` records a prepared candidate.
pub open spec fn ref_of(run_id: Seq<char>, key: TaskKey, g: crate::fold::Generation, r: Seq<char>) -> bool {
    r == pin_ref_spec(run_id, key, g.id) || (g.candidate is Some && r == candidates_ref_spec(run_id, key, g.id))
}

proof fn lemma_generations_expected_sound(run_id: Seq<char>, key: TaskKey, gens: Seq<crate::fold::Generation>, j: int) -> (i: int)
    requires
        0 <= j < generations_expected(run_id, key, gens).len(),
    ensures
        0 <= i < gens.len(),
        ref_of(run_id, key, gens[i], generations_expected(run_id, key, gens)[j]),
    decreases gens.len(),
{
    let rest = generations_expected(run_id, key, gens.drop_last());
    let own = generation_expected(run_id, key, gens.last());
    assert(generations_expected(run_id, key, gens) == rest + own);
    if j < rest.len() {
        let i = lemma_generations_expected_sound(run_id, key, gens.drop_last(), j);
        assert(gens.drop_last()[i] == gens[i]);
        i
    } else {
        gens.len() - 1
    }
}

proof fn lemma_entries_expected_sound(run_id: Seq<char>, fold: TopologyFold, entries: Seq<crate::fold::RegistryEntry>, j: int) -> (ei: (
    int,
    int,
))
    requires
        0 <= j < entries_expected(run_id, fold, entries).len(),
    ensures
        0 <= ei.0 < entries.len(),
        fold.task_spec(entries[ei.0].key) is Some,
        0 <= ei.1 < fold.task_spec(entries[ei.0].key)->0.generations@.len(),
        ref_of(
            run_id,
            entries[ei.0].key,
            fold.task_spec(entries[ei.0].key)->0.generations@[ei.1],
            entries_expected(run_id, fold, entries)[j],
        ),
    decreases entries.len(),
{
    let rest = entries_expected(run_id, fold, entries.drop_last());
    let own = match fold.task_spec(entries.last().key) {
        Some(task) => generations_expected(run_id, entries.last().key, task.generations@),
        None => Seq::empty(),
    };
    assert(entries_expected(run_id, fold, entries) == rest + own);
    if j < rest.len() {
        let (e, i) = lemma_entries_expected_sound(run_id, fold, entries.drop_last(), j);
        assert(entries.drop_last()[e] == entries[e]);
        (e, i)
    } else {
        let task = fold.task_spec(entries.last().key)->0;
        let i = lemma_generations_expected_sound(run_id, entries.last().key, task.generations@, j - rest.len());
        (entries.len() - 1, i)
    }
}

/// Nothing else is expected: every expected ref is the pin of a generation
/// of a registered task, or the candidates ref of one that records a
/// prepared candidate.
pub proof fn law_only_fold_generations_are_expected(run_id: Seq<char>, fold: TopologyFold, j: int)
    requires
        0 <= j < expected_spec(run_id, fold).len(),
    ensures
        exists|e: int, i: int| #[trigger] generation_of(fold, e, i) matches Some((key, g)) && ref_of(
            run_id,
            key,
            g,
            expected_spec(run_id, fold)[j],
        ),
{
    let registry = fold.registry->0;
    let (e, i) = lemma_entries_expected_sound(run_id, fold, registry.entries@, j);
    assert(generation_of(fold, e, i) is Some);
}

} // verus!
