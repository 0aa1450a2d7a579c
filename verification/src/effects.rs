//! The effect sites every repository or log write goes through, and the hooks
//! that observe each crossing and may inject a failure at one.

use vstd::prelude::*;
use crate::error::UpstrokeError;

verus! {

#[derive(Clone, Copy, Debug, PartialEq, Eq, Structural)]
pub enum WorktreeSite {
    CreateExecutionRoot,
    RemoveExecutionRoot,
    WriteIntent,
    Add,
    Verify,
    Remove,
    RemoveIntent,
}

#[derive(Clone, Copy, Debug, PartialEq, Eq, Structural)]
pub enum SnapshotSite {
    WriteIntent,
    Add,
    Remove,
    RemoveIntent,
}

#[derive(Clone, Copy, Debug, PartialEq, Eq, Structural)]
pub enum RefSite {
    CreateIntegration,
    CompareAndSwapIntegration,
    CreateCandidates,
    DeleteCandidatesRef,
    PinCandidatePrepared,
    DeleteCandidatePin,
    PinPrepared,
    DeletePreparedPin,
}

#[derive(Clone, Copy, Debug, PartialEq, Eq, Structural)]
pub enum ObjectSite {
    CandidateStage,
    CandidateWriteTree,
    SnapshotCommitTree,
    CandidateCommitTree,
    ProposalCherryPick,
    RepairMaterialize,
}

#[derive(Clone, Copy, Debug, PartialEq, Eq, Structural)]
pub enum EventSite {
    AppendFirst,
    Append,
}

/// A named place where the engine writes to the repository or the log.
#[derive(Clone, Copy, Debug, PartialEq, Eq, Structural)]
pub enum EffectSiteId {
    Worktree(WorktreeSite),
    Snapshot(SnapshotSite),
    Ref(RefSite),
    Object(ObjectSite),
    Event(EventSite),
}

/// A point inside an effect where a fault can be injected.
#[derive(Clone, Copy, Debug, PartialEq, Eq, Structural)]
pub enum SubEffectPoint {
    /// The effect has written its object or line.
    Written,
    /// The effect's child has written its object and its id is not read yet.
    IdUnread,
}

/// How a fault is injected at a point.
#[derive(Clone, Copy, Debug, PartialEq, Eq, Structural)]
pub enum InjectionMode {
    ErrorReturn,
    Kill,
}

/// Which side of an effect a hook observes, or the point inside it.
#[derive(Clone, Copy, Debug, PartialEq, Eq, Structural)]
pub enum HookPhase {
    Before,
    After,
    Point { point: SubEffectPoint, mode: InjectionMode },
}

/// Whether a fault can be injected at `point` in `mode`: a child killed
/// before its id is read can only be killed.
pub open spec fn point_admits(point: SubEffectPoint, mode: InjectionMode) -> bool {
    match point {
        SubEffectPoint::Written => true,
        SubEffectPoint::IdUnread => mode == InjectionMode::Kill,
    }
}

/// The modes `point` admits, in order.
pub open spec fn modes_spec(point: SubEffectPoint) -> Seq<InjectionMode> {
    match point {
        SubEffectPoint::Written => seq![InjectionMode::ErrorReturn, InjectionMode::Kill],
        SubEffectPoint::IdUnread => seq![InjectionMode::Kill],
    }
}

/// The modes `point` admits.
pub fn point_modes(point: SubEffectPoint) -> (modes: Vec<InjectionMode>)
    ensures
        modes@ == modes_spec(point),
        forall|m: InjectionMode| modes@.contains(m) <==> point_admits(point, m),
        forall|i: int, j: int| 0 <= i < j < modes@.len() ==> modes@[i] != modes@[j],
{
    let mut modes: Vec<InjectionMode> = Vec::new();
    match point {
        SubEffectPoint::Written => {
            modes.push(InjectionMode::ErrorReturn);
            modes.push(InjectionMode::Kill);
            assert(modes@ =~= seq![InjectionMode::ErrorReturn, InjectionMode::Kill]);
            assert forall|m: InjectionMode| modes@.contains(m) <==> point_admits(point, m) by {
                match m {
                    InjectionMode::ErrorReturn => assert(modes@[0] == m),
                    InjectionMode::Kill => assert(modes@[1] == m),
                }
            }
        },
        SubEffectPoint::IdUnread => {
            modes.push(InjectionMode::Kill);
            assert(modes@ =~= seq![InjectionMode::Kill]);
            assert forall|m: InjectionMode| modes@.contains(m) <==> point_admits(point, m) by {
                if m == InjectionMode::Kill {
                    assert(modes@[0] == m);
                }
            }
        },
    }
    modes
}

/// Whether a hook may be armed at `phase`: before or after any effect, or
/// at a point in a mode the point admits.
pub open spec fn phase_admitted(phase: HookPhase) -> bool {
    match phase {
        HookPhase::Point { point, mode } => point_admits(point, mode),
        _ => true,
    }
}

/// A site's name, `Family.Site`.
pub open spec fn site_name_spec(site: EffectSiteId) -> Seq<char> {
    match site {
        EffectSiteId::Worktree(w) => "Worktree."@ + match w {
            WorktreeSite::CreateExecutionRoot => "CreateExecutionRoot"@,
            WorktreeSite::RemoveExecutionRoot => "RemoveExecutionRoot"@,
            WorktreeSite::WriteIntent => "WriteIntent"@,
            WorktreeSite::Add => "Add"@,
            WorktreeSite::Verify => "Verify"@,
            WorktreeSite::Remove => "Remove"@,
            WorktreeSite::RemoveIntent => "RemoveIntent"@,
        },
        EffectSiteId::Snapshot(s) => "Snapshot."@ + match s {
            SnapshotSite::WriteIntent => "WriteIntent"@,
            SnapshotSite::Add => "Add"@,
            SnapshotSite::Remove => "Remove"@,
            SnapshotSite::RemoveIntent => "RemoveIntent"@,
        },
        EffectSiteId::Ref(r) => "Ref."@ + match r {
            RefSite::CreateIntegration => "CreateIntegration"@,
            RefSite::CompareAndSwapIntegration => "CompareAndSwapIntegration"@,
            RefSite::CreateCandidates => "CreateCandidates"@,
            RefSite::DeleteCandidatesRef => "DeleteCandidatesRef"@,
            RefSite::PinCandidatePrepared => "PinCandidatePrepared"@,
            RefSite::DeleteCandidatePin => "DeleteCandidatePin"@,
            RefSite::PinPrepared => "PinPrepared"@,
            RefSite::DeletePreparedPin => "DeletePreparedPin"@,
        },
        EffectSiteId::Object(o) => "Object."@ + match o {
            ObjectSite::CandidateStage => "CandidateStage"@,
            ObjectSite::CandidateWriteTree => "CandidateWriteTree"@,
            ObjectSite::SnapshotCommitTree => "SnapshotCommitTree"@,
            ObjectSite::CandidateCommitTree => "CandidateCommitTree"@,
            ObjectSite::ProposalCherryPick => "ProposalCherryPick"@,
            ObjectSite::RepairMaterialize => "RepairMaterialize"@,
        },
        EffectSiteId::Event(e) => "Event."@ + match e {
            EventSite::AppendFirst => "AppendFirst"@,
            EventSite::Append => "Append"@,
        },
    }
}

impl EffectSiteId {
    /// The site's name, `Family.Site`.
    pub fn name(&self) -> (s: String)
        ensures
            s@ == site_name_spec(*self),
    {
        match self {
            EffectSiteId::Worktree(w) => {
                let mut s = String::from_str("Worktree.");
                s.append(match w {
                    WorktreeSite::CreateExecutionRoot => "CreateExecutionRoot",
                    WorktreeSite::RemoveExecutionRoot => "RemoveExecutionRoot",
                    WorktreeSite::WriteIntent => "WriteIntent",
                    WorktreeSite::Add => "Add",
                    WorktreeSite::Verify => "Verify",
                    WorktreeSite::Remove => "Remove",
                    WorktreeSite::RemoveIntent => "RemoveIntent",
                });
                s
            },
            EffectSiteId::Snapshot(x) => {
                let mut s = String::from_str("Snapshot.");
                s.append(match x {
                    SnapshotSite::WriteIntent => "WriteIntent",
                    SnapshotSite::Add => "Add",
                    SnapshotSite::Remove => "Remove",
                    SnapshotSite::RemoveIntent => "RemoveIntent",
                });
                s
            },
            EffectSiteId::Ref(r) => {
                let mut s = String::from_str("Ref.");
                s.append(match r {
                    RefSite::CreateIntegration => "CreateIntegration",
                    RefSite::CompareAndSwapIntegration => "CompareAndSwapIntegration",
                    RefSite::CreateCandidates => "CreateCandidates",
                    RefSite::DeleteCandidatesRef => "DeleteCandidatesRef",
                    RefSite::PinCandidatePrepared => "PinCandidatePrepared",
                    RefSite::DeleteCandidatePin => "DeleteCandidatePin",
                    RefSite::PinPrepared => "PinPrepared",
                    RefSite::DeletePreparedPin => "DeletePreparedPin",
                });
                s
            },
            EffectSiteId::Object(o) => {
                let mut s = String::from_str("Object.");
                s.append(match o {
                    ObjectSite::CandidateStage => "CandidateStage",
                    ObjectSite::CandidateWriteTree => "CandidateWriteTree",
                    ObjectSite::SnapshotCommitTree => "SnapshotCommitTree",
                    ObjectSite::CandidateCommitTree => "CandidateCommitTree",
                    ObjectSite::ProposalCherryPick => "ProposalCherryPick",
                    ObjectSite::RepairMaterialize => "RepairMaterialize",
                });
                s
            },
            EffectSiteId::Event(e) => {
                let mut s = String::from_str("Event.");
                s.append(match e {
                    EventSite::AppendFirst => "AppendFirst",
                    EventSite::Append => "Append",
                });
                s
            },
        }
    }
}

/// The hooks every effect crosses: a trace of each crossing, in order, and
/// at most one armed site whose next entry fails before it does anything.
#[derive(Clone, Debug, PartialEq, Eq)]
pub struct Hooks {
    pub trace: Vec<(EffectSiteId, HookPhase)>,
    pub armed: Option<EffectSiteId>,
}

/// The refusal an armed site injects.
pub open spec fn injected_text(site: EffectSiteId) -> Seq<char> {
    "an error was injected before `"@ + site_name_spec(site) + "`"@
}

impl Hooks {
    pub fn new() -> (h: Hooks)
        ensures
            h.trace@ == Seq::<(EffectSiteId, HookPhase)>::empty(),
            h.armed is None,
    {
        Hooks { trace: Vec::new(), armed: None }
    }

    /// Arms `site`: its next entry fails before the effect.
    pub fn arm(&mut self, site: EffectSiteId)
        ensures
            final(self).trace == old(self).trace,
            final(self).armed == Some(site),
    {
        self.armed = Some(site);
    }

    /// Enters `site`: records the crossing and fails, disarming, where the site is armed.
    pub fn enter(&mut self, site: EffectSiteId) -> (r: Result<(), UpstrokeError>)
        ensures
            final(self).trace@ == old(self).trace@.push((site, HookPhase::Before)),
            old(self).armed == Some(site) ==> final(self).armed is None && (r matches Err(
                UpstrokeError::Refused { message },
            ) && message@ == injected_text(site)),
            old(self).armed != Some(site) ==> final(self).armed == old(self).armed && r is Ok,
    {
        self.trace.push((site, HookPhase::Before));
        if self.armed == Some(site) {
            self.armed = None;
            let mut message = String::from_str("an error was injected before `");
            message.append(site.name().as_str());
            message.append("`");
            return Err(UpstrokeError::Refused { message });
        }
        Ok(())
    }

    /// Leaves `site`: records the completed effect.
    pub fn leave(&mut self, site: EffectSiteId)
        ensures
            final(self).trace@ == old(self).trace@.push((site, HookPhase::After)),
            final(self).armed == old(self).armed,
    {
        self.trace.push((site, HookPhase::After));
    }

    /// Whether the trace records `site` at `phase`.
    pub fn observed(&self, site: EffectSiteId, phase: HookPhase) -> (b: bool)
        ensures
            b == exists|i: int| 0 <= i < self.trace.len() && self.trace@[i] == (site, phase),
    {
        let n = self.trace.len();
        let mut i: usize = 0;
        while i < n
            invariant
                n == self.trace.len(),
                i <= n,
                forall|j: int| 0 <= j < i ==> self.trace@[j] != (site, phase),
            decreases n - i,
        {
            if self.trace[i].0 == site && self.trace[i].1 == phase {
                return true;
            }
            i = i + 1;
        }
        false
    }
}

/// A trace that extends one that extends `a` extends `a`.
pub proof fn lemma_trace_extends(a: Seq<(EffectSiteId, HookPhase)>, b: Seq<(EffectSiteId, HookPhase)>, c: Seq<(EffectSiteId, HookPhase)>)
    requires
        b.len() >= a.len(),
        b.subrange(0, a.len() as int) == a,
        c.len() >= b.len(),
        c.subrange(0, b.len() as int) == b,
    ensures
        c.len() >= a.len(),
        c.subrange(0, a.len() as int) == a,
{
    assert(c.subrange(0, a.len() as int) =~= b.subrange(0, a.len() as int));
}

/// Whether the crossings of `t` from `from` up to `to` are all at sites of `sites`.
pub open spec fn crossed_between(t: Seq<(EffectSiteId, HookPhase)>, from: int, to: int, sites: Set<EffectSiteId>) -> bool {
    &&& 0 <= from <= to <= t.len()
    &&& forall|k: int| from <= k < to ==> sites.contains((#[trigger] t[k]).0)
}

/// Whether what `after` holds beyond the length of `before` are crossings
/// of `sites` alone.
pub open spec fn extended_at(before: Seq<(EffectSiteId, HookPhase)>, after: Seq<(EffectSiteId, HookPhase)>, sites: Set<EffectSiteId>) -> bool {
    crossed_between(after, before.len() as int, after.len() as int, sites)
}

/// What a stretch of a trace crossed stays crossed there in any trace
/// that extends it.
pub proof fn lemma_crossed_kept(
    before: Seq<(EffectSiteId, HookPhase)>,
    after: Seq<(EffectSiteId, HookPhase)>,
    from: int,
    to: int,
    sites: Set<EffectSiteId>,
)
    requires
        crossed_between(before, from, to, sites),
        after.len() >= before.len(),
        after.subrange(0, before.len() as int) == before,
    ensures
        crossed_between(after, from, to, sites),
{
    assert forall|k: int| from <= k < to implies sites.contains((#[trigger] after[k]).0) by {
        assert(after[k] == after.subrange(0, before.len() as int)[k]);
    }
}

/// Two adjacent stretches, each at sites of `sites`, make one.
pub proof fn lemma_crossed_join(
    t: Seq<(EffectSiteId, HookPhase)>,
    a: int,
    b: int,
    c: int,
    first: Set<EffectSiteId>,
    second: Set<EffectSiteId>,
    sites: Set<EffectSiteId>,
)
    requires
        crossed_between(t, a, b, first),
        crossed_between(t, b, c, second),
        first.subset_of(sites),
        second.subset_of(sites),
    ensures
        crossed_between(t, a, c, sites),
{
    assert forall|k: int| a <= k < c implies sites.contains((#[trigger] t[k]).0) by {
        if k < b {
            assert(first.contains(t[k].0));
        } else {
            assert(second.contains(t[k].0));
        }
    }
}

/// Every effect site, in the order the families and their sites are declared.
pub open spec fn all_sites_spec() -> Seq<EffectSiteId> {
    seq![
        EffectSiteId::Worktree(WorktreeSite::CreateExecutionRoot),
        EffectSiteId::Worktree(WorktreeSite::RemoveExecutionRoot),
        EffectSiteId::Worktree(WorktreeSite::WriteIntent),
        EffectSiteId::Worktree(WorktreeSite::Add),
        EffectSiteId::Worktree(WorktreeSite::Verify),
        EffectSiteId::Worktree(WorktreeSite::Remove),
        EffectSiteId::Worktree(WorktreeSite::RemoveIntent),
        EffectSiteId::Snapshot(SnapshotSite::WriteIntent),
        EffectSiteId::Snapshot(SnapshotSite::Add),
        EffectSiteId::Snapshot(SnapshotSite::Remove),
        EffectSiteId::Snapshot(SnapshotSite::RemoveIntent),
        EffectSiteId::Ref(RefSite::CreateIntegration),
        EffectSiteId::Ref(RefSite::CompareAndSwapIntegration),
        EffectSiteId::Ref(RefSite::CreateCandidates),
        EffectSiteId::Ref(RefSite::DeleteCandidatesRef),
        EffectSiteId::Ref(RefSite::PinCandidatePrepared),
        EffectSiteId::Ref(RefSite::DeleteCandidatePin),
        EffectSiteId::Ref(RefSite::PinPrepared),
        EffectSiteId::Ref(RefSite::DeletePreparedPin),
        EffectSiteId::Object(ObjectSite::CandidateStage),
        EffectSiteId::Object(ObjectSite::CandidateWriteTree),
        EffectSiteId::Object(ObjectSite::SnapshotCommitTree),
        EffectSiteId::Object(ObjectSite::CandidateCommitTree),
        EffectSiteId::Object(ObjectSite::ProposalCherryPick),
        EffectSiteId::Object(ObjectSite::RepairMaterialize),
        EffectSiteId::Event(EventSite::AppendFirst),
        EffectSiteId::Event(EventSite::Append),
    ]
}

/// Every effect site.
pub fn all_sites() -> (v: Vec<EffectSiteId>)
    ensures
        v@ == all_sites_spec(),
{
    let v = vec![
        EffectSiteId::Worktree(WorktreeSite::CreateExecutionRoot),
        EffectSiteId::Worktree(WorktreeSite::RemoveExecutionRoot),
        EffectSiteId::Worktree(WorktreeSite::WriteIntent),
        EffectSiteId::Worktree(WorktreeSite::Add),
        EffectSiteId::Worktree(WorktreeSite::Verify),
        EffectSiteId::Worktree(WorktreeSite::Remove),
        EffectSiteId::Worktree(WorktreeSite::RemoveIntent),
        EffectSiteId::Snapshot(SnapshotSite::WriteIntent),
        EffectSiteId::Snapshot(SnapshotSite::Add),
        EffectSiteId::Snapshot(SnapshotSite::Remove),
        EffectSiteId::Snapshot(SnapshotSite::RemoveIntent),
        EffectSiteId::Ref(RefSite::CreateIntegration),
        EffectSiteId::Ref(RefSite::CompareAndSwapIntegration),
        EffectSiteId::Ref(RefSite::CreateCandidates),
        EffectSiteId::Ref(RefSite::DeleteCandidatesRef),
        EffectSiteId::Ref(RefSite::PinCandidatePrepared),
        EffectSiteId::Ref(RefSite::DeleteCandidatePin),
        EffectSiteId::Ref(RefSite::PinPrepared),
        EffectSiteId::Ref(RefSite::DeletePreparedPin),
        EffectSiteId::Object(ObjectSite::CandidateStage),
        EffectSiteId::Object(ObjectSite::CandidateWriteTree),
        EffectSiteId::Object(ObjectSite::SnapshotCommitTree),
        EffectSiteId::Object(ObjectSite::CandidateCommitTree),
        EffectSiteId::Object(ObjectSite::ProposalCherryPick),
        EffectSiteId::Object(ObjectSite::RepairMaterialize),
        EffectSiteId::Event(EventSite::AppendFirst),
        EffectSiteId::Event(EventSite::Append),
    ];
    assert(v@ =~= all_sites_spec());
    v
}

/// Every site is among all the sites.
pub proof fn lemma_all_sites(site: EffectSiteId)
    ensures
        all_sites_spec().contains(site),
{
    let all = all_sites_spec();
    let i: int = match site {
        EffectSiteId::Worktree(w) => match w {
            WorktreeSite::CreateExecutionRoot => 0,
            WorktreeSite::RemoveExecutionRoot => 1,
            WorktreeSite::WriteIntent => 2,
            WorktreeSite::Add => 3,
            WorktreeSite::Verify => 4,
            WorktreeSite::Remove => 5,
            WorktreeSite::RemoveIntent => 6,
        },
        EffectSiteId::Snapshot(x) => match x {
            SnapshotSite::WriteIntent => 7,
            SnapshotSite::Add => 8,
            SnapshotSite::Remove => 9,
            SnapshotSite::RemoveIntent => 10,
        },
        EffectSiteId::Ref(r) => match r {
            RefSite::CreateIntegration => 11,
            RefSite::CompareAndSwapIntegration => 12,
            RefSite::CreateCandidates => 13,
            RefSite::DeleteCandidatesRef => 14,
            RefSite::PinCandidatePrepared => 15,
            RefSite::DeleteCandidatePin => 16,
            RefSite::PinPrepared => 17,
            RefSite::DeletePreparedPin => 18,
        },
        EffectSiteId::Object(o) => match o {
            ObjectSite::CandidateStage => 19,
            ObjectSite::CandidateWriteTree => 20,
            ObjectSite::SnapshotCommitTree => 21,
            ObjectSite::CandidateCommitTree => 22,
            ObjectSite::ProposalCherryPick => 23,
            ObjectSite::RepairMaterialize => 24,
        },
        EffectSiteId::Event(e) => match e {
            EventSite::AppendFirst => 25,
            EventSite::Append => 26,
        },
    };
    assert(all[i] == site);
}

/// The first of `sites` named `name`.
pub open spec fn find_site(sites: Seq<EffectSiteId>, name: Seq<char>) -> Option<EffectSiteId>
    decreases sites.len(),
{
    if sites.len() == 0 {
        None
    } else if site_name_spec(sites[0]) == name {
        Some(sites[0])
    } else {
        find_site(sites.drop_first(), name)
    }
}

proof fn lemma_find_site(sites: Seq<EffectSiteId>, name: Seq<char>, i: int)
    requires
        0 <= i <= sites.len(),
        forall|j: int| 0 <= j < i ==> site_name_spec(#[trigger] sites[j]) != name,
    ensures
        find_site(sites, name) == find_site(sites.subrange(i, sites.len() as int), name),
    decreases i,
{
    if i > 0 {
        assert(site_name_spec(sites[0]) != name);
        assert forall|j: int| 0 <= j < i - 1 implies site_name_spec(#[trigger] sites.drop_first()[j]) != name by {
            assert(sites.drop_first()[j] == sites[j + 1]);
        }
        lemma_find_site(sites.drop_first(), name, i - 1);
        assert(sites.drop_first().subrange(i - 1, sites.drop_first().len() as int) =~= sites.subrange(i, sites.len() as int));
    } else {
        assert(sites.subrange(0, sites.len() as int) =~= sites);
    }
}

pub open spec fn no_site_text(name: Seq<char>) -> Seq<char> {
    "`"@ + name + "` names no effect site"@
}

impl EffectSiteId {
    /// The site named `name`, `Family.Site`.
    pub fn from_name(name: &str) -> (r: Result<EffectSiteId, String>)
        ensures
            r matches Ok(site) ==> site_name_spec(site) == name@,
            r is Err <==> forall|site: EffectSiteId| site_name_spec(site) != name@,
            find_site(all_sites_spec(), name@) == match r {
                Ok(site) => Some(site),
                Err(_) => None::<EffectSiteId>,
            },
            r matches Err(e) ==> e@ == no_site_text(name@),
    {
        let all = all_sites();
        let n = all.len();
        let mut i: usize = 0;
        while i < n
            invariant
                all@ == all_sites_spec(),
                n == all@.len(),
                i <= n,
                forall|j: int| 0 <= j < i ==> site_name_spec(#[trigger] all@[j]) != name@,
            decreases n - i,
        {
            if crate::text::same_text(all[i].name().as_str(), name) {
                proof {
                    lemma_find_site(all@, name@, i as int);
                    assert(all@.subrange(i as int, all@.len() as int)[0] == all@[i as int]);
                }
                return Ok(all[i]);
            }
            i = i + 1;
        }
        proof {
            lemma_find_site(all@, name@, n as int);
            assert(all@.subrange(n as int, n as int).len() == 0);
            assert forall|site: EffectSiteId| site_name_spec(site) != name@ by {
                lemma_all_sites(site);
                let j = choose|j: int| 0 <= j < all@.len() && all@[j] == site;
                assert(site_name_spec(all@[j]) != name@);
            }
        }
        let mut e = String::from_str("`");
        e.append(name);
        e.append("` names no effect site");
        Err(e)
    }
}

} // verus!
