//! The fault-injection registry of the sequential topology: each effect
//! site at each hook phase and each injection point it requires, claimed by
//! the test that executes it; each residue class of a site, proven
//! recoverable by its synthetic and sampled evidence; and each site the fast
//! path skips, recorded as not executed. What each site is (its points, its
//! residue classes, its expected residue) comes from the site catalog.

use vstd::prelude::*;
use crate::effects::{
    find_site, modes_spec, no_site_text, phase_admitted, point_admits, point_modes, site_name_spec, all_sites_spec, EffectSiteId, HookPhase,
    InjectionMode, SubEffectPoint,
};
use crate::refs::{has_prefix, starts_with};
use crate::json::{find_member, json_node, member_of, member_of_spec, parse_json, JsonNode, NodeView};
use crate::text::{decimal, push_decimal, views};

verus! {

/// A host the registry is checked on.
#[derive(Clone, Copy, Debug, PartialEq, Eq, Structural)]
pub enum Host {
    Unix,
    Windows,
}

impl Host {
    pub open spec fn name_spec(self) -> Seq<char> {
        match self {
            Host::Unix => "unix"@,
            Host::Windows => "windows"@,
        }
    }

    pub fn name(&self) -> (s: &'static str)
        ensures
            s@ == self.name_spec(),
    {
        match self {
            Host::Unix => "unix",
            Host::Windows => "windows",
        }
    }
}

/// Where an injection point exists.
#[derive(Clone, Copy, Debug, PartialEq, Eq, Structural)]
pub enum Platform {
    Every,
    UnixOnly,
    WindowsOnly,
}

impl Platform {
    pub open spec fn required_on_spec(self, host: Host) -> bool {
        match self {
            Platform::Every => true,
            Platform::UnixOnly => host == Host::Unix,
            Platform::WindowsOnly => host == Host::Windows,
        }
    }

    /// Whether a point of this platform must be claimed on `host`.
    pub fn required_on(&self, host: Host) -> (b: bool)
        ensures
            b == self.required_on_spec(host),
    {
        match self {
            Platform::Every => true,
            Platform::UnixOnly => host == Host::Unix,
            Platform::WindowsOnly => host == Host::Windows,
        }
    }
}

/// A point inside a site's effect, and where it exists.
#[derive(Clone, Copy, Debug, PartialEq, Eq, Structural)]
pub struct SubEffect {
    pub point: SubEffectPoint,
    pub platform: Platform,
}

/// What a kill inside an effect can leave behind.
#[derive(Clone, Copy, Debug, PartialEq, Eq, Structural)]
pub enum ResidueClass {
    Nothing,
    Internal,
    AfterEffect,
}

/// A registry entry's phase: a hook phase, a residue class, or a site the
/// fast path never executes.
#[derive(Clone, Copy, Debug, PartialEq, Eq, Structural)]
pub enum EntryPhase {
    Before,
    After,
    Point { point: SubEffectPoint, mode: InjectionMode },
    Residue { class: ResidueClass },
    NoExecution,
}

/// What the catalog says of a site: its injection points, its residue
/// classes, the first order it is observed in, its row in the fault table,
/// the residue it leaves and what a resume does with it, and whether the
/// fast path skips it.
#[derive(Clone, Debug, PartialEq, Eq)]
pub struct SiteSemantics {
    pub site: EffectSiteId,
    pub sub_effects: Vec<SubEffect>,
    pub residue_classes: Vec<ResidueClass>,
    pub order: Option<u32>,
    pub fault_row: String,
    pub rows: Vec<String>,
    pub detail: String,
    pub action: String,
    pub skipped_on_fast_path: bool,
}

/// A test's claim that it executes `site` at `phase`.
#[derive(Clone, Debug, PartialEq, Eq)]
pub struct Claim {
    pub site: EffectSiteId,
    pub phase: EntryPhase,
    pub test: String,
}

pub open spec fn hook_phase_spec(phase: EntryPhase) -> Option<HookPhase> {
    match phase {
        EntryPhase::Before => Some(HookPhase::Before),
        EntryPhase::After => Some(HookPhase::After),
        EntryPhase::Point { point, mode } => Some(HookPhase::Point { point, mode }),
        _ => None,
    }
}

impl Claim {
    /// The hook phase the claim is executed at; none for a residue class or
    /// a site never executed.
    pub fn hook_phase(&self) -> (h: Option<HookPhase>)
        ensures
            h == hook_phase_spec(self.phase),
    {
        match self.phase {
            EntryPhase::Before => Some(HookPhase::Before),
            EntryPhase::After => Some(HookPhase::After),
            EntryPhase::Point { point, mode } => Some(HookPhase::Point { point, mode }),
            EntryPhase::Residue { .. } => None,
            EntryPhase::NoExecution => None,
        }
    }
}

/// What an entry's evidence is labelled.
#[derive(Clone, Copy, Debug, PartialEq, Eq, Structural)]
pub enum EvidenceLabel {
    ExecutionObserved,
    RecoveryProven,
}

/// How often a sampled kill left each residue class.
#[derive(Clone, Copy, Debug, PartialEq, Eq, Structural)]
pub struct ClassHistogram {
    pub nothing: u32,
    pub internal: u32,
    pub after_effect: u32,
}

/// A site's sampled kills: how many, what each left, how many left
/// something unclassified, and whether every one was recovered.
#[derive(Clone, Copy, Debug, PartialEq, Eq, Structural)]
pub struct SamplingRecord {
    pub n: u32,
    pub histogram: ClassHistogram,
    pub unclassified: u32,
    pub recovered: bool,
}

/// A residue planted by hand, and whether the recovery reclaimed it.
#[derive(Clone, Copy, Debug, PartialEq, Eq, Structural)]
pub struct SyntheticRecord {
    pub class: ResidueClass,
    pub recovered: bool,
}

/// What an entry is evidenced by.
#[derive(Clone, Debug, PartialEq, Eq)]
pub enum Evidence {
    Executed { test: String, passed: bool },
    NotExecuted { test: String, passed: bool, sequences: Vec<String> },
    RecoveryProven { synthetic: Vec<SyntheticRecord>, sampling: SamplingRecord },
}

/// The residue an entry expects.
#[derive(Clone, Debug, PartialEq, Eq)]
pub struct ExpectedResidue {
    pub rows: Vec<String>,
    pub detail: String,
}

/// One entry of the fault registry.
#[derive(Clone, Debug, PartialEq, Eq)]
pub struct RegistryEntry {
    pub site: EffectSiteId,
    pub phase: EntryPhase,
    pub order: Option<u32>,
    pub fault_row: String,
    pub expected_residue: ExpectedResidue,
    pub resume_action: String,
    pub label: EvidenceLabel,
    pub evidence: Evidence,
}

/// An entry's expected residue and resume action are its site's.
pub open spec fn carries_semantics(e: RegistryEntry, s: SiteSemantics) -> bool {
    &&& e.site == s.site
    &&& e.fault_row@ == s.fault_row@
    &&& views(e.expected_residue.rows@) == views(s.rows@)
    &&& e.expected_residue.detail@ == s.detail@
    &&& e.resume_action@ == s.action@
}

fn copy_strings(v: &Vec<String>) -> (c: Vec<String>)
    ensures
        views(c@) == views(v@),
{
    let c = crate::workspace::copy_strings(v);
    c
}

fn entry_of(semantics: &SiteSemantics, phase: EntryPhase, order: Option<u32>, label: EvidenceLabel, evidence: Evidence) -> (e: RegistryEntry)
    ensures
        carries_semantics(e, *semantics),
        e.phase == phase,
        e.order == order,
        e.label == label,
        e.evidence == evidence,
{
    RegistryEntry {
        site: semantics.site,
        phase,
        order,
        fault_row: semantics.fault_row.clone(),
        expected_residue: ExpectedResidue { rows: copy_strings(&semantics.rows), detail: semantics.detail.clone() },
        resume_action: semantics.action.clone(),
        label,
        evidence,
    }
}

/// The entry a claim makes: its site at its phase, observed executed by
/// its test.
pub fn hook_entry(claim: &Claim, semantics: &SiteSemantics) -> (e: RegistryEntry)
    requires
        semantics.site == claim.site,
    ensures
        carries_semantics(e, *semantics),
        e.phase == claim.phase,
        e.order == semantics.order,
        e.label == EvidenceLabel::ExecutionObserved,
        e.evidence matches Evidence::Executed { test, passed } && test@ == claim.test@ && passed,
{
    entry_of(
        semantics,
        claim.phase,
        semantics.order,
        EvidenceLabel::ExecutionObserved,
        Evidence::Executed { test: claim.test.clone(), passed: true },
    )
}

/// The point phases of `sub_effects` required on `host`: each point in
/// each mode it admits.
pub open spec fn point_phases(sub_effects: Seq<SubEffect>, host: Host) -> Seq<EntryPhase>
    decreases sub_effects.len(),
{
    if sub_effects.len() == 0 {
        Seq::empty()
    } else {
        let last = sub_effects.last();
        point_phases(sub_effects.drop_last(), host) + if last.platform.required_on_spec(host) {
            modes_spec(last.point).map_values(|m: InjectionMode| EntryPhase::Point { point: last.point, mode: m })
        } else {
            Seq::empty()
        }
    }
}

/// The phases a site must be claimed at on `host`: before and after, then
/// each required point in each mode it admits.
pub open spec fn required_phases_spec(semantics: SiteSemantics, host: Host) -> Seq<EntryPhase> {
    seq![EntryPhase::Before, EntryPhase::After] + point_phases(semantics.sub_effects@, host)
}

/// The phases a site must be claimed at on `host`.
pub fn required_phases(semantics: &SiteSemantics, host: Host) -> (phases: Vec<EntryPhase>)
    ensures
        phases@ == required_phases_spec(*semantics, host),
{
    let mut phases: Vec<EntryPhase> = vec![EntryPhase::Before, EntryPhase::After];
    let n = semantics.sub_effects.len();
    let mut i: usize = 0;
    while i < n
        invariant
            n == semantics.sub_effects@.len(),
            i <= n,
            phases@ == seq![EntryPhase::Before, EntryPhase::After] + point_phases(semantics.sub_effects@.take(i as int), host),
        decreases n - i,
    {
        let ghost before = phases@;
        let sub = semantics.sub_effects[i];
        proof {
            assert(semantics.sub_effects@.take(i + 1).drop_last() =~= semantics.sub_effects@.take(i as int));
        }
        if sub.platform.required_on(host) {
            let modes = point_modes(sub.point);
            let m = modes.len();
            let mut j: usize = 0;
            while j < m
                invariant
                    m == modes@.len(),
                    modes@ == modes_spec(sub.point),
                    j <= m,
                    phases@ == before + modes@.take(j as int).map_values(|x: InjectionMode| EntryPhase::Point { point: sub.point, mode: x }),
                decreases m - j,
            {
                phases.push(EntryPhase::Point { point: sub.point, mode: modes[j] });
                assert(modes@.take(j + 1).map_values(|x: InjectionMode| EntryPhase::Point { point: sub.point, mode: x })
                    =~= modes@.take(j as int).map_values(|x: InjectionMode| EntryPhase::Point { point: sub.point, mode: x }).push(
                    EntryPhase::Point { point: sub.point, mode: modes@[j as int] },
                ));
                j = j + 1;
            }
            assert(modes@.take(m as int) =~= modes@);
        }
        proof {
            assert(phases@ =~= seq![EntryPhase::Before, EntryPhase::After] + point_phases(semantics.sub_effects@.take(i + 1), host));
        }
        i = i + 1;
    }
    assert(semantics.sub_effects@.take(n as int) =~= semantics.sub_effects@);
    phases
}

/// Why an entry was refused.
#[derive(Clone, Debug, PartialEq, Eq)]
pub struct RegistryError {
    pub message: String,
}

/// Whether `entries` holds one at `site` and `phase`.
pub open spec fn holds(entries: Seq<RegistryEntry>, site: EffectSiteId, phase: EntryPhase) -> bool {
    exists|i: int| 0 <= i < entries.len() && (#[trigger] entries[i]).site == site && entries[i].phase == phase
}

pub open spec fn duplicate_text(site: EffectSiteId) -> Seq<char> {
    "the registry already holds an entry for `"@ + site_name_spec(site) + "` at that phase"@
}

/// The fault registry: one entry per site and phase.
#[derive(Clone, Debug, PartialEq, Eq)]
pub struct FaultRegistry {
    pub entries: Vec<RegistryEntry>,
}

impl FaultRegistry {
    pub fn new() -> (r: FaultRegistry)
        ensures
            r.entries@.len() == 0,
    {
        FaultRegistry { entries: Vec::new() }
    }

    /// Inserts `entry`; one at the same site and phase refuses.
    pub fn insert(&mut self, entry: RegistryEntry) -> (r: Result<(), RegistryError>)
        ensures
            r is Ok <==> !holds(old(self).entries@, entry.site, entry.phase),
            r is Ok ==> final(self).entries@ == old(self).entries@.push(entry),
            r matches Err(e) ==> *final(self) == *old(self) && e.message@ == duplicate_text(entry.site),
    {
        let n = self.entries.len();
        let mut i: usize = 0;
        while i < n
            invariant
                n == self.entries@.len(),
                i <= n,
                forall|j: int| 0 <= j < i ==> !((#[trigger] self.entries@[j]).site == entry.site && self.entries@[j].phase == entry.phase),
            decreases n - i,
        {
            if self.entries[i].site == entry.site && self.entries[i].phase == entry.phase {
                let mut message = String::from_str("the registry already holds an entry for `");
                message.append(entry.site.name().as_str());
                message.append("` at that phase");
                return Err(RegistryError { message });
            }
            i = i + 1;
        }
        self.entries.push(entry);
        Ok(())
    }

    pub fn entries(&self) -> (e: &Vec<RegistryEntry>)
        ensures
            *e == self.entries,
    {
        &self.entries
    }
}

/// The semantics the catalog gives `site`: the first record of it.
pub open spec fn semantics_spec(catalog: Seq<SiteSemantics>, site: EffectSiteId) -> Option<SiteSemantics>
    decreases catalog.len(),
{
    if catalog.len() == 0 {
        None
    } else if catalog[0].site == site {
        Some(catalog[0])
    } else {
        semantics_spec(catalog.drop_first(), site)
    }
}

proof fn lemma_semantics_prefix(catalog: Seq<SiteSemantics>, site: EffectSiteId, i: int)
    requires
        0 <= i <= catalog.len(),
        forall|j: int| 0 <= j < i ==> (#[trigger] catalog[j]).site != site,
    ensures
        semantics_spec(catalog, site) == semantics_spec(catalog.subrange(i, catalog.len() as int), site),
    decreases i,
{
    if i > 0 {
        assert forall|j: int| 0 <= j < i - 1 implies (#[trigger] catalog.drop_first()[j]).site != site by {
            assert(catalog.drop_first()[j] == catalog[j + 1]);
        }
        lemma_semantics_prefix(catalog.drop_first(), site, i - 1);
        assert(catalog.drop_first().subrange(i - 1, catalog.drop_first().len() as int) =~= catalog.subrange(i, catalog.len() as int));
    } else {
        assert(catalog.subrange(0, catalog.len() as int) =~= catalog);
    }
}

/// The catalog's semantics of `site`.
pub fn semantics_of(catalog: &Vec<SiteSemantics>, site: EffectSiteId) -> (s: Option<&SiteSemantics>)
    ensures
        match semantics_spec(catalog@, site) {
            Some(found) => s == Some(&found),
            None => s is None,
        },
        s matches Some(found) ==> found.site == site,
{
    let n = catalog.len();
    let mut i: usize = 0;
    while i < n
        invariant
            n == catalog@.len(),
            i <= n,
            forall|j: int| 0 <= j < i ==> (#[trigger] catalog@[j]).site != site,
        decreases n - i,
    {
        if catalog[i].site == site {
            proof {
                lemma_semantics_prefix(catalog@, site, i as int);
                assert(catalog@.subrange(i as int, catalog@.len() as int)[0] == catalog@[i as int]);
            }
            return Some(&catalog[i]);
        }
        i = i + 1;
    }
    proof {
        lemma_semantics_prefix(catalog@, site, n as int);
    }
    None
}

pub open spec fn uncatalogued_text(site: EffectSiteId) -> Seq<char> {
    "`"@ + site_name_spec(site) + "` has no semantics in the site catalog"@
}

/// Whether every claim's site is catalogued and no two claims share a site
/// and phase.
pub open spec fn claims_register(claims: Seq<Claim>, catalog: Seq<SiteSemantics>) -> bool {
    &&& forall|i: int| 0 <= i < claims.len() ==> semantics_spec(catalog, (#[trigger] claims[i]).site) is Some
    &&& forall|i: int, j: int| 0 <= i < j < claims.len() ==> !((#[trigger] claims[i]).site == (#[trigger] claims[j]).site
        && claims[i].phase == claims[j].phase)
}

/// What refuses the claims `rest` after the claims `seen`: the first that
/// is uncatalogued or shares a site and phase with a claim before it.
pub open spec fn claims_problem(seen: Seq<Claim>, rest: Seq<Claim>, catalog: Seq<SiteSemantics>) -> Option<Seq<char>>
    decreases rest.len(),
{
    if rest.len() == 0 {
        None
    } else if semantics_spec(catalog, rest[0].site) is None {
        Some(uncatalogued_text(rest[0].site))
    } else if exists|j: int| 0 <= j < seen.len() && (#[trigger] seen[j]).site == rest[0].site && seen[j].phase == rest[0].phase {
        Some(duplicate_text(rest[0].site))
    } else {
        claims_problem(seen.push(rest[0]), rest.drop_first(), catalog)
    }
}

/// The registry of `claims`: one observed entry per claim, in order.
pub fn registry_of(claims: &Vec<Claim>, catalog: &Vec<SiteSemantics>) -> (r: Result<FaultRegistry, RegistryError>)
    ensures
        r is Ok <==> claims_register(claims@, catalog@),
        r matches Err(e) ==> claims_problem(Seq::empty(), claims@, catalog@) == Some(e.message@),
        r matches Ok(registry) ==> registry.entries@.len() == claims@.len() && forall|i: int| 0 <= i < claims@.len()
            ==> (#[trigger] registry.entries@[i]).site == claims@[i].site && registry.entries@[i].phase == claims@[i].phase
            && registry.entries@[i].label == EvidenceLabel::ExecutionObserved
            && carries_semantics(registry.entries@[i], semantics_spec(catalog@, claims@[i].site).unwrap()),
{
    let mut registry = FaultRegistry::new();
    let n = claims.len();
    let mut i: usize = 0;
    proof {
        assert(claims@.subrange(0, n as int) =~= claims@);
        assert(claims@.take(0) =~= Seq::<Claim>::empty());
    }
    while i < n
        invariant
            n == claims@.len(),
            i <= n,
            registry.entries@.len() == i,
            claims_register(claims@.take(i as int), catalog@),
            claims_problem(Seq::empty(), claims@, catalog@) == claims_problem(claims@.take(i as int), claims@.subrange(i as int, n as int), catalog@),
            forall|k: int| 0 <= k < i ==> (#[trigger] registry.entries@[k]).site == claims@[k].site
                && registry.entries@[k].phase == claims@[k].phase
                && registry.entries@[k].label == EvidenceLabel::ExecutionObserved
                && carries_semantics(registry.entries@[k], semantics_spec(catalog@, claims@[k].site).unwrap()),
        decreases n - i,
    {
        let claim = &claims[i];
        proof {
            assert(claims@.subrange(i as int, n as int)[0] == claims@[i as int]);
            assert(claims@.subrange(i as int, n as int).drop_first() =~= claims@.subrange(i + 1, n as int));
            assert(claims@.take(i as int).push(claims@[i as int]) =~= claims@.take(i + 1));
        }
        let semantics = match semantics_of(catalog, claim.site) {
            Some(s) => s,
            None => {
                let mut message = String::from_str("`");
                message.append(claim.site.name().as_str());
                message.append("` has no semantics in the site catalog");
                proof {
                    assert(claims@[i as int] == *claim);
                }
                return Err(RegistryError { message });
            },
        };
        let ghost before = registry.entries@;
        let entry = hook_entry(claim, semantics);
        let ghost made = entry;
        let inserted = registry.insert(entry);
        match inserted {
            Ok(()) => {},
            Err(e) => {
                proof {
                    assert(made.site == claims@[i as int].site && made.phase == claims@[i as int].phase);
                    let k = choose|k: int| 0 <= k < before.len() && (#[trigger] before[k]).site == made.site
                        && before[k].phase == made.phase;
                    assert(!claims_register(claims@, catalog@)) by {
                        assert(claims@[k].site == claims@[i as int].site && claims@[k].phase == claims@[i as int].phase);
                    }
                    assert(claims@.take(i as int)[k] == claims@[k]);
                    assert(e.message@ == duplicate_text(claims@[i as int].site));
                }
                return Err(e);
            },
        }
        proof {
            assert(semantics_spec(catalog@, claims@[i as int].site) is Some);
            assert(!(exists|j: int| 0 <= j < claims@.take(i as int).len() && (#[trigger] claims@.take(i as int)[j]).site
                == claims@[i as int].site && claims@.take(i as int)[j].phase == claims@[i as int].phase)) by {
                if exists|j: int| 0 <= j < claims@.take(i as int).len() && (#[trigger] claims@.take(i as int)[j]).site
                    == claims@[i as int].site && claims@.take(i as int)[j].phase == claims@[i as int].phase {
                    let j = choose|j: int| 0 <= j < claims@.take(i as int).len() && (#[trigger] claims@.take(i as int)[j]).site
                        == claims@[i as int].site && claims@.take(i as int)[j].phase == claims@[i as int].phase;
                    assert(before[j].site == claims@[j].site && before[j].phase == claims@[j].phase);
                    assert(holds(before, made.site, made.phase));
                }
            }
            assert(claims@.take(i + 1).drop_last() =~= claims@.take(i as int));
            assert forall|a: int, b: int| 0 <= a < b < i + 1 implies !((#[trigger] claims@.take(i + 1)[a]).site
                == (#[trigger] claims@.take(i + 1)[b]).site && claims@.take(i + 1)[a].phase == claims@.take(i + 1)[b].phase) by {
                if b == i {
                    assert(before[a].site == claims@[a].site && before[a].phase == claims@[a].phase);
                    assert(!(before[a].site == claims@[i as int].site && before[a].phase == claims@[i as int].phase));
                } else {
                    assert(claims@.take(i as int)[a] == claims@.take(i + 1)[a]);
                    assert(claims@.take(i as int)[b] == claims@.take(i + 1)[b]);
                }
            }
            assert forall|a: int| 0 <= a < i + 1 implies semantics_spec(catalog@, (#[trigger] claims@.take(i + 1)[a]).site) is Some by {
                if a < i {
                    assert(claims@.take(i as int)[a] == claims@.take(i + 1)[a]);
                }
            }
        }
        i = i + 1;
    }
    proof {
        assert(claims@.take(n as int) =~= claims@);
    }
    Ok(registry)
}

/// The test modules that exercise the hook adapters in isolation, not the
/// funnels.
pub const ADAPTER_UNIT_TEST_MODULES: [&'static str; 3] = [
    "workspace_manager::hooks::tests::",
    "engine::topology::seams::tests::",
    "runner::tests::",
];

/// Whether `test` executes a site through its funnel: it is in none of the
/// adapter unit-test modules.
pub fn is_funnel_execution(test: &str) -> (b: bool)
    ensures
        b == !(exists|i: int| 0 <= i < 3 && starts_with(test@, (#[trigger] ADAPTER_UNIT_TEST_MODULES@[i])@)),
{
    let mut i: usize = 0;
    while i < 3
        invariant
            i <= 3,
            forall|j: int| 0 <= j < i ==> !starts_with(test@, (#[trigger] ADAPTER_UNIT_TEST_MODULES@[j])@),
        decreases 3 - i,
    {
        if has_prefix(test, ADAPTER_UNIT_TEST_MODULES[i]) {
            return false;
        }
        i = i + 1;
    }
    true
}

/// The sites the catalog claims, in its order.
pub fn inventory(catalog: &Vec<SiteSemantics>) -> (sites: Vec<EffectSiteId>)
    ensures
        sites@ == catalog@.map_values(|s: SiteSemantics| s.site),
{
    let mut sites: Vec<EffectSiteId> = Vec::new();
    let n = catalog.len();
    let mut i: usize = 0;
    while i < n
        invariant
            n == catalog@.len(),
            i <= n,
            sites@ == catalog@.take(i as int).map_values(|s: SiteSemantics| s.site),
        decreases n - i,
    {
        sites.push(catalog[i].site);
        assert(sites@ =~= catalog@.take(i + 1).map_values(|s: SiteSemantics| s.site));
        i = i + 1;
    }
    assert(catalog@.take(n as int) =~= catalog@);
    sites
}

/// The test that shows the fast path skipping what it skips.
pub const FAST_PATH_TEST: &'static str = "engine::topology::integrate::tests::fast_path_publishes_exact_candidate_without_staging_or_proposal_object";

/// The fast sequences the observation export records.
pub const FAST_SEQUENCES: [&'static str; 2] = ["s0", "exact-base-fast"];

fn fast_sequences() -> (v: Vec<String>)
    ensures
        v@.len() == 2,
        v@[0]@ == FAST_SEQUENCES@[0]@,
        v@[1]@ == FAST_SEQUENCES@[1]@,
{
    let mut v: Vec<String> = Vec::new();
    v.push(String::from_str(FAST_SEQUENCES[0]));
    v.push(String::from_str(FAST_SEQUENCES[1]));
    v
}

/// The sites of `catalog` the fast path skips.
pub open spec fn skipped(catalog: Seq<SiteSemantics>) -> Seq<SiteSemantics>
    decreases catalog.len(),
{
    if catalog.len() == 0 {
        Seq::empty()
    } else {
        skipped(catalog.drop_last()) + if catalog.last().skipped_on_fast_path {
            seq![catalog.last()]
        } else {
            Seq::empty()
        }
    }
}

/// One not-executed entry per site the fast path skips, naming the fast
/// path's test and every fast sequence.
pub fn no_execution_entries(catalog: &Vec<SiteSemantics>) -> (entries: Vec<RegistryEntry>)
    ensures
        entries@.len() == skipped(catalog@).len(),
        forall|i: int| 0 <= i < entries@.len() ==> carries_semantics(#[trigger] entries@[i], skipped(catalog@)[i])
            && entries@[i].phase == EntryPhase::NoExecution && entries@[i].order is None
            && entries@[i].label == EvidenceLabel::ExecutionObserved
            && (entries@[i].evidence matches Evidence::NotExecuted { test, passed, sequences } && test@ == FAST_PATH_TEST@
            && passed && sequences@.len() == 2),
{
    let mut entries: Vec<RegistryEntry> = Vec::new();
    let n = catalog.len();
    let mut i: usize = 0;
    while i < n
        invariant
            n == catalog@.len(),
            i <= n,
            entries@.len() == skipped(catalog@.take(i as int)).len(),
            forall|k: int| 0 <= k < entries@.len() ==> carries_semantics(#[trigger] entries@[k], skipped(catalog@.take(i as int))[k])
                && entries@[k].phase == EntryPhase::NoExecution && entries@[k].order is None
                && entries@[k].label == EvidenceLabel::ExecutionObserved
                && (entries@[k].evidence matches Evidence::NotExecuted { test, passed, sequences } && test@ == FAST_PATH_TEST@
                && passed && sequences@.len() == 2),
        decreases n - i,
    {
        proof {
            assert(catalog@.take(i + 1).drop_last() =~= catalog@.take(i as int));
        }
        let semantics = &catalog[i];
        if semantics.skipped_on_fast_path {
            let entry = entry_of(
                semantics,
                EntryPhase::NoExecution,
                None,
                EvidenceLabel::ExecutionObserved,
                Evidence::NotExecuted { test: String::from_str(FAST_PATH_TEST), passed: true, sequences: fast_sequences() },
            );
            entries.push(entry);
        }
        proof {
            let prev = skipped(catalog@.take(i as int));
            assert forall|k: int| 0 <= k < entries@.len() implies carries_semantics(#[trigger] entries@[k], skipped(catalog@.take(i + 1))[k]) by {
                if k < prev.len() {
                    assert(skipped(catalog@.take(i + 1))[k] == prev[k]);
                }
            }
        }
        i = i + 1;
    }
    assert(catalog@.take(n as int) =~= catalog@);
    entries
}

/// The evidence the residue classes are proven by: each site's synthetic
/// records, and each site's sampling record.
#[derive(Clone, Debug, PartialEq, Eq)]
pub struct ResidueEvidence {
    pub synthetic: Vec<(EffectSiteId, Vec<SyntheticRecord>)>,
    pub sampling: Vec<(EffectSiteId, SamplingRecord)>,
}

/// The first synthetic records `evidence` holds for `site`.
pub open spec fn synthetic_spec(records: Seq<(EffectSiteId, Vec<SyntheticRecord>)>, site: EffectSiteId) -> Option<Seq<SyntheticRecord>>
    decreases records.len(),
{
    if records.len() == 0 {
        None
    } else if records[0].0 == site {
        Some(records[0].1@)
    } else {
        synthetic_spec(records.drop_first(), site)
    }
}

/// The first sampling record `evidence` holds for `site`.
pub open spec fn sampling_spec(records: Seq<(EffectSiteId, SamplingRecord)>, site: EffectSiteId) -> Option<SamplingRecord>
    decreases records.len(),
{
    if records.len() == 0 {
        None
    } else if records[0].0 == site {
        Some(records[0].1)
    } else {
        sampling_spec(records.drop_first(), site)
    }
}

impl ResidueEvidence {
    pub fn new() -> (e: ResidueEvidence)
        ensures
            e.synthetic@.len() == 0,
            e.sampling@.len() == 0,
    {
        ResidueEvidence { synthetic: Vec::new(), sampling: Vec::new() }
    }

    fn synthetic_of(&self, site: EffectSiteId) -> (r: Option<Vec<SyntheticRecord>>)
        ensures
            match synthetic_spec(self.synthetic@, site) {
                Some(found) => r matches Some(v) && v@ == found,
                None => r is None,
            },
    {
        let n = self.synthetic.len();
        let mut i: usize = 0;
        proof {
            assert(self.synthetic@.subrange(0, n as int) =~= self.synthetic@);
        }
        while i < n
            invariant
                n == self.synthetic@.len(),
                i <= n,
                synthetic_spec(self.synthetic@, site) == synthetic_spec(self.synthetic@.subrange(i as int, n as int), site),
            decreases n - i,
        {
            proof {
                assert(self.synthetic@.subrange(i as int, n as int).drop_first() =~= self.synthetic@.subrange(i + 1, n as int));
            }
            if self.synthetic[i].0 == site {
                return Some(self.synthetic[i].1.clone());
            }
            i = i + 1;
        }
        None
    }

    /// The evidence of the synthetic records and the residue histograms:
    /// each site found by its name, and no site sampled by two histograms.
    pub fn parse(synthetic: &Vec<SyntheticSite>, histograms: &Vec<Vec<HistogramSite>>) -> (r: Result<ResidueEvidence, String>)
        ensures
            evidence_view(r) == parse_spec(synthetic@, histograms@.map_values(|v: Vec<HistogramSite>| v@)),
    {
        let records = parse_synthetic(synthetic)?;
        let ghost files = histograms@.map_values(|v: Vec<HistogramSite>| v@);
        let mut sampling: Vec<(EffectSiteId, SamplingRecord)> = Vec::new();
        let n = histograms.len();
        let mut i: usize = 0;
        proof {
            assert(files.subrange(0, n as int) =~= files);
        }
        while i < n
            invariant
                n == histograms@.len(),
                files == histograms@.map_values(|v: Vec<HistogramSite>| v@),
                synthetic_parse(Seq::empty(), synthetic@) == Ok::<Seq<(EffectSiteId, Seq<SyntheticRecord>)>, Seq<char>>(synthetic_view(records@)),
                i <= n,
                files_parse(Seq::empty(), files) == files_parse(sampling@, files.subrange(i as int, n as int)),
            decreases n - i,
        {
            proof {
                assert(files.subrange(i as int, n as int).drop_first() =~= files.subrange(i + 1, n as int));
                assert(files.subrange(i as int, n as int)[0] == histograms@[i as int]@);
            }
            match add_histogram(&mut sampling, &histograms[i]) {
                Ok(()) => {},
                Err(e) => {
                    return Err(e);
                },
            }
            i = i + 1;
        }
        proof {
            assert(files.subrange(n as int, n as int) =~= Seq::<Seq<HistogramSite>>::empty());
        }
        Ok(ResidueEvidence { synthetic: records, sampling })
    }

    /// The evidence of the synthetic records and the residue declarations:
    /// each declared site sampled at its frozen N, with an empty histogram.
    pub fn declared(synthetic: &Vec<SyntheticSite>, declarations: &Vec<DeclaredSite>) -> (r: Result<ResidueEvidence, String>)
        ensures
            evidence_view(r) == declared_spec(synthetic@, declarations@),
    {
        let records = parse_synthetic(synthetic)?;
        let mut sampling: Vec<(EffectSiteId, SamplingRecord)> = Vec::new();
        add_declared(&mut sampling, declarations)?;
        Ok(ResidueEvidence { synthetic: records, sampling })
    }

    fn sampling_of(&self, site: EffectSiteId) -> (r: Option<SamplingRecord>)
        ensures
            r == sampling_spec(self.sampling@, site),
    {
        let n = self.sampling.len();
        let mut i: usize = 0;
        proof {
            assert(self.sampling@.subrange(0, n as int) =~= self.sampling@);
        }
        while i < n
            invariant
                n == self.sampling@.len(),
                i <= n,
                sampling_spec(self.sampling@, site) == sampling_spec(self.sampling@.subrange(i as int, n as int), site),
            decreases n - i,
        {
            proof {
                assert(self.sampling@.subrange(i as int, n as int).drop_first() =~= self.sampling@.subrange(i + 1, n as int));
            }
            if self.sampling[i].0 == site {
                return Some(self.sampling[i].1);
            }
            i = i + 1;
        }
        None
    }
}

/// One site of the synthetic evidence: its name, and the residues planted
/// at it by hand.
#[derive(Clone, Debug, PartialEq, Eq)]
pub struct SyntheticSite {
    pub site: String,
    pub synthetic: Vec<SyntheticRecord>,
}

/// One site of a residue histogram: its name, how many kills were sampled,
/// how many left each class, how many left something unclassified, and
/// whether every one was recovered.
#[derive(Clone, Debug, PartialEq, Eq)]
pub struct HistogramSite {
    pub site: String,
    pub n: u32,
    pub none: u32,
    pub internal: u32,
    pub after: u32,
    pub unclassified: u32,
    pub recovered: bool,
}

/// One site of the residue declarations: its name and its frozen N.
#[derive(Clone, Debug, PartialEq, Eq)]
pub struct DeclaredSite {
    pub site: String,
    pub sampling_n: u32,
}

pub open spec fn synthetic_view(records: Seq<(EffectSiteId, Vec<SyntheticRecord>)>) -> Seq<(EffectSiteId, Seq<SyntheticRecord>)> {
    records.map_values(|r: (EffectSiteId, Vec<SyntheticRecord>)| (r.0, r.1@))
}

/// What the synthetic evidence `sites` adds to `done`: each site, found by
/// its name, with its records; the first name that names no site refuses.
pub open spec fn synthetic_parse(done: Seq<(EffectSiteId, Seq<SyntheticRecord>)>, sites: Seq<SyntheticSite>) -> Result<Seq<(EffectSiteId, Seq<SyntheticRecord>)>, Seq<char>>
    decreases sites.len(),
{
    if sites.len() == 0 {
        Ok(done)
    } else {
        match find_site(all_sites_spec(), sites[0].site@) {
            None => Err(no_site_text(sites[0].site@)),
            Some(id) => synthetic_parse(done.push((id, sites[0].synthetic@)), sites.drop_first()),
        }
    }
}

/// The sampling record a histogram site gives.
pub open spec fn histogram_record(h: HistogramSite) -> SamplingRecord {
    SamplingRecord {
        n: h.n,
        histogram: ClassHistogram { nothing: h.none, internal: h.internal, after_effect: h.after },
        unclassified: h.unclassified,
        recovered: h.recovered,
    }
}

pub open spec fn sampled(done: Seq<(EffectSiteId, SamplingRecord)>, site: EffectSiteId) -> bool {
    exists|i: int| 0 <= i < done.len() && (#[trigger] done[i]).0 == site
}

pub open spec fn two_histograms_text(name: Seq<char>) -> Seq<char> {
    "`"@ + name + "` is sampled by two histograms"@
}

/// What one histogram's `sites` add to `done`: each site, found by its
/// name, with its record; a name that names no site, or a site sampled
/// already, refuses.
pub open spec fn sampling_parse(done: Seq<(EffectSiteId, SamplingRecord)>, sites: Seq<HistogramSite>) -> Result<Seq<(EffectSiteId, SamplingRecord)>, Seq<char>>
    decreases sites.len(),
{
    if sites.len() == 0 {
        Ok(done)
    } else {
        match find_site(all_sites_spec(), sites[0].site@) {
            None => Err(no_site_text(sites[0].site@)),
            Some(id) => if sampled(done, id) {
                Err(two_histograms_text(sites[0].site@))
            } else {
                sampling_parse(done.push((id, histogram_record(sites[0]))), sites.drop_first())
            },
        }
    }
}

/// What the histograms `files` add to `done`, one file after another.
pub open spec fn files_parse(done: Seq<(EffectSiteId, SamplingRecord)>, files: Seq<Seq<HistogramSite>>) -> Result<Seq<(EffectSiteId, SamplingRecord)>, Seq<char>>
    decreases files.len(),
{
    if files.len() == 0 {
        Ok(done)
    } else {
        match sampling_parse(done, files[0]) {
            Err(t) => Err(t),
            Ok(next) => files_parse(next, files.drop_first()),
        }
    }
}

/// The sampling record a declaration freezes: its N, an empty histogram,
/// nothing unclassified, every kill recovered.
pub open spec fn declared_record(d: DeclaredSite) -> SamplingRecord {
    SamplingRecord { n: d.sampling_n, histogram: ClassHistogram { nothing: 0, internal: 0, after_effect: 0 }, unclassified: 0, recovered: true }
}

/// What the declarations `sites` add to `done`: each site, found by its
/// name, with its declared record.
pub open spec fn declared_parse(done: Seq<(EffectSiteId, SamplingRecord)>, sites: Seq<DeclaredSite>) -> Result<Seq<(EffectSiteId, SamplingRecord)>, Seq<char>>
    decreases sites.len(),
{
    if sites.len() == 0 {
        Ok(done)
    } else {
        match find_site(all_sites_spec(), sites[0].site@) {
            None => Err(no_site_text(sites[0].site@)),
            Some(id) => declared_parse(done.push((id, declared_record(sites[0]))), sites.drop_first()),
        }
    }
}

/// Evidence as its synthetic records and its sampling records.
pub open spec fn evidence_view(r: Result<ResidueEvidence, String>) -> Result<(Seq<(EffectSiteId, Seq<SyntheticRecord>)>, Seq<(EffectSiteId, SamplingRecord)>), Seq<char>> {
    match r {
        Ok(e) => Ok((synthetic_view(e.synthetic@), e.sampling@)),
        Err(m) => Err(m@),
    }
}

/// The evidence of the synthetic records and the histograms.
pub open spec fn parse_spec(synthetic: Seq<SyntheticSite>, files: Seq<Seq<HistogramSite>>) -> Result<(Seq<(EffectSiteId, Seq<SyntheticRecord>)>, Seq<(EffectSiteId, SamplingRecord)>), Seq<char>> {
    match synthetic_parse(Seq::empty(), synthetic) {
        Err(t) => Err(t),
        Ok(s) => match files_parse(Seq::empty(), files) {
            Err(t) => Err(t),
            Ok(h) => Ok((s, h)),
        },
    }
}

/// The evidence of the synthetic records and the declarations.
pub open spec fn declared_spec(synthetic: Seq<SyntheticSite>, declarations: Seq<DeclaredSite>) -> Result<(Seq<(EffectSiteId, Seq<SyntheticRecord>)>, Seq<(EffectSiteId, SamplingRecord)>), Seq<char>> {
    match synthetic_parse(Seq::empty(), synthetic) {
        Err(t) => Err(t),
        Ok(s) => match declared_parse(Seq::empty(), declarations) {
            Err(t) => Err(t),
            Ok(h) => Ok((s, h)),
        },
    }
}

fn parse_synthetic(sites: &Vec<SyntheticSite>) -> (r: Result<Vec<(EffectSiteId, Vec<SyntheticRecord>)>, String>)
    ensures
        match synthetic_parse(Seq::empty(), sites@) {
            Ok(s) => r matches Ok(v) && synthetic_view(v@) == s,
            Err(t) => r matches Err(e) && e@ == t,
        },
{
    let mut out: Vec<(EffectSiteId, Vec<SyntheticRecord>)> = Vec::new();
    let n = sites.len();
    let mut i: usize = 0;
    proof {
        assert(sites@.subrange(0, n as int) =~= sites@);
        assert(synthetic_view(out@) =~= Seq::<(EffectSiteId, Seq<SyntheticRecord>)>::empty());
    }
    while i < n
        invariant
            n == sites@.len(),
            i <= n,
            synthetic_parse(Seq::empty(), sites@) == synthetic_parse(synthetic_view(out@), sites@.subrange(i as int, n as int)),
        decreases n - i,
    {
        proof {
            assert(sites@.subrange(i as int, n as int).drop_first() =~= sites@.subrange(i + 1, n as int));
            assert(sites@.subrange(i as int, n as int)[0] == sites@[i as int]);
        }
        match EffectSiteId::from_name(sites[i].site.as_str()) {
            Ok(id) => {
                let ghost before = out@;
                out.push((id, sites[i].synthetic.clone()));
                assert(synthetic_view(out@) =~= synthetic_view(before).push((id, sites@[i as int].synthetic@)));
            },
            Err(e) => {
                return Err(e);
            },
        }
        i = i + 1;
    }
    proof {
        assert(sites@.subrange(n as int, n as int) =~= Seq::<SyntheticSite>::empty());
    }
    Ok(out)
}

fn already_sampled(sampling: &Vec<(EffectSiteId, SamplingRecord)>, site: EffectSiteId) -> (b: bool)
    ensures
        b == sampled(sampling@, site),
{
    let n = sampling.len();
    let mut i: usize = 0;
    while i < n
        invariant
            n == sampling@.len(),
            i <= n,
            forall|j: int| 0 <= j < i ==> (#[trigger] sampling@[j]).0 != site,
        decreases n - i,
    {
        if sampling[i].0 == site {
            return true;
        }
        i = i + 1;
    }
    false
}

fn add_histogram(sampling: &mut Vec<(EffectSiteId, SamplingRecord)>, sites: &Vec<HistogramSite>) -> (r: Result<(), String>)
    ensures
        match sampling_parse(old(sampling)@, sites@) {
            Ok(h) => r is Ok && final(sampling)@ == h,
            Err(t) => r matches Err(e) && e@ == t,
        },
{
    let ghost start = sampling@;
    let n = sites.len();
    let mut i: usize = 0;
    proof {
        assert(sites@.subrange(0, n as int) =~= sites@);
    }
    while i < n
        invariant
            n == sites@.len(),
            i <= n,
            sampling_parse(start, sites@) == sampling_parse(sampling@, sites@.subrange(i as int, n as int)),
            start == old(sampling)@,
        decreases n - i,
    {
        proof {
            assert(sites@.subrange(i as int, n as int).drop_first() =~= sites@.subrange(i + 1, n as int));
            assert(sites@.subrange(i as int, n as int)[0] == sites@[i as int]);
        }
        let site = &sites[i];
        match EffectSiteId::from_name(site.site.as_str()) {
            Ok(id) => {
                if already_sampled(sampling, id) {
                    let mut e = String::from_str("`");
                    e.append(site.site.as_str());
                    e.append("` is sampled by two histograms");
                    return Err(e);
                }
                sampling.push(
                    (
                        id,
                        SamplingRecord {
                            n: site.n,
                            histogram: ClassHistogram { nothing: site.none, internal: site.internal, after_effect: site.after },
                            unclassified: site.unclassified,
                            recovered: site.recovered,
                        },
                    ),
                );
            },
            Err(e) => {
                return Err(e);
            },
        }
        i = i + 1;
    }
    proof {
        assert(sites@.subrange(n as int, n as int) =~= Seq::<HistogramSite>::empty());
    }
    Ok(())
}

fn add_declared(sampling: &mut Vec<(EffectSiteId, SamplingRecord)>, sites: &Vec<DeclaredSite>) -> (r: Result<(), String>)
    ensures
        match declared_parse(old(sampling)@, sites@) {
            Ok(h) => r is Ok && final(sampling)@ == h,
            Err(t) => r matches Err(e) && e@ == t,
        },
{
    let ghost start = sampling@;
    let n = sites.len();
    let mut i: usize = 0;
    proof {
        assert(sites@.subrange(0, n as int) =~= sites@);
    }
    while i < n
        invariant
            n == sites@.len(),
            i <= n,
            declared_parse(start, sites@) == declared_parse(sampling@, sites@.subrange(i as int, n as int)),
            start == old(sampling)@,
        decreases n - i,
    {
        proof {
            assert(sites@.subrange(i as int, n as int).drop_first() =~= sites@.subrange(i + 1, n as int));
            assert(sites@.subrange(i as int, n as int)[0] == sites@[i as int]);
        }
        let site = &sites[i];
        match EffectSiteId::from_name(site.site.as_str()) {
            Ok(id) => {
                sampling.push(
                    (
                        id,
                        SamplingRecord {
                            n: site.sampling_n,
                            histogram: ClassHistogram { nothing: 0, internal: 0, after_effect: 0 },
                            unclassified: 0,
                            recovered: true,
                        },
                    ),
                );
            },
            Err(e) => {
                return Err(e);
            },
        }
        i = i + 1;
    }
    proof {
        assert(sites@.subrange(n as int, n as int) =~= Seq::<DeclaredSite>::empty());
    }
    Ok(())
}

/// The residue phases of `catalog`: each site's classes, in order.
pub open spec fn residue_phases(catalog: Seq<SiteSemantics>) -> Seq<(EffectSiteId, EntryPhase)>
    decreases catalog.len(),
{
    if catalog.len() == 0 {
        Seq::empty()
    } else {
        let last = catalog.last();
        residue_phases(catalog.drop_last()) + last.residue_classes@.map_values(|c: ResidueClass| (last.site, EntryPhase::Residue { class: c }))
    }
}

/// Whether `evidence` proves every class of every site of `catalog` that has one.
pub open spec fn evidenced(catalog: Seq<SiteSemantics>, evidence: ResidueEvidence) -> bool {
    forall|i: int| 0 <= i < catalog.len() && (#[trigger] catalog[i]).residue_classes@.len() > 0 ==> synthetic_spec(
        evidence.synthetic@,
        catalog[i].site,
    ) is Some && sampling_spec(evidence.sampling@, catalog[i].site) is Some
}

pub open spec fn no_synthetic_text(site: EffectSiteId) -> Seq<char> {
    "`"@ + site_name_spec(site) + "` has no synthetic evidence"@
}

pub open spec fn no_sampling_text(site: EffectSiteId) -> Seq<char> {
    "`"@ + site_name_spec(site) + "` has no sampling record"@
}

/// What refuses the residue evidence over `sites`: the first site with a
/// residue class that lacks its synthetic records, or else its sampling.
pub open spec fn residue_problem(sites: Seq<SiteSemantics>, evidence: ResidueEvidence) -> Option<Seq<char>>
    decreases sites.len(),
{
    if sites.len() == 0 {
        None
    } else if sites[0].residue_classes@.len() > 0 && synthetic_spec(evidence.synthetic@, sites[0].site) is None {
        Some(no_synthetic_text(sites[0].site))
    } else if sites[0].residue_classes@.len() > 0 && sampling_spec(evidence.sampling@, sites[0].site) is None {
        Some(no_sampling_text(sites[0].site))
    } else {
        residue_problem(sites.drop_first(), evidence)
    }
}

/// One recovery-proven entry per residue class of each catalogued site,
/// carrying the site's synthetic records and sampling record; refused
/// where a site with a class lacks either.
pub fn residue_entries(catalog: &Vec<SiteSemantics>, evidence: &ResidueEvidence) -> (r: Result<Vec<RegistryEntry>, String>)
    ensures
        r is Ok <==> evidenced(catalog@, *evidence),
        r matches Err(e) ==> residue_problem(catalog@, *evidence) == Some(e@),
        r matches Ok(entries) ==> entries@.len() == residue_phases(catalog@).len() && forall|k: int| 0 <= k < entries@.len()
            ==> (#[trigger] entries@[k]).site == residue_phases(catalog@)[k].0 && entries@[k].phase == residue_phases(catalog@)[k].1
            && entries@[k].label == EvidenceLabel::RecoveryProven && (entries@[k].evidence matches Evidence::RecoveryProven {
            synthetic,
            sampling,
        } && Some(synthetic@) == synthetic_spec(evidence.synthetic@, entries@[k].site) && Some(sampling) == sampling_spec(
            evidence.sampling@,
            entries@[k].site,
        )),
{
    let mut entries: Vec<RegistryEntry> = Vec::new();
    let n = catalog.len();
    let mut i: usize = 0;
    proof {
        assert(catalog@.subrange(0, n as int) =~= catalog@);
    }
    while i < n
        invariant
            n == catalog@.len(),
            i <= n,
            residue_problem(catalog@, *evidence) == residue_problem(catalog@.subrange(i as int, n as int), *evidence),
            evidenced(catalog@.take(i as int), *evidence),
            entries@.len() == residue_phases(catalog@.take(i as int)).len(),
            forall|k: int| 0 <= k < entries@.len() ==> (#[trigger] entries@[k]).site == residue_phases(catalog@.take(i as int))[k].0
                && entries@[k].phase == residue_phases(catalog@.take(i as int))[k].1
                && entries@[k].label == EvidenceLabel::RecoveryProven && (entries@[k].evidence matches Evidence::RecoveryProven {
                synthetic,
                sampling,
            } && Some(synthetic@) == synthetic_spec(evidence.synthetic@, entries@[k].site) && Some(sampling) == sampling_spec(
                evidence.sampling@,
                entries@[k].site,
            )),
        decreases n - i,
    {
        let semantics = &catalog[i];
        let ghost prev = residue_phases(catalog@.take(i as int));
        proof {
            assert(catalog@.subrange(i as int, n as int)[0] == catalog@[i as int]);
            assert(catalog@.subrange(i as int, n as int).drop_first() =~= catalog@.subrange(i + 1, n as int));
            assert(catalog@.take(i + 1).drop_last() =~= catalog@.take(i as int));
            assert(catalog@.take(i + 1).last() == catalog@[i as int]);
        }
        let classes = semantics.residue_classes.len();
        if classes > 0 {
            let synthetic = match evidence.synthetic_of(semantics.site) {
                Some(s) => s,
                None => {
                    let mut e = String::from_str("`");
                    e.append(semantics.site.name().as_str());
                    e.append("` has no synthetic evidence");
                    return Err(e);
                },
            };
            let sampling = match evidence.sampling_of(semantics.site) {
                Some(s) => s,
                None => {
                    let mut e = String::from_str("`");
                    e.append(semantics.site.name().as_str());
                    e.append("` has no sampling record");
                    return Err(e);
                },
            };
            let mut c: usize = 0;
            while c < classes
                invariant
                    classes == semantics.residue_classes@.len(),
                    semantics == catalog@[i as int],
                    c <= classes,
                    Some(synthetic@) == synthetic_spec(evidence.synthetic@, semantics.site),
                    Some(sampling) == sampling_spec(evidence.sampling@, semantics.site),
                    entries@.len() == prev.len() + c,
                    forall|k: int| 0 <= k < entries@.len() ==> (#[trigger] entries@[k]).site == (prev + semantics.residue_classes@.take(
                        c as int,
                    ).map_values(|x: ResidueClass| (semantics.site, EntryPhase::Residue { class: x })))[k].0 && entries@[k].phase == (prev
                        + semantics.residue_classes@.take(c as int).map_values(
                        |x: ResidueClass| (semantics.site, EntryPhase::Residue { class: x }),
                    ))[k].1 && entries@[k].label == EvidenceLabel::RecoveryProven && (entries@[k].evidence matches Evidence::RecoveryProven {
                        synthetic,
                        sampling,
                    } && Some(synthetic@) == synthetic_spec(evidence.synthetic@, entries@[k].site) && Some(sampling) == sampling_spec(
                        evidence.sampling@,
                        entries@[k].site,
                    )),
                decreases classes - c,
            {
                let class = semantics.residue_classes[c];
                let entry = entry_of(
                    semantics,
                    EntryPhase::Residue { class },
                    semantics.order,
                    EvidenceLabel::RecoveryProven,
                    Evidence::RecoveryProven { synthetic: synthetic.clone(), sampling },
                );
                proof {
                    assert(semantics.residue_classes@.take(c + 1).map_values(|x: ResidueClass| (semantics.site, EntryPhase::Residue { class: x }))
                        =~= semantics.residue_classes@.take(c as int).map_values(
                        |x: ResidueClass| (semantics.site, EntryPhase::Residue { class: x }),
                    ).push((semantics.site, EntryPhase::Residue { class })));
                }
                entries.push(entry);
                c = c + 1;
            }
            proof {
                assert(semantics.residue_classes@.take(classes as int) =~= semantics.residue_classes@);
            }
        }
        proof {
            assert(residue_phases(catalog@.take(i + 1)) =~= prev + catalog@[i as int].residue_classes@.map_values(
                |x: ResidueClass| (catalog@[i as int].site, EntryPhase::Residue { class: x }),
            ));
            assert forall|j: int| 0 <= j < i + 1 && (#[trigger] catalog@.take(i + 1)[j]).residue_classes@.len() > 0 implies synthetic_spec(
                evidence.synthetic@,
                catalog@.take(i + 1)[j].site,
            ) is Some && sampling_spec(evidence.sampling@, catalog@.take(i + 1)[j].site) is Some by {
                if j < i {
                    assert(catalog@.take(i as int)[j] == catalog@.take(i + 1)[j]);
                }
            }
        }
        i = i + 1;
    }
    proof {
        assert(catalog@.take(n as int) =~= catalog@);
    }
    Ok(entries)
}

/// A site and a phase: where a registry entry stands.
pub open spec fn entry_coords(entries: Seq<RegistryEntry>) -> Seq<(EffectSiteId, EntryPhase)> {
    entries.map_values(|e: RegistryEntry| (e.site, e.phase))
}

/// Where the whole registry's entries stand, in order: the claims', each
/// residue class's, and each skipped site's.
pub open spec fn registry_coordinates(claims: Seq<Claim>, catalog: Seq<SiteSemantics>) -> Seq<(EffectSiteId, EntryPhase)> {
    claims.map_values(|c: Claim| (c.site, c.phase)) + residue_phases(catalog) + skipped(catalog).map_values(
        |x: SiteSemantics| (x.site, EntryPhase::NoExecution),
    )
}

/// What refuses the coordinates `rest` after `seen`: the first that stands
/// where one before it does.
pub open spec fn coords_problem(seen: Seq<(EffectSiteId, EntryPhase)>, rest: Seq<(EffectSiteId, EntryPhase)>) -> Option<Seq<char>>
    decreases rest.len(),
{
    if rest.len() == 0 {
        None
    } else if exists|j: int| 0 <= j < seen.len() && seen[j] == rest[0] {
        Some(duplicate_text(rest[0].0))
    } else {
        coords_problem(seen.push(rest[0]), rest.drop_first())
    }
}

/// What refuses the whole registry: the claims, else the evidence, else
/// the first entry at a coordinate another holds.
pub open spec fn registry_problem(claims: Seq<Claim>, catalog: Seq<SiteSemantics>, evidence: ResidueEvidence) -> Option<Seq<char>> {
    if !claims_register(claims, catalog) {
        claims_problem(Seq::empty(), claims, catalog)
    } else if !evidenced(catalog, evidence) {
        residue_problem(catalog, evidence)
    } else {
        coords_problem(Seq::empty(), registry_coordinates(claims, catalog))
    }
}

proof fn lemma_coords_distinct_prefix(seen: Seq<(EffectSiteId, EntryPhase)>, a: Seq<(EffectSiteId, EntryPhase)>, rest: Seq<(EffectSiteId, EntryPhase)>)
    requires
        forall|i: int, j: int| 0 <= j < i < a.len() ==> a[j] != a[i],
        forall|i: int, k: int| 0 <= i < a.len() && 0 <= k < seen.len() ==> seen[k] != a[i],
    ensures
        coords_problem(seen, a + rest) == coords_problem(seen + a, rest),
    decreases a.len(),
{
    if a.len() == 0 {
        assert(a + rest =~= rest);
        assert(seen + a =~= seen);
    } else {
        assert((a + rest)[0] == a[0]);
        assert((a + rest).drop_first() =~= a.drop_first() + rest);
        assert(!(exists|j: int| 0 <= j < seen.len() && seen[j] == (a + rest)[0]));
        let s2 = seen.push(a[0]);
        let a2 = a.drop_first();
        assert forall|i: int, k: int| 0 <= i < a2.len() && 0 <= k < s2.len() implies s2[k] != a2[i] by {
            assert(a2[i] == a[i + 1]);
            if k < seen.len() {
                assert(s2[k] == seen[k]);
            } else {
                assert(s2[k] == a[0]);
            }
        }
        assert forall|i: int, j: int| 0 <= j < i < a2.len() implies a2[j] != a2[i] by {
            assert(a2[i] == a[i + 1] && a2[j] == a[j + 1]);
        }
        lemma_coords_distinct_prefix(s2, a2, rest);
        assert(s2 + a2 =~= seen + a);
    }
}

/// Inserts each of `entries` into `registry`, in order.
fn insert_all(registry: &mut FaultRegistry, entries: Vec<RegistryEntry>) -> (r: Result<(), String>)
    requires
        one_per_coordinate(old(registry).entries@),
    ensures
        coords_problem(Seq::empty(), entry_coords(old(registry).entries@) + entry_coords(entries@)) == coords_problem(
            entry_coords(old(registry).entries@),
            entry_coords(entries@),
        ),
        r is Ok <==> coords_problem(entry_coords(old(registry).entries@), entry_coords(entries@)) is None,
        r matches Err(e) ==> coords_problem(entry_coords(old(registry).entries@), entry_coords(entries@)) == Some(e@),
        r is Ok ==> final(registry).entries@ == old(registry).entries@ + entries@,
        one_per_coordinate(final(registry).entries@),
{
    let ghost start = registry.entries@;
    let ghost all = entries@;
    let ghost coords = entry_coords(all);
    proof {
        assert forall|i: int, j: int| 0 <= j < i < entry_coords(start).len() implies entry_coords(start)[j] != entry_coords(start)[i] by {
            assert(entry_coords(start)[j] == (start[j].site, start[j].phase));
            assert(entry_coords(start)[i] == (start[i].site, start[i].phase));
        }
        lemma_coords_distinct_prefix(Seq::empty(), entry_coords(start), coords);
        assert(Seq::<(EffectSiteId, EntryPhase)>::empty() + entry_coords(start) =~= entry_coords(start));
        assert(all.subrange(0, all.len() as int) =~= all);
        assert(all.take(0) =~= Seq::<RegistryEntry>::empty());
        assert(start + all.take(0) =~= start);
        assert(coords.subrange(0, all.len() as int) =~= coords);
    }
    let mut rest = entries;
    let ghost mut k: int = 0;
    while rest.len() > 0
        invariant
            coords == entry_coords(all),
            all == entries@,
            0 <= k <= all.len(),
            rest@ == all.subrange(k, all.len() as int),
            start == old(registry).entries@,
            registry.entries@ == start + all.take(k),
            one_per_coordinate(registry.entries@),
            coords_problem(Seq::empty(), entry_coords(start) + coords) == coords_problem(entry_coords(start), coords),
            coords_problem(entry_coords(start), coords) == coords_problem(entry_coords(registry.entries@), coords.subrange(k, all.len() as int)),
        decreases rest.len(),
    {
        let ghost before = registry.entries@;
        let ghost r0 = rest@;
        let entry = rest.remove(0);
        proof {
            assert(r0[0] == entry);
            assert(all[k] == entry);
            assert(r0.drop_first() =~= rest@);
            assert(rest@ =~= all.subrange(k + 1, all.len() as int));
            assert(coords.subrange(k, all.len() as int)[0] == (entry.site, entry.phase));
            assert(coords.subrange(k, all.len() as int).drop_first() =~= coords.subrange(k + 1, all.len() as int));
            assert(entry_coords(before).push((entry.site, entry.phase)) =~= entry_coords(before.push(entry)));
            assert((exists|j: int| 0 <= j < entry_coords(before).len() && entry_coords(before)[j] == (entry.site, entry.phase))
                == holds(before, entry.site, entry.phase)) by {
                if holds(before, entry.site, entry.phase) {
                    let j = choose|j: int| 0 <= j < before.len() && (#[trigger] before[j]).site == entry.site
                        && before[j].phase == entry.phase;
                    assert(entry_coords(before)[j] == (before[j].site, before[j].phase));
                }
                if exists|j: int| 0 <= j < entry_coords(before).len() && entry_coords(before)[j] == (entry.site, entry.phase) {
                    let j = choose|j: int| 0 <= j < entry_coords(before).len() && entry_coords(before)[j] == (entry.site, entry.phase);
                    assert(entry_coords(before)[j] == (before[j].site, before[j].phase));
                }
            }
            assert(start + all.take(k + 1) =~= (start + all.take(k)).push(entry));
        }
        match registry.insert(entry) {
            Ok(()) => {
                proof {
                    law_insert_keeps_one_entry_per_coordinate(before, all[k]);
                }
            },
            Err(e) => {
                return Err(e.message);
            },
        }
        proof {
            k = k + 1;
        }
    }
    proof {
        assert(all.take(k) =~= all);
        assert(coords.subrange(k, all.len() as int) =~= Seq::<(EffectSiteId, EntryPhase)>::empty());
    }
    Ok(())
}

/// The whole registry: the claims' entries, then each recovery-proven
/// residue entry, then each not-executed entry; any entry at a site and
/// phase already held refuses.
pub fn registry(claims: &Vec<Claim>, catalog: &Vec<SiteSemantics>, evidence: &ResidueEvidence) -> (r: Result<FaultRegistry, String>)
    ensures
        r is Ok <==> registry_problem(claims@, catalog@, *evidence) is None,
        r matches Err(e) ==> registry_problem(claims@, catalog@, *evidence) == Some(e@),
        !claims_register(claims@, catalog@) ==> r is Err,
        !evidenced(catalog@, *evidence) ==> r is Err,
        r matches Ok(registry) ==> entry_coords(registry.entries@) == registry_coordinates(claims@, catalog@),
        r matches Ok(registry) ==> registry.entries@.len() == claims@.len() + residue_phases(catalog@).len() + skipped(catalog@).len()
            && one_per_coordinate(registry.entries@),
        r matches Ok(registry) ==> forall|i: int| 0 <= i < claims@.len() ==> (#[trigger] registry.entries@[i]).label
            == EvidenceLabel::ExecutionObserved,
        r matches Ok(registry) ==> forall|i: int| claims@.len() <= i < claims@.len() + residue_phases(catalog@).len()
            ==> residue_evidenced(#[trigger] registry.entries@[i], *evidence),
        r matches Ok(registry) ==> forall|i: int| claims@.len() + residue_phases(catalog@).len() <= i < registry.entries@.len()
            ==> fast_path_evidenced(#[trigger] registry.entries@[i]),
{
    let mut registry = match registry_of(claims, catalog) {
        Ok(r) => r,
        Err(e) => {
            return Err(e.message);
        },
    };
    let ghost claim_coords = claims@.map_values(|c: Claim| (c.site, c.phase));
    proof {
        assert(entry_coords(registry.entries@) =~= claim_coords);
        assert forall|i: int, j: int| 0 <= i < j < registry.entries@.len() implies !((#[trigger] registry.entries@[i]).site
            == (#[trigger] registry.entries@[j]).site && registry.entries@[i].phase == registry.entries@[j].phase) by {
            assert(claims@[i].site == registry.entries@[i].site && claims@[j].site == registry.entries@[j].site);
        }
    }
    let residue = match residue_entries(catalog, evidence) {
        Ok(entries) => entries,
        Err(e) => {
            return Err(e);
        },
    };
    let extra = no_execution_entries(catalog);
    let ghost residue_coords = residue_phases(catalog@);
    let ghost extra_coords = skipped(catalog@).map_values(|x: SiteSemantics| (x.site, EntryPhase::NoExecution));
    proof {
        assert(entry_coords(residue@) =~= residue_coords);
        assert(entry_coords(extra@) =~= extra_coords);
        assert(registry_coordinates(claims@, catalog@) =~= claim_coords + (residue_coords + extra_coords));
        assert forall|i: int, j: int| 0 <= j < i < claim_coords.len() implies claim_coords[j] != claim_coords[i] by {
            assert(claim_coords[i] == (claims@[i].site, claims@[i].phase));
            assert(claim_coords[j] == (claims@[j].site, claims@[j].phase));
        }
        lemma_coords_distinct_prefix(Seq::empty(), claim_coords, residue_coords + extra_coords);
        assert(Seq::<(EffectSiteId, EntryPhase)>::empty() + claim_coords =~= claim_coords);
    }
    match insert_all(&mut registry, residue) {
        Ok(()) => {},
        Err(e) => {
            proof {
                assert(coords_problem(claim_coords, residue_coords + extra_coords) == coords_problem(claim_coords, residue_coords)) by {
                    lemma_coords_problem_append(claim_coords, residue_coords, extra_coords);
                }
            }
            return Err(e);
        },
    }
    let ghost middle = registry.entries@;
    proof {
        lemma_coords_problem_append(claim_coords, residue_coords, extra_coords);
        assert(entry_coords(middle) =~= claim_coords + residue_coords);
    }
    match insert_all(&mut registry, extra) {
        Ok(()) => {},
        Err(e) => {
            return Err(e);
        },
    }
    proof {
        assert(entry_coords(registry.entries@) =~= claim_coords + residue_coords + extra_coords);
        assert forall|i: int| claims@.len() <= i < claims@.len() + residue_phases(catalog@).len() implies residue_evidenced(
            #[trigger] registry.entries@[i],
            *evidence,
        ) by {
            assert(registry.entries@[i] == residue@[i - claims@.len()]);
        }
        assert forall|i: int| claims@.len() + residue_phases(catalog@).len() <= i < registry.entries@.len() implies fast_path_evidenced(
            #[trigger] registry.entries@[i],
        ) by {
            assert(registry.entries@[i] == extra@[i - claims@.len() - residue_phases(catalog@).len()]);
        }
    }
    Ok(registry)
}

/// Whether `e` is a recovery-proven residue entry carrying the synthetic
/// records and the sampling record `evidence` holds for its site.
pub open spec fn residue_evidenced(e: RegistryEntry, evidence: ResidueEvidence) -> bool {
    &&& e.label == EvidenceLabel::RecoveryProven
    &&& e.evidence matches Evidence::RecoveryProven { synthetic, sampling } && Some(synthetic@) == synthetic_spec(evidence.synthetic@, e.site)
        && Some(sampling) == sampling_spec(evidence.sampling@, e.site)
}

/// Whether `e` records that the fast path did not execute its site: the
/// fast-path test, passed, naming both fast sequences.
pub open spec fn fast_path_evidenced(e: RegistryEntry) -> bool {
    &&& e.phase == EntryPhase::NoExecution
    &&& e.label == EvidenceLabel::ExecutionObserved
    &&& e.evidence matches Evidence::NotExecuted { test, passed, sequences } && test@ == FAST_PATH_TEST@ && passed && sequences@.len() == 2
}

/// The problem of `a + b` after `seen`: that of `a`, or where `a` has none,
/// that of `b` after `seen + a`.
proof fn lemma_coords_problem_append(seen: Seq<(EffectSiteId, EntryPhase)>, a: Seq<(EffectSiteId, EntryPhase)>, b: Seq<(EffectSiteId, EntryPhase)>)
    ensures
        coords_problem(seen, a + b) == match coords_problem(seen, a) {
            Some(t) => Some(t),
            None => coords_problem(seen + a, b),
        },
    decreases a.len(),
{
    if a.len() == 0 {
        assert(a + b =~= b);
        assert(seen + a =~= seen);
    } else {
        assert((a + b)[0] == a[0]);
        assert((a + b).drop_first() =~= a.drop_first() + b);
        lemma_coords_problem_append(seen.push(a[0]), a.drop_first(), b);
        assert(seen.push(a[0]) + a.drop_first() =~= seen + a);
    }
}

/// The registry as a document: what it is, the sites it ranges over, the
/// hosts it is checked on, the fast sequences, and its entries.
#[derive(Clone, Debug, PartialEq, Eq)]
pub struct RegistryDocument {
    pub note: String,
    pub range: Vec<String>,
    pub hosts: Vec<String>,
    pub fast_sequences: Vec<String>,
    pub entries: Vec<RegistryEntry>,
}

/// What the registry document says it is.
pub const REGISTRY_NOTE: &'static str = "the fault-injection registry of the sequential topology over the claimed inventory: one entry per site, hook phase, injection point and injection mode, each naming the test that executes it; one recovery-proven entry per residue class, with its synthetic records and its sampling record; and one not-executed entry per site the exact-base fast path skips, naming every fast sequence";

/// The registry document of `claims` over `catalog`, with `evidence`.
pub fn registry_document(claims: &Vec<Claim>, catalog: &Vec<SiteSemantics>, evidence: &ResidueEvidence) -> (r: Result<RegistryDocument, String>)
    ensures
        r is Ok <==> registry_problem(claims@, catalog@, *evidence) is None,
        r matches Err(e) ==> registry_problem(claims@, catalog@, *evidence) == Some(e@),
        r matches Ok(d) ==> d.note@ == REGISTRY_NOTE@ && entry_coords(d.entries@) == registry_coordinates(claims@, catalog@)
            && one_per_coordinate(d.entries@) && views(d.fast_sequences@) == seq![FAST_SEQUENCES@[0]@, FAST_SEQUENCES@[1]@],
        r matches Ok(d) ==> d.range@.len() == catalog@.len() && (forall|i: int| 0 <= i < catalog@.len() ==> (#[trigger] d.range@[i])@
            == site_name_spec(catalog@[i].site)) && views(d.hosts@) == seq!["unix"@, "windows"@] && d.fast_sequences@.len() == 2
            && d.entries@.len() == claims@.len() + residue_phases(catalog@).len() + skipped(catalog@).len(),
{
    let registry = match registry(claims, catalog, evidence) {
        Ok(r) => r,
        Err(e) => {
            return Err(e);
        },
    };
    let sites = inventory(catalog);
    let mut range: Vec<String> = Vec::new();
    let n = sites.len();
    let mut i: usize = 0;
    while i < n
        invariant
            n == sites@.len(),
            sites@ == catalog@.map_values(|s: SiteSemantics| s.site),
            i <= n,
            range@.len() == i,
            forall|k: int| 0 <= k < i ==> (#[trigger] range@[k])@ == site_name_spec(catalog@[k].site),
        decreases n - i,
    {
        range.push(sites[i].name());
        i = i + 1;
    }
    let mut hosts: Vec<String> = Vec::new();
    hosts.push(String::from_str(Host::Unix.name()));
    hosts.push(String::from_str(Host::Windows.name()));
    assert(views(hosts@) =~= seq!["unix"@, "windows"@]);
    Ok(RegistryDocument {
        note: String::from_str(REGISTRY_NOTE),
        range,
        hosts,
        fast_sequences: fast_sequences(),
        entries: registry.entries,
    })
}

/// `entry` with its sampled histogram emptied: what the pinned document
/// compares, the histogram counts being what varies by machine.
pub open spec fn without_histogram_spec(entry: RegistryEntry) -> RegistryEntry {
    match entry.evidence {
        Evidence::RecoveryProven { synthetic, sampling } => RegistryEntry {
            evidence: Evidence::RecoveryProven {
                synthetic,
                sampling: SamplingRecord { histogram: ClassHistogram { nothing: 0, internal: 0, after_effect: 0 }, ..sampling },
            },
            ..entry
        },
        _ => entry,
    }
}

/// `document` with every recovery-proven entry's histogram emptied.
pub fn without_histograms(document: RegistryDocument) -> (d: RegistryDocument)
    ensures
        d.note == document.note,
        d.range == document.range,
        d.hosts == document.hosts,
        d.fast_sequences == document.fast_sequences,
        d.entries@ == document.entries@.map_values(|e: RegistryEntry| without_histogram_spec(e)),
{
    let RegistryDocument { note, range, hosts, fast_sequences, entries } = document;
    let ghost given = entries@;
    let mut entries = entries;
    let n = entries.len();
    let mut i: usize = 0;
    while i < n
        invariant
            n == entries@.len(),
            n == given.len(),
            i <= n,
            forall|k: int| 0 <= k < i ==> entries@[k] == without_histogram_spec(given[k]),
            forall|k: int| i <= k < n ==> entries@[k] == given[k],
        decreases n - i,
    {
        let entry = entries.remove(i);
        let cleared = match entry.evidence {
            Evidence::RecoveryProven { synthetic, sampling } => RegistryEntry {
                evidence: Evidence::RecoveryProven {
                    synthetic,
                    sampling: SamplingRecord {
                        n: sampling.n,
                        histogram: ClassHistogram { nothing: 0, internal: 0, after_effect: 0 },
                        unclassified: sampling.unclassified,
                        recovered: sampling.recovered,
                    },
                },
                ..entry
            },
            evidence => RegistryEntry { evidence, ..entry },
        };
        entries.insert(i, cleared);
        i = i + 1;
    }
    assert(entries@ =~= given.map_values(|e: RegistryEntry| without_histogram_spec(e)));
    RegistryDocument { note, range, hosts, fast_sequences, entries }
}

/// One site of the residue declarations, as the document holds it: the
/// name under `site` and the number under `sampling_n`, each where it is
/// there and of its type.
#[derive(Clone, Debug, PartialEq, Eq)]
pub struct DeclaredN {
    pub site: Option<String>,
    pub sampling_n: Option<u64>,
}

pub open spec fn declared_view(d: DeclaredN) -> (Option<Seq<char>>, Option<u64>) {
    (
        match d.site {
            Some(s) => Some(s@),
            None => None,
        },
        d.sampling_n,
    )
}

/// What a read of the residue declarations gives: the document's `sites`,
/// where it has an array of them, or why it does not parse.
pub open spec fn parsed_view(p: Result<Option<Vec<DeclaredN>>, String>) -> Result<Option<Seq<(Option<Seq<char>>, Option<u64>)>>, Seq<char>> {
    match p {
        Ok(Some(v)) => Ok(Some(v@.map_values(|d: DeclaredN| declared_view(d)))),
        Ok(None) => Ok(None),
        Err(e) => Err(e@),
    }
}

/// What the declarations freeze for `site`: the sampling N of the first
/// site of that name, where it has one and it fits.
pub open spec fn frozen_among(declared: Seq<(Option<Seq<char>>, Option<u64>)>, site: EffectSiteId) -> Result<Option<u32>, Seq<char>>
    decreases declared.len(),
{
    if declared.len() == 0 {
        Ok(None)
    } else if declared[0].0 == Some(site_name_spec(site)) {
        match declared[0].1 {
            None => Err("`"@ + site_name_spec(site) + "` declares no `sampling_n`"@),
            Some(n) => if n <= u32::MAX {
                Ok(Some(n as u32))
            } else {
                Err("`"@ + site_name_spec(site) + "`'s `sampling_n` does not fit"@)
            },
        }
    } else {
        frozen_among(declared.drop_first(), site)
    }
}

/// What a read of the declarations freezes for `site`.
pub open spec fn frozen_spec(parsed: Result<Option<Seq<(Option<Seq<char>>, Option<u64>)>>, Seq<char>>, site: EffectSiteId) -> Result<Option<u32>, Seq<char>> {
    match parsed {
        Err(t) => Err("the residue declarations do not parse: "@ + t),
        Ok(None) => Err("the residue declarations carry no `sites`"@),
        Ok(Some(declared)) => frozen_among(declared, site),
    }
}

pub open spec fn frozen_view(r: Result<Option<u32>, String>) -> Result<Option<u32>, Seq<char>> {
    match r {
        Ok(n) => Ok(n),
        Err(e) => Err(e@),
    }
}

/// The sampling N the residue declarations freeze for `site`, from a read
/// of them: its `sites`, where it has an array of them, or why it does not
/// parse.
pub fn frozen_n_in(parsed: &Result<Option<Vec<DeclaredN>>, String>, site: EffectSiteId) -> (r: Result<Option<u32>, String>)
    ensures
        frozen_view(r) == frozen_spec(parsed_view(*parsed), site),
{
    let declared = match parsed {
        Err(e) => {
            let mut message = String::from_str("the residue declarations do not parse: ");
            message.append(e.as_str());
            return Err(message);
        },
        Ok(None) => {
            return Err(String::from_str("the residue declarations carry no `sites`"));
        },
        Ok(Some(declared)) => declared,
    };
    let ghost all = declared@.map_values(|d: DeclaredN| declared_view(d));
    let name = site.name();
    let n = declared.len();
    let mut i: usize = 0;
    proof {
        assert(all.subrange(0, n as int) =~= all);
    }
    while i < n
        invariant
            n == declared@.len(),
            all == declared@.map_values(|d: DeclaredN| declared_view(d)),
            frozen_spec(parsed_view(*parsed), site) == frozen_among(all, site),
            i <= n,
            name@ == site_name_spec(site),
            frozen_among(all, site) == frozen_among(all.subrange(i as int, n as int), site),
        decreases n - i,
    {
        proof {
            assert(all.subrange(i as int, n as int).drop_first() =~= all.subrange(i + 1, n as int));
            assert(all.subrange(i as int, n as int)[0] == declared_view(declared@[i as int]));
        }
        let named = match &declared[i].site {
            Some(s) => crate::text::same_text(s.as_str(), name.as_str()),
            None => false,
        };
        proof {
            if named {
                assert(declared_view(declared@[i as int]).0 == Some(site_name_spec(site)));
            } else {
                assert(declared_view(declared@[i as int]).0 != Some(site_name_spec(site)));
            }
        }
        if named {
            match declared[i].sampling_n {
                None => {
                    let mut e = String::from_str("`");
                    e.append(name.as_str());
                    e.append("` declares no `sampling_n`");
                    return Err(e);
                },
                Some(value) => {
                    if value <= 0xffff_ffff {
                        return Ok(Some(value as u32));
                    }
                    let mut e = String::from_str("`");
                    e.append(name.as_str());
                    e.append("`'s `sampling_n` does not fit");
                    return Err(e);
                },
            }
        }
        i = i + 1;
    }
    Ok(None)
}

/// What the frozen-N check says of one entry: nothing where it is not
/// recovery-proven or cites the frozen N.
pub open spec fn frozen_problem(entry: RegistryEntry, parsed: Result<Option<Seq<(Option<Seq<char>>, Option<u64>)>>, Seq<char>>) -> Seq<Seq<char>> {
    match entry.evidence {
        Evidence::RecoveryProven { sampling, .. } => match frozen_spec(parsed, entry.site) {
            Ok(Some(frozen)) => if frozen == sampling.n {
                Seq::empty()
            } else {
                seq![
                    "`"@ + site_name_spec(entry.site) + "`'s recovery-proven entry cites n = "@ + decimal(sampling.n as nat)
                        + ", and the declarations freeze "@ + decimal(frozen as nat),
                ]
            },
            Ok(None) => seq![
                "`"@ + site_name_spec(entry.site) + "` carries a recovery-proven entry and the declarations freeze no N for it"@,
            ],
            Err(t) => seq![t],
        },
        _ => Seq::empty(),
    }
}

pub open spec fn frozen_problems(entries: Seq<RegistryEntry>, parsed: Result<Option<Seq<(Option<Seq<char>>, Option<u64>)>>, Seq<char>>) -> Seq<Seq<char>>
    decreases entries.len(),
{
    if entries.len() == 0 {
        Seq::empty()
    } else {
        frozen_problems(entries.drop_last(), parsed) + frozen_problem(entries.last(), parsed)
    }
}

/// Every recovery-proven entry whose sampling N is not the one a read of
/// the residue declarations freezes for its site, said.
pub fn check_frozen_n_in(entries: &Vec<RegistryEntry>, parsed: &Result<Option<Vec<DeclaredN>>, String>) -> (problems: Vec<String>)
    ensures
        views(problems@) == frozen_problems(entries@, parsed_view(*parsed)),
{
    let mut problems: Vec<String> = Vec::new();
    let n = entries.len();
    let mut i: usize = 0;
    while i < n
        invariant
            n == entries@.len(),
            i <= n,
            views(problems@) == frozen_problems(entries@.take(i as int), parsed_view(*parsed)),
        decreases n - i,
    {
        proof {
            assert(entries@.take(i + 1).drop_last() =~= entries@.take(i as int));
        }
        let entry = &entries[i];
        let ghost before = problems@;
        match &entry.evidence {
            Evidence::RecoveryProven { sampling, .. } => {
                match frozen_n_in(parsed, entry.site) {
                    Ok(Some(frozen)) => {
                        if frozen != sampling.n {
                            let mut p = String::from_str("`");
                            p.append(entry.site.name().as_str());
                            p.append("`'s recovery-proven entry cites n = ");
                            push_decimal(&mut p, sampling.n as u64);
                            p.append(", and the declarations freeze ");
                            push_decimal(&mut p, frozen as u64);
                            problems.push(p);
                        }
                    },
                    Ok(None) => {
                        let mut p = String::from_str("`");
                        p.append(entry.site.name().as_str());
                        p.append("` carries a recovery-proven entry and the declarations freeze no N for it");
                        problems.push(p);
                    },
                    Err(e) => {
                        problems.push(e);
                    },
                }
            },
            _ => {},
        }
        proof {
            assert(views(problems@) =~= views(before) + frozen_problem(entries@[i as int], parsed_view(*parsed)));
        }
        i = i + 1;
    }
    assert(entries@.take(n as int) =~= entries@);
    problems
}

/// One crossing a test recorded: a site at a hook phase, and how many
/// times the test crossed it.
#[derive(Clone, Copy, Debug, PartialEq, Eq, Structural)]
pub struct Seen {
    pub site: EffectSiteId,
    pub phase: HookPhase,
    pub count: u64,
}

/// A fast sequence a test ran, and the names of the sites it touched.
#[derive(Clone, Debug, PartialEq, Eq)]
pub struct FastSequence {
    pub name: String,
    pub touched: Vec<String>,
}

/// What one test recorded: the points it reached, the crossings it
/// observed, and the fast sequences it ran.
#[derive(Clone, Debug, PartialEq, Eq)]
pub struct ObservationRecord {
    pub test: String,
    pub reached: Vec<Seen>,
    pub observed: Vec<Seen>,
    pub fast_sequences: Vec<FastSequence>,
}

/// The hooks rebuilt from what the tests recorded: every crossing, in
/// order, and the fast sequences run, in order.
#[derive(Clone, Debug, PartialEq, Eq)]
pub struct HookHarness {
    pub trace: Vec<(EffectSiteId, HookPhase)>,
    pub sequences: Vec<String>,
}

/// The injection points among `seen`, in order.
pub open spec fn reached_trace(seen: Seq<Seen>) -> Seq<(EffectSiteId, HookPhase)>
    decreases seen.len(),
{
    if seen.len() == 0 {
        Seq::empty()
    } else {
        reached_trace(seen.drop_last()) + if seen.last().phase is Point {
            seq![(seen.last().site, seen.last().phase)]
        } else {
            Seq::empty()
        }
    }
}

/// The crossings among `seen` a hook can be armed at, in order.
pub open spec fn observed_trace(seen: Seq<Seen>) -> Seq<(EffectSiteId, HookPhase)>
    decreases seen.len(),
{
    if seen.len() == 0 {
        Seq::empty()
    } else {
        observed_trace(seen.drop_last()) + if phase_admitted(seen.last().phase) {
            seq![(seen.last().site, seen.last().phase)]
        } else {
            Seq::empty()
        }
    }
}

/// The sites among `names` that name one, each entered, in order.
pub open spec fn touched_trace(names: Seq<String>) -> Seq<(EffectSiteId, HookPhase)>
    decreases names.len(),
{
    if names.len() == 0 {
        Seq::empty()
    } else {
        touched_trace(names.drop_last()) + match find_site(all_sites_spec(), names.last()@) {
            Some(site) => seq![(site, HookPhase::Before)],
            None => Seq::empty(),
        }
    }
}

/// What the fast sequences `runs` touched, in order.
pub open spec fn sequences_trace(runs: Seq<FastSequence>) -> Seq<(EffectSiteId, HookPhase)>
    decreases runs.len(),
{
    if runs.len() == 0 {
        Seq::empty()
    } else {
        sequences_trace(runs.drop_last()) + touched_trace(runs.last().touched@)
    }
}

/// What one record replays.
pub open spec fn record_trace(record: ObservationRecord) -> Seq<(EffectSiteId, HookPhase)> {
    reached_trace(record.reached@) + observed_trace(record.observed@) + sequences_trace(record.fast_sequences@)
}

/// What `records` replay, in order.
pub open spec fn harness_trace(records: Seq<ObservationRecord>) -> Seq<(EffectSiteId, HookPhase)>
    decreases records.len(),
{
    if records.len() == 0 {
        Seq::empty()
    } else {
        harness_trace(records.drop_last()) + record_trace(records.last())
    }
}

/// The fast sequences `records` ran, by name, in order.
pub open spec fn harness_sequences(records: Seq<ObservationRecord>) -> Seq<Seq<char>>
    decreases records.len(),
{
    if records.len() == 0 {
        Seq::empty()
    } else {
        harness_sequences(records.drop_last()) + records.last().fast_sequences@.map_values(|f: FastSequence| f.name@)
    }
}

fn replay_reached(trace: &mut Vec<(EffectSiteId, HookPhase)>, seen: &Vec<Seen>)
    ensures
        final(trace)@ == old(trace)@ + reached_trace(seen@),
{
    let ghost start = trace@;
    let n = seen.len();
    let mut i: usize = 0;
    while i < n
        invariant
            n == seen@.len(),
            i <= n,
            trace@ == start + reached_trace(seen@.take(i as int)),
        decreases n - i,
    {
        proof {
            assert(seen@.take(i + 1).drop_last() =~= seen@.take(i as int));
        }
        let s = seen[i];
        match s.phase {
            HookPhase::Point { .. } => trace.push((s.site, s.phase)),
            _ => {},
        }
        assert(trace@ =~= start + reached_trace(seen@.take(i + 1)));
        i = i + 1;
    }
    assert(seen@.take(n as int) =~= seen@);
}

fn replay_observed(trace: &mut Vec<(EffectSiteId, HookPhase)>, seen: &Vec<Seen>)
    ensures
        final(trace)@ == old(trace)@ + observed_trace(seen@),
{
    let ghost start = trace@;
    let n = seen.len();
    let mut i: usize = 0;
    while i < n
        invariant
            n == seen@.len(),
            i <= n,
            trace@ == start + observed_trace(seen@.take(i as int)),
        decreases n - i,
    {
        proof {
            assert(seen@.take(i + 1).drop_last() =~= seen@.take(i as int));
        }
        let s = seen[i];
        let admitted = match s.phase {
            HookPhase::Point { point, mode } => {
                let modes = point_modes(point);
                let mut found = false;
                let mut k: usize = 0;
                while k < modes.len()
                    invariant
                        modes@ == modes_spec(point),
                        forall|m: InjectionMode| modes@.contains(m) <==> point_admits(point, m),
                        k <= modes@.len(),
                        found <==> exists|j: int| 0 <= j < k && modes@[j] == mode,
                    decreases modes@.len() - k,
                {
                    if modes[k] == mode {
                        found = true;
                    }
                    k = k + 1;
                }
                proof {
                    if point_admits(point, mode) {
                        assert(modes@.contains(mode));
                    }
                }
                found
            },
            _ => true,
        };
        assert(admitted == phase_admitted(s.phase));
        if admitted {
            trace.push((s.site, s.phase));
        }
        assert(trace@ =~= start + observed_trace(seen@.take(i + 1)));
        i = i + 1;
    }
    assert(seen@.take(n as int) =~= seen@);
}

fn replay_touched(trace: &mut Vec<(EffectSiteId, HookPhase)>, names: &Vec<String>)
    ensures
        final(trace)@ == old(trace)@ + touched_trace(names@),
{
    let ghost start = trace@;
    let n = names.len();
    let mut i: usize = 0;
    while i < n
        invariant
            n == names@.len(),
            i <= n,
            trace@ == start + touched_trace(names@.take(i as int)),
        decreases n - i,
    {
        proof {
            assert(names@.take(i + 1).drop_last() =~= names@.take(i as int));
        }
        match EffectSiteId::from_name(names[i].as_str()) {
            Ok(site) => trace.push((site, HookPhase::Before)),
            Err(_) => {},
        }
        assert(trace@ =~= start + touched_trace(names@.take(i + 1)));
        i = i + 1;
    }
    assert(names@.take(n as int) =~= names@);
}

fn replay_sequences(harness: &mut HookHarness, runs: &Vec<FastSequence>)
    ensures
        final(harness).trace@ == old(harness).trace@ + sequences_trace(runs@),
        views(final(harness).sequences@) == views(old(harness).sequences@) + runs@.map_values(|f: FastSequence| f.name@),
{
    let ghost start = harness.trace@;
    let ghost names = views(harness.sequences@);
    let n = runs.len();
    let mut i: usize = 0;
    while i < n
        invariant
            n == runs@.len(),
            i <= n,
            harness.trace@ == start + sequences_trace(runs@.take(i as int)),
            views(harness.sequences@) == names + runs@.take(i as int).map_values(|f: FastSequence| f.name@),
        decreases n - i,
    {
        proof {
            assert(runs@.take(i + 1).drop_last() =~= runs@.take(i as int));
        }
        let ghost before = harness.sequences@;
        harness.sequences.push(runs[i].name.clone());
        proof {
            crate::text::lemma_views_push(before, runs@[i as int].name);
        }
        replay_touched(&mut harness.trace, &runs[i].touched);
        assert(harness.trace@ =~= start + sequences_trace(runs@.take(i + 1)));
        assert(views(harness.sequences@) =~= names + runs@.take(i + 1).map_values(|f: FastSequence| f.name@));
        i = i + 1;
    }
    assert(runs@.take(n as int) =~= runs@);
}

/// The hooks rebuilt from `records`: each reached injection point; each
/// observed crossing at a phase a hook can be armed at; and, for each fast
/// sequence, its name and an entry into each site it touched that names one.
pub fn harness_from(records: &Vec<ObservationRecord>) -> (h: HookHarness)
    ensures
        h.trace@ == harness_trace(records@),
        views(h.sequences@) == harness_sequences(records@),
        forall|i: int, j: int| 0 <= i < records@.len() && 0 <= j < records@[i].reached@.len() && (
        #[trigger] records@[i].reached@[j]).phase is Point ==> h.trace@.contains((records@[i].reached@[j].site, records@[i].reached@[j].phase)),
        forall|i: int, j: int| 0 <= i < records@.len() && 0 <= j < records@[i].observed@.len() && phase_admitted(
            (#[trigger] records@[i].observed@[j]).phase,
        ) ==> h.trace@.contains((records@[i].observed@[j].site, records@[i].observed@[j].phase)),
        forall|i: int, k: int, m: int| 0 <= i < records@.len() && 0 <= k < records@[i].fast_sequences@.len() && 0 <= m
            < records@[i].fast_sequences@[k].touched@.len() && find_site(
            all_sites_spec(),
            (#[trigger] records@[i].fast_sequences@[k].touched@[m])@,
        ) is Some ==> h.trace@.contains(
            (find_site(all_sites_spec(), records@[i].fast_sequences@[k].touched@[m]@).unwrap(), HookPhase::Before),
        ),
{
    let mut harness = HookHarness { trace: Vec::new(), sequences: Vec::new() };
    let n = records.len();
    let mut i: usize = 0;
    while i < n
        invariant
            n == records@.len(),
            i <= n,
            harness.trace@ == harness_trace(records@.take(i as int)),
            views(harness.sequences@) == harness_sequences(records@.take(i as int)),
        decreases n - i,
    {
        proof {
            assert(records@.take(i + 1).drop_last() =~= records@.take(i as int));
        }
        let record = &records[i];
        replay_reached(&mut harness.trace, &record.reached);
        replay_observed(&mut harness.trace, &record.observed);
        replay_sequences(&mut harness, &record.fast_sequences);
        assert(harness.trace@ =~= harness_trace(records@.take(i + 1)));
        assert(views(harness.sequences@) =~= harness_sequences(records@.take(i + 1)));
        i = i + 1;
    }
    assert(records@.take(n as int) =~= records@);
    proof {
        assert forall|i: int| #![trigger records@[i]] 0 <= i < records@.len() implies (forall|j: int| 0 <= j < records@[i].reached@.len() && (
        #[trigger] records@[i].reached@[j]).phase is Point ==> harness_trace(records@).contains(
            (records@[i].reached@[j].site, records@[i].reached@[j].phase),
        )) by {
            law_replay_observes_every_crossing(records@, i);
        }
        assert forall|i: int| #![trigger records@[i]] 0 <= i < records@.len() implies (forall|j: int| 0 <= j < records@[i].observed@.len()
            && phase_admitted((#[trigger] records@[i].observed@[j]).phase) ==> harness_trace(records@).contains(
            (records@[i].observed@[j].site, records@[i].observed@[j].phase),
        )) by {
            law_replay_observes_every_crossing(records@, i);
        }
        assert forall|i: int| #![trigger records@[i]] 0 <= i < records@.len() implies (forall|k: int, m: int| 0 <= k < records@[i].fast_sequences@.len()
            && 0 <= m < records@[i].fast_sequences@[k].touched@.len() && find_site(
            all_sites_spec(),
            (#[trigger] records@[i].fast_sequences@[k].touched@[m])@,
        ) is Some ==> harness_trace(records@).contains(
            (find_site(all_sites_spec(), records@[i].fast_sequences@[k].touched@[m]@).unwrap(), HookPhase::Before),
        )) by {
            law_replay_observes_every_crossing(records@, i);
        }
    }
    harness
}


/// No two of `entries` stand at one site and phase.
pub open spec fn one_per_coordinate(entries: Seq<RegistryEntry>) -> bool {
    forall|i: int, j: int| 0 <= i < j < entries.len() ==> !((#[trigger] entries[i]).site == (#[trigger] entries[j]).site
        && entries[i].phase == entries[j].phase)
}

/// The registry holds one entry per site and phase: an insertion the
/// registry accepts, of an entry at a coordinate it does not hold, keeps it so.
pub proof fn law_insert_keeps_one_entry_per_coordinate(entries: Seq<RegistryEntry>, entry: RegistryEntry)
    requires
        one_per_coordinate(entries),
        !holds(entries, entry.site, entry.phase),
    ensures
        one_per_coordinate(entries.push(entry)),
{
    let pushed = entries.push(entry);
    assert forall|i: int, j: int| 0 <= i < j < pushed.len() implies !((#[trigger] pushed[i]).site == (#[trigger] pushed[j]).site
        && pushed[i].phase == pushed[j].phase) by {
        if j == entries.len() {
            assert(pushed[i] == entries[i]);
            if entries[i].site == entry.site && entries[i].phase == entry.phase {
                assert(holds(entries, entry.site, entry.phase));
            }
        } else {
            assert(pushed[i] == entries[i] && pushed[j] == entries[j]);
        }
    }
}

/// Emptying the histograms twice is emptying them once: the pinned
/// document is compared without them, however often they were cleared.
pub proof fn law_clearing_histograms_is_idempotent(entry: RegistryEntry)
    ensures
        without_histogram_spec(without_histogram_spec(entry)) == without_histogram_spec(entry),
{
}

/// Replaying records one batch after another rebuilds the harness that
/// replaying them all at once does: the replay of `a + b` is the replay of
/// `a` followed by that of `b`.
pub proof fn law_replay_concatenates(a: Seq<ObservationRecord>, b: Seq<ObservationRecord>)
    ensures
        harness_trace(a + b) == harness_trace(a) + harness_trace(b),
        harness_sequences(a + b) == harness_sequences(a) + harness_sequences(b),
    decreases b.len(),
{
    if b.len() == 0 {
        assert(a + b =~= a);
        assert(harness_trace(b) =~= Seq::<(EffectSiteId, HookPhase)>::empty());
        assert(harness_sequences(b) =~= Seq::<Seq<char>>::empty());
        assert(harness_trace(a) + harness_trace(b) =~= harness_trace(a));
        assert(harness_sequences(a) + harness_sequences(b) =~= harness_sequences(a));
    } else {
        law_replay_concatenates(a, b.drop_last());
        assert((a + b).drop_last() =~= a + b.drop_last());
        assert((a + b).last() == b.last());
        assert(harness_trace(a + b) =~= harness_trace(a) + harness_trace(b));
        assert(harness_sequences(a + b) =~= harness_sequences(a) + harness_sequences(b));
    }
}

proof fn lemma_contains_concat(a: Seq<(EffectSiteId, HookPhase)>, b: Seq<(EffectSiteId, HookPhase)>, x: (EffectSiteId, HookPhase))
    ensures
        a.contains(x) ==> (a + b).contains(x),
        b.contains(x) ==> (a + b).contains(x),
{
    if a.contains(x) {
        let k = choose|k: int| 0 <= k < a.len() && a[k] == x;
        assert((a + b)[k] == x);
    }
    if b.contains(x) {
        let k = choose|k: int| 0 <= k < b.len() && b[k] == x;
        assert((a + b)[a.len() + k] == x);
    }
}

proof fn lemma_reached_in(seen: Seq<Seen>, j: int)
    requires
        0 <= j < seen.len(),
        seen[j].phase is Point,
    ensures
        reached_trace(seen).contains((seen[j].site, seen[j].phase)),
    decreases seen.len(),
{
    let x = (seen[j].site, seen[j].phase);
    let tail = if seen.last().phase is Point {
        seq![(seen.last().site, seen.last().phase)]
    } else {
        Seq::empty()
    };
    if j == seen.len() - 1 {
        assert(tail[0] == x);
    } else {
        assert(seen.drop_last()[j] == seen[j]);
        lemma_reached_in(seen.drop_last(), j);
    }
    lemma_contains_concat(reached_trace(seen.drop_last()), tail, x);
}

proof fn lemma_observed_in(seen: Seq<Seen>, j: int)
    requires
        0 <= j < seen.len(),
        phase_admitted(seen[j].phase),
    ensures
        observed_trace(seen).contains((seen[j].site, seen[j].phase)),
    decreases seen.len(),
{
    let x = (seen[j].site, seen[j].phase);
    let tail = if phase_admitted(seen.last().phase) {
        seq![(seen.last().site, seen.last().phase)]
    } else {
        Seq::empty()
    };
    if j == seen.len() - 1 {
        assert(tail[0] == x);
    } else {
        assert(seen.drop_last()[j] == seen[j]);
        lemma_observed_in(seen.drop_last(), j);
    }
    lemma_contains_concat(observed_trace(seen.drop_last()), tail, x);
}

proof fn lemma_touched_in(names: Seq<String>, m: int, site: EffectSiteId)
    requires
        0 <= m < names.len(),
        find_site(all_sites_spec(), names[m]@) == Some(site),
    ensures
        touched_trace(names).contains((site, HookPhase::Before)),
    decreases names.len(),
{
    let tail = match find_site(all_sites_spec(), names.last()@) {
        Some(s) => seq![(s, HookPhase::Before)],
        None => Seq::empty(),
    };
    if m == names.len() - 1 {
        assert(tail[0] == (site, HookPhase::Before));
    } else {
        assert(names.drop_last()[m] == names[m]);
        lemma_touched_in(names.drop_last(), m, site);
    }
    lemma_contains_concat(touched_trace(names.drop_last()), tail, (site, HookPhase::Before));
}

proof fn lemma_sequence_in(runs: Seq<FastSequence>, k: int, x: (EffectSiteId, HookPhase))
    requires
        0 <= k < runs.len(),
        touched_trace(runs[k].touched@).contains(x),
    ensures
        sequences_trace(runs).contains(x),
    decreases runs.len(),
{
    if k < runs.len() - 1 {
        assert(runs.drop_last()[k] == runs[k]);
        lemma_sequence_in(runs.drop_last(), k, x);
    }
    lemma_contains_concat(sequences_trace(runs.drop_last()), touched_trace(runs.last().touched@), x);
}

proof fn lemma_record_in(records: Seq<ObservationRecord>, i: int, x: (EffectSiteId, HookPhase))
    requires
        0 <= i < records.len(),
        record_trace(records[i]).contains(x),
    ensures
        harness_trace(records).contains(x),
    decreases records.len(),
{
    if i < records.len() - 1 {
        assert(records.drop_last()[i] == records[i]);
        lemma_record_in(records.drop_last(), i, x);
    }
    lemma_contains_concat(harness_trace(records.drop_last()), record_trace(records.last()), x);
}

/// Replaying the records observes every crossing they hold: each injection
/// point a test reached, each crossing it observed at a phase a hook can be
/// armed at, and an entry into each site a fast sequence touched, stands in
/// the rebuilt trace.
pub proof fn law_replay_observes_every_crossing(records: Seq<ObservationRecord>, i: int)
    requires
        0 <= i < records.len(),
    ensures
        forall|j: int| 0 <= j < records[i].reached@.len() && (#[trigger] records[i].reached@[j]).phase is Point
            ==> harness_trace(records).contains((records[i].reached@[j].site, records[i].reached@[j].phase)),
        forall|j: int| 0 <= j < records[i].observed@.len() && phase_admitted((#[trigger] records[i].observed@[j]).phase)
            ==> harness_trace(records).contains((records[i].observed@[j].site, records[i].observed@[j].phase)),
        forall|k: int, m: int| 0 <= k < records[i].fast_sequences@.len() && 0 <= m < records[i].fast_sequences@[k].touched@.len()
            && find_site(all_sites_spec(), (#[trigger] records[i].fast_sequences@[k].touched@[m])@) is Some
            ==> harness_trace(records).contains((find_site(all_sites_spec(), records[i].fast_sequences@[k].touched@[m]@).unwrap(), HookPhase::Before)),
{
    let r = records[i];
    let a = reached_trace(r.reached@);
    let b = observed_trace(r.observed@);
    let c = sequences_trace(r.fast_sequences@);
    assert(record_trace(r) == (a + b) + c);
    assert forall|j: int| 0 <= j < r.reached@.len() && (#[trigger] r.reached@[j]).phase is Point implies harness_trace(
        records,
    ).contains((r.reached@[j].site, r.reached@[j].phase)) by {
        let x = (r.reached@[j].site, r.reached@[j].phase);
        lemma_reached_in(r.reached@, j);
        lemma_contains_concat(a, b, x);
        lemma_contains_concat(a + b, c, x);
        lemma_record_in(records, i, x);
    }
    assert forall|j: int| 0 <= j < r.observed@.len() && phase_admitted((#[trigger] r.observed@[j]).phase) implies harness_trace(
        records,
    ).contains((r.observed@[j].site, r.observed@[j].phase)) by {
        let x = (r.observed@[j].site, r.observed@[j].phase);
        lemma_observed_in(r.observed@, j);
        lemma_contains_concat(a, b, x);
        lemma_contains_concat(a + b, c, x);
        lemma_record_in(records, i, x);
    }
    assert forall|k: int, m: int| 0 <= k < r.fast_sequences@.len() && 0 <= m < r.fast_sequences@[k].touched@.len()
        && find_site(all_sites_spec(), (#[trigger] r.fast_sequences@[k].touched@[m])@) is Some implies harness_trace(
        records,
    ).contains((find_site(all_sites_spec(), r.fast_sequences@[k].touched@[m]@).unwrap(), HookPhase::Before)) by {
        let site = find_site(all_sites_spec(), r.fast_sequences@[k].touched@[m]@).unwrap();
        let x = (site, HookPhase::Before);
        lemma_touched_in(r.fast_sequences@[k].touched@, m, site);
        lemma_sequence_in(r.fast_sequences@, k, x);
        lemma_contains_concat(a + b, c, x);
        lemma_record_in(records, i, x);
    }
}


/// The site entry the JSON text `item` gives: its `site` where that is a
/// string, and its `sampling_n` where that is an integer that fits in a `u64`.
pub open spec fn site_entry_spec(item: Seq<char>) -> (Option<Seq<char>>, Option<u64>) {
    (
        match member_of_spec(item, "site"@) {
            Some(t) => match json_node(t) {
                Ok(NodeView::Text(s)) => Some(s),
                _ => None,
            },
            None => None,
        },
        match member_of_spec(item, "sampling_n"@) {
            Some(t) => match json_node(t) {
                Ok(NodeView::Number(u)) => u,
                _ => None,
            },
            None => None,
        },
    )
}

/// What the residue declarations `text` hold: the entries of its `sites`
/// array, where it has one, or why it is no JSON.
pub open spec fn declarations_spec(text: Seq<char>) -> Result<Option<Seq<(Option<Seq<char>>, Option<u64>)>>, Seq<char>> {
    match json_node(text) {
        Err(e) => Err(e),
        Ok(_) => match member_of_spec(text, "sites"@) {
            Some(t) => match json_node(t) {
                Ok(NodeView::Array(items)) => Ok(Some(items.map_values(|it: Seq<char>| site_entry_spec(it)))),
                _ => Ok(None),
            },
            None => Ok(None),
        },
    }
}

fn site_entry(item: &str) -> (d: DeclaredN)
    ensures
        declared_view(d) == site_entry_spec(item@),
{
    let site = match member_of(item, "site") {
        Some(t) => match parse_json(t.as_str()) {
            Ok(JsonNode::Text(s)) => Some(s),
            _ => None,
        },
        None => None,
    };
    let sampling_n = match member_of(item, "sampling_n") {
        Some(t) => match parse_json(t.as_str()) {
            Ok(JsonNode::Number(u)) => u,
            _ => None,
        },
        None => None,
    };
    DeclaredN { site, sampling_n }
}

/// Reads the residue declarations: the entries of the document's `sites`
/// array, where it has one, or why it is no JSON.
pub fn read_declarations(json: &str) -> (r: Result<Option<Vec<DeclaredN>>, String>)
    ensures
        parsed_view(r) == declarations_spec(json@),
{
    let sites = match parse_json(json) {
        Err(e) => {
            return Err(e);
        },
        Ok(JsonNode::Object(members)) => find_member(&members, "sites"),
        Ok(_) => None,
    };
    let text = match sites {
        None => {
            return Ok(None);
        },
        Some(t) => t,
    };
    let items = match parse_json(text.as_str()) {
        Ok(JsonNode::Array(items)) => items,
        _ => {
            return Ok(None);
        },
    };
    let ghost texts = items@.map_values(|t: String| t@);
    let mut declared: Vec<DeclaredN> = Vec::new();
    let n = items.len();
    let mut i: usize = 0;
    while i < n
        invariant
            n == items@.len(),
            i <= n,
            texts == items@.map_values(|t: String| t@),
            declared@.map_values(|d: DeclaredN| declared_view(d)) == texts.take(i as int).map_values(|it: Seq<char>| site_entry_spec(it)),
        decreases n - i,
    {
        let d = site_entry(items[i].as_str());
        let ghost before = declared@;
        declared.push(d);
        proof {
            assert(declared@.map_values(|d: DeclaredN| declared_view(d)) =~= before.map_values(|d: DeclaredN| declared_view(d)).push(
                declared_view(d),
            ));
            assert(texts.take(i + 1) =~= texts.take(i as int).push(texts[i as int]));
            assert(texts.take(i + 1).map_values(|it: Seq<char>| site_entry_spec(it)) =~= texts.take(i as int).map_values(
                |it: Seq<char>| site_entry_spec(it),
            ).push(site_entry_spec(texts[i as int])));
        }
        i = i + 1;
    }
    proof {
        assert(texts.take(n as int) =~= texts);
    }
    Ok(Some(declared))
}

/// The sampling N the residue declarations `declarations` freeze for
/// `site`: that of the first entry of their `sites` naming it, where it has
/// one and it fits a `u32`.
pub fn frozen_sampling_n(declarations: &str, site: EffectSiteId) -> (r: Result<Option<u32>, String>)
    ensures
        frozen_view(r) == frozen_spec(declarations_spec(declarations@), site),
{
    frozen_n_in(&read_declarations(declarations), site)
}

/// Every recovery-proven entry of `entries` whose sampling N is not the one
/// the residue declarations `declarations` freeze for its site, said.
pub fn check_frozen_n(entries: &Vec<RegistryEntry>, declarations: &str) -> (problems: Vec<String>)
    ensures
        views(problems@) == frozen_problems(entries@, declarations_spec(declarations@)),
{
    check_frozen_n_in(entries, &read_declarations(declarations))
}

/// The last of `seen` at `site` and `phase`.
pub open spec fn coordinate_index(seen: Seq<Seen>, site: EffectSiteId, phase: HookPhase) -> Option<int>
    decreases seen.len(),
{
    if seen.len() == 0 {
        None
    } else if seen.last().site == site && seen.last().phase == phase {
        Some(seen.len() - 1)
    } else {
        coordinate_index(seen.drop_last(), site, phase)
    }
}

/// `seen` with `one` merged in: where `seen` holds its coordinate, that
/// crossing takes the larger count; otherwise `one` is added.
pub open spec fn merge_one(seen: Seq<Seen>, one: Seen) -> Seq<Seen> {
    match coordinate_index(seen, one.site, one.phase) {
        Some(i) => seen.update(i, Seen { count: if one.count > seen[i].count { one.count } else { seen[i].count }, ..seen[i] }),
        None => seen.push(one),
    }
}

/// `seen` with each of `more` merged in, in order.
pub open spec fn merge_seen(seen: Seq<Seen>, more: Seq<Seen>) -> Seq<Seen>
    decreases more.len(),
{
    if more.len() == 0 {
        seen
    } else {
        merge_seen(merge_one(seen, more[0]), more.drop_first())
    }
}

/// The last of `runs` named `name`.
pub open spec fn run_index(runs: Seq<FastSequence>, name: Seq<char>) -> Option<int>
    decreases runs.len(),
{
    if runs.len() == 0 {
        None
    } else if runs.last().name@ == name {
        Some(runs.len() - 1)
    } else {
        run_index(runs.drop_last(), name)
    }
}

/// `runs` with `one` merged in: where `runs` holds a sequence of its name,
/// the one that touched more sites stands; otherwise `one` is added.
pub open spec fn merge_run(runs: Seq<FastSequence>, one: FastSequence) -> Seq<FastSequence> {
    match run_index(runs, one.name@) {
        Some(i) => if one.touched.len() > runs[i].touched.len() {
            runs.update(i, one)
        } else {
            runs
        },
        None => runs.push(one),
    }
}

pub open spec fn merge_runs(runs: Seq<FastSequence>, more: Seq<FastSequence>) -> Seq<FastSequence>
    decreases more.len(),
{
    if more.len() == 0 {
        runs
    } else {
        merge_runs(merge_run(runs, more[0]), more.drop_first())
    }
}

proof fn lemma_coordinate_index(seen: Seq<Seen>, site: EffectSiteId, phase: HookPhase)
    ensures
        coordinate_index(seen, site, phase) matches Some(i) ==> 0 <= i < seen.len() && seen[i].site == site && seen[i].phase == phase,
    decreases seen.len(),
{
    if seen.len() > 0 {
        lemma_coordinate_index(seen.drop_last(), site, phase);
    }
}

proof fn lemma_run_index(runs: Seq<FastSequence>, name: Seq<char>)
    ensures
        run_index(runs, name) matches Some(i) ==> 0 <= i < runs.len() && runs[i].name@ == name,
    decreases runs.len(),
{
    if runs.len() > 0 {
        lemma_run_index(runs.drop_last(), name);
    }
}

fn find_coordinate(seen: &Vec<Seen>, site: EffectSiteId, phase: HookPhase) -> (r: Option<usize>)
    ensures
        r matches Some(i) ==> coordinate_index(seen@, site, phase) == Some(i as int),
        r is None ==> coordinate_index(seen@, site, phase) is None,
{
    let mut i = seen.len();
    proof {
        assert(seen@.take(i as int) =~= seen@);
    }
    while i > 0
        invariant
            i <= seen@.len(),
            coordinate_index(seen@, site, phase) == coordinate_index(seen@.take(i as int), site, phase),
        decreases i,
    {
        proof {
            assert(seen@.take(i as int).drop_last() =~= seen@.take(i - 1));
        }
        if seen[i - 1].site == site && seen[i - 1].phase == phase {
            return Some(i - 1);
        }
        i = i - 1;
    }
    None
}

fn merge_crossings(seen: &mut Vec<Seen>, more: &Vec<Seen>)
    ensures
        final(seen)@ == merge_seen(old(seen)@, more@),
{
    let ghost start = seen@;
    let n = more.len();
    let mut k: usize = 0;
    proof {
        assert(more@.subrange(0, n as int) =~= more@);
    }
    while k < n
        invariant
            n == more@.len(),
            k <= n,
            merge_seen(start, more@) == merge_seen(seen@, more@.subrange(k as int, n as int)),
        decreases n - k,
    {
        proof {
            assert(more@.subrange(k as int, n as int).drop_first() =~= more@.subrange(k + 1, n as int));
            assert(more@.subrange(k as int, n as int)[0] == more@[k as int]);
        }
        let one = more[k];
        let ghost before = seen@;
        proof {
            lemma_coordinate_index(before, one.site, one.phase);
        }
        match find_coordinate(seen, one.site, one.phase) {
            Some(i) => {
                let held = seen[i];
                let count = if one.count > held.count { one.count } else { held.count };
                seen.set(i, Seen { site: held.site, phase: held.phase, count });
                assert(seen@ =~= merge_one(before, one));
            },
            None => {
                seen.push(one);
            },
        }
        k = k + 1;
    }
    proof {
        assert(more@.subrange(n as int, n as int) =~= Seq::<Seen>::empty());
    }
}

fn find_run(runs: &Vec<FastSequence>, name: &str) -> (r: Option<usize>)
    ensures
        r matches Some(i) ==> run_index(runs@, name@) == Some(i as int),
        r is None ==> run_index(runs@, name@) is None,
{
    let mut i = runs.len();
    proof {
        assert(runs@.take(i as int) =~= runs@);
    }
    while i > 0
        invariant
            i <= runs@.len(),
            run_index(runs@, name@) == run_index(runs@.take(i as int), name@),
        decreases i,
    {
        proof {
            assert(runs@.take(i as int).drop_last() =~= runs@.take(i - 1));
        }
        if crate::text::same_text(runs[i - 1].name.as_str(), name) {
            return Some(i - 1);
        }
        i = i - 1;
    }
    None
}

impl ObservationRecord {
    /// Merges `other`, the same test's record from another process, into
    /// this one: each crossing takes the larger count, each fast sequence
    /// the run that touched more sites, and what only `other` holds is added.
    pub fn merge(&mut self, other: ObservationRecord)
        ensures
            final(self).test == old(self).test,
            final(self).reached@ == merge_seen(old(self).reached@, other.reached@),
            final(self).observed@ == merge_seen(old(self).observed@, other.observed@),
            final(self).fast_sequences@ == merge_runs(old(self).fast_sequences@, other.fast_sequences@),
    {
        merge_crossings(&mut self.reached, &other.reached);
        merge_crossings(&mut self.observed, &other.observed);
        let ObservationRecord { fast_sequences: more, .. } = other;
        let ghost start = self.fast_sequences@;
        let ghost all = more@;
        let mut more = more;
        let ghost mut taken: Seq<FastSequence> = Seq::empty();
        proof {
            assert(all =~= taken + more@);
        }
        while more.len() > 0
            invariant
                all == taken + more@,
                merge_runs(start, all) == merge_runs(self.fast_sequences@, more@),
                self.test == old(self).test,
                self.reached@ == merge_seen(old(self).reached@, other.reached@),
                self.observed@ == merge_seen(old(self).observed@, other.observed@),
            decreases more.len(),
        {
            let ghost m0 = more@;
            let one = more.remove(0);
            let ghost before = self.fast_sequences@;
            proof {
                assert(m0.drop_first() =~= more@);
                assert(m0[0] == one);
                assert(all =~= taken.push(one) + more@);
                taken = taken.push(one);
                lemma_run_index(before, one.name@);
            }
            match find_run(&self.fast_sequences, one.name.as_str()) {
                Some(i) => {
                    if one.touched.len() > self.fast_sequences[i].touched.len() {
                        self.fast_sequences.set(i, one);
                    }
                },
                None => {
                    self.fast_sequences.push(one);
                },
            }
            assert(self.fast_sequences@ =~= merge_run(before, m0[0]));
        }
        assert(more@ =~= Seq::<FastSequence>::empty());
    }
}

} // verus!
