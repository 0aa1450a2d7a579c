use upstroke::coverage::{
    check_frozen_n, frozen_sampling_n, harness_from, is_funnel_execution, registry, registry_document, registry_of,
    required_phases, without_histograms, Claim, ClassHistogram, EntryPhase, Evidence, EvidenceLabel, ExpectedResidue,
    FastSequence, FaultRegistry, Host, ObservationRecord, Platform, RegistryEntry, ResidueClass, ResidueEvidence,
    SamplingRecord, Seen, SiteSemantics, SubEffect, SyntheticRecord, FAST_PATH_TEST, FAST_SEQUENCES, REGISTRY_NOTE,
    DeclaredSite, HistogramSite, SyntheticSite,
};
use upstroke::effects::{
    all_sites, point_modes, EffectSiteId, EventSite, HookPhase, Hooks, InjectionMode, ObjectSite, RefSite, SubEffectPoint,
    WorktreeSite,
};

const VERIFY: EffectSiteId = EffectSiteId::Worktree(WorktreeSite::Verify);
const STAGE: EffectSiteId = EffectSiteId::Object(ObjectSite::CandidateStage);
const PIN: EffectSiteId = EffectSiteId::Ref(RefSite::PinCandidatePrepared);
const APPEND: EffectSiteId = EffectSiteId::Event(EventSite::Append);

fn semantics(site: EffectSiteId, sub_effects: Vec<SubEffect>, residue_classes: Vec<ResidueClass>, skipped: bool) -> SiteSemantics {
    SiteSemantics {
        site,
        sub_effects,
        residue_classes,
        order: Some(3),
        fault_row: "F-7".to_owned(),
        rows: vec!["row one".to_owned()],
        detail: "nothing is left".to_owned(),
        action: "resume re-runs it".to_owned(),
        skipped_on_fast_path: skipped,
    }
}

fn claim(site: EffectSiteId, phase: EntryPhase, test: &str) -> Claim {
    Claim { site, phase, test: test.to_owned() }
}

fn sampling(n: u32) -> SamplingRecord {
    SamplingRecord { n, histogram: ClassHistogram { nothing: 3, internal: 2, after_effect: 1 }, unclassified: 0, recovered: true }
}

fn recovery_entry(site: EffectSiteId, n: u32) -> RegistryEntry {
    RegistryEntry {
        site,
        phase: EntryPhase::Residue { class: ResidueClass::Internal },
        order: None,
        fault_row: String::new(),
        expected_residue: ExpectedResidue { rows: Vec::new(), detail: String::new() },
        resume_action: String::new(),
        label: EvidenceLabel::RecoveryProven,
        evidence: Evidence::RecoveryProven { synthetic: Vec::new(), sampling: sampling(n) },
    }
}

#[test]
fn every_site_has_a_name_that_finds_it_again() {
    let sites = all_sites();
    assert_eq!(sites.len(), 27);
    for site in &sites {
        assert_eq!(EffectSiteId::from_name(&site.name()), Ok(*site));
    }
    assert_eq!(VERIFY.name(), "Worktree.Verify");
    assert_eq!(APPEND.name(), "Event.Append");
    assert_eq!(EffectSiteId::from_name("Worktree.Nowhere"), Err("`Worktree.Nowhere` names no effect site".to_owned()));
}

#[test]
fn a_written_point_admits_both_modes_and_an_unread_id_only_a_kill() {
    assert_eq!(point_modes(SubEffectPoint::Written), vec![InjectionMode::ErrorReturn, InjectionMode::Kill]);
    assert_eq!(point_modes(SubEffectPoint::IdUnread), vec![InjectionMode::Kill]);
}

#[test]
fn an_armed_site_refuses_its_next_entry_once() {
    let mut hooks = Hooks::new();
    hooks.arm(STAGE);
    hooks.enter(VERIFY).expect("an unarmed site enters");
    let error = hooks.enter(STAGE).expect_err("the armed site refuses");
    assert_eq!(error.message(), "an error was injected before `Object.CandidateStage`");
    hooks.enter(STAGE).expect("the injection fired once and disarmed");
    hooks.leave(STAGE);
    assert!(hooks.observed(STAGE, HookPhase::Before));
    assert!(hooks.observed(STAGE, HookPhase::After));
    assert!(!hooks.observed(VERIFY, HookPhase::After));
    assert_eq!(hooks.trace.len(), 4);
}

#[test]
fn required_phases_are_before_after_then_each_point_in_each_mode_on_its_host() {
    let site = semantics(
        STAGE,
        vec![
            SubEffect { point: SubEffectPoint::Written, platform: Platform::Every },
            SubEffect { point: SubEffectPoint::IdUnread, platform: Platform::UnixOnly },
        ],
        Vec::new(),
        false,
    );
    let written = |mode| EntryPhase::Point { point: SubEffectPoint::Written, mode };
    let unread = EntryPhase::Point { point: SubEffectPoint::IdUnread, mode: InjectionMode::Kill };
    assert_eq!(
        required_phases(&site, Host::Unix),
        vec![EntryPhase::Before, EntryPhase::After, written(InjectionMode::ErrorReturn), written(InjectionMode::Kill), unread]
    );
    assert_eq!(
        required_phases(&site, Host::Windows),
        vec![EntryPhase::Before, EntryPhase::After, written(InjectionMode::ErrorReturn), written(InjectionMode::Kill)]
    );
    assert_eq!(Host::Unix.name(), "unix");
    assert!(Platform::WindowsOnly.required_on(Host::Windows));
    assert!(!Platform::WindowsOnly.required_on(Host::Unix));
}

#[test]
fn a_claim_is_executed_at_its_hook_phase_and_residue_has_none() {
    assert_eq!(claim(VERIFY, EntryPhase::Before, "t").hook_phase(), Some(HookPhase::Before));
    let point = EntryPhase::Point { point: SubEffectPoint::Written, mode: InjectionMode::Kill };
    assert_eq!(
        claim(VERIFY, point, "t").hook_phase(),
        Some(HookPhase::Point { point: SubEffectPoint::Written, mode: InjectionMode::Kill })
    );
    assert_eq!(claim(VERIFY, EntryPhase::Residue { class: ResidueClass::Nothing }, "t").hook_phase(), None);
    assert_eq!(claim(VERIFY, EntryPhase::NoExecution, "t").hook_phase(), None);
}

#[test]
fn adapter_unit_tests_are_not_funnel_executions() {
    assert!(!is_funnel_execution("runner::tests::spawns"));
    assert!(!is_funnel_execution("workspace_manager::hooks::tests::adds"));
    assert!(!is_funnel_execution("engine::topology::seams::tests::x"));
    assert!(is_funnel_execution("engine::topology::attempt::tests::a_retry"));
    assert!(is_funnel_execution(""));
}

#[test]
fn the_registry_refuses_a_second_entry_at_one_coordinate() {
    let mut registry = FaultRegistry::new();
    registry.insert(recovery_entry(STAGE, 1)).expect("the first entry at the coordinate");
    registry.insert(recovery_entry(PIN, 1)).expect("another site");
    let error = registry.insert(recovery_entry(STAGE, 2)).expect_err("the coordinate is held");
    assert_eq!(error.message, "the registry already holds an entry for `Object.CandidateStage` at that phase");
    assert_eq!(registry.entries().len(), 2);
}

#[test]
fn claims_become_observed_entries_carrying_their_sites_semantics() {
    let catalog = vec![semantics(VERIFY, Vec::new(), Vec::new(), false)];
    let claims = vec![claim(VERIFY, EntryPhase::Before, "engine::a"), claim(VERIFY, EntryPhase::After, "engine::b")];
    let registry = registry_of(&claims, &catalog).expect("each claim registers");
    let entries = registry.entries();
    assert_eq!(entries.len(), 2);
    assert_eq!(entries[1].phase, EntryPhase::After);
    assert_eq!(entries[1].label, EvidenceLabel::ExecutionObserved);
    assert_eq!(entries[1].fault_row, "F-7");
    assert_eq!(entries[1].resume_action, "resume re-runs it");
    assert_eq!(entries[1].evidence, Evidence::Executed { test: "engine::b".to_owned(), passed: true });
    let twice = vec![claim(VERIFY, EntryPhase::Before, "engine::a"), claim(VERIFY, EntryPhase::Before, "engine::c")];
    assert!(registry_of(&twice, &catalog).is_err());
    let uncatalogued = vec![claim(APPEND, EntryPhase::Before, "engine::a")];
    let error = registry_of(&uncatalogued, &catalog).expect_err("no semantics");
    assert_eq!(error.message, "`Event.Append` has no semantics in the site catalog");
}

#[test]
fn residue_classes_need_both_kinds_of_evidence() {
    let catalog = vec![
        semantics(STAGE, Vec::new(), vec![ResidueClass::Nothing, ResidueClass::AfterEffect], false),
        semantics(PIN, Vec::new(), Vec::new(), true),
    ];
    let claims = vec![claim(STAGE, EntryPhase::Before, "engine::a")];
    let mut evidence = ResidueEvidence::new();
    assert_eq!(registry(&claims, &catalog, &evidence).expect_err("no evidence"), "`Object.CandidateStage` has no synthetic evidence");
    evidence.synthetic.push((STAGE, vec![SyntheticRecord { class: ResidueClass::Nothing, recovered: true }]));
    assert_eq!(registry(&claims, &catalog, &evidence).expect_err("no sampling"), "`Object.CandidateStage` has no sampling record");
    evidence.sampling.push((STAGE, sampling(40)));
    let built = registry(&claims, &catalog, &evidence).expect("evidenced");
    let entries = built.entries();
    assert_eq!(entries.len(), 1 + 2 + 1);
    assert_eq!(entries[1].phase, EntryPhase::Residue { class: ResidueClass::Nothing });
    assert_eq!(entries[2].phase, EntryPhase::Residue { class: ResidueClass::AfterEffect });
    assert_eq!(entries[2].label, EvidenceLabel::RecoveryProven);
    assert_eq!(entries[3].site, PIN);
    assert_eq!(entries[3].phase, EntryPhase::NoExecution);
    match &entries[3].evidence {
        Evidence::NotExecuted { test, passed, sequences } => {
            assert_eq!(test, FAST_PATH_TEST);
            assert!(*passed);
            assert_eq!(sequences, &vec![FAST_SEQUENCES[0].to_owned(), FAST_SEQUENCES[1].to_owned()]);
        },
        other => panic!("a skipped site is not executed, not {other:?}"),
    }
}

#[test]
fn the_document_ranges_over_the_catalog_and_clears_its_histograms() {
    let catalog = vec![semantics(STAGE, Vec::new(), vec![ResidueClass::Internal], false), semantics(VERIFY, Vec::new(), Vec::new(), false)];
    let claims = vec![claim(VERIFY, EntryPhase::Before, "engine::a")];
    let mut evidence = ResidueEvidence::new();
    evidence.synthetic.push((STAGE, Vec::new()));
    evidence.sampling.push((STAGE, sampling(12)));
    let document = registry_document(&claims, &catalog, &evidence).expect("evidenced");
    assert_eq!(document.note, REGISTRY_NOTE);
    assert_eq!(document.range, vec!["Object.CandidateStage".to_owned(), "Worktree.Verify".to_owned()]);
    assert_eq!(document.hosts, vec!["unix".to_owned(), "windows".to_owned()]);
    assert_eq!(document.entries.len(), 2);
    let cleared = without_histograms(document.clone());
    let again = without_histograms(cleared.clone());
    assert_eq!(cleared, again);
    assert_eq!(cleared.entries[0], document.entries[0]);
    match &cleared.entries[1].evidence {
        Evidence::RecoveryProven { sampling: record, .. } => {
            assert_eq!(record.histogram, ClassHistogram { nothing: 0, internal: 0, after_effect: 0 });
            assert_eq!(record.n, 12);
            assert!(record.recovered);
        },
        other => panic!("a residue entry is recovery-proven, not {other:?}"),
    }
}

#[test]
fn a_recovery_proven_n_is_held_to_the_first_declaration_of_its_site() {
    let declarations = r#"{"sites": [
        {"site": "Object.CandidateStage", "sampling_n": 40},
        {"site": "Object.CandidateStage", "sampling_n": 99},
        {"site": "Ref.PinCandidatePrepared", "sampling_n": 1099511627776},
        {"site": "Worktree.Remove"},
        {"sampling_n": 3}
    ]}"#;
    assert_eq!(frozen_sampling_n(declarations, STAGE), Ok(Some(40)));
    assert_eq!(frozen_sampling_n(declarations, VERIFY), Ok(None));
    assert_eq!(
        frozen_sampling_n(declarations, PIN),
        Err("`Ref.PinCandidatePrepared`'s `sampling_n` does not fit".to_owned())
    );
    assert_eq!(
        frozen_sampling_n(declarations, EffectSiteId::Worktree(WorktreeSite::Remove)),
        Err("`Worktree.Remove` declares no `sampling_n`".to_owned())
    );
    let entries = vec![recovery_entry(STAGE, 40), recovery_entry(STAGE, 41), recovery_entry(VERIFY, 5), recovery_entry(PIN, 1)];
    assert_eq!(
        check_frozen_n(&entries, declarations),
        vec![
            "`Object.CandidateStage`'s recovery-proven entry cites n = 41, and the declarations freeze 40".to_owned(),
            "`Worktree.Verify` carries a recovery-proven entry and the declarations freeze no N for it".to_owned(),
            "`Ref.PinCandidatePrepared`'s `sampling_n` does not fit".to_owned(),
        ]
    );
    assert!(check_frozen_n(&vec![recovery_entry(STAGE, 40)], declarations).is_empty());
}

#[test]
fn declarations_without_sites_or_that_do_not_parse_are_refused() {
    assert_eq!(
        frozen_sampling_n(r#"{"classes": []}"#, STAGE),
        Err("the residue declarations carry no `sites`".to_owned())
    );
    assert_eq!(
        frozen_sampling_n(r#"{"sites": {}}"#, STAGE),
        Err("the residue declarations carry no `sites`".to_owned())
    );
    let broken = frozen_sampling_n("{", STAGE).expect_err("not JSON");
    assert!(broken.starts_with("the residue declarations do not parse: "), "{broken}");
    let problems = check_frozen_n(&vec![recovery_entry(STAGE, 1), recovery_entry(PIN, 2)], "[");
    assert_eq!(problems.len(), 2);
    assert!(problems.iter().all(|p| p.starts_with("the residue declarations do not parse: ")));
    assert!(check_frozen_n(&Vec::new(), "[").is_empty());
}

#[test]
fn evidence_resolves_site_names_and_refuses_a_site_sampled_twice() {
    let planted = vec![SyntheticSite {
        site: "Object.CandidateStage".to_owned(),
        synthetic: vec![SyntheticRecord { class: ResidueClass::Internal, recovered: true }],
    }];
    let histogram = |site: &str, n: u32| HistogramSite {
        site: site.to_owned(),
        n,
        none: 1,
        internal: 2,
        after: 3,
        unclassified: 0,
        recovered: true,
    };
    let evidence = ResidueEvidence::parse(
        &planted,
        &vec![vec![histogram("Object.CandidateStage", 6)], vec![histogram("Ref.PinCandidatePrepared", 9)]],
    )
    .expect("every name is a site");
    assert_eq!(evidence.synthetic, vec![(STAGE, vec![SyntheticRecord { class: ResidueClass::Internal, recovered: true }])]);
    assert_eq!(
        evidence.sampling,
        vec![
            (STAGE, SamplingRecord { n: 6, histogram: ClassHistogram { nothing: 1, internal: 2, after_effect: 3 }, unclassified: 0, recovered: true }),
            (PIN, SamplingRecord { n: 9, histogram: ClassHistogram { nothing: 1, internal: 2, after_effect: 3 }, unclassified: 0, recovered: true }),
        ]
    );
    let twice = ResidueEvidence::parse(&planted, &vec![vec![histogram("Object.CandidateStage", 6)], vec![histogram("Object.CandidateStage", 7)]]);
    assert_eq!(twice, Err("`Object.CandidateStage` is sampled by two histograms".to_owned()));
    let unknown = ResidueEvidence::parse(&planted, &vec![vec![histogram("Object.Nowhere", 6)]]);
    assert_eq!(unknown, Err("`Object.Nowhere` names no effect site".to_owned()));
    let misplanted = vec![SyntheticSite { site: "Nowhere".to_owned(), synthetic: Vec::new() }];
    assert_eq!(ResidueEvidence::parse(&misplanted, &Vec::new()), Err("`Nowhere` names no effect site".to_owned()));

    let declared = ResidueEvidence::declared(
        &planted,
        &vec![DeclaredSite { site: "Object.CandidateStage".to_owned(), sampling_n: 8 }],
    )
    .expect("declared");
    assert_eq!(
        declared.sampling,
        vec![(STAGE, SamplingRecord { n: 8, histogram: ClassHistogram { nothing: 0, internal: 0, after_effect: 0 }, unclassified: 0, recovered: true })]
    );
    assert_eq!(
        ResidueEvidence::declared(&planted, &vec![DeclaredSite { site: "Object.Elsewhere".to_owned(), sampling_n: 8 }]),
        Err("`Object.Elsewhere` names no effect site".to_owned())
    );
}

#[test]
fn the_harness_replays_points_reached_admitted_crossings_and_fast_sequences() {
    let written_kill = HookPhase::Point { point: SubEffectPoint::Written, mode: InjectionMode::Kill };
    let unread_error = HookPhase::Point { point: SubEffectPoint::IdUnread, mode: InjectionMode::ErrorReturn };
    let first = ObservationRecord {
        test: "engine::a".to_owned(),
        reached: vec![Seen { site: STAGE, phase: HookPhase::Before, count: 1 }, Seen { site: STAGE, phase: written_kill, count: 1 }],
        observed: vec![Seen { site: VERIFY, phase: HookPhase::After, count: 1 }, Seen { site: PIN, phase: unread_error, count: 1 }],
        fast_sequences: vec![FastSequence {
            name: "s0".to_owned(),
            touched: vec!["Event.Append".to_owned(), "No.Such".to_owned()],
        }],
    };
    let second = ObservationRecord {
        test: "engine::b".to_owned(),
        reached: Vec::new(),
        observed: vec![Seen { site: PIN, phase: written_kill, count: 1 }],
        fast_sequences: Vec::new(),
    };
    let harness = harness_from(&vec![first.clone(), second.clone()]);
    assert_eq!(
        harness.trace,
        vec![(STAGE, written_kill), (VERIFY, HookPhase::After), (APPEND, HookPhase::Before), (PIN, written_kill)]
    );
    assert_eq!(harness.sequences, vec!["s0".to_owned()]);
    let one = harness_from(&vec![first]);
    let other = harness_from(&vec![second]);
    let mut joined = one.trace.clone();
    joined.extend(other.trace);
    assert_eq!(harness.trace, joined);
}

#[test]
fn records_of_one_test_merge_by_the_larger_count() {
    let written_kill = HookPhase::Point { point: SubEffectPoint::Written, mode: InjectionMode::Kill };
    let mut record = ObservationRecord {
        test: "engine::a".to_owned(),
        reached: vec![Seen { site: STAGE, phase: written_kill, count: 2 }],
        observed: vec![Seen { site: VERIFY, phase: HookPhase::Before, count: 5 }],
        fast_sequences: vec![FastSequence { name: "s0".to_owned(), touched: vec!["Event.Append".to_owned()] }],
    };
    let later = ObservationRecord {
        test: "engine::a".to_owned(),
        reached: vec![Seen { site: STAGE, phase: written_kill, count: 7 }, Seen { site: PIN, phase: written_kill, count: 1 }],
        observed: vec![Seen { site: VERIFY, phase: HookPhase::Before, count: 3 }],
        fast_sequences: vec![
            FastSequence { name: "s0".to_owned(), touched: vec!["Event.Append".to_owned(), "Ref.PinCandidatePrepared".to_owned()] },
            FastSequence { name: "exact-base-fast".to_owned(), touched: Vec::new() },
        ],
    };
    record.merge(later);
    assert_eq!(record.test, "engine::a");
    assert_eq!(
        record.reached,
        vec![Seen { site: STAGE, phase: written_kill, count: 7 }, Seen { site: PIN, phase: written_kill, count: 1 }]
    );
    assert_eq!(record.observed, vec![Seen { site: VERIFY, phase: HookPhase::Before, count: 5 }]);
    assert_eq!(record.fast_sequences.len(), 2);
    assert_eq!(record.fast_sequences[0].touched.len(), 2);
    assert_eq!(record.fast_sequences[1].name, "exact-base-fast");
}

#[test]
fn exported_records_gather_one_per_test_in_the_order_of_the_names() {
    let before = HookPhase::Before;
    let record = |test: &str, site: EffectSiteId, count: u64| ObservationRecord {
        test: test.to_owned(),
        reached: vec![Seen { site, phase: before, count }],
        observed: Vec::new(),
        fast_sequences: Vec::new(),
    };
    let gathered = upstroke::records::gather_observations(vec![
        record("engine::zeta", VERIFY, 1),
        record("engine::alpha", STAGE, 2),
        record("engine::zeta", VERIFY, 4),
        record("engine::alpha", PIN, 1),
        record("engine::alph", APPEND, 3),
    ]);
    let tests: Vec<&str> = gathered.iter().map(|r| r.test.as_str()).collect();
    assert_eq!(tests, vec!["engine::alph", "engine::alpha", "engine::zeta"]);
    assert_eq!(gathered[1].reached, vec![Seen { site: STAGE, phase: before, count: 2 }, Seen { site: PIN, phase: before, count: 1 }]);
    assert_eq!(gathered[2].reached, vec![Seen { site: VERIFY, phase: before, count: 4 }]);
    assert!(upstroke::records::text_before("engine::alph", "engine::alpha"));
    assert!(!upstroke::records::text_before("engine::b", "engine::a"));
}

#[test]
fn declarations_are_read_one_level_at_a_time_as_the_document_nests_them() {
    let declarations = r#"{"note": "frozen", "sites": [{"site": "Object.CandidateStage", "sampling_n": 7.5}, {"site": 3}, "loose"]}"#;
    assert_eq!(
        frozen_sampling_n(declarations, STAGE),
        Err("`Object.CandidateStage` declares no `sampling_n`".to_owned())
    );
    assert_eq!(frozen_sampling_n(declarations, PIN), Ok(None));
    assert_eq!(frozen_sampling_n(r#"[{"sites": []}]"#, STAGE), Err("the residue declarations carry no `sites`".to_owned()));
}
