use ono_cli::acquire::Origin;
use ono_cli::catalog::Candidate;
use ono_cli::host::{Management, RuntimeKind, SignatureState};
use ono_cli::install::{
    chosen_profile, pick_lines, read_pick, signer, install_decisions, install_question, installed_management, publisher_trust,
    read_install_answer, runtime_phrase, standing_word, unattended, unknown_native, unrelated_key,
    AccessProfile, DeltaEntry, InstallFacts, PermissionPlan, PlanDescriptor, PlanError, Unattended,
    install_gate, InstallNext, InstallRefusal, InstallState, InstallWarning,
    catalog_label, package_label, plan_decision, selected_profile, signature_summary, unattended_message,
    not_confirmed_install, refusal_message, install_summary, InstallSummary,
    install_answer_of_lowered, plan_record, refusal_report, PlanFacts, PlanPermission,
    commit_steps, undo_steps, FileStep, Placement,
};
use ono_cli::permissions::{Answer, PermissionPhase};
use ono_cli::trust::Trust;

fn descriptor(id: &str, automatic: bool, phase: PermissionPhase, safe: bool, destructive: bool) -> PlanDescriptor {
    PlanDescriptor {
        id: id.into(),
        title: format!("The {id} permission"),
        automatic,
        phase,
        safe_default: safe,
        destructive,
    }
}

fn descriptors() -> Vec<PlanDescriptor> {
    vec![
        descriptor("read", false, PermissionPhase::Install, true, false),
        descriptor("log", true, PermissionPhase::Automatic, true, false),
        descriptor("exec", false, PermissionPhase::Jit, false, false),
        descriptor("delete", false, PermissionPhase::Explicit, false, true),
    ]
}

fn profiles() -> Vec<AccessProfile> {
    vec![
        AccessProfile { name: "recommended".into(), permissions: vec!["read".into()] },
        AccessProfile { name: "operate".into(), permissions: vec!["read".into(), "exec".into()] },
        AccessProfile { name: "wipe".into(), permissions: vec!["delete".into()] },
    ]
}

fn ids(v: &[PlanDescriptor]) -> Vec<String> {
    v.iter().map(|d| d.id.clone()).collect()
}

fn facts() -> InstallFacts {
    InstallFacts {
        access_named: false,
        native: false,
        from_catalog: false,
        from_system: false,
        signature_valid: true,
        standing: Trust::Unknown,
    }
}

#[test]
fn a_profile_splits_the_permissions_into_four_parts() {
    let plan = PermissionPlan::build(descriptors(), profiles(), "recommended", None).expect("plan");
    assert_eq!(ids(&plan.granted), vec!["read"]);
    assert_eq!(ids(&plan.automatic), vec!["log"]);
    assert_eq!(ids(&plan.jit), vec!["exec"]);
    assert_eq!(ids(&plan.explicit), vec!["delete"]);
    assert_eq!(plan.profile.as_ref().map(|p| p.name.as_str()), Some("recommended"));
    assert!(!plan.widens() && !plan.destructive());
    assert_eq!(install_decisions(&plan), vec!["read".to_string(), "log".to_string()]);
}

#[test]
fn a_profile_the_package_does_not_offer_is_refused() {
    match PermissionPlan::build(descriptors(), profiles(), "admin", None) {
        Err(PlanError::NoSuchProfile { profile, offered }) => {
            assert_eq!(profile, "admin");
            assert_eq!(offered, vec!["recommended".to_string(), "operate".to_string(), "wipe".to_string()]);
        },
        other => panic!("expected a refusal, got {other:?}"),
    }
    let empty = PermissionPlan::build(vec![], vec![], "admin", None).expect("no permissions, no profile");
    assert!(empty.profile.is_none());
    assert!(install_decisions(&empty).is_empty());
}

#[test]
fn confirm_never_accepts_what_needs_a_person() {
    let wipe = PermissionPlan::build(descriptors(), profiles(), "wipe", None).expect("plan");
    assert_eq!(unattended(&wipe, &facts()), Err(Unattended::Destructive { profile: "wipe".into() }));
    let operate = PermissionPlan::build(descriptors(), profiles(), "operate", None).expect("plan");
    assert_eq!(unattended(&operate, &facts()), Err(Unattended::Widens));
    assert_eq!(unattended(&operate, &InstallFacts { access_named: true, ..facts() }), Ok(()));
    let update = PermissionPlan::build(
        descriptors(),
        profiles(),
        "recommended",
        Some(vec![DeltaEntry { permission: "exec".into(), detail: "run programs".into() }]),
    )
    .expect("plan");
    assert!(update.delta_widens());
    assert_eq!(unattended(&update, &facts()), Err(Unattended::UpdateWidens));
    let plain = PermissionPlan::build(descriptors(), profiles(), "recommended", None).expect("plan");
    let native = InstallFacts { native: true, from_catalog: true, ..facts() };
    assert_eq!(unattended(&plain, &native), Err(Unattended::NativeUnknownKey));
    assert_eq!(unattended(&plain, &InstallFacts { standing: Trust::UserTrusted, ..native }), Ok(()));
    assert_eq!(unattended(&plain, &facts()), Ok(()));
}

#[test]
fn an_upgrade_keeps_its_key_and_profile() {
    assert!(unrelated_key(Some("ed25519:a"), "ed25519:b"));
    assert!(!unrelated_key(Some("ed25519:a"), "ed25519:a"));
    assert!(!unrelated_key(Some("unsigned"), "ed25519:b"));
    assert!(!unrelated_key(None, "ed25519:b"));
    assert_eq!(chosen_profile(Some("operate".into()), Some("wipe".into())), "operate");
    assert_eq!(chosen_profile(None, Some("wipe".into())), "wipe");
    assert_eq!(chosen_profile(None, None), "recommended");
}

#[test]
fn the_question_defaults_to_no_when_it_should() {
    assert_eq!(install_question(true, true, false, false, "recommended"), ("Update and grant the new access? [y/N/details] ".to_string(), false));
    assert_eq!(install_question(true, false, false, false, "recommended"), ("Update? [Y/n/details] ".to_string(), true));
    assert_eq!(install_question(false, false, true, false, "recommended"), ("Install with recommended access? [y/N/details] ".to_string(), false));
    assert_eq!(install_question(false, false, false, false, "recommended"), ("Install with recommended access? [Y/n/details] ".to_string(), true));
    assert_eq!(read_install_answer("  ", true), Answer::Yes);
    assert_eq!(read_install_answer("", false), Answer::No);
    assert_eq!(read_install_answer(" YES ", false), Answer::Yes);
    assert_eq!(read_install_answer("d", true), Answer::Details);
}

#[test]
fn first_trust_is_asked_for_unknown_native_signers() {
    assert!(unknown_native(true, true, Trust::Unknown));
    assert!(!unknown_native(true, true, Trust::SystemTrusted));
    assert!(!unknown_native(true, false, Trust::Unknown));
    assert!(!unknown_native(false, true, Trust::Unknown));
    assert_eq!(standing_word(Trust::SystemTrusted), Trust::SystemTrusted.name());
    assert_eq!(publisher_trust(Trust::Unknown, SignatureState::Absent), "unknown (unsigned local package)");
    assert_eq!(publisher_trust(Trust::Unknown, SignatureState::Valid), "unknown");
    assert_eq!(publisher_trust(Trust::UserTrusted, SignatureState::Valid), "user-trusted");
    assert_eq!(runtime_phrase(Some(RuntimeKind::NativeProcess)), "native process");
    assert_eq!(runtime_phrase(None), "declarative");
}

#[test]
fn an_install_records_what_it_did() {
    let origin = Origin {
        kind: "local-path".into(),
        identity: "path:/x".into(),
        system_package: None,
        package_manager: None,
        source_path: Some("/x".into()),
        catalog: None,
        digest: "d".into(),
    };
    let before = Management { background: true, ..Management::default() };
    let m = installed_management("path:/x", "d", Some(&before), None, "unsigned", Some("recommended"), origin);
    assert!(m.enabled && m.background);
    assert_eq!(m.installed_from.as_deref(), Some("path:/x"));
    assert_eq!(m.integrity.as_deref(), Some("d"));
    assert_eq!(m.publisher_key.as_deref(), Some("unsigned"));
    assert_eq!(m.profile.as_deref(), Some("recommended"));
    assert_eq!(m.catalog, None);
    assert_eq!(m.origin.map(|o| o.digest), Some("d".to_string()));
}

#[test]
fn a_person_picks_among_the_candidates_by_number() {
    let candidates = vec![
        Candidate { id: "io.a.k8s".into(), selector: "official/k8s".into(), description: "Kubernetes".into() },
        Candidate { id: "io.b.k8s".into(), selector: "extra/k8s".into(), description: "Another".into() },
    ];
    assert_eq!(
        pick_lines("k8s", &candidates),
        vec![
            "`k8s` names 2 packages:",
            "  [1] io.a.k8s — Kubernetes (official/k8s)",
            "  [2] io.b.k8s — Another (extra/k8s)",
        ]
    );
    assert_eq!(read_pick("2\n", 2), Some(1));
    assert_eq!(read_pick(" +1 ", 2), Some(0));
}

#[test]
fn an_answer_that_is_not_a_listed_number_picks_nothing() {
    assert_eq!(read_pick("", 2), None);
    assert_eq!(read_pick("0", 2), None);
    assert_eq!(read_pick("3", 2), None);
    assert_eq!(read_pick("one", 2), None);
    assert_eq!(read_pick("-1", 2), None);
    assert_eq!(read_pick("99999999999999999999999999", 2), None);
}

#[test]
fn the_signer_shown_is_the_key_then_the_identity() {
    assert_eq!(signer(false, Some("ed25519:abc"), Some("https://ci")), "ed25519:abc");
    assert_eq!(signer(false, None, Some("https://ci")), "https://ci");
    assert_eq!(signer(false, None, None), "unsigned");
    assert_eq!(signer(true, Some("ed25519:abc"), None), "unsigned");
}

fn state() -> InstallState {
    InstallState {
        blocking: false,
        installed_version: None,
        version: "1.2.0".into(),
        installed_key: None,
        new_key: "ed25519:a".into(),
        unsigned: false,
        interactive: false,
        confirm: true,
    }
}

#[test]
fn an_install_refuses_in_order() {
    let plan = || PermissionPlan::build(descriptors(), profiles(), "recommended", None);
    // Verification first, whatever else holds.
    let blocked = InstallState { blocking: true, installed_version: Some("1.2.0".into()), ..state() };
    assert_eq!(install_gate(&blocked, &plan(), &facts()), Err(InstallRefusal::Blocked));
    // The same version is never silently replaced.
    let same = InstallState {
        installed_version: Some("1.2.0".into()),
        installed_key: Some("ed25519:b".into()),
        ..state()
    };
    assert_eq!(install_gate(&same, &plan(), &facts()), Err(InstallRefusal::AlreadyInstalled));
    // Another version signed by an unrelated key is no update.
    let rotated = InstallState { installed_version: Some("1.1.0".into()), ..same };
    assert_eq!(install_gate(&rotated, &plan(), &facts()), Err(InstallRefusal::UnrelatedKey));
    let kept = InstallState { installed_key: Some("ed25519:a".into()), ..rotated };
    assert_eq!(install_gate(&kept, &plan(), &facts()), Ok(InstallNext::Proceed(InstallWarning::Quiet)));
    // No plan, then consent.
    let missing = PermissionPlan::build(descriptors(), profiles(), "admin", None);
    assert_eq!(install_gate(&state(), &missing, &facts()), Err(InstallRefusal::NoPlan));
    let person = InstallState { interactive: true, confirm: false, ..state() };
    assert_eq!(install_gate(&person, &plan(), &facts()), Ok(InstallNext::Ask));
    let script = InstallState { confirm: false, ..state() };
    assert_eq!(install_gate(&script, &plan(), &facts()), Err(InstallRefusal::ConfirmationRequired));
    let wipe = PermissionPlan::build(descriptors(), profiles(), "wipe", None);
    assert_eq!(
        install_gate(&state(), &wipe, &facts()),
        Err(InstallRefusal::Unattended(Unattended::Destructive { profile: "wipe".into() }))
    );
}

#[test]
fn an_unattended_install_says_what_it_cannot_promise() {
    let plan = || PermissionPlan::build(descriptors(), profiles(), "recommended", None);
    let unsigned = InstallState { unsigned: true, ..state() };
    let native = InstallFacts { native: true, signature_valid: false, ..facts() };
    assert_eq!(install_gate(&unsigned, &plan(), &native), Ok(InstallNext::Proceed(InstallWarning::UnsignedNative)));
    let system = InstallFacts { from_system: true, ..facts() };
    assert_eq!(install_gate(&state(), &plan(), &system), Ok(InstallNext::Proceed(InstallWarning::SystemProvenance)));
    let enrolled = InstallFacts { standing: Trust::SystemTrusted, ..system };
    assert_eq!(install_gate(&state(), &plan(), &enrolled), Ok(InstallNext::Proceed(InstallWarning::Quiet)));
}

#[test]
fn the_plan_names_what_it_decides() {
    let plan = PermissionPlan::build(descriptors(), profiles(), "recommended", None).expect("plan");
    let all = descriptors();
    let words: Vec<&str> = all.iter().map(|d| plan_decision(&plan, d)).collect();
    assert_eq!(words, vec!["allow", "included", "ask when needed", "not granted"]);
    assert_eq!(selected_profile(&plan), "recommended");
    let empty = PermissionPlan::build(vec![], vec![], "admin", None).expect("plan");
    assert_eq!(selected_profile(&empty), "none");
    assert_eq!(signature_summary(SignatureState::Valid, "Acme"), "valid / Acme");
    assert_eq!(signature_summary(SignatureState::Absent, "Acme"), "unsigned");
    assert_eq!(signature_summary(SignatureState::Invalid, "Acme"), "invalid");
    assert_eq!(package_label("acme.tools", "1.2.0"), "acme.tools@1.2.0");
    assert_eq!(catalog_label("main", "signed"), "main (signed)");
}

#[test]
fn a_refused_confirm_says_why() {
    let (message, help) = unattended_message(&Unattended::Destructive { profile: "wipe".into() }, "tools", "k");
    assert_eq!(message, "`tools`'s `wipe` profile carries a destructive permission, which is never enabled without a person");
    assert_eq!(help, "install interactively, or with `--access recommended`");
    let (message, _) = unattended_message(&Unattended::NativeUnknownKey, "tools", "ed25519:a");
    assert_eq!(
        message,
        "`tools` is a native plugin from a catalog and no trust store enrols its publisher key (ed25519:a); an unattended native install needs that policy"
    );
    assert_eq!(unattended_message(&Unattended::Widens, "tools", "k").0, "`tools`'s recorded profile widens authority beyond the recommended access");
    assert_eq!(unattended_message(&Unattended::UpdateWidens, "tools", "k").0, "the update of `tools` widens authority beyond safe defaults");
}

#[test]
fn a_refused_install_says_why() {
    let words = |r: &InstallRefusal, delta: &Option<Vec<DeltaEntry>>| {
        refusal_message(r, "acme.tools", "tools", "1.2.0", "catalog main", "ed25519:a", "ed25519:b", delta)
    };
    assert_eq!(
        words(&InstallRefusal::AlreadyInstalled, &None),
        Some((
            "`acme.tools` 1.2.0 is already installed".to_string(),
            "`remove plugin` it first; a package version is never silently replaced".to_string()
        ))
    );
    assert_eq!(
        words(&InstallRefusal::UnrelatedKey, &None).map(|(m, _)| m),
        Some("`acme.tools` is installed signed by ed25519:a, and this package is signed by ed25519:b; a package signed by an unrelated key is not an update".to_string())
    );
    let delta = Some(vec![
        DeltaEntry { permission: "exec".into(), detail: "run programs".into() },
        DeltaEntry { permission: "net".into(), detail: "reach the network".into() },
    ]);
    assert_eq!(
        words(&InstallRefusal::ConfirmationRequired, &delta).map(|(m, _)| m),
        Some("installing `acme.tools` 1.2.0 from catalog main needs the install plan confirmed; Tools 1.2.0 requests additional access: run programs; reach the network".to_string())
    );
    assert_eq!(
        words(&InstallRefusal::ConfirmationRequired, &Some(vec![])).map(|(m, _)| m),
        Some("installing `acme.tools` 1.2.0 from catalog main needs the install plan confirmed".to_string())
    );
    assert_eq!(words(&InstallRefusal::Blocked, &None), None);
    assert_eq!(
        words(&InstallRefusal::Unattended(Unattended::Widens), &None).map(|(m, _)| m),
        Some("`tools`'s recorded profile widens authority beyond the recommended access".to_string())
    );
    assert_eq!(not_confirmed_install("tools"), "installing `tools` was not confirmed");
}

fn summary() -> InstallSummary {
    InstallSummary {
        name: "tools".into(),
        version: "1.2.0".into(),
        publisher: "Acme".into(),
        signature: SignatureState::Valid,
        standing: Trust::Unknown,
        key: "ed25519:a".into(),
        runtime: Some(RuntimeKind::NativeProcess),
        catalog: Some("main (signed)".into()),
        source: "catalog".into(),
        system_package: None,
        isolation: "runs as your user account".into(),
        delta: None,
        profile_title: "Recommended".into(),
        granted: vec!["Read files".into()],
        jit: vec!["Run programs".into()],
        explicit: vec![],
    }
}

#[test]
fn a_person_is_shown_who_what_and_which_access() {
    let lines = install_summary(&summary());
    let expected: Vec<&str> = vec![
        "",
        "Tools 1.2.0",
        "Publisher: Acme",
        "Signature: valid",
        "Publisher trust: unknown",
        "Runtime: native process",
        "Catalog: main (signed)",
        "Source: catalog",
        "  runs as your user account",
        "",
        "Runtime warning",
        "This is a native plugin. It runs as your user account.",
        "Ono can mediate brokered capabilities, but this execution tier does not prevent",
        "direct filesystem or network access available to your user.",
        "No trust store enrols its publisher key (ed25519:a).",
        "",
        "Recommended access:",
        "  - Read files",
        "",
        "Asked only when needed:",
        "  - Run programs",
        "",
    ];
    assert_eq!(lines, expected);
    let update = InstallSummary {
        runtime: None,
        delta: Some(vec!["run programs".into()]),
        system_package: Some("ono-tools".into()),
        source: "system package".into(),
        ..summary()
    };
    let lines = install_summary(&update);
    assert_eq!(lines[6..].to_vec(), vec![
        "Catalog: main (signed)".to_string(),
        "Source: system package (ono-tools)".to_string(),
        "".to_string(),
        "Tools 1.2.0 requests additional access:".to_string(),
        "  run programs".to_string(),
        "".to_string(),
        "Existing access is unchanged.".to_string(),
        "".to_string(),
    ]);
    let nothing = InstallSummary { runtime: None, granted: vec![], jit: vec![], profile_title: "No".into(), ..summary() };
    assert_eq!(install_summary(&nothing)[8..].to_vec(), vec!["".to_string(), "No access:".to_string(), "  (nothing)".to_string(), "".to_string()]);
}

#[test]
fn an_answer_to_the_install_question_in_small_letters() {
    assert_eq!(install_answer_of_lowered("", true), Answer::Yes);
    assert_eq!(install_answer_of_lowered("", false), Answer::No);
    assert_eq!(install_answer_of_lowered("details", false), Answer::Details);
    assert_eq!(read_install_answer("  Y ", false), Answer::Yes);
}

fn plan_facts() -> PlanFacts {
    PlanFacts {
        id: "acme.tools".into(),
        name: "tools".into(),
        version: "1.2.0".into(),
        source: "catalog main".into(),
        source_kind: "catalog".into(),
        system_package: None,
        catalog: Some(("main".into(), "signed".into())),
        integrity: "sha256:00".into(),
        signature: SignatureState::Valid,
        publisher: "Acme".into(),
        key: "ed25519:a".into(),
        standing: Trust::Unknown,
        destination: "/plugins/acme.tools/1.2.0".into(),
    }
}

#[test]
fn a_refusal_for_want_of_a_confirmation_carries_the_plan() {
    let plan = PermissionPlan::build(descriptors(), profiles(), "recommended", None).expect("plan");
    let record = plan_record(&plan_facts(), &plan, &facts());
    assert_eq!(record.package, "acme.tools@1.2.0");
    assert_eq!(record.catalog.as_deref(), Some("main (signed)"));
    assert_eq!(record.signature, "valid / Acme");
    assert_eq!(record.trust_standing, "unknown");
    assert_eq!(record.selected_profile, "recommended");
    assert_eq!(
        record.permissions,
        vec![PlanPermission { id: "read".into(), title: "The read permission".into(), decision: "allow".into() }]
    );
    assert_eq!(record.asked_when_needed[0].decision, "ask when needed");
    assert_eq!(record.denied_explicit_permissions[0].decision, "not granted");
    assert!(record.accepted_by_confirm && record.reason.is_none());
    let report = refusal_report(&InstallRefusal::ConfirmationRequired, &plan_facts(), "", &plan, record.clone())
        .expect("a report");
    assert_eq!(report.message, "installing `acme.tools` 1.2.0 from catalog main needs the install plan confirmed");
    assert_eq!(report.plan, Some(record.clone()));
    let rotated = refusal_report(&InstallRefusal::UnrelatedKey, &plan_facts(), "ed25519:z", &plan, record.clone())
        .expect("a report");
    assert_eq!(rotated.plan, None);
    assert!(refusal_report(&InstallRefusal::Blocked, &plan_facts(), "", &plan, record).is_none());
    // A plan `--confirm` cannot accept says why.
    let wipe = PermissionPlan::build(descriptors(), profiles(), "wipe", None).expect("plan");
    let record = plan_record(&plan_facts(), &wipe, &facts());
    assert!(!record.accepted_by_confirm);
    assert_eq!(
        record.reason.as_deref(),
        Some("`tools`'s `wipe` profile carries a destructive permission, which is never enabled without a person")
    );
}

fn placement(placed: bool, previous: bool, management: Option<Option<Management>>) -> Placement {
    Placement {
        staging: "/p/.staging/t-1".into(),
        staging_root: "/p/.staging".into(),
        placed: if placed { Some("/p/t".into()) } else { None },
        previous: if previous { Some(("/p/.staging/t.previous-1".into(), "/p/t".into())) } else { None },
        management,
    }
}

#[test]
fn a_failed_install_is_undone_in_reverse() {
    let steps = undo_steps(placement(true, true, Some(None)));
    assert_eq!(steps.len(), 4);
    assert!(matches!(&steps[0], FileStep::RemoveManagement));
    assert!(matches!(&steps[1], FileStep::RemoveTree(p) if p == "/p/t"));
    assert!(matches!(&steps[2], FileStep::Rename { from, to } if from == "/p/.staging/t.previous-1" && to == "/p/t"));
    assert!(matches!(&steps[3], FileStep::RemoveEmptyDir(p) if p == "/p/.staging"));
    // Nothing was placed yet: the staged copy goes, and nothing else was touched.
    let early = undo_steps(placement(false, false, None));
    assert_eq!(early.len(), 2);
    assert!(matches!(&early[0], FileStep::RemoveTree(p) if p == "/p/.staging/t-1"));
    let before = Management { installed_from: Some("src".into()), ..Management::default() };
    let restore = undo_steps(placement(true, false, Some(Some(before))));
    assert!(matches!(&restore[0], FileStep::RestoreManagement(m) if m.installed_from.as_deref() == Some("src")));
    let done = commit_steps(placement(true, true, None));
    assert_eq!(done.len(), 2);
    assert!(matches!(&done[0], FileStep::RemoveTree(p) if p == "/p/.staging/t.previous-1"));
}
