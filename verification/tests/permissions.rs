use ono_cli::permissions::{
    decision_summary, decision_when, decision_widens, dropped_by_scope, duration_word, narrowed_notice,
    no_permission_message, no_profile_message, not_confirmed_message, profile_title, publisher_identity,
    unconfirmed_message,
    permission_state, profile_summary, read_widening_answer, scope_from_words, undecided,
    widening, Answer, DecisionStore, PermissionPhase, ProfilePermission, RequiredCapability,
    ScopeWordsError, SetAction, SetPermission, SetRefusal, StandingDecision, Widening,
    held_grants, TemplateExpectation, answer_of_lowered,
};
use ono_cli::grants::Grant;

fn record(store: &mut DecisionStore, plugin: &str, permission: &str, decision: &str, publisher: &str) {
    store.record_decision_at(
        plugin,
        permission,
        decision,
        "always",
        None,
        vec![],
        vec!["process.spawn".into()],
        "1.0",
        publisher,
        "2024-01-01T00:00:00Z",
    );
}

#[test]
fn a_recorded_decision_is_found_and_replaces_the_old_one() {
    let mut store = DecisionStore::new();
    record(&mut store, "io.a", "exec", "allow", "k");
    record(&mut store, "io.a", "exec", "deny", "k");
    record(&mut store, "io.b", "exec", "allow", "k");
    assert_eq!(store.decision("io.a", "exec").map(|d| d.record.decision.clone()), Some("deny".to_string()));
    assert_eq!(store.decisions_of("io.a").len(), 1);
    assert_eq!(store.decision("io.b", "exec").map(|d| d.record.decision.clone()), Some("allow".to_string()));
    assert_eq!(store.denied_capabilities("io.a"), vec!["process.spawn".to_string()]);
    assert!(store.denied_capabilities("io.b").is_empty());
}

#[test]
fn a_forgotten_decision_is_not_found_again() {
    let mut store = DecisionStore::new();
    record(&mut store, "io.a", "exec", "allow", "k");
    record(&mut store, "io.a", "read", "allow", "k");
    assert!(store.forget_decision("io.a", "exec"));
    assert!(!store.forget_decision("io.a", "exec"));
    assert!(store.decision("io.a", "exec").is_none());
    assert!(store.decision("io.a", "read").is_some());
    assert_eq!(store.forget_decisions_of("io.a"), 1);
    assert!(store.decisions_of("io.a").is_empty());
}

#[test]
fn the_time_a_decision_is_stamped_with_reads_as_a_timestamp() {
    let mut store = DecisionStore::new();
    assert!(store.record_decision("io.a", "exec", "allow", "always", None, vec![], vec![], "1.0", "k"));
    let stamped = store.decision("io.a", "exec").map(|d| d.record.created_at.clone()).unwrap_or_default();
    assert!(stamped.ends_with('Z') && stamped.len() > 10, "{stamped}");
}

#[test]
fn decisions_for_another_key_are_stale() {
    let mut store = DecisionStore::new();
    record(&mut store, "io.a", "exec", "allow", "old");
    record(&mut store, "io.a", "read", "allow", "new");
    assert_eq!(store.stale_for("io.a", "new"), vec!["exec".to_string()]);
    assert!(store.stale_for("io.b", "new").is_empty());
}

#[test]
fn only_lasting_decisions_are_kept() {
    let mut store = DecisionStore::new();
    store.record_decision_at("io.a", "exec", "allow", "session", None, vec![], vec![], "1.0", "k", "t");
    record(&mut store, "io.a", "read", "allow", "k");
    let lasting = store.lasting();
    assert_eq!(lasting.len(), 1);
    assert_eq!(lasting[0].permission, "read");
    let mut fresh = DecisionStore::new();
    fresh.load(lasting);
    assert!(fresh.decision("io.a", "read").is_some());
}

#[test]
fn a_session_is_not_asked_twice() {
    let mut store = DecisionStore::new();
    store.remember_denial("io.a", "exec", "ls");
    assert!(store.denied_in_session("io.a", "exec", "ls"));
    assert!(!store.denied_in_session("io.a", "exec", "rm"));
    store.forget_denials("io.a", "exec");
    assert!(!store.denied_in_session("io.a", "exec", "ls"));
}

#[test]
fn durations_and_states_have_words() {
    assert_eq!(duration_word("session"), "session");
    assert_eq!(duration_word("once"), "always");
    assert_eq!(decision_when(Some("once")), "once");
    assert_eq!(decision_when(None), "always");
    let deny = StandingDecision { decision: "deny".into(), duration: "always".into() };
    let p = permission_state(Some(&deny), false, PermissionPhase::Install, false, false);
    assert_eq!((p.state, p.when), ("denied", "always"));
}

#[test]
fn set_permission_reads_its_words() {
    let words: Vec<String> = ["set", "io.a", "exec", "--decision", "allow", "--scope", "path=/tmp", "--confirm", "--later"]
        .iter()
        .map(|w| w.to_string())
        .collect();
    let read = SetPermission::from_words(&words);
    assert_eq!(read.plugin, "io.a");
    assert_eq!(read.permission.as_deref(), Some("exec"));
    assert_eq!(read.decision.as_deref(), Some("allow"));
    assert_eq!(read.scopes, vec!["path=/tmp".to_string()]);
    assert!(read.confirm);
    assert!(read.profile.is_none());
}

#[test]
fn scopes_name_declared_keys() {
    let declared = vec!["path".to_string()];
    assert_eq!(scope_from_words(&declared, &[]), Ok(None));
    assert_eq!(
        scope_from_words(&declared, &["path=/a,,/b".to_string()]),
        Ok(Some(vec![("path".to_string(), vec!["/a".to_string(), "/b".to_string()])]))
    );
    assert_eq!(
        scope_from_words(&declared, &["path=/a".to_string(), "path=/c".to_string()]),
        Ok(Some(vec![("path".to_string(), vec!["/c".to_string()])]))
    );
    assert_eq!(scope_from_words(&declared, &["nokey".to_string()]), Err(ScopeWordsError::NoKey("nokey".into())));
    assert_eq!(scope_from_words(&declared, &["host=x".to_string()]), Err(ScopeWordsError::UnknownKey("host".into())));
}

#[test]
fn a_widening_needs_a_person_or_a_confirmation() {
    assert_eq!(widening(true, true, false), Widening::Ask);
    assert_eq!(widening(false, true, true), Widening::RefuseDestructive);
    assert_eq!(widening(false, false, true), Widening::Accept);
    assert_eq!(widening(false, false, false), Widening::RefuseUnconfirmed);
    assert_eq!(read_widening_answer(" Yes "), Answer::Yes);
    assert_eq!(read_widening_answer("DETAILS"), Answer::Details);
    assert_eq!(read_widening_answer(""), Answer::No);
}

#[test]
fn readiness_waits_for_undecided_permissions() {
    let selected = vec![
        ProfilePermission { id: "read".into(), phase: PermissionPhase::Install, capabilities: vec!["fs.read".into()] },
        ProfilePermission { id: "exec".into(), phase: PermissionPhase::Jit, capabilities: vec!["process.spawn".into()] },
        ProfilePermission { id: "net".into(), phase: PermissionPhase::Install, capabilities: vec!["net.connect".into(), "fs.read".into()] },
    ];
    let required = vec![
        RequiredCapability { capability: "log.write".into(), automatic: false },
        RequiredCapability { capability: "clock.read".into(), automatic: true },
        RequiredCapability { capability: "fs.read".into(), automatic: false },
    ];
    let held = vec!["fs.read".to_string()];
    assert_eq!(undecided(&selected, &required, &held), vec!["net".to_string(), "capability:log.write".to_string()]);
}

fn request(plugin: &str, permission: Option<&str>, profile: Option<&str>) -> SetPermission {
    SetPermission {
        plugin: plugin.into(),
        permission: permission.map(str::to_owned),
        profile: profile.map(str::to_owned),
        ..SetPermission::default()
    }
}

#[test]
fn set_permission_applies_a_profile_or_decides_one_permission() {
    assert_eq!(request("", Some("exec"), None).action(), Err(SetRefusal::NoPlugin));
    assert_eq!(request("io.a", None, Some("operate")).action(), Ok(SetAction::ApplyProfile("operate".into())));
    assert_eq!(request("io.a", Some("exec"), None).action(), Ok(SetAction::Decide("exec".into())));
    assert_eq!(request("io.a", Some("exec"), Some("operate")).action(), Err(SetRefusal::Both));
    assert_eq!(request("io.a", None, None).action(), Err(SetRefusal::Neither));
}

#[test]
fn a_decision_is_allow_deny_or_ask_for_a_session_or_always() {
    let plain = request("io.a", Some("exec"), None);
    assert_eq!(plain.decision_words(), Ok(("allow".to_string(), "always".to_string())));
    assert_eq!(plain.profile_duration(), "always");
    let maybe = SetPermission { decision: Some("maybe".into()), ..plain.clone() };
    assert_eq!(maybe.decision_words(), Err(SetRefusal::NotADecision("maybe".into())));
    let once = SetPermission { decision: Some("deny".into()), duration: Some("once".into()), ..plain };
    assert_eq!(once.decision_words(), Err(SetRefusal::NotADuration("once".into())));
}

#[test]
fn allowing_beyond_the_safe_defaults_widens() {
    assert!(decision_widens("allow", false, PermissionPhase::Explicit, true, true));
    assert!(!decision_widens("allow", false, PermissionPhase::Jit, true, true));
    assert!(decision_widens("allow", false, PermissionPhase::Jit, false, true));
    assert!(decision_widens("allow", false, PermissionPhase::Jit, true, false));
    assert!(!decision_widens("deny", false, PermissionPhase::Explicit, false, false));
    assert!(!decision_widens("allow", true, PermissionPhase::Explicit, false, false));
    assert_eq!(
        profile_summary(&vec!["Run programs".to_string(), "Delete files".to_string()]),
        "This profile adds permission to run programs, delete files."
    );
    assert_eq!(decision_summary("Kubernetes", "Run programs"), "Kubernetes will be allowed to run programs.");
}

#[test]
fn a_replacing_scope_says_what_it_drops() {
    let scope = |pairs: &[(&str, &[&str])]| -> Vec<(String, Vec<String>)> {
        pairs.iter().map(|(k, v)| (k.to_string(), v.iter().map(|x| x.to_string()).collect())).collect()
    };
    let before = vec![scope(&[("paths", &["/a", "/b"]), ("hosts", &["h"])]), scope(&[("paths", &["/c", "/a"])])];
    assert_eq!(
        dropped_by_scope(&before, &scope(&[("paths", &["/b"]), ("hosts", &["h"])])),
        scope(&[("paths", &["/a", "/c"])])
    );
    assert!(dropped_by_scope(&before, &scope(&[("other", &["x"])])).is_empty());
}

#[test]
fn a_refused_set_permission_says_why() {
    assert_eq!(SetRefusal::NoPlugin.message(), "`set permission` needs the package whose permission to decide");
    assert_eq!(SetRefusal::Both.message(), "`set permission` applies a profile or decides one permission, not both");
    assert_eq!(
        SetRefusal::Neither.message(),
        "`set permission` needs `--profile <name>` or a permission and `--decision`"
    );
    assert_eq!(SetRefusal::NotADecision("maybe".into()).message(), "`maybe` is not a decision");
    assert_eq!(
        SetRefusal::NotADuration("once".into()).message(),
        "`once` is not a duration a decision can hold itself to"
    );
}

#[test]
fn an_unknown_profile_or_permission_names_what_there_is() {
    let (message, help) = no_profile_message("kubernetes", "full", &vec!["recommended".into(), "operate".into()]);
    assert_eq!(message, "`kubernetes` offers no access profile named `full`");
    assert_eq!(help, "it offers `recommended`, `operate`");
    let (_, help) = no_profile_message("git", "full", &vec![]);
    assert_eq!(help, "it offers no profile at all: it asks for nothing");
    let (message, help) = no_permission_message("kubernetes", "cluster-nuke");
    assert_eq!(message, "`kubernetes` declares no permission `cluster-nuke`");
    assert_eq!(help, "`get permission kubernetes --all` lists them");
}

#[test]
fn a_narrowing_scope_is_said_on_the_line_that_did_it() {
    let dropped = vec![
        ("paths".to_string(), vec!["/a".to_string(), "/b".to_string()]),
        ("hosts".to_string(), vec!["x".to_string()]),
    ];
    assert_eq!(
        narrowed_notice("kubernetes", "files-read", &dropped),
        "kubernetes files-read: `--scope` sets the whole list for each key it names, so the permission no \
         longer covers paths /a, /b; hosts x; name every value to keep, e.g. `--scope \"paths=<one>,<two>\"`"
    );
}

#[test]
fn a_widening_that_was_not_accepted_says_so() {
    assert_eq!(not_confirmed_message("kubernetes"), "kubernetes: the change was not confirmed");
    assert_eq!(
        unconfirmed_message("kubernetes", true),
        "kubernetes: the profile widens authority beyond the recommended access and this context cannot ask"
    );
    assert_eq!(
        unconfirmed_message("kubernetes", false),
        "kubernetes: the permission widens authority beyond the recommended access and this context cannot ask"
    );
}

#[test]
fn a_profile_that_adds_mutation_says_so_in_its_title() {
    assert_eq!(profile_title("Operate", &vec![true, false]), "Operate — can change external or host state");
    assert_eq!(profile_title("Recommended", &vec![true, true]), "Recommended");
    assert_eq!(profile_title("Empty", &vec![]), "Empty");
}

#[test]
fn a_decision_records_the_key_only_when_the_signature_holds() {
    assert_eq!(publisher_identity(Some("ed25519:k"), false), "ed25519:k");
    assert_eq!(publisher_identity(Some("ed25519:k"), true), "unsigned");
    assert_eq!(publisher_identity(None, false), "unsigned");
}

#[test]
fn loading_a_store_keeps_the_decisions_made_this_session() {
    let mut stored = DecisionStore::new();
    stored.record_decision_at("io.a", "exec", "deny", "always", None, vec![], vec![], "1.0", "k", "t0");
    stored.record_decision_at("io.a", "read", "allow", "always", None, vec![], vec![], "1.0", "k", "t0");
    let mut session = DecisionStore::new();
    session.record_decision_at("io.a", "exec", "allow", "session", None, vec![], vec![], "1.0", "k", "t1");
    session.load(stored.lasting());
    assert_eq!(session.decision("io.a", "exec").expect("kept").record.decision, "allow");
    assert_eq!(session.decision("io.a", "read").expect("loaded").record.decision, "allow");
    assert_eq!(session.decisions_of("io.a").len(), 2);
}

fn standing_grant(plugin: &str, capability: &str, permission: Option<&str>, scope: Option<Vec<(String, Vec<String>)>>) -> Grant {
    Grant {
        id: [0; 16],
        plugin: plugin.into(),
        capability: capability.into(),
        scope,
        class: None,
        source: "prompt".into(),
        duration: "always".into(),
        granted_at: 0,
        expires_at: None,
        revoked_at: None,
        permission: permission.map(|p| p.to_string()),
        profile: None,
        correlation: None,
    }
}

fn scope(pairs: &[(&str, &[&str])]) -> Vec<(String, Vec<String>)> {
    pairs.iter().map(|(k, vs)| (k.to_string(), vs.iter().map(|v| v.to_string()).collect())).collect()
}

#[test]
fn a_permission_is_held_by_the_grants_it_minted() {
    let expected = scope(&[("path", &["/tmp"]), ("mode", &["read"])]);
    let read = || TemplateExpectation { capability: "fs.read".into(), expected: Some(expected.clone()), runtime_derived: false };
    let templates = vec![
        read(),
        TemplateExpectation { capability: "proc.exec".into(), expected: None, runtime_derived: true },
    ];
    // The same keys written in another order are the same scope.
    let reordered = scope(&[("mode", &["read"]), ("path", &["/tmp"])]);
    let mut revoked = standing_grant("p", "fs.read", Some("files"), Some(expected.clone()));
    revoked.revoked_at = Some(1);
    let grants = vec![
        standing_grant("other", "fs.read", Some("files"), Some(expected.clone())),
        revoked,
        standing_grant("p", "fs.read", None, None),
        standing_grant("p", "fs.read", Some("files"), Some(reordered)),
        standing_grant("p", "proc.exec", Some("files"), Some(scope(&[("program", &["git"])]))),
    ];
    let (chosen, held, exact) = held_grants(&grants, "p", 10, &templates, "files");
    assert_eq!(chosen, vec![Some(3), Some(4)]);
    assert!(held && exact);
    // Held by a grant the permission did not mint: held, not exactly.
    let unminted = vec![
        standing_grant("other", "fs.read", Some("files"), Some(expected.clone())),
        standing_grant("p", "fs.read", None, None),
    ];
    let (chosen, held, exact) = held_grants(&unminted, "p", 10, &vec![read()], "files");
    assert_eq!(chosen, vec![Some(1)]);
    assert!(held && !exact);
    // A scope that differs is not exact; a capability nothing grants is not held.
    let narrower = vec![standing_grant("p", "fs.read", Some("files"), Some(scope(&[("path", &["/tmp", "/var"])])))];
    assert_eq!(held_grants(&narrower, "p", 10, &vec![read()], "files"), (vec![Some(0)], true, false));
    assert_eq!(held_grants(&narrower, "p", 10, &templates, "files"), (vec![Some(0), None], false, false));
}

#[test]
fn an_answer_in_small_letters_says_yes_no_or_details() {
    assert_eq!(answer_of_lowered("yes"), Answer::Yes);
    assert_eq!(answer_of_lowered("d"), Answer::Details);
    assert_eq!(answer_of_lowered("YES"), Answer::No);
    assert_eq!(read_widening_answer(" YES "), Answer::Yes);
}
