use ono_cli::decide::{declared_class, resolve_scope, Permission, PermissionHost, Template};
use ono_cli::grants::{identity_text, GrantLedger};
use ono_cli::permissions::DecisionStore;

fn host() -> PermissionHost {
    PermissionHost { grants: GrantLedger::new(0x0102_0304), decisions: DecisionStore::new() }
}

fn permission(id: &str, capabilities: &[&str], automatic: bool) -> Permission {
    Permission {
        id: id.to_string(),
        templates: capabilities
            .iter()
            .map(|c| Template { capability: c.to_string(), scope: None, class: None })
            .collect(),
        capabilities: capabilities.iter().map(|c| c.to_string()).collect(),
        automatic,
    }
}

#[test]
fn an_identity_reads_in_the_usual_form() {
    let id = [0, 0, 1, 2, 3, 4, 0x40, 5, 0x80, 1, 0, 0, 0, 0, 0, 0xab];
    assert_eq!(identity_text(&id), "00000102-0304-4005-8001-0000000000ab");
}

#[test]
fn an_allow_mints_a_grant_per_template_and_records_them() {
    let mut h = host();
    let p = permission("cluster-read", &["fs.read", "net.connect"], false);
    let minted = h.allow("io.k", &p, "session", "prompt", Some("recommended"), "c-1", "1.0.0", "ed25519:k", 1_000, "t1");
    assert_eq!(minted.len(), 2);
    assert_eq!(identity_text(&minted[0].id), "00000102-0304-4005-8001-000000000001");
    assert_eq!(identity_text(&minted[1].id), "00000102-0304-4005-8001-000000000003");
    assert_eq!(minted[0].capability, "fs.read");
    assert_eq!(minted[0].duration, "session");
    assert_eq!(minted[0].source, "prompt");
    assert_eq!(minted[0].permission.as_deref(), Some("cluster-read"));
    assert_eq!(minted[0].profile.as_deref(), Some("recommended"));
    assert_eq!(minted[0].correlation.as_deref(), Some("c-1"));
    assert_eq!(h.grants.minted(), 5);
    let events = h.grants.events();
    assert_eq!(events.len(), 3);
    assert_eq!(events[2].action, "permission.allow");
    assert_eq!(events[2].capability, "cluster-read");
    let d = h.decisions.decision("io.k", "cluster-read").expect("recorded");
    assert_eq!(d.record.decision, "allow");
    assert_eq!(d.record.duration, "session");
    assert_eq!(d.record.created_at, "t1");
    assert_eq!(
        d.record.grants,
        vec!["00000102-0304-4005-8001-000000000001".to_string(), "00000102-0304-4005-8001-000000000003".to_string()]
    );
    assert_eq!(d.record.capabilities, vec!["fs.read".to_string(), "net.connect".to_string()]);
    assert_eq!(d.record.publisher, "ed25519:k");
}

#[test]
fn an_allow_keeps_only_always_or_session() {
    let mut h = host();
    let p = permission("p", &["fs.read"], false);
    let minted = h.allow("io.k", &p, "forever", "cli", None, "c", "1", "unsigned", 1, "t");
    assert_eq!(minted[0].duration, "always");
}

#[test]
fn a_second_allow_revokes_the_first_ones_grants() {
    let mut h = host();
    let p = permission("cluster-read", &["fs.read"], false);
    let first = h.allow("io.k", &p, "always", "cli", None, "c-1", "1", "unsigned", 1_000, "t1");
    let second = h.allow("io.k", &p, "always", "cli", None, "c-2", "1", "unsigned", 2_000, "t2");
    let grants = h.grants.grants();
    assert_eq!(grants.len(), 2);
    assert_eq!(grants[0].id, first[0].id);
    assert_eq!(grants[0].revoked_at, Some(2_000));
    assert_eq!(grants[0].correlation.as_deref(), Some("c-2"));
    assert_eq!(grants[1].id, second[0].id);
    assert_eq!(grants[1].revoked_at, None);
    let d = h.decisions.decision("io.k", "cluster-read").expect("recorded");
    assert_eq!(d.record.created_at, "t1");
    assert_eq!(d.record.updated_at, "t2");
    assert_eq!(h.grants.standing_grants("io.k", 3_000).len(), 1);
}

#[test]
fn an_allow_forgets_the_sessions_denials_of_it() {
    let mut h = host();
    h.decisions.remember_denial("io.k", "cluster-read", "pods");
    h.decisions.remember_denial("io.k", "other", "pods");
    let p = permission("cluster-read", &["fs.read"], false);
    h.allow("io.k", &p, "session", "prompt", None, "c", "1", "unsigned", 1, "t");
    assert!(!h.decisions.denied_in_session("io.k", "cluster-read", "pods"));
    assert!(h.decisions.denied_in_session("io.k", "other", "pods"));
}

#[test]
fn a_deny_revokes_and_holds_the_capabilities() {
    let mut h = host();
    let p = permission("cluster-write", &["fs.write"], false);
    h.allow("io.k", &p, "always", "cli", None, "c-1", "1", "unsigned", 1_000, "t1");
    h.deny("io.k", &p, "c-2", "1", "unsigned", 2_000, "t2");
    assert!(h.grants.standing_grants("io.k", 2_000).is_empty());
    let d = h.decisions.decision("io.k", "cluster-write").expect("recorded");
    assert_eq!(d.record.decision, "deny");
    assert_eq!(d.record.duration, "always");
    assert!(d.record.grants.is_empty());
    assert_eq!(h.decisions.denied_capabilities("io.k"), vec!["fs.write".to_string()]);
    let last = h.grants.events().last().expect("an event");
    assert_eq!(last.action, "permission.deny");
    assert!(!last.ok);
}

#[test]
fn an_ask_forgets_the_decision() {
    let mut h = host();
    let p = permission("cluster-read", &["fs.read"], false);
    h.allow("io.k", &p, "always", "cli", None, "c-1", "1", "unsigned", 1_000, "t1");
    h.ask("io.k", "cluster-read", "c-2", 2_000);
    assert!(h.decisions.decision("io.k", "cluster-read").is_none());
    assert!(h.grants.standing_grants("io.k", 2_000).is_empty());
    assert_eq!(h.grants.events().last().expect("an event").action, "permission.ask");
}

#[test]
fn a_profile_allows_the_automatic_permissions_then_the_ones_it_names() {
    let mut h = host();
    let auto = permission("context", &["ctx.read"], true);
    let denied = permission("telemetry", &["net.send"], true);
    let named = permission("cluster-read", &["fs.read"], false);
    h.deny("io.k", &denied, "c-0", "1", "unsigned", 500, "t0");
    let automatic = vec![permission("context", &["ctx.read"], true), permission("telemetry", &["net.send"], true)];
    let profile = vec![auto, named];
    let minted = h.apply_profile("io.k", &automatic, &profile, "recommended", "always", "c-1", "1", "unsigned", 1_000, "t1");
    assert_eq!(minted.len(), 2);
    assert_eq!(minted[0].capability, "ctx.read");
    assert_eq!(minted[0].source, "automatic");
    assert_eq!(minted[1].capability, "fs.read");
    assert_eq!(minted[1].source, "prompt");
    assert_eq!(h.decisions.decision("io.k", "telemetry").expect("kept").record.decision, "deny");
    let events = h.grants.events();
    assert_eq!(events[1].action, "permission.profile_apply");
    assert_eq!(events[1].capability, "recommended");
}

#[test]
fn a_package_placed_by_hand_gets_its_automatic_permissions_once() {
    let mut h = host();
    let automatic = vec![permission("context", &["ctx.read"], true)];
    h.ensure_automatic("io.k", &automatic, 1_000);
    assert_eq!(h.grants.grants().len(), 1);
    assert_eq!(h.grants.grants()[0].duration, "session");
    assert_eq!(h.grants.grants()[0].source, "automatic");
    assert_eq!(h.grants.grants()[0].correlation, None);
    assert!(h.decisions.decision("io.k", "context").is_none());
    h.ensure_automatic("io.k", &automatic, 2_000);
    assert_eq!(h.grants.grants().len(), 1);
}

#[test]
fn an_install_forgets_decisions_made_for_another_key_and_applies_its_profile() {
    let mut h = host();
    let old = permission("cluster-read", &["fs.read"], false);
    h.allow("io.k", &old, "always", "cli", None, "c-0", "0.9", "ed25519:old", 500, "t0");
    let automatic = vec![permission("context", &["ctx.read"], true)];
    let named = vec![permission("cluster-write", &["fs.write"], false)];
    let (ids, decided) = h.install_permissions(
        "io.k", "ed25519:new", &automatic, &named, Some("recommended"), "io.k:install:1", "1.0", 1_000, "t1",
    );
    assert!(h.decisions.decision("io.k", "cluster-read").is_none());
    assert_eq!(ids.len(), 2);
    assert_eq!(decided, vec!["cluster-write".to_string(), "context".to_string()]);
    let d = h.decisions.decision("io.k", "cluster-write").expect("decided");
    assert_eq!(d.record.duration, "always");
    assert_eq!(d.record.publisher, "ed25519:new");
}

#[test]
fn an_install_without_a_profile_decides_nothing() {
    let mut h = host();
    let (ids, decided) = h.install_permissions("io.k", "unsigned", &vec![], &vec![], None, "c", "1.0", 1_000, "t1");
    assert!(ids.is_empty());
    assert!(decided.is_empty());
    assert!(h.grants.events().is_empty());
}

#[test]
fn undoing_an_install_leaves_nothing_standing_or_decided() {
    let mut h = host();
    let automatic = vec![permission("context", &["ctx.read"], true)];
    let named = vec![permission("cluster-write", &["fs.write"], false)];
    let (ids, decided) = h.install_permissions(
        "io.k", "unsigned", &automatic, &named, Some("recommended"), "c", "1.0", 1_000, "t1",
    );
    assert_eq!(h.grants.standing_grants("io.k", 1_500).len(), 2);
    h.undo_install("io.k", &ids, &decided, 2_000);
    assert!(h.grants.standing_grants("io.k", 2_000).is_empty());
    assert!(h.decisions.decision("io.k", "context").is_none());
    assert!(h.decisions.decision("io.k", "cluster-write").is_none());
    assert_eq!(h.grants.grants().len(), 2);
}

fn scope(pairs: &[(&str, &[&str])]) -> Vec<(String, Vec<String>)> {
    pairs.iter().map(|(k, vs)| (k.to_string(), vs.iter().map(|v| v.to_string()).collect())).collect()
}

#[test]
fn a_requests_scope_replaces_the_keys_it_names() {
    let base = scope(&[("paths", &["/a"]), ("hosts", &["x"])]);
    let named = scope(&[("paths", &["/b", "/c"]), ("ports", &["22"])]);
    assert_eq!(
        resolve_scope(Some(base.clone()), Some(&named)),
        Some(scope(&[("paths", &["/b", "/c"]), ("hosts", &["x"]), ("ports", &["22"])]))
    );
    assert_eq!(resolve_scope(None, Some(&named)), Some(named.clone()));
    assert_eq!(resolve_scope(Some(base.clone()), None), Some(base));
    assert_eq!(resolve_scope(None, None), None);
}

#[test]
fn a_capability_is_declared_under_the_class_of_its_first_request() {
    let requests = vec![
        ("fs.read".to_string(), "required".to_string()),
        ("net.connect".to_string(), "optional".to_string()),
        ("fs.read".to_string(), "runtime-requested".to_string()),
    ];
    assert_eq!(declared_class(&requests, "fs.read").as_deref(), Some("required"));
    assert_eq!(declared_class(&requests, "net.connect").as_deref(), Some("optional"));
    assert_eq!(declared_class(&requests, "fs.write"), None);
}
