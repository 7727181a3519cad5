use ono_cli::grants::GrantLedger;
use ono_cli::host::GrantOrigin;

const NONCE: u32 = 0x0102_0304;

fn grant(ledger: &mut GrantLedger, plugin: &str, capability: &str, expires_at: Option<i128>, now: i128) -> [u8; 16] {
    ledger
        .grant(plugin, capability, None, None, "cli", "session", expires_at, GrantOrigin::default(), now)
        .id
}

#[test]
fn a_new_ledger_holds_nothing() {
    let ledger = GrantLedger::new(NONCE);
    assert_eq!(ledger.minted(), 0);
    assert!(ledger.grants().is_empty());
    assert!(ledger.events().is_empty());
}

#[test]
fn a_grant_takes_the_next_identity_and_its_event_the_one_after() {
    let mut ledger = GrantLedger::new(NONCE);
    let origin = GrantOrigin { permission: Some("cluster-read".into()), profile: None, correlation: Some("c-1".into()) };
    let g = ledger.grant("io.k", "process.spawn", None, Some("jit".into()), "prompt", "always", None, origin, 1_000);
    assert_eq!(g.id, [0, 0, 1, 2, 3, 4, 0x40, 5, 0x80, 1, 0, 0, 0, 0, 0, 1]);
    assert_eq!(g.plugin, "io.k");
    assert_eq!(g.capability, "process.spawn");
    assert_eq!(g.class.as_deref(), Some("jit"));
    assert_eq!(g.source, "prompt");
    assert_eq!(g.duration, "always");
    assert_eq!(g.granted_at, 1_000);
    assert_eq!(g.revoked_at, None);
    assert_eq!(g.permission.as_deref(), Some("cluster-read"));
    assert_eq!(g.correlation.as_deref(), Some("c-1"));
    assert_eq!(ledger.minted(), 2);
    assert_eq!(ledger.grants().len(), 1);
    let event = &ledger.events()[0];
    assert_eq!(event.id, [0xff, 0xff, 0xff, 0xff, 3, 4, 0x40, 5, 0x80, 1, 0, 0, 0, 0, 0, 2]);
    assert_eq!(event.action, "capability.grant");
    assert_eq!(event.plugin, "io.k");
    assert_eq!(event.capability, "process.spawn");
    assert!(event.ok);
    assert_eq!(event.correlation.as_deref(), Some("c-1"));
    assert_eq!(event.at, 1_000);
}

#[test]
fn a_lease_stands_only_inside_its_window() {
    let mut ledger = GrantLedger::new(NONCE);
    grant(&mut ledger, "io.k", "net.connect", Some(5_000), 1_000);
    grant(&mut ledger, "io.k", "fs.read", None, 1_000);
    grant(&mut ledger, "io.other", "fs.read", None, 1_000);
    assert_eq!(ledger.standing_grants("io.k", 4_999).len(), 2);
    let later = ledger.standing_grants("io.k", 5_000);
    assert_eq!(later.len(), 1);
    assert_eq!(later[0].capability, "fs.read");
}

#[test]
fn a_revoked_grant_is_kept_and_revoked_once() {
    let mut ledger = GrantLedger::new(NONCE);
    let id = grant(&mut ledger, "io.k", "fs.read", None, 1_000);
    let revoked = ledger.revoke(id, 2_000).expect("the grant stands");
    assert_eq!(revoked.revoked_at, Some(2_000));
    assert_eq!(ledger.grants().len(), 1);
    assert_eq!(ledger.grants()[0].revoked_at, Some(2_000));
    assert_eq!(ledger.events().len(), 2);
    assert_eq!(ledger.events()[1].action, "capability.revoke");
    assert_eq!(ledger.events()[1].id, [0xff, 0xff, 0xff, 0xff, 3, 4, 0x40, 5, 0x80, 1, 0, 0, 0, 0, 0, 3]);
    assert!(ledger.revoke(id, 3_000).is_none());
    assert_eq!(ledger.events().len(), 2);
    assert_eq!(ledger.minted(), 3);
    assert!(ledger.standing_grants("io.k", 2_500).is_empty());
}

#[test]
fn an_unknown_identity_revokes_nothing() {
    let mut ledger = GrantLedger::new(NONCE);
    grant(&mut ledger, "io.k", "fs.read", None, 1_000);
    assert!(ledger.revoke([7; 16], 2_000).is_none());
    assert_eq!(ledger.minted(), 2);
    assert_eq!(ledger.grants()[0].revoked_at, None);
}

#[test]
fn a_correlated_revocation_stamps_the_grant_and_its_event() {
    let mut ledger = GrantLedger::new(NONCE);
    let id = grant(&mut ledger, "io.k", "fs.read", None, 1_000);
    let revoked = ledger.revoke_correlated(id, "remove-42", 2_000).expect("the grant stands");
    assert_eq!(revoked.correlation.as_deref(), Some("remove-42"));
    assert_eq!(ledger.events()[1].correlation.as_deref(), Some("remove-42"));
}

#[test]
fn removing_a_package_revokes_what_stands_for_it_and_nothing_else() {
    let mut ledger = GrantLedger::new(NONCE);
    grant(&mut ledger, "io.k", "fs.read", None, 1_000);
    grant(&mut ledger, "io.other", "fs.read", None, 1_000);
    grant(&mut ledger, "io.k", "net.connect", Some(1_500), 1_000);
    grant(&mut ledger, "io.k", "fs.write", None, 1_000);
    let ended = ledger.revoke_grants_of("io.k", 2_000);
    assert_eq!(ended, 2);
    assert_eq!(ledger.grants().len(), 4);
    assert_eq!(ledger.grants()[0].revoked_at, Some(2_000));
    assert_eq!(ledger.grants()[1].revoked_at, None);
    assert_eq!(ledger.grants()[2].revoked_at, None);
    assert_eq!(ledger.grants()[3].revoked_at, Some(2_000));
    assert!(ledger.standing_grants("io.k", 2_000).is_empty());
    assert_eq!(ledger.standing_grants("io.other", 2_000).len(), 1);
    assert_eq!(ledger.events().len(), 6);
    assert_eq!(ledger.events()[4].capability, "fs.read");
    assert_eq!(ledger.events()[5].capability, "fs.write");
    assert_eq!(ledger.minted(), 10);
}

#[test]
fn two_sessions_never_mint_the_same_identity() {
    let mut one = GrantLedger::new(1);
    let mut two = GrantLedger::new(2);
    let a = grant(&mut one, "io.k", "fs.read", None, 1);
    let b = grant(&mut two, "io.k", "fs.read", None, 1);
    assert_ne!(a, b);
    assert_eq!(a[10..], b[10..]);
    let c = grant(&mut one, "io.k", "fs.read", None, 1);
    assert_ne!(a, c);
}
