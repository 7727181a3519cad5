use ono_cli::host::{degraded_reason, install_destination, request_state};
use ono_cli::host::{
    allow_word, Contributions, definition_id, enabled_by_default, isolation, isolation_statement, mint_bytes, provider_id,
    readiness, role_name, session_nonce, source_of, standing_of, stands_at, trust_word,
    verification_outcome, Check, GrantOrigin, InstanceState, Management, PackageFacts, Role,
    RuntimeKind, SignatureState,
};
use ono_cli::trust::{Origin, Standing, Trust, TrustEntry, TrustStore};

fn store() -> TrustStore {
    TrustStore::new(
        vec![TrustEntry { origin: Origin::System, publisher: "io.a".into(), key: "ed25519:k".into(), standing: Standing::Trusted }],
        vec![TrustEntry { origin: Origin::User, publisher: "io.b".into(), key: "ed25519:r".into(), standing: Standing::Revoked }],
    )
}

#[test]
fn a_package_nobody_decided_about_is_enabled() {
    let m = Management::default();
    assert!(m.enabled && enabled_by_default());
    assert!(m.installed_from.is_none() && m.origin.is_none() && !m.background);
    let g = GrantOrigin::default();
    assert!(g.permission.is_none() && g.profile.is_none() && g.correlation.is_none());
    assert_eq!(provider_id(), "ono.session");
    assert_eq!(allow_word(), "allow");
    let c = Contributions::default();
    assert!(c.commands.is_empty() && c.targets.is_empty() && c.schemas.is_empty() && c.views.is_empty());
}

#[test]
fn a_grant_stands_until_revoked_or_expired() {
    assert!(stands_at(false, None, 5));
    assert!(stands_at(false, Some(6), 5));
    assert!(!stands_at(false, Some(5), 5));
    assert!(!stands_at(true, None, 5));
}

#[test]
fn runtimes_and_roles_have_words() {
    assert_eq!(isolation(Some(RuntimeKind::NativeProcess)), "trusted-native");
    assert_eq!(isolation(Some(RuntimeKind::WasmComponent)), "isolated-component");
    assert_eq!(isolation(None), "core-built-in");
    assert!(isolation_statement(Some(RuntimeKind::NativeProcess)).contains("not complete filesystem or network isolation"));
    assert_eq!(isolation_statement(None), "This package runs no code; it contributes declarations only.");
    assert_eq!(role_name(Role::EventProcessor), "event-processor");
    assert_eq!(source_of(Some("path:/x"), "/y"), "path:/x");
    assert_eq!(source_of(None, "/y"), "path:/y");
}

#[test]
fn trust_words_follow_the_signature_and_the_standing() {
    assert_eq!(trust_word(SignatureState::Absent, Trust::SystemTrusted), "local");
    assert_eq!(trust_word(SignatureState::Invalid, Trust::SystemTrusted), "untrusted");
    assert_eq!(trust_word(SignatureState::Valid, Trust::Untrusted), "untrusted");
    assert_eq!(trust_word(SignatureState::Valid, Trust::UserTrusted), "verified");
    assert_eq!(trust_word(SignatureState::Valid, Trust::Unknown), "signed");
}

#[test]
fn a_revocation_anywhere_wins() {
    let s = store();
    assert_eq!(standing_of(false, Some(("io.a", "ed25519:k")), None, &s), Trust::SystemTrusted);
    assert_eq!(standing_of(false, Some(("io.a", "ed25519:k")), Some(Trust::Untrusted), &s), Trust::Untrusted);
    assert_eq!(standing_of(false, Some(("io.b", "ed25519:r")), Some(Trust::SystemTrusted), &s), Trust::Untrusted);
    assert_eq!(standing_of(false, None, Some(Trust::UserTrusted), &s), Trust::UserTrusted);
    assert_eq!(standing_of(true, Some(("io.a", "ed25519:k")), None, &s), Trust::Unknown);
    assert_eq!(standing_of(false, None, None, &s), Trust::Unknown);
}

#[test]
fn readiness_is_derived() {
    assert_eq!(readiness(Some(InstanceState::Active), false, true, Trust::Untrusted, 3), "running");
    assert_eq!(readiness(Some(InstanceState::Quarantined), true, false, Trust::Unknown, 0), "blocked");
    assert_eq!(readiness(None, false, false, Trust::Unknown, 0), "blocked");
    assert_eq!(readiness(None, true, true, Trust::Unknown, 0), "blocked");
    assert_eq!(readiness(Some(InstanceState::Idle), true, false, Trust::Untrusted, 0), "blocked");
    assert_eq!(readiness(None, true, false, Trust::Unknown, 2), "needs-permission");
    assert_eq!(readiness(None, true, false, Trust::Unknown, 0), "ready");
}

fn facts() -> PackageFacts {
    PackageFacts {
        id: "io.a.k".into(),
        signature: SignatureState::Valid,
        document: Some(("io.a".into(), "ed25519:k".into())),
        has_identity: false,
        standing: Trust::SystemTrusted,
        recorded_integrity: Some("h".into()),
        actual_integrity: "h".into(),
        compatible: true,
        runtime: Some(RuntimeKind::WasmComponent),
    }
}

#[test]
fn a_verified_package_has_nothing_blocking() {
    let outcome = verification_outcome("path:/x", 0, Some(facts()));
    assert_eq!(outcome.package, "io.a.k");
    assert_eq!(outcome.integrity, "valid");
    assert_eq!(outcome.signature, "valid");
    assert_eq!(outcome.publisher.as_deref(), Some("io.a"));
    assert_eq!(outcome.key.as_deref(), Some("ed25519:k"));
    assert_eq!(outcome.trust, Trust::SystemTrusted);
    assert_eq!(outcome.compatibility, "compatible");
    assert_eq!(outcome.runtime, "isolated-component");
    assert!(outcome.blocking.is_empty());
    assert_eq!(outcome.warnings, vec!["transparency: unknown".to_string()]);
}

#[test]
fn what_fails_blocks_in_check_order() {
    let f = PackageFacts {
        signature: SignatureState::Invalid,
        recorded_integrity: Some("old".into()),
        compatible: false,
        ..facts()
    };
    let outcome = verification_outcome("path:/x", 1, Some(f));
    assert_eq!(outcome.blocking, vec![Check::Publisher, Check::Signature, Check::Integrity, Check::Compatibility]);
    assert_eq!(outcome.publisher, None);
    assert_eq!(outcome.trust, Trust::Unknown);
    assert_eq!(outcome.warnings, vec!["transparency: unknown".to_string(), "signature: invalid".to_string()]);
    let missing = verification_outcome("path:/x", 0, None);
    assert_eq!(missing.blocking, vec![Check::Manifest]);
    assert_eq!(missing.package, "path:/x");
    assert_eq!(missing.manifest, "invalid");
    assert_eq!(Check::Integrity.word(), "integrity");
}

#[test]
fn an_unknown_signer_and_an_unrecorded_hash_are_warned_about() {
    let f = PackageFacts { standing: Trust::Unknown, recorded_integrity: None, ..facts() };
    let outcome = verification_outcome("path:/x", 0, Some(f));
    assert!(outcome.blocking.is_empty());
    assert_eq!(outcome.integrity, "unknown");
    assert_eq!(
        outcome.warnings,
        vec![
            "transparency: unknown".to_string(),
            "trust: unknown, no trust store enrols this key for this publisher".to_string(),
            "integrity: unknown, no hash was recorded".to_string(),
        ]
    );
    let revoked = PackageFacts { standing: Trust::Untrusted, ..facts() };
    assert_eq!(verification_outcome("p", 0, Some(revoked)).blocking, vec![Check::Publisher]);
}

#[test]
fn a_definition_is_the_same_row_in_every_session() {
    assert_eq!(
        definition_id(""),
        [0xe3, 0xb0, 0xc4, 0x42, 0x98, 0xfc, 0x4c, 0x14, 0x9a, 0xfb, 0xf4, 0xc8, 0x99, 0x6f, 0xb9, 0x24]
    );
    assert_eq!(definition_id("process.spawn"), definition_id("process.spawn"));
    assert_ne!(definition_id("process.spawn"), definition_id("net.connect"));
}

#[test]
fn minted_identities_carry_the_nonce_and_the_counter() {
    assert_eq!(session_nonce(0, 0), 1);
    assert_eq!(session_nonce(5, 0), 5);
    assert_eq!(session_nonce(0, 3), 3);
    assert_eq!(
        mint_bytes(0x01020304, 0x0000_0a0b_0c0d_0e0f),
        [0, 0, 1, 2, 3, 4, 0x40, 4 ^ 1, 0x80, 3 ^ 2, 0x0a, 0x0b, 0x0c, 0x0d, 0x0e, 0x0f]
    );
}

#[test]
fn a_degraded_instance_names_what_it_was_denied() {
    assert_eq!(degraded_reason(&vec![]), None);
    let denied = vec![
        ("net.connect".to_string(), "declined at the prompt".to_string()),
        ("fs.write".to_string(), "denied by policy".to_string()),
    ];
    assert_eq!(
        degraded_reason(&denied).as_deref(),
        Some("net.connect not granted (declined at the prompt); fs.write not granted (denied by policy)")
    );
}

#[test]
fn a_request_is_granted_denied_or_not_requested_yet() {
    assert_eq!(request_state(false, true), "not-requested-yet");
    assert_eq!(request_state(true, true), "granted");
    assert_eq!(request_state(true, false), "denied");
}

#[test]
fn a_package_installs_under_the_first_plugin_directory() {
    let path = vec!["/home/u/.config/ono/plugins".to_string(), "/usr/share/ono/plugins".to_string()];
    assert_eq!(
        install_destination(&path, "io.example.k8s").as_deref(),
        Some("/home/u/.config/ono/plugins/io.example.k8s")
    );
    assert_eq!(install_destination(&vec![], "io.example.k8s"), None);
}
