use ono_cli::trust::{
    entries_of, system_path, trusted_word, user_path, Origin, RawTrustEntry, Standing, Trust, TrustEntry,
    TrustStore, TrustStoreError, store_entries, TrustStoreRead,
};

fn entry(origin: Origin, publisher: &str, key: &str, standing: Standing) -> TrustEntry {
    TrustEntry { origin, publisher: publisher.into(), key: key.into(), standing }
}

#[test]
fn a_revocation_wins_over_a_trust() {
    let store = TrustStore::new(
        vec![entry(Origin::System, "io.a", "k", Standing::Trusted)],
        vec![entry(Origin::User, "io.a", "k", Standing::Revoked)],
    );
    assert_eq!(store.judge("io.a", "k"), Trust::Untrusted);
    assert!(Trust::Untrusted.blocks());
    assert_eq!(Trust::Untrusted.name(), "untrusted");
}

#[test]
fn a_key_vouches_only_for_its_publisher() {
    let store = TrustStore::new(vec![entry(Origin::System, "io.a", "k", Standing::Trusted)], vec![]);
    assert_eq!(store.judge("io.a", "k"), Trust::SystemTrusted);
    assert_eq!(store.judge("io.b", "k"), Trust::Unknown);
    assert_eq!(store.judge("io.a", "other"), Trust::Unknown);
}

#[test]
fn the_machines_trust_outranks_the_operators() {
    let store = TrustStore::new(
        vec![entry(Origin::System, "io.a", "k", Standing::Trusted)],
        vec![entry(Origin::User, "io.a", "k", Standing::Trusted)],
    );
    assert_eq!(store.judge("io.a", "k"), Trust::SystemTrusted);
    let user_only = TrustStore::new(vec![], vec![entry(Origin::User, "io.a", "k", Standing::Trusted)]);
    assert_eq!(user_only.judge("io.a", "k"), Trust::UserTrusted);
    assert!(!Trust::UserTrusted.blocks());
}

#[test]
fn an_empty_store_knows_nobody() {
    let store = TrustStore::new(vec![], vec![]);
    assert!(store.is_empty());
    assert_eq!(store.len(), 0);
    assert_eq!(store.judge("io.a", "k"), Trust::Unknown);
}

#[test]
fn an_unreadable_store_is_shown_and_not_empty() {
    let (store, problems) = TrustStore::combine(
        Err(TrustStoreError::Unreadable("bad yaml".into())),
        Ok(vec![entry(Origin::User, "io.a", "k", Standing::Trusted)]),
    );
    assert_eq!(store.len(), 1);
    assert_eq!(problems, vec![TrustStoreError::Unreadable("bad yaml".into())]);
}

#[test]
fn store_documents_are_checked() {
    let raw = |trust: &str| vec![RawTrustEntry { publisher: "io.a".into(), key: "k".into(), trust: trust.into() }];
    assert_eq!(entries_of(Origin::User, "kuang-trust/1", raw("trusted")).map(|v| v.len()), Ok(1));
    assert_eq!(
        entries_of(Origin::User, "kuang-trust/2", raw("trusted")).map(|v| v.len()),
        Err(TrustStoreError::UnknownFormat("kuang-trust/2".into()))
    );
    assert_eq!(
        entries_of(Origin::User, "kuang-trust/1", raw("maybe")).map(|v| v.len()),
        Err(TrustStoreError::UnknownStanding("maybe".into()))
    );
    assert_eq!(system_path(None), "/etc/ono/kuang/trust.yaml");
    assert_eq!(system_path(Some("/x.yaml".into())), "/x.yaml");
    assert_eq!(user_path(Some("/cfg".into())), Some("/cfg/kuang/trust.yaml".to_string()));
    assert_eq!(user_path(None), None);
    assert_eq!(trusted_word(), "trusted");
}

#[test]
fn an_unreadable_store_is_refused_and_a_missing_one_enrols_nothing() {
    assert_eq!(store_entries(Origin::User, TrustStoreRead::Missing).map(|v| v.len()), Ok(0));
    assert_eq!(
        store_entries(Origin::User, TrustStoreRead::Unreadable("permission denied".into())).map(|v| v.len()),
        Err(TrustStoreError::Unreadable("permission denied".into()))
    );
    assert_eq!(
        store_entries(Origin::User, TrustStoreRead::Malformed("not yaml".into())).map(|v| v.len()),
        Err(TrustStoreError::Unreadable("not yaml".into()))
    );
    let keys = vec![RawTrustEntry { publisher: "acme".into(), key: "ed25519:a".into(), trust: "trusted".into() }];
    assert_eq!(
        store_entries(Origin::System, TrustStoreRead::Document { format: "kuang-trust/1".into(), keys }).map(|v| v.len()),
        Ok(1)
    );
}
