use ono_cli::acquire::{
    check_acquired, entry_action, entry_leaves, fetch_policy, in_its_place, root_policy,
    roots_from, sidecar_name, sidecar_text, system_roots, unpacked_enough, unpacked_mode,
    AcquireRefusal, EntryAction, EntryKind, FetchRefusal, Origin, Preference, RootRefusal,
    SourceKind, SystemCandidate, SystemOrigin, UnpackRefusal, DEFAULT_SYSTEM_ROOT,
    SYSTEM_ORIGIN_FORMAT,
};

#[test]
fn should_search_the_standard_root_without_any_configuration() {
    assert_eq!(
        system_roots(|_| None),
        vec!["/usr/lib/ono-sendai/plugin-sources".to_string()]
    );
    assert_eq!(
        system_roots(|name| if name == "ONO_PLUGIN_SYSTEM_SOURCES" {
            Some("/a:/b".to_owned())
        } else {
            None
        }),
        vec!["/a".to_string(), "/b".to_string()]
    );
}

#[test]
fn should_read_source_words_and_refuse_others() {
    assert_eq!(Preference::parse(None).expect("default"), Preference::Default);
    assert_eq!(Preference::parse(Some("system")).expect("system"), Preference::System);
    assert!(Preference::parse(Some("apt")).is_err());
    assert!(Preference::System.admits(SourceKind::SystemPackage));
    assert!(!Preference::System.admits(SourceKind::CatalogNetwork));
}

#[test]
fn preferences_name_their_kinds() {
    assert_eq!(Preference::Lineage(SourceKind::LocalPath).word(), "local");
    assert!(Preference::Lineage(SourceKind::LocalPath).admits(SourceKind::LocalPath));
    assert!(!Preference::Lineage(SourceKind::LocalPath).admits(SourceKind::SystemPackage));
    assert!(Preference::Default.admits(SourceKind::CatalogNetwork));
    assert_eq!(Preference::parse(Some("apt")).unwrap_err().word, "apt");
    assert_eq!(SourceKind::from_id("system-package"), Some(SourceKind::SystemPackage));
    assert_eq!(SourceKind::from_id(SourceKind::CatalogNetwork.id()), Some(SourceKind::CatalogNetwork));
    assert_eq!(SourceKind::from_id("ftp"), None);
}

#[test]
fn an_empty_root_list_is_one_empty_root() {
    assert_eq!(roots_from(&Some(String::new())), vec![String::new()]);
    assert_eq!(roots_from(&None), vec![DEFAULT_SYSTEM_ROOT.to_string()]);
}

#[test]
fn roots_others_can_write_are_not_sources() {
    assert_eq!(root_policy(false, 0o755, 0, 0), Err(RootRefusal::NotADirectory));
    assert_eq!(
        root_policy(true, 0o40777, 0, 0),
        Err(RootRefusal::Writable { by_everyone: true, mode: 0o777 })
    );
    assert_eq!(
        root_policy(true, 0o775, 0, 0),
        Err(RootRefusal::Writable { by_everyone: false, mode: 0o775 })
    );
    assert_eq!(root_policy(true, 0o755, 42, 7), Err(RootRefusal::ForeignOwner { owner: 42 }));
    assert_eq!(root_policy(true, 0o755, 7, 7), Ok(()));
    assert_eq!(root_policy(true, 0o755, 0, 7), Ok(()));
}

#[test]
fn payloads_sit_under_their_id_and_version() {
    assert!(in_its_place(Some("io.x"), Some("1.0"), "io.x", "1.0"));
    assert!(!in_its_place(Some("io.x"), Some("1.1"), "io.x", "1.0"));
    assert!(!in_its_place(None, Some("1.0"), "io.x", "1.0"));
    assert_eq!(sidecar_name("1.0"), "1.0.origin.yaml");
}

#[test]
fn the_sidecar_names_the_package_and_its_manager() {
    assert_eq!(
        sidecar_text("ono-kubernetes", "apt"),
        format!("format: {SYSTEM_ORIGIN_FORMAT}\npackage: ono-kubernetes\nmanager: apt\n")
    );
}

#[test]
fn a_system_candidate_records_where_it_came_from() {
    let candidate = SystemCandidate {
        directory: "/r/io.x/1.0".into(),
        root: "/r".into(),
        origin: Some(SystemOrigin { package: "pkg".into(), manager: "apt".into() }),
    };
    let origin = candidate.origin_record(Some("official"), "sha256:ab");
    assert_eq!(origin.kind, "system-package");
    assert_eq!(origin.identity, "system:/r/io.x/1.0");
    assert_eq!(origin.system_package.as_deref(), Some("pkg"));
    assert_eq!(origin.package_manager.as_deref(), Some("apt"));
    assert_eq!(origin.source_path.as_deref(), Some("/r/io.x/1.0"));
    assert_eq!(origin.catalog.as_deref(), Some("official"));
    assert_eq!(origin.digest, "sha256:ab");
    assert_eq!(origin.source_kind(), Some(SourceKind::SystemPackage));
    assert_eq!(origin.available("1.0", Some("1.0")), Some(true));
    assert_eq!(origin.available("1.0", Some("2.0")), Some(false));
    assert_eq!(origin.available("1.0", None), Some(false));
    let network = Origin { kind: "catalog-network".into(), ..origin };
    assert_eq!(network.available("1.0", Some("1.0")), None);
}

#[test]
fn artifacts_travel_over_https() {
    assert_eq!(fetch_policy("http://x/a.kuang", false), Err(FetchRefusal::PlainHttp));
    assert_eq!(fetch_policy("http://x/a.kuang", true), Ok(()));
    assert_eq!(fetch_policy("https://x/a.kuang", false), Ok(()));
    assert_eq!(fetch_policy("ftp://x/a.kuang", true), Err(FetchRefusal::Unsupported));
}

#[test]
fn archive_entries_stay_inside_the_package() {
    assert_eq!(entry_action(EntryKind::Regular, "a/b.txt"), Ok(EntryAction::WriteFile));
    assert_eq!(entry_action(EntryKind::Directory, "a/"), Ok(EntryAction::MakeDirectory));
    assert_eq!(entry_action(EntryKind::Other, "a"), Err(UnpackRefusal::NotRegular));
    assert_eq!(entry_action(EntryKind::Regular, "../escape.yaml"), Err(UnpackRefusal::LeavesDirectory));
    assert_eq!(entry_action(EntryKind::Regular, "/etc/passwd"), Err(UnpackRefusal::LeavesDirectory));
    assert!(entry_leaves("./a"));
    assert!(entry_leaves("a/../../b"));
    assert!(!entry_leaves("a/./b"));
    assert!(!entry_leaves("a..b/c"));
    assert_eq!(unpacked_mode(0o777), 0o755);
    assert_eq!(unpacked_mode(0o000), 0o600);
    assert_eq!(unpacked_enough(0), Err(UnpackRefusal::Empty));
    assert_eq!(unpacked_enough(2), Ok(()));
}

#[test]
fn only_the_release_the_catalog_vouched_for_is_accepted() {
    assert_eq!(check_acquired("io.x", "1.0", "d1", "d2", Some(("io.x", "1.0"))), Err(AcquireRefusal::DigestMismatch));
    assert_eq!(check_acquired("io.x", "1.0", "d1", "d1", None), Err(AcquireRefusal::NoManifest));
    assert_eq!(check_acquired("io.x", "1.0", "d1", "d1", Some(("io.y", "1.0"))), Err(AcquireRefusal::NotTheRelease));
    assert_eq!(check_acquired("io.x", "1.0", "d1", "d1", Some(("io.x", "1.0"))), Ok(()));
}
