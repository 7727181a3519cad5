use ono_cli::acquire::SourceKind;
use ono_cli::packages::{
    ambiguous_message, kept, lists, no_manifest_message, not_installed_message, records_source, reference_kind,
    resolve_installed, unsearched_message, unsupported_message, InstalledResolution, RecordsSource, ReferenceKind,
};

fn strings(items: &[&str]) -> Vec<String> {
    items.iter().map(|s| s.to_string()).collect()
}

#[test]
fn a_path_reference_names_a_directory() {
    assert_eq!(reference_kind("path:/srv/pkgs/k8s"), ReferenceKind::Directory("/srv/pkgs/k8s".into()));
    assert_eq!(reference_kind("path:"), ReferenceKind::Directory(String::new()));
}

#[test]
fn schemes_this_build_does_not_resolve_are_refused() {
    assert_eq!(reference_kind("oci:ghcr.io/x/y"), ReferenceKind::Unsupported("oci".into()));
    assert_eq!(reference_kind("git:https://example.com/r.git"), ReferenceKind::Unsupported("git".into()));
    assert_eq!(reference_kind("file:/tmp/x"), ReferenceKind::Unsupported("file".into()));
    assert_eq!(reference_kind("registry:k8s"), ReferenceKind::Unsupported("registry".into()));
    assert_eq!(unsupported_message("oci"), "the `oci:` source scheme is not available in this build");
}

#[test]
fn anything_else_names_an_installed_package() {
    assert_eq!(reference_kind("io.github.example.k8s"), ReferenceKind::Installed);
    assert_eq!(reference_kind("https://example.com"), ReferenceKind::Installed);
    assert_eq!(reference_kind("official/k8s"), ReferenceKind::Installed);
}

#[test]
fn an_installed_package_answers_to_its_id_first() {
    let ids = strings(&["io.a.k8s", "io.b.k8s", "k8s"]);
    let names = strings(&["k8s", "k8s", "other"]);
    assert_eq!(resolve_installed(&ids, &names, "io.b.k8s"), InstalledResolution::Found(1));
    assert_eq!(resolve_installed(&ids, &names, "k8s"), InstalledResolution::Found(2));
}

#[test]
fn a_name_one_package_carries_names_it() {
    let ids = strings(&["io.a.k8s", "io.b.git"]);
    let names = strings(&["k8s", "git"]);
    assert_eq!(resolve_installed(&ids, &names, "git"), InstalledResolution::Found(1));
    assert_eq!(resolve_installed(&ids, &names, "svn"), InstalledResolution::NotFound);
    assert_eq!(not_installed_message("svn"), "no installed package answers to `svn`");
}

#[test]
fn a_shared_name_is_refused_with_every_candidate() {
    let ids = strings(&["io.a.k8s", "io.c.other", "io.b.k8s"]);
    let names = strings(&["k8s", "other", "k8s"]);
    let r = resolve_installed(&ids, &names, "k8s");
    assert_eq!(r, InstalledResolution::Ambiguous(strings(&["io.a.k8s", "io.b.k8s"])));
    assert_eq!(
        ambiguous_message("k8s", &strings(&["io.a.k8s", "io.b.k8s"])),
        "`k8s` names 2 installed packages: io.a.k8s, io.b.k8s"
    );
}

#[test]
fn a_directory_without_a_manifest_says_so() {
    assert_eq!(no_manifest_message("/srv/empty"), "/srv/empty holds no `manifest.yaml`");
}

#[test]
fn find_reads_its_source_word() {
    assert_eq!(records_source(None), RecordsSource::Everywhere);
    assert_eq!(records_source(Some("system")), RecordsSource::Kind(SourceKind::SystemPackage));
    assert_eq!(records_source(Some("catalog")), RecordsSource::Kind(SourceKind::CatalogNetwork));
    assert_eq!(records_source(Some("local")), RecordsSource::Kind(SourceKind::LocalPath));
    assert_eq!(records_source(Some("path:/srv")), RecordsSource::Directory("/srv".into()));
    assert_eq!(records_source(Some("apt")), RecordsSource::Refused);
    assert_eq!(unsearched_message("apt"), "`apt` is not a source this build searches");
}

#[test]
fn a_narrowed_search_keeps_only_its_kind() {
    let narrowed = RecordsSource::Kind(SourceKind::SystemPackage);
    assert!(kept(&narrowed, SourceKind::SystemPackage));
    assert!(!kept(&narrowed, SourceKind::LocalPath));
    assert!(kept(&RecordsSource::Everywhere, SourceKind::LocalPath));
}

#[test]
fn find_lists_packages_whose_id_or_name_mentions_the_term() {
    assert!(lists("io.github.example.Kubernetes", "k8s", "kube"));
    assert!(lists("io.example.x", "Kubernetes", "KUBE"));
    assert!(!lists("io.example.x", "git", "kube"));
    assert!(lists("io.example.x", "git", ""));
}

#[test]
fn listing_ignores_case() {
    assert!(lists("io.Acme.Tools", "Tools", "ACME"));
    assert!(!lists("io.a", "b", "c"));
}
