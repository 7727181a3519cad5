use ono_cli::catalog::{
    ambiguous_message, cache_dir, check_release, contains_chars, expand_home, join_any_path, local_sources,
    no_catalog_message, not_found_message, release_places, Candidate, Catalog, CatalogEntry, CatalogRelease, CatalogVerification,
    Catalogs, QualifiedResolution, mentioned, ReleaseRefusal, WordResolution,
};

fn entry(id: &str, name: &str) -> CatalogEntry {
    CatalogEntry {
        id: id.into(),
        name: name.into(),
        description: format!("about {id}"),
        publisher: "p".into(),
        releases: vec![CatalogRelease { version: "1.0".into(), artifact: "path:~/x".into(), digest: None }],
    }
}

fn catalogs() -> Catalogs {
    Catalogs {
        catalogs: vec![
            Catalog {
                name: "official".into(),
                verification: CatalogVerification::BuiltIn,
                entries: vec![entry("io.a.kubernetes", "kubernetes"), entry("io.a.git", "git")],
            },
            Catalog {
                name: "ops".into(),
                verification: CatalogVerification::Operator,
                entries: vec![entry("io.a.kubernetes", "kubernetes"), entry("io.b.git", "git"), entry("io.c.Docker", "docker")],
            },
        ],
    }
}

#[test]
fn the_same_id_in_two_catalogs_is_one_package() {
    assert_eq!(
        catalogs().resolve_word("kubernetes", false, false, false),
        WordResolution::Found { catalog: 0, entry: 0 }
    );
}

#[test]
fn different_packages_under_one_name_are_ambiguous() {
    assert_eq!(
        catalogs().resolve_word("git", false, false, true),
        WordResolution::Ambiguous {
            candidates: vec![
                Candidate { id: "io.a.git".into(), selector: "official/git".into(), description: "about io.a.git".into() },
                Candidate { id: "io.b.git".into(), selector: "ops/git".into(), description: "about io.b.git".into() },
            ]
        }
    );
}

#[test]
fn a_word_resolves_id_first_then_installed_then_names() {
    let cats = catalogs();
    assert_eq!(cats.resolve_word("io.b.git", true, true, true), WordResolution::Found { catalog: 1, entry: 1 });
    assert_eq!(cats.resolve_word("io.z.none", true, true, false), WordResolution::InstalledId);
    assert_eq!(cats.resolve_word("none", false, false, true), WordResolution::InstalledName);
    assert_eq!(cats.resolve_word("none", false, false, false), WordResolution::NotFound);
}

#[test]
fn a_catalog_qualified_name_resolves_in_that_catalog() {
    let cats = catalogs();
    assert_eq!(cats.resolve_qualified("ops", "git"), QualifiedResolution::Found { catalog: 1, entry: 1 });
    assert_eq!(cats.resolve_qualified("ops", "nothing"), QualifiedResolution::NotFound);
    assert_eq!(
        cats.resolve_qualified("nowhere", "git"),
        QualifiedResolution::NoSuchCatalog { names: vec!["official".into(), "ops".into()] }
    );
    let doubled = Catalogs {
        catalogs: vec![Catalog {
            name: "c".into(),
            verification: CatalogVerification::Operator,
            entries: vec![entry("io.x", "x"), entry("io.y", "x")],
        }],
    };
    assert_eq!(
        doubled.resolve_qualified("c", "x"),
        QualifiedResolution::Ambiguous {
            candidates: vec![
                Candidate { id: "io.x".into(), selector: "io.x".into(), description: "about io.x".into() },
                Candidate { id: "io.y".into(), selector: "io.y".into(), description: "about io.y".into() },
            ]
        }
    );
}

#[test]
fn catalog_names_are_claimed_once() {
    let cats = catalogs();
    assert_eq!(cats.named("ops").map(|c| c.entries.len()), Some(3));
    assert!(cats.named("missing").is_none());
    assert!(!cats.admits("official"));
    assert!(cats.admits("third"));
}

#[test]
fn search_compares_in_lower_case_and_lists_each_id_once() {
    assert_eq!(catalogs().search("DOCK"), vec![(1, 2)]);
    assert_eq!(catalogs().search("kube"), vec![(0, 0)]);
    assert_eq!(catalogs().search("git"), vec![(0, 1), (1, 1)]);
    let hay: Vec<char> = "abcabd".chars().collect();
    assert!(contains_chars(&hay, &"abd".chars().collect::<Vec<char>>()));
    assert!(!contains_chars(&hay, &"abe".chars().collect::<Vec<char>>()));
    assert!(contains_chars(&hay, &[]));
}

#[test]
fn a_tilde_is_the_home() {
    assert_eq!(expand_home("~/pkgs", Some("/home/u")), "/home/u/pkgs");
    assert_eq!(expand_home("~", Some("/home/u")), "/home/u");
    assert_eq!(expand_home("~", None), "~");
    assert_eq!(expand_home("~/x", None), "~/x");
    assert_eq!(expand_home("/abs", Some("/home/u")), "/abs");
    assert_eq!(join_any_path("/home/u", "/etc"), "/etc");
}

#[test]
fn local_sources_follow_the_environment() {
    assert_eq!(
        local_sources(|name| if name == "ONO_PLUGIN_SOURCES" { Some("/a:/b".into()) } else { None }, None),
        vec!["/a".to_string(), "/b".to_string()]
    );
    assert_eq!(
        local_sources(|name| if name == "XDG_DATA_HOME" { Some("/d".into()) } else { None }, Some("/home/u")),
        vec!["/d/ono/packages".to_string(), "/usr/share/ono/packages".to_string()]
    );
    assert_eq!(
        local_sources(|_| None, Some("/home/u")),
        vec!["/home/u/.local/share/ono/packages".to_string(), "/usr/share/ono/packages".to_string()]
    );
    assert_eq!(local_sources(|_| None, None), vec!["/usr/share/ono/packages".to_string()]);
    assert_eq!(
        cache_dir(|name| if name == "XDG_CACHE_HOME" { Some("/c".into()) } else { None }, None),
        Some("/c/ono/kuang/packages".to_string())
    );
    assert_eq!(cache_dir(|_| None, Some("/home/u")), Some("/home/u/.cache/ono/kuang/packages".to_string()));
    assert_eq!(cache_dir(|_| None, None), None);
}

#[test]
fn a_release_is_looked_for_in_cache_then_sources_then_its_own_path() {
    let places = release_places(
        Some("/c"),
        &vec!["/s1".to_string(), "/s2".to_string()],
        "io.x",
        "1.0",
        "path:~/dev/x",
        Some("/home/u"),
    );
    assert_eq!(
        places,
        vec![
            ("/c/io.x/1.0".to_string(), "path:/c/io.x/1.0".to_string()),
            ("/s1/io.x".to_string(), "path:/s1/io.x".to_string()),
            ("/s2/io.x".to_string(), "path:/s2/io.x".to_string()),
            ("/home/u/dev/x".to_string(), "path:~/dev/x".to_string()),
        ]
    );
    assert_eq!(release_places(None, &vec![], "io.x", "1.0", "https://x", None), vec![]);
}

#[test]
fn a_local_release_is_the_entry_and_its_digest() {
    assert_eq!(check_release("io.x", "io.y", None, "d"), Err(ReleaseRefusal::OtherPackage));
    assert_eq!(check_release("io.x", "io.x", Some("d1"), "d2"), Err(ReleaseRefusal::DigestMismatch));
    assert_eq!(check_release("io.x", "io.x", Some("d1"), "d1"), Ok(()));
    assert_eq!(check_release("io.x", "io.x", None, "d2"), Ok(()));
}

#[test]
fn a_refused_reference_is_told_why() {
    assert_eq!(not_found_message("k8s"), "no installed package and no catalog entry answers to `k8s`");
    let candidates = vec![
        Candidate { id: "io.a.k8s".into(), selector: "official/k8s".into(), description: "A".into() },
        Candidate { id: "io.b.k8s".into(), selector: "extra/k8s".into(), description: "B".into() },
    ];
    assert_eq!(
        ambiguous_message("k8s", &candidates),
        "`k8s` names 2 packages: io.a.k8s (official/k8s), io.b.k8s (extra/k8s)"
    );
    let (message, help) = no_catalog_message("nope", &vec!["official".to_string(), "extra".to_string()]);
    assert_eq!(message, "no catalog is named `nope`");
    assert_eq!(help, "the catalogs are `official`, `extra`");
}

#[test]
fn a_term_in_small_letters_is_found_in_an_id_or_a_name() {
    assert!(mentioned("io.acme.tools", "tools", "acme"));
    assert!(mentioned("io.x", "kubernetes tools", "tools"));
    assert!(!mentioned("io.x", "y", "z"));
    assert!(mentioned("io.x", "y", ""));
}
