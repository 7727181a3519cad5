use ono_cli::expand::{
    exactly_one, expansion_of, is_pattern, join, lookup, matching_names, read_name, read_name_classed, substitute,
    ExpandError, ExpansionScope,
    glob_components, glob_step, unescape, walked_paths, GlobComponent,
};
use ono_cli::glob;

fn scope() -> ExpansionScope {
    ExpansionScope {
        home: Some("/home/u".into()),
        status: "0".into(),
        bindings: vec![("x".into(), "*".into()), ("name".into(), "bound".into())],
        environment: vec![("name".into(), "env".into()), ("PATH".into(), "/bin".into())],
    }
}

fn chars(s: &str) -> Vec<char> {
    s.chars().collect()
}

#[test]
fn a_variables_value_never_globs() {
    let s = substitute(&scope(), "$x");
    assert_eq!((s.text, s.has_pattern, s.pattern), ("*".to_string(), false, "\\*".to_string()));
    let s = substitute(&scope(), "*.rs");
    assert_eq!((s.text, s.has_pattern, s.pattern), ("*.rs".to_string(), true, "*.rs".to_string()));
    let s = substitute(&scope(), "\\*.rs");
    assert_eq!((s.text, s.has_pattern, s.pattern), ("*.rs".to_string(), false, "\\*.rs".to_string()));
}

#[test]
fn substitution_reads_tilde_status_bindings_and_environment() {
    assert_eq!(substitute(&scope(), "~/src").text, "/home/u/src");
    assert_eq!(substitute(&scope(), "a~").text, "a~");
    assert_eq!(substitute(&scope(), "$?").text, "0");
    assert_eq!(substitute(&scope(), "$name").text, "bound");
    assert_eq!(substitute(&scope(), "${env.name}").text, "env");
    assert_eq!(substitute(&scope(), "$missing!").text, "!");
    assert_eq!(substitute(&scope(), "cost $").text, "cost $");
    assert_eq!(lookup(&scope(), &chars("status")), chars("0"));
    assert_eq!(lookup(&scope(), &chars("PATH")), chars("/bin"));
}

#[test]
fn names_are_read_after_the_dollar() {
    assert_eq!(read_name(&chars("$abc/d"), 1), Some((chars("abc"), 4)));
    assert_eq!(read_name(&chars("${a b}"), 1), Some((chars("a b"), 6)));
    assert_eq!(read_name(&chars("$?x"), 1), Some((chars("?"), 2)));
    assert_eq!(read_name(&chars("$ x"), 1), None);
    assert_eq!(read_name(&chars("${}"), 1), None);
}

#[test]
fn a_pattern_that_matches_nothing_is_refused() {
    assert_eq!(expansion_of("plain".into(), false, vec![]), Ok(vec!["plain".to_string()]));
    assert_eq!(
        expansion_of("*.zz".into(), true, vec![]),
        Err(ExpandError::NoMatch { pattern: "*.zz".into() })
    );
    assert_eq!(expansion_of("*.rs".into(), true, vec!["a.rs".into()]), Ok(vec!["a.rs".to_string()]));
    assert_eq!(exactly_one("out".into(), vec!["o".into()]), Ok("o".to_string()));
    assert_eq!(
        exactly_one("*.txt".into(), vec!["a".into(), "b".into()]),
        Err(ExpandError::NotOnePath { text: "*.txt".into(), count: 2 })
    );
}

#[test]
fn paths_join_and_components_glob() {
    assert_eq!(join("", "a", false), "a");
    assert_eq!(join("/", "a", false), "/a");
    assert_eq!(join("x", "a", false), "x/a");
    assert_eq!(join("x", "a", true), "a");
    assert!(is_pattern("*.rs"));
    assert!(!is_pattern("\\*.rs"));
    assert!(!is_pattern("plain"));
    assert_eq!(
        matching_names("*.rs", &vec!["a.rs".into(), ".b.rs".into(), "c.txt".into(), "d.rs".into()]),
        vec!["a.rs".to_string(), "d.rs".to_string()]
    );
}

#[test]
fn a_name_is_read_by_how_its_characters_are_classed() {
    let text = chars("$a1._x");
    let alphabetic = vec![false, true, false, false, false, true];
    let alphanumeric = vec![false, true, true, false, false, true];
    assert_eq!(read_name_classed(&text, &alphabetic, &alphanumeric, 1), Some((chars("a1._x"), 6)));
    // Whatever is classed as no letter cannot begin a name.
    let nothing = vec![false; 6];
    assert_eq!(read_name_classed(&text, &nothing, &nothing, 1), None);
    // A trailing `.` is not part of the name.
    let dotted = chars("$a.");
    assert_eq!(read_name_classed(&dotted, &[false, true, false], &[false, true, false], 1), Some((chars("a"), 2)));
    // Letters beyond ASCII are letters.
    assert_eq!(read_name(&chars("$été"), 1), Some((chars("été"), 4)));
}

#[test]
fn a_name_past_the_end_is_no_name() {
    assert_eq!(read_name(&chars("$"), 1), None);
    assert_eq!(read_name(&chars("$"), 5), None);
}

fn strs(v: &[&str]) -> Vec<String> {
    v.iter().map(|s| s.to_string()).collect()
}

#[test]
fn an_escaped_star_stays_literal_and_only_the_other_globs() {
    let word = substitute(&scope(), "a\\*b*");
    assert!(word.has_pattern);
    assert_eq!(word.text, "a*b*");
    assert_eq!(word.pattern, "a\\*b*");
    let listing = Some(strs(&["a*b.txt", "axb.txt"]));
    let components = glob_components(&word.pattern);
    assert_eq!(components, vec![GlobComponent::Pattern("a\\*b*".into())]);
    let found = glob_step(&strs(&[""]), &components[0], true, false, &vec![listing]);
    assert_eq!(found, strs(&["a*b.txt"]));
    // A value's `*` beside a real wildcard stays literal too.
    let word = substitute(&scope(), "${x}b*");
    assert_eq!(word.pattern, "\\*b*");
    assert!(glob::matches(&chars(&word.pattern), &chars("*bc")));
    assert!(!glob::matches(&chars(&word.pattern), &chars("abc")));
    // Escapes are honoured inside a class.
    assert!(glob::matches(&chars("[\\]a]"), &chars("]")));
    assert!(!glob::matches(&chars("[\\!a]"), &chars("b")));
}

#[test]
fn a_pattern_is_walked_component_by_component() {
    assert_eq!(
        glob_components("/usr/./l\\*b/*.so"),
        vec![GlobComponent::Root, GlobComponent::Literal("usr".into()), GlobComponent::Literal("l*b".into()), GlobComponent::Pattern("*.so".into())]
    );
    assert_eq!(glob_components("./x//*"), vec![GlobComponent::Literal(".".into()), GlobComponent::Literal("x".into()), GlobComponent::Pattern("*".into())]);
    assert_eq!(unescape(&chars("a\\*\\")), chars("a*\\"));
    let root = glob_step(&strs(&[""]), &GlobComponent::Root, true, true, &vec![]);
    assert_eq!(root, strs(&["/"]));
    let lib = glob_step(&root, &GlobComponent::Literal("lib".into()), false, true, &vec![]);
    assert_eq!(lib, strs(&["/lib"]));
    let relative = glob_step(&strs(&[""]), &GlobComponent::Literal("src".into()), true, false, &vec![]);
    assert_eq!(relative, strs(&["src"]));
    // A directory that cannot be listed gives nothing; hidden names need a literal dot.
    let matched = glob_step(
        &strs(&["a", "b"]),
        &GlobComponent::Pattern("*.rs".into()),
        false,
        false,
        &vec![None, Some(strs(&["x.rs", ".h.rs", "y.txt"]))],
    );
    assert_eq!(matched, strs(&["b/x.rs"]));
    assert_eq!(walked_paths(strs(&["", "a", ""])), strs(&["a"]));
}
