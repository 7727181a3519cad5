use ono_cli::glob;
use ono_cli::glob::{class, matches_from};

fn c(s: &str) -> Vec<char> {
    s.chars().collect()
}

#[test]
fn a_literal_pattern_matches_itself_only() {
    assert!(glob::matches(&c("main.rs"), &c("main.rs")));
    assert!(!glob::matches(&c("main.rs"), &c("main.rss")));
}

#[test]
fn star_matches_every_visible_name() {
    assert!(glob::matches(&c("*"), &c("anything")));
    assert!(glob::matches(&c("*"), &c("")));
    assert!(!glob::matches(&c("*"), &c(".hidden")));
    assert!(glob::matches(&c(".*"), &c(".hidden")));
    assert!(glob::matches(&c("**"), &c("x")));
}

#[test]
fn question_mark_and_classes_take_one_character() {
    assert!(glob::matches(&c("?"), &c("a")));
    assert!(!glob::matches(&c("?"), &c("ab")));
    assert!(glob::matches(&c("[a-c]x"), &c("bx")));
    assert!(!glob::matches(&c("[!a-c]x"), &c("bx")));
    assert!(glob::matches(&c("a*b*c"), &c("aXXbYYc")));
    assert_eq!(class(&c("[ab]"), 0, 'b'), Some((4, true)));
    assert_eq!(class(&c("[ab"), 0, 'b'), None);
    assert!(matches_from(&c("x*"), 1, &c("yz"), 0));
}

#[test]
fn an_unclosed_class_is_a_literal_bracket() {
    assert!(glob::matches(&c("["), &c("[")));
    assert!(!glob::matches(&c("["), &c("a")));
    assert!(glob::matches(&c("[a"), &c("[a")));
    assert!(!glob::matches(&c("[a"), &c("a")));
    assert!(glob::matches(&c("x[*"), &c("x[yz")));
    assert!(!glob::matches(&c("x[*"), &c("xyz")));
}
