use ono_cli::text::{capitalise, lowercase_first, split, split_words, string_of, trim};

fn c(s: &str) -> Vec<char> {
    s.chars().collect()
}

#[test]
fn case_follows_unicode() {
    assert_eq!(capitalise("kubernetes"), "Kubernetes");
    assert_eq!(capitalise("ßtraße"), "SStraße");
    assert_eq!(capitalise(""), "");
    assert_eq!(lowercase_first("Allow changes"), "allow changes");
    assert_eq!(lowercase_first("Äb"), "äb");
}

#[test]
fn text_splits_and_trims_as_str_does() {
    assert_eq!(split(&c("a::b"), ':'), vec![c("a"), c(""), c("b")]);
    assert_eq!(split_words(&c("  a \t b\n")), vec![c("a"), c("b")]);
    assert_eq!(trim(&c("\u{a0} x \r")), c("x"));
    assert_eq!(string_of(&c("héllo")), "héllo");
}
