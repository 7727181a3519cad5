use ono_cli::logic::{kleene_and, kleene_or, truthy, Logical};
use ono_cli::shell::{accepts_bytes, is_assignment_word, is_type_name, narrow_fd, plural, table_row_limit};

#[test]
fn descriptors_saturate() {
    assert_eq!(narrow_fd(3), 3);
    assert_eq!(narrow_fd(70000), u16::MAX);
}

#[test]
fn type_names_are_the_value_models() {
    assert!(is_type_name("ipnetwork"));
    assert!(is_type_name("error"));
    assert!(!is_type_name("Int"));
    assert!(!is_type_name("integer"));
}

#[test]
fn assignment_words_name_a_variable() {
    assert!(is_assignment_word("FOO=bar"));
    assert!(is_assignment_word("_x1=a=b"));
    assert!(is_assignment_word("A="));
    assert!(!is_assignment_word("=x"));
    assert!(!is_assignment_word("1A=x"));
    assert!(!is_assignment_word("A-B=x"));
    assert!(!is_assignment_word("plain"));
}

#[test]
fn byte_inputs_are_recognised_among_alternatives() {
    assert!(accepts_bytes("record | string"));
    assert!(accepts_bytes("bytes<utf8>"));
    assert!(accepts_bytes(" any "));
    assert!(!accepts_bytes("record|list"));
}

#[test]
fn counts_and_limits() {
    assert_eq!(plural(1, "row", "rows"), "row");
    assert_eq!(plural(0, "row", "rows"), "rows");
    assert_eq!(table_row_limit(Some(20)), Some(20));
    assert_eq!(table_row_limit(Some(0)), None);
    assert_eq!(table_row_limit(Some(-3)), None);
    assert_eq!(table_row_limit(None), None);
}

#[test]
fn and_and_or_are_three_valued() {
    assert_eq!(kleene_and(Logical::Null, Logical::False), Logical::False);
    assert_eq!(kleene_and(Logical::Null, Logical::True), Logical::Null);
    assert_eq!(kleene_and(Logical::True, Logical::Other), Logical::False);
    assert_eq!(kleene_and(Logical::True, Logical::True), Logical::True);
    assert_eq!(kleene_or(Logical::Null, Logical::True), Logical::True);
    assert_eq!(kleene_or(Logical::Null, Logical::False), Logical::Null);
    assert_eq!(kleene_or(Logical::Other, Logical::False), Logical::False);
    assert!(truthy(Logical::True) && !truthy(Logical::Other));
}
