use multisignal::names::{is_valid, join, suggest, MAX_LEN};

#[test]
fn accepts_valid_names() {
    for n in ["Work", "UKR", "Family_2", "a.b-c", "9lives"] {
        assert!(is_valid(n), "{n}");
    }
}

#[test]
fn rejects_unsafe_names() {
    let long = "a".repeat(65);
    for n in [
        "",
        ".",
        "..",
        "../x",
        "a/b",
        "My Profile",
        "it's",
        "a|b",
        "-rf",
        ".hidden",
        " ",
        long.as_str(),
    ] {
        assert!(!is_valid(n), "{n:?}");
    }
}

#[test]
fn suggests_fixed_names() {
    assert_eq!(suggest("My Work").as_deref(), Some("My-Work"));
    assert_eq!(suggest("  My   Work! ").as_deref(), Some("My-Work"));
    assert_eq!(suggest("../evil").as_deref(), Some("evil"));
    assert_eq!(suggest("!!!"), None);
}

#[test]
fn joins_names_for_messages() {
    assert_eq!(join(&["A"]), "A");
    assert_eq!(join(&["A", "B", "C"]), "A, B, C");
}

#[test]
fn the_longest_valid_name_is_max_len() {
    assert!(is_valid(&"a".repeat(MAX_LEN)));
    assert!(!is_valid(&"a".repeat(MAX_LEN + 1)));
}

#[test]
fn non_ascii_letters_are_not_name_characters() {
    assert!(!is_valid("Caf\u{e9}"));
    assert!(!is_valid("\u{e9}t\u{e9}"));
}

#[test]
fn suggestions_are_valid_and_cut_to_max_len() {
    let long = "x".repeat(70);
    let fixed = suggest(&long).unwrap();
    assert_eq!(fixed.len(), MAX_LEN);
    assert!(is_valid(&fixed));
    assert_eq!(suggest("a - b").as_deref(), Some("a-b"));
    assert_eq!(suggest("Work--").as_deref(), Some("Work"));
    assert_eq!(suggest("--x").as_deref(), Some("x"));
    assert_eq!(suggest("_a").as_deref(), Some("a"));
    assert_eq!(suggest("a\tb").as_deref(), Some("a-b"));
    assert_eq!(suggest(""), None);
    assert_eq!(suggest("\u{e9}\u{e9}"), None);
}

#[test]
fn valid_names_never_leave_the_folder() {
    for n in ["Work", "a.b", "x..y", "9"] {
        assert!(is_valid(n));
        assert!(!n.contains('/'));
        assert!(!n.starts_with('.') && !n.starts_with('-'));
    }
}

#[test]
fn joins_nothing_into_an_empty_text() {
    assert_eq!(join(&[]), "");
}

#[test]
fn a_suggested_name_is_suggested_unchanged() {
    for input in ["My Work", "  My   Work! ", "../evil", "a--b-", "-x- -y-"] {
        let s = suggest(input).unwrap();
        assert_eq!(suggest(&s).as_deref(), Some(s.as_str()));
    }
}
