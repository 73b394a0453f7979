use cortx::slug::sanitize_title;

#[test]
fn sanitize_preserves_simple_title() {
    assert_eq!(sanitize_title("Buy Groceries"), "Buy Groceries");
}

#[test]
fn sanitize_replaces_illegal_chars_with_space() {
    assert_eq!(sanitize_title("Meeting: Q2/Q3 Review"), "Meeting Q2 Q3 Review");
}

#[test]
fn sanitize_collapses_whitespace() {
    assert_eq!(sanitize_title("Q2    Planning"), "Q2 Planning");
    assert_eq!(sanitize_title("A\tB"), "A B");
}

#[test]
fn sanitize_trims_edges() {
    assert_eq!(sanitize_title("  hello world  "), "hello world");
}

#[test]
fn sanitize_strips_all_illegal() {
    assert_eq!(sanitize_title(r#"\/:*?"<>|"#), "");
}

#[test]
fn sanitize_trailing_dot_removed() {
    assert_eq!(sanitize_title("Note..."), "Note");
    assert_eq!(sanitize_title("Foo."), "Foo");
}

#[test]
fn sanitize_preserves_unicode() {
    assert_eq!(sanitize_title("Café Réunion"), "Café Réunion");
}

#[test]
fn sanitize_preserves_caps_and_punct() {
    assert_eq!(sanitize_title("Don't Forget (Urgent)!"), "Don't Forget (Urgent)!");
}

#[test]
fn sanitize_idempotent() {
    let s = "Meeting: Q2/Q3 Review";
    assert_eq!(sanitize_title(s), sanitize_title(&sanitize_title(s)));
}

#[test]
fn sanitize_nfc_normalizes() {
    let nfd = "Cafe\u{0301}";
    let nfc = "Café";
    assert_eq!(sanitize_title(nfd), sanitize_title(nfc));
}

#[test]
fn sanitize_control_chars_stripped() {
    assert_eq!(sanitize_title("foo\x00bar\x1fbaz"), "foo bar baz");
}

#[test]
fn sanitize_empty_input() {
    assert_eq!(sanitize_title(""), "");
    assert_eq!(sanitize_title("   "), "");
}

#[test]
fn sanitize_keeps_inner_and_leading_dots() {
    assert_eq!(sanitize_title(" . Hidden"), ". Hidden");
    assert_eq!(sanitize_title("a.b"), "a.b");
    assert_eq!(sanitize_title("Note . ."), "Note");
}

#[test]
fn sanitize_nfc_composes() {
    assert_eq!(sanitize_title("Cafe\u{0301}"), "Caf\u{e9}");
}
