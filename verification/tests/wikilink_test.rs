use cortx::wikilink::{is_wrapped, unwrap, wrap};

#[test]
fn wrap_bare_title() {
    assert_eq!(wrap("Buy Groceries"), "[[Buy Groceries]]");
}

#[test]
fn unwrap_wrapped_title() {
    assert_eq!(unwrap("[[Buy Groceries]]").unwrap(), "Buy Groceries");
}

#[test]
fn unwrap_trims_whitespace_inside() {
    assert_eq!(unwrap("[[  Buy Groceries  ]]").unwrap(), "Buy Groceries");
}

#[test]
fn unwrap_rejects_missing_close() {
    assert!(unwrap("[[Buy Groceries").is_err());
}

#[test]
fn unwrap_rejects_missing_open() {
    assert!(unwrap("Buy Groceries]]").is_err());
}

#[test]
fn unwrap_rejects_empty() {
    assert!(unwrap("[[]]").is_err());
    assert!(unwrap("[[   ]]").is_err());
}

#[test]
fn unwrap_rejects_piped_form() {
    assert!(unwrap("[[slug|Display]]").is_err());
}

#[test]
fn unwrap_rejects_bare_string() {
    assert!(unwrap("bare-string").is_err());
}

#[test]
fn is_wrapped_predicate() {
    assert!(is_wrapped("[[foo]]"));
    assert!(!is_wrapped("foo"));
    assert!(!is_wrapped("[[foo"));
    assert!(!is_wrapped("foo]]"));
}

#[test]
fn round_trip() {
    let title = "Meeting Q2 Review";
    assert_eq!(unwrap(&wrap(title)).unwrap(), title);
}

#[test]
fn unwrap_error_messages_quote_the_input() {
    assert_eq!(
        unwrap("bare").unwrap_err().to_string(),
        "validation error: not a wikilink: \"bare\" (expected [[Title]])"
    );
    assert_eq!(
        unwrap("[[a|b]]").unwrap_err().to_string(),
        "validation error: piped wikilinks are not supported: \"[[a|b]]\""
    );
    assert_eq!(
        unwrap("[[ ]]").unwrap_err().to_string(),
        "validation error: empty wikilink: \"[[ ]]\""
    );
}

#[test]
fn is_wrapped_needs_content() {
    assert!(!is_wrapped("[[]]"));
    assert!(is_wrapped("  [[x]]  "));
}
