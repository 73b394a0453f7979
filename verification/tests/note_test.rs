use cortx::cli::note::{extract_headings, insert_after_heading, line_count, read_lines, replace_block};
use cortx::text::lines;

#[test]
fn headings_are_numbered_from_one() {
    let body = "# Title\ntext\n## Sub\nmore\n";
    assert_eq!(
        extract_headings(body),
        vec![(1, "# Title".to_string()), (3, "## Sub".to_string())]
    );
}

#[test]
fn lines_follow_str_lines() {
    assert_eq!(lines("a\r\nb\n"), vec!["a".to_string(), "b".to_string()]);
    assert_eq!(lines(""), Vec::<String>::new());
    assert_eq!(lines("a\n\n"), vec!["a".to_string(), "".to_string()]);
    assert_eq!(lines("x\r"), vec!["x\r".to_string()]);
}

#[test]
fn insert_after_heading_adds_a_line() {
    let body = "# Title\ntext\n## Sub\nmore";
    let out = insert_after_heading(body, "## Sub", "inserted").unwrap();
    assert_eq!(out, "# Title\ntext\n## Sub\ninserted\nmore\n");
}

#[test]
fn insert_after_heading_matches_trimmed() {
    let out = insert_after_heading("  # A  \nb\n", "# A", "c").unwrap();
    assert_eq!(out, "  # A  \nc\nb\n");
}

#[test]
fn insert_after_missing_heading_fails() {
    let err = insert_after_heading("# A\n", "# B", "c").unwrap_err();
    assert_eq!(err.to_string(), "storage error: heading '# B' not found");
}

#[test]
fn replace_block_swaps_the_content() {
    let body = "before\n<!-- block:id=x -->\nold\n<!-- /block:id=x -->\nafter\n";
    let out = replace_block(body, "x", "new").unwrap();
    assert_eq!(out, "before\n<!-- block:id=x -->\nnew\n<!-- /block:id=x -->\nafter\n");
}

#[test]
fn replace_block_errors() {
    assert_eq!(
        replace_block("nothing", "x", "c").unwrap_err().to_string(),
        "storage error: block 'x' not found"
    );
    assert_eq!(
        replace_block("<!-- block:id=x -->", "x", "c").unwrap_err().to_string(),
        "storage error: closing tag for block 'x' not found"
    );
}

#[test]
fn read_lines_takes_an_inclusive_range() {
    let body = "one\ntwo\nthree\nfour\n";
    assert_eq!(line_count(body), 4);
    assert_eq!(
        read_lines(body, 2, 3),
        vec![(2, "two".to_string()), (3, "three".to_string())]
    );
    assert_eq!(read_lines(body, 0, 1), vec![(1, "one".to_string())]);
    assert_eq!(read_lines(body, 4, 10), vec![(4, "four".to_string())]);
}
