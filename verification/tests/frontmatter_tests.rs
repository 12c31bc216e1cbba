use blogamer::FrontmatterError;
use blogamer::frontmatter::load;
use blogamer::frontmatter::split_frontmatter;

#[test]
fn frontmatter_round_trip() {
    let (fm, body) = load("---\ntitle: X\ndate: Y\n---\nBODY").unwrap();
    assert_eq!(fm.title, "X");
    assert_eq!(fm.date, "Y");
    assert_eq!(body, "BODY");
}

#[test]
fn typical_header_parses() {
    let (fm, body) = load("---\ntitle: Hello\ndate: 2024-01-01\n---\n# Hi\n").unwrap();
    assert_eq!(fm.title, "Hello");
    assert_eq!(fm.date, "2024-01-01");
    assert_eq!(body, "# Hi\n");
}

#[test]
fn missing_opening_delimiter_is_rejected() {
    let r = load("title: X\ndate: Y\n");
    assert!(matches!(r, Err(FrontmatterError::MissingOpeningDelimiter)));
}

#[test]
fn missing_closing_delimiter_is_rejected() {
    let r = load("---\ntitle: X\ndate: Y\n");
    assert!(matches!(r, Err(FrontmatterError::MissingClosingDelimiter)));
}

#[test]
fn header_that_is_no_mapping_is_rejected() {
    let r = load("---\n- a\n- b\n---\nBODY");
    assert!(matches!(r, Err(FrontmatterError::InvalidHeader(_))));
}

#[test]
fn missing_title_is_rejected() {
    let r = load("---\ndate: Y\n---\nBODY");
    assert!(matches!(r, Err(FrontmatterError::MissingTitle)));
}

#[test]
fn missing_date_is_rejected() {
    let r = load("---\ntitle: X\n---\nBODY");
    assert!(matches!(r, Err(FrontmatterError::MissingDate)));
}

#[test]
fn body_after_first_closing_delimiter_is_verbatim() {
    let (h, b) = split_frontmatter("---\ntitle: X\n---\nA\n---\nB").unwrap();
    assert_eq!(h, "title: X\n");
    assert_eq!(b, "A\n---\nB");
}

#[test]
fn extra_header_keys_are_ignored() {
    let (fm, body) = load("---\ntitle: X\ndate: Y\nextra: Z\n---\nB").unwrap();
    assert_eq!(fm.title, "X");
    assert_eq!(fm.date, "Y");
    assert_eq!(body, "B");
}

#[test]
fn extra_header_keys_with_non_string_values_are_ignored() {
    let (fm, _body) = load("---\ntitle: X\ndate: Y\ntags:\n  - a\n  - b\n---\nB").unwrap();
    assert_eq!(fm.title, "X");
    assert_eq!(fm.date, "Y");
}

#[test]
fn non_string_title_value_is_rejected() {
    let r = load("---\ntitle:\n  - a\ndate: Y\n---\nB");
    assert!(matches!(r, Err(FrontmatterError::InvalidHeader(_))));
}

#[test]
fn quoted_header_values_are_unquoted() {
    let (fm, _body) = load("---\ntitle: \"X: colon\"\ndate: Y\n---\nB").unwrap();
    assert_eq!(fm.title, "X: colon");
}

#[test]
fn empty_body_round_trips() {
    let (fm, body) = load("---\ntitle: X\ndate: Y\n---\n").unwrap();
    assert_eq!(fm.title, "X");
    assert_eq!(body, "");
}
