use aiprog::engine::handler_doc::extract_title_desc;

fn lines(v: &[&str]) -> Vec<String> {
    v.iter().map(|s| s.to_string()).collect()
}

#[test]
fn test_title_and_description() {
    let r = extract_title_desc(&lines(&["# Parse a file", "", "Reads the file and returns its parts."]));
    assert_eq!(r.0.as_deref(), Some("Parse a file"));
    assert_eq!(r.1.as_deref(), Some("Reads the file and returns its parts."));
}

#[test]
fn test_title_only() {
    let r = extract_title_desc(&lines(&["# Only a title"]));
    assert_eq!(r.0.as_deref(), Some("Only a title"));
    assert_eq!(r.1, None);
}

#[test]
fn test_description_without_title() {
    let r = extract_title_desc(&lines(&[" Some description", "more"]));
    assert_eq!(r.0, None);
    assert_eq!(r.1.as_deref(), Some("Some description\nmore"));
}

#[test]
fn test_empty_doc_lines() {
    assert_eq!(extract_title_desc(&[]), (None, None));
    assert_eq!(extract_title_desc(&lines(&["   ", ""])), (None, None));
}

#[test]
fn test_title_after_blank_lines_is_trimmed() {
    let r = extract_title_desc(&lines(&["", "  #   Spaced  ", "body", "  end  "]));
    assert_eq!(r.0.as_deref(), Some("Spaced"));
    assert_eq!(r.1.as_deref(), Some("body\n  end"));
}

#[test]
fn test_hash_without_space_is_no_title() {
    let r = extract_title_desc(&lines(&["#Title", "text"]));
    assert_eq!(r.0, None);
    assert_eq!(r.1.as_deref(), Some("#Title\ntext"));
}
