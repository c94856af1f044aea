use aiprog::base::text::{
    ensure, ensure_single_trailing_newline, extract_first_line, replace_first, replace_markers, trim_end_if_needed,
    trim_if_needed, trim_start_if_needed, truncate, truncate_left, truncate_left_with_ellipsis, truncate_with_ellipsis,
    EnsureOptions,
};
use std::borrow::Cow;

type Result<T> = core::result::Result<T, Box<dyn std::error::Error>>;

fn markers_result(content: &str, sections: &[&str], markers: &(&str, &str)) -> Result<String> {
    replace_markers(content, sections, markers).map_err(|_| "replace_markers failed".into())
}

#[test]
fn test_support_text_replace_markers_simple() -> Result<()> {
    // -- Setup & Fixtures
    let markers = &("<<START>>", "<<END>>");
    let content = r#"
	This is some content-01
	// <<START>>
	with some instruction for markers. inst-01
	// <<END>>
	and some more content-02
<<START>>
	Another set of instructions here. inst-02
<<END>>

And more content-03
"#;
    let sections = &["SECTION-01", "// SECTION 02"];

    // -- Exec
    let new_content = markers_result(content, sections, markers)?;

    // -- Check
    assert!(new_content.contains("content-01"));
    assert!(new_content.contains("content-02"));
    assert!(new_content.contains("content-03\n"));
    assert!(new_content.contains("SECTION-01"));
    assert!(new_content.contains("// SECTION 02"));
    assert!(!new_content.contains("<<START>>"));
    assert!(!new_content.contains("<<END>>"));
    assert!(!new_content.contains("inst-01"));
    assert!(!new_content.contains("inst-02"));

    // Check that the lines with markers were replaced entirely
    assert!(!new_content.contains("// <<START>>"));
    assert!(!new_content.contains("// <<END>>"));
    assert!(!new_content.contains("<<START>>\n"));
    assert!(!new_content.contains("<<END>>\t\n"));

    Ok(())
}

#[test]
fn test_support_text_markers_no_closing() -> Result<()> {
    // -- Setup & Fixtures
    let markers = &("<<START>>", "<<END>>");
    let content = r#"
	This is some content-01
	// <<START>>
	with some instruction for markers. inst-01
<<START>>
	Another set of instructions here. inst-02
<<END>>

And more content-03
"#;
    let sections = &["SECTION-01", "// SECTION 02"];

    // -- Exec
    let res = replace_markers(content, sections, markers);

    // -- Check
    if res.is_ok() {
        return Err("Should have fail replace_markers because wrong content".into());
    }

    Ok(())
}

#[test]
fn test_support_text_extract_first_line() -> Result<()> {
    // -- Test case 1: String with multiple lines
    let content = "First line\nSecond line\nThird line".to_string();
    let (first, remainder) = extract_first_line(content);

    assert_eq!(first, "First line\n");
    assert_eq!(remainder, "Second line\nThird line");

    // -- Test case 2: String with only one line with newline
    let content = "Single line\n".to_string();
    let (first, remainder) = extract_first_line(content);

    assert_eq!(first, "Single line\n");
    assert_eq!(remainder, "");

    // -- Test case 3: String with only one line without newline
    let content = "No newline".to_string();
    let (first, remainder) = extract_first_line(content);

    assert_eq!(first, "No newline");
    assert_eq!(remainder, "");

    // -- Test case 4: Empty string
    let content = "".to_string();
    let (first, remainder) = extract_first_line(content);

    assert_eq!(first, "");
    assert_eq!(remainder, "");

    Ok(())
}

#[test]
fn test_replace_markers_doc_example() -> Result<()> {
    let markers = &("<<START>>", "<<END>>");
    let content = "\nBefore section 1\n// <<START>> some comment\nContent to be replaced 1\n// <<END>> some other comment\nBetween sections\n   <<START>>\nContent to be replaced 2\n   <<END>>  trailing whitespace\nAfter section 2\n";
    let sections = &["NEW SECTION 1", "NEW SECTION 2"];
    let new_content = markers_result(content, sections, markers)?;
    assert_eq!(
        new_content,
        "\nBefore section 1\nNEW SECTION 1\nBetween sections\nNEW SECTION 2\nAfter section 2\n"
    );
    Ok(())
}

#[test]
fn test_replace_markers_errors() {
    let markers = &("<<S>>", "<<E>>");
    match replace_markers("a\n<<E>>\n", &["x"], markers) {
        Err(aiprog::Error::Custom(m)) => assert_eq!(
            m,
            "replace_markers - Cannot have close marker <<E>> when not having open with a <<S>>"
        ),
        _ => panic!("expected an end-without-start error"),
    }
    match replace_markers("<<S>>\n<<S>>\n", &["x"], markers) {
        Err(aiprog::Error::Custom(m)) => assert_eq!(
            m,
            "replace_markers - Cannot have start marker <<S>> when previous section not closed with <<E>>"
        ),
        _ => panic!("expected a start-inside-section error"),
    }
    match replace_markers("<<S>>\n<<E>>\n", &[], markers) {
        Err(aiprog::Error::Custom(m)) => assert_eq!(m, "replace_markers - Not enough matching sections"),
        _ => panic!("expected a not-enough-sections error"),
    }
    match replace_markers("<<S>>\n<<E>>\n", &["x", "y"], markers) {
        Err(aiprog::Error::Custom(m)) => assert_eq!(m, "replace_markers - Not all sections have been used"),
        _ => panic!("expected an unused-sections error"),
    }
}

#[test]
fn test_replace_markers_identity_without_markers() -> Result<()> {
    let markers = &("<<S>>", "<<E>>");
    for content in ["", "\n", "a", "a\nb", "a\nb\n", "a\n\n", "\n\nx"] {
        assert_eq!(markers_result(content, &[], markers)?, content);
    }
    // A CRLF ending is normalized to LF, as `str::lines` drops the `\r`.
    assert_eq!(markers_result("a\r\nb", &[], markers)?, "a\nb");
    Ok(())
}

#[test]
fn test_ensure_prefix_suffix() {
    let opts = || EnsureOptions { prefix: Some("./".to_string()), suffix: Some(".md".to_string()) };
    let r = ensure("doc", opts());
    assert_eq!(r, "./doc.md");
    assert!(matches!(r, Cow::Owned(_)));
    let r2 = ensure("./doc.md", opts());
    assert_eq!(r2, "./doc.md");
    assert!(matches!(r2, Cow::Borrowed(_)));
    let r3 = ensure("x", EnsureOptions { prefix: None, suffix: None });
    assert!(matches!(r3, Cow::Borrowed("x")));
}

#[test]
fn test_ensure_single_trailing_newline() {
    assert_eq!(ensure_single_trailing_newline("".to_string()), "\n");
    assert_eq!(ensure_single_trailing_newline("a".to_string()), "a\n");
    assert_eq!(ensure_single_trailing_newline("a\n".to_string()), "a\n");
    assert_eq!(ensure_single_trailing_newline("a\n\n\n".to_string()), "a\n");
    assert_eq!(ensure_single_trailing_newline("\n\n".to_string()), "\n");
}

#[test]
fn test_truncate_family() {
    assert_eq!(truncate_with_ellipsis("hello world", 8, "..."), "hello...");
    assert_eq!(truncate_with_ellipsis("hello", 8, "..."), "hello");
    assert_eq!(truncate_with_ellipsis("hello world", 2, "..."), "..");
    assert_eq!(truncate_with_ellipsis("héllo wörld", 7, "…"), "héllo …");
    assert_eq!(truncate_left_with_ellipsis("hello world", 8, "..."), "...world");
    assert_eq!(truncate_left_with_ellipsis("hello world", 2, "<-*"), "-*");
    assert_eq!(truncate("abcdef", 3), (Cow::Borrowed("abc"), true));
    assert_eq!(truncate("abc", 3), (Cow::Borrowed("abc"), false));
    assert_eq!(truncate_left("abcdef", 3), (Cow::Borrowed("def"), true));
    assert_eq!(truncate_left("abc", 5), (Cow::Borrowed("abc"), false));
}

#[test]
fn test_replace_first() {
    assert_eq!(replace_first("a-b-c".to_string(), "-", "+"), ("a+b-c".to_string(), true));
    assert_eq!(replace_first("abc".to_string(), "x", "+"), ("abc".to_string(), false));
    assert_eq!(replace_first("abc".to_string(), "", "+"), ("+abc".to_string(), true));
    assert_eq!(replace_first("ééé".to_string(), "é", "e"), ("eéé".to_string(), true));
}

#[test]
fn test_trim_if_needed() {
    assert_eq!(trim_if_needed("  a b \t\n".to_string()), "a b");
    assert_eq!(trim_start_if_needed("  a b ".to_string()), "a b ");
    assert_eq!(trim_end_if_needed("  a b ".to_string()), "  a b");
    assert_eq!(trim_if_needed("\u{3000}x\u{85}".to_string()), "x");
    assert_eq!(trim_if_needed("   ".to_string()), "");
}

#[test]
fn test_whitespace_matches_std() {
    for u in 0u32..0x3100 {
        if let Some(c) = char::from_u32(u) {
            assert_eq!(aiprog::base::text::is_whitespace_char(c), c.is_whitespace(), "{u:#x}");
        }
    }
}

#[test]
fn test_replace_markers_end_after_end_fails() {
    let markers = &("<<START>>", "<<END>>");
    let content = "<<START>>\nx\n<<END>>\n<<END>>\n";
    let err = replace_markers(content, &["A", "B"], markers).unwrap_err();
    assert!(format!("{err:?}").contains("Cannot have close marker <<END>> when not having open"));
    let ok = replace_markers("<<START>>\nx\n<<END>>\n<<START>>\n<<END>>\n", &["A", "B"], markers).unwrap();
    assert_eq!(ok, "A\nB\n");
}
