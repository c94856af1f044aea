use aiprog::base::file::exclude::resolve_exclude_globs;
use aiprog::base::file::lister::{compute_stats, FileListStats, FileMeta};
use aiprog::base::file::matcher::ContentMatcher;
use aiprog::Error;

#[test]
fn test_resolve_default_excludes() {
    let excludes = resolve_exclude_globs(&["**/*.rs"], &[]).unwrap();
    assert!(excludes.contains(&"**/target/**".to_string()));
    assert!(excludes.contains(&"**/node_modules/**".to_string()));
    assert!(excludes.contains(&"**/.git/**".to_string()));
    assert!(excludes.contains(&"**/.DS_Store".to_string()));
}

#[test]
fn test_resolve_override_excludes() {
    let excludes = resolve_exclude_globs(&["target/**/*.rs"], &[]).unwrap();
    assert!(!excludes.contains(&"**/target/**".to_string()));
    assert!(excludes.contains(&"**/node_modules/**".to_string()));
    assert!(excludes.contains(&"**/.git/**".to_string()));
}

#[test]
fn test_resolve_custom_excludes() {
    let custom = &["**/custom_ignore/**"];
    let excludes = resolve_exclude_globs(&["**/*.rs"], custom).unwrap();
    assert!(excludes.contains(&"**/custom_ignore/**".to_string()));
    assert!(excludes.contains(&"**/target/**".to_string()));
}

#[test]
fn test_resolve_full_order() {
    let excludes = resolve_exclude_globs(&[".git/x", " node_modules/x "], &["a", "b"]).unwrap();
    assert_eq!(
        excludes,
        vec![
            "**/.aipack/**",
            "**/target/**",
            "**/.build/**",
            "**/__pycache__/**",
            "**/.DS_Store",
            ".DS_Store",
            "**/Thumbs.db",
            "**/*.swp",
            "a",
            "b"
        ]
    );
}

#[test]
fn test_resolve_rejects_parent_globs() {
    let err = resolve_exclude_globs(&["src/**", "../other/**"], &[]).unwrap_err();
    match err {
        Error::Custom(m) => assert_eq!(
            m,
            "Glob '../other/**' starting with '../'.\nStarting glob with '../' is not supported at the moment."
        ),
        other => panic!("unexpected error {other:?}"),
    }
    assert!(resolve_exclude_globs(&["./../x"], &[]).is_err());
}

#[test]
fn test_literal_case_sensitive() {
    let matcher = ContentMatcher::new_literal("Hello World", false);
    assert!(matcher.matches_str("Say Hello World to everyone"));
    assert!(!matcher.matches_str("Say hello world to everyone"));
}

#[test]
fn test_literal_ignore_case() {
    let matcher = ContentMatcher::new_literal("Hello World", true);
    assert!(matcher.matches_str("Say Hello World to everyone"));
    assert!(matcher.matches_str("Say hello world to everyone"));
    assert!(!matcher.matches_str("Say hello there"));
}

#[test]
fn test_regex_matching() {
    let matcher = ContentMatcher::new_regex(r"fn\s+test_[a-z0-9_]+", false).unwrap();
    assert!(matcher.matches_str("pub fn test_something() {}"));
    assert!(!matcher.matches_str("pub fn TEST_something() {}"));

    let ic_matcher = ContentMatcher::new_regex(r"fn\s+test_[a-z0-9_]+", true).unwrap();
    assert!(ic_matcher.matches_str("pub fn TEST_something() {}"));
}

#[test]
fn test_regex_invalid_pattern() {
    let err = ContentMatcher::new_regex("(unclosed", false).unwrap_err();
    match err {
        Error::Custom(m) => assert!(m.contains("unclosed")),
        other => panic!("unexpected error {other:?}"),
    }
    let cloned = ContentMatcher::new_regex("a+b", false).unwrap().clone();
    assert!(cloned.matches_str("xaab"));
}

#[test]
fn test_literal_ignore_case_keeps_lowercase_text() {
    match ContentMatcher::new_literal("ÀB", true) {
        ContentMatcher::Literal { text, ignore_case } => {
            assert_eq!(text, "àb");
            assert!(ignore_case);
        }
        _ => panic!("literal expected"),
    }
}

fn meta(size: u64, c: i64, m: i64) -> FileMeta {
    FileMeta { size, created_epoch_us: c, modified_epoch_us: m }
}

#[test]
fn test_stats_record_and_compute() {
    let metas = vec![meta(10, 5, 50), meta(20, 3, 70), meta(5, 9, 60)];
    let stats = compute_stats(&metas);
    assert_eq!(stats.number_of_files, 3);
    assert_eq!(stats.total_size, 35);
    assert_eq!(stats.ctime_first, Some(3));
    assert_eq!(stats.ctime_last, Some(9));
    assert_eq!(stats.mtime_first, Some(50));
    assert_eq!(stats.mtime_last, Some(70));

    let mut by_hand = FileListStats::default();
    for m in &metas {
        by_hand.record(m);
    }
    assert_eq!(by_hand, stats);
    assert_eq!(compute_stats(&[]), FileListStats::default());
}

#[test]
fn test_resolve_normalized_exclude_globs() {
    let globs = aiprog::base::file::exclude::resolve_normalized_exclude_globs(&[" src/target/x ".to_string()], &["*.log"]).unwrap();
    assert_eq!(
        globs,
        vec![
            "**/.aipack/**",
            "**/.git/**",
            "**/node_modules/**",
            "**/.build/**",
            "**/__pycache__/**",
            "**/.DS_Store",
            ".DS_Store",
            "**/Thumbs.db",
            "**/*.swp",
            "*.log"
        ]
    );
    let err = aiprog::base::file::exclude::resolve_normalized_exclude_globs(&["../up/**".to_string()], &[]).unwrap_err();
    match err {
        aiprog::Error::Custom(m) => assert!(m.starts_with("Glob '../up/**' starting with '../'.")),
        other => panic!("{other:?}"),
    }
}
