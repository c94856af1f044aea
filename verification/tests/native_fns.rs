use aiprog::lua_exts::lua_ext::{not_a_table_err, property_read_context, type_mismatch_err, value_preview};
use aiprog::Error;
use aiprog::engine::lua_path::{
    function_exists_message, leaf_taken, not_a_table_message, path_segments, segment_step, SegmentStep,
};
use aiprog::engine::native_fns::{
    deep_merge_descends, is_list, is_not_null, is_null, is_object, is_table, merge_error, merge_plan, value_or_index,
    LuaValueKind, MergeOutcome,
};

const LIST: LuaValueKind = LuaValueKind::Table { has_first: true };
const OBJECT: LuaValueKind = LuaValueKind::Table { has_first: false };

#[test]
fn test_null_predicates() {
    assert!(is_null(LuaValueKind::Nil));
    assert!(is_null(LuaValueKind::Null));
    assert!(!is_null(LuaValueKind::Other));
    assert!(!is_null(OBJECT));
    assert!(is_not_null(LIST));
    assert!(!is_not_null(LuaValueKind::Null));
}

#[test]
fn test_value_or_index() {
    assert_eq!(value_or_index(&[LuaValueKind::Nil, LuaValueKind::Null, LuaValueKind::Other, OBJECT]), Some(2));
    assert_eq!(value_or_index(&[LuaValueKind::Nil, LuaValueKind::Null]), None);
    assert_eq!(value_or_index(&[]), None);
}

#[test]
fn test_type_predicates() {
    assert!(is_table(LIST) && is_table(OBJECT));
    assert!(!is_table(LuaValueKind::Null) && !is_table(LuaValueKind::Other));
    assert!(is_list(LIST) && !is_list(OBJECT) && !is_list(LuaValueKind::Nil));
    assert!(is_object(OBJECT) && !is_object(LIST) && !is_object(LuaValueKind::Other));
}

#[test]
fn test_merge_plan_simple_and_skips() {
    assert_eq!(merge_plan(&[OBJECT, OBJECT]), (MergeOutcome::Merged { target: 0 }, vec![1]));
    assert_eq!(
        merge_plan(&[OBJECT, LuaValueKind::Nil, LuaValueKind::Null, OBJECT]),
        (MergeOutcome::Merged { target: 0 }, vec![3])
    );
    assert_eq!(merge_plan(&[OBJECT]), (MergeOutcome::Merged { target: 0 }, vec![]));
    // A nil first argument is allowed.
    assert_eq!(merge_plan(&[LuaValueKind::Nil, LIST, OBJECT]), (MergeOutcome::Merged { target: 1 }, vec![2]));
    assert_eq!(merge_plan(&[LuaValueKind::Nil, LuaValueKind::Null]), (MergeOutcome::NoTarget, vec![]));
}

#[test]
fn test_merge_plan_errors() {
    assert_eq!(merge_plan(&[]), (MergeOutcome::NoArguments, vec![]));
    assert_eq!(merge_plan(&[LuaValueKind::Other, OBJECT]), (MergeOutcome::TargetNotTable, vec![]));
    assert_eq!(
        merge_plan(&[LuaValueKind::Nil, LuaValueKind::Other]),
        (MergeOutcome::TargetNotTable, vec![])
    );
    // Sources before the bad one are still merged.
    assert_eq!(
        merge_plan(&[OBJECT, OBJECT, LuaValueKind::Other, OBJECT]),
        (MergeOutcome::SourceNotTable { target: 0 }, vec![1])
    );
}

#[test]
fn test_merge_error_messages() {
    assert_eq!(merge_error(MergeOutcome::NoArguments, false).as_deref(), Some("merge requires at least a target table"));
    assert_eq!(
        merge_error(MergeOutcome::NoArguments, true).as_deref(),
        Some("merge_deep requires at least a target table")
    );
    assert_eq!(merge_error(MergeOutcome::TargetNotTable, false).as_deref(), Some("merge: target must be a table"));
    assert_eq!(merge_error(MergeOutcome::TargetNotTable, true).as_deref(), Some("merge_deep: target must be a table"));
    assert_eq!(
        merge_error(MergeOutcome::SourceNotTable { target: 0 }, false).as_deref(),
        Some("Cannot merge a non table type")
    );
    assert_eq!(
        merge_error(MergeOutcome::SourceNotTable { target: 0 }, true).as_deref(),
        Some("Cannot deep merge a non table type")
    );
    assert_eq!(merge_error(MergeOutcome::NoTarget, false), None);
    assert_eq!(merge_error(MergeOutcome::Merged { target: 3 }, true), None);
}

#[test]
fn test_deep_merge_descends() {
    assert!(deep_merge_descends(OBJECT, LIST));
    assert!(!deep_merge_descends(OBJECT, LuaValueKind::Other));
    assert!(!deep_merge_descends(LuaValueKind::Nil, OBJECT));
}

#[test]
fn test_path_segments() {
    assert_eq!(path_segments("aip.file.read"), (vec!["aip".to_string(), "file".to_string()], "read".to_string()));
    assert_eq!(path_segments("solo"), (vec![], "solo".to_string()));
    assert_eq!(path_segments(""), (vec![], "".to_string()));
    assert_eq!(path_segments("a..b."), (vec!["a".to_string(), "".to_string(), "b".to_string()], "".to_string()));
}

#[test]
fn test_segment_steps_and_messages() {
    assert_eq!(segment_step(LuaValueKind::Nil), SegmentStep::CreateTable);
    assert_eq!(segment_step(OBJECT), SegmentStep::Descend);
    assert_eq!(segment_step(LuaValueKind::Null), SegmentStep::NotATable);
    assert_eq!(segment_step(LuaValueKind::Other), SegmentStep::NotATable);
    assert!(!leaf_taken(LuaValueKind::Nil));
    assert!(leaf_taken(LuaValueKind::Null));
    assert_eq!(not_a_table_message("file"), "Path segment 'file' exists but is not a table");
    assert_eq!(
        function_exists_message("read", "aip.file.read"),
        "Function already exists at leaf 'read' in path 'aip.file.read'"
    );
}

#[test]
fn test_lua_accessor_messages() {
    let long = "x".repeat(100);
    assert_eq!(value_preview(&long), format!("{}...", "x".repeat(80)));
    assert_eq!(value_preview("short"), "short");
    match type_mismatch_err("age", "integer", "string", "\"ten\"") {
        Error::Custom(m) => assert_eq!(
            m,
            "Property 'age' expected to be of type 'integer', but was of type 'string' (value: \"ten\")"
        ),
        other => panic!("unexpected {other:?}"),
    }
    match not_a_table_err("name", "boolean") {
        Error::Custom(m) => {
            assert_eq!(m, "Cannot get property 'name' because the value is not a table but of type 'boolean'")
        }
        other => panic!("unexpected {other:?}"),
    }
    assert_eq!(property_read_context("k"), "Fail to get property 'k'");
}
