use aiprog::base::jsons::parse_jsonc_to_serde_value;
use aiprog::base::text::replace_all;
use aiprog::engine::gen_doc::schema_json::{is_inlineable_type, is_kind_none_error_schema, JsonValue};
use aiprog::Error;

fn custom(e: Error) -> String {
    match e {
        Error::Custom(m) => m,
        Error::CustomAndCause(c, k) => format!("{c} | {k}"),
    }
}

#[test]
fn test_parse_jsonc_comments_and_trailing_commas() {
    let v = parse_jsonc_to_serde_value("{ // a comment\n \"a\": [1, 2,], /* b */ \"b\": \"x\", }").unwrap().unwrap();
    match v {
        JsonValue::Object(entries) => {
            assert_eq!(entries.len(), 2);
            assert_eq!(entries[0].0, "a");
            match &entries[0].1 {
                JsonValue::Array(items) => {
                    assert_eq!(items.len(), 2);
                    assert!(matches!(&items[1], JsonValue::Number(n) if n == "2"));
                }
                _ => panic!("expected an array"),
            }
            assert_eq!(entries[1].0, "b");
            assert!(matches!(&entries[1].1, JsonValue::String(s) if s == "x"));
        }
        _ => panic!("expected an object"),
    }
    assert!(parse_jsonc_to_serde_value("").unwrap().is_none());
    assert!(matches!(parse_jsonc_to_serde_value(" null ").unwrap(), None));
    assert!(matches!(parse_jsonc_to_serde_value("[true, 1.5]").unwrap(), Some(JsonValue::Array(_))));
}

#[test]
fn test_parse_jsonc_refuses_loose_names() {
    let err = custom(parse_jsonc_to_serde_value("{ a: 1 }").unwrap_err());
    assert!(err.starts_with("Fail to parse json.\nCause: "), "{err}");
    assert!(err.ends_with("\nJson Content:\n{ a: 1 }"), "{err}");
}

#[test]
fn test_parse_jsonc_error_cuts_content() {
    let content = format!("{{ \"a\": {} }}", "x".repeat(400));
    let err = custom(parse_jsonc_to_serde_value(&content).unwrap_err());
    let shown = err.split("\nJson Content:\n").nth(1).unwrap();
    assert_eq!(shown.chars().count(), 300);
    assert!(shown.ends_with("..."));
}

#[test]
fn test_replace_all_patterns() {
    let out = replace_all("Hello NAME, welcome to PLACE.", &["NAME", "PLACE"], &["Ada", "Lua"]).unwrap();
    assert_eq!(out, "Hello Ada, welcome to Lua.");
    let same = replace_all("nothing here", &["zzz"], &["y"]).unwrap();
    assert_eq!(same, "nothing here");
    let multi = replace_all("aaé aé", &["aé"], &["Ω"]).unwrap();
    assert_eq!(multi, "aΩ Ω");
}

fn obj(entries: Vec<(&str, JsonValue)>) -> JsonValue {
    JsonValue::Object(entries.into_iter().map(|(k, v)| (k.to_string(), v)).collect())
}

fn s(t: &str) -> JsonValue {
    JsonValue::String(t.to_string())
}

#[test]
fn test_is_inlineable_type_rules() {
    assert!(is_inlineable_type(&JsonValue::Bool(true)));
    assert!(is_inlineable_type(&obj(vec![("type", s("string"))])));
    assert!(!is_inlineable_type(&obj(vec![("type", s("object"))])));
    assert!(!is_inlineable_type(&obj(vec![("type", s("object")), ("properties", obj(vec![]))])));
    assert!(is_inlineable_type(&obj(vec![("$ref", s("#/$defs/X")), ("properties", obj(vec![]))])));
    assert!(is_inlineable_type(&obj(vec![("anyOf", JsonValue::Array(vec![]))])));
    assert!(is_inlineable_type(&obj(vec![("enum", JsonValue::Array(vec![s("a")]))])));
    assert!(is_inlineable_type(&obj(vec![("type", JsonValue::Array(vec![s("string"), s("null")]))])));
    assert!(is_inlineable_type(&obj(vec![])));
}

#[test]
fn test_is_kind_none_error_schema() {
    let schema = obj(vec![("properties", obj(vec![("kind", obj(vec![("$ref", s("#/$defs/KindNone"))]))]))]);
    assert!(is_kind_none_error_schema(&schema));
    let other = obj(vec![("properties", obj(vec![("kind", obj(vec![("$ref", s("#/$defs/MyKind"))]))]))]);
    assert!(!is_kind_none_error_schema(&other));
    assert!(!is_kind_none_error_schema(&obj(vec![("properties", obj(vec![]))])));
    assert!(!is_kind_none_error_schema(&JsonValue::Null));
}
