use aiprog::engine::gen_doc::schema_json::{to_json_text, JsonValue};
use aiprog::engine::gen_doc::fn_renderer::{
    fn_doc_of, module_type_blocks, render_fn, render_fn_signature, render_module, render_module_types, schema_doc,
    RegisteredFnDoc,
};
use aiprog::engine::gen_doc::type_renderer::{render_enum, render_type, render_type_block, render_value};

/// A JSON value of the library from a `serde_json` value.
fn conv(v: &serde_json::Value) -> JsonValue {
    match v {
        serde_json::Value::Null => JsonValue::Null,
        serde_json::Value::Bool(b) => JsonValue::Bool(*b),
        serde_json::Value::Number(n) => JsonValue::Number(n.to_string()),
        serde_json::Value::String(s) => JsonValue::String(s.clone()),
        serde_json::Value::Array(items) => JsonValue::Array(items.iter().map(conv).collect()),
        serde_json::Value::Object(map) => JsonValue::Object(map.iter().map(|(k, v)| (k.clone(), conv(v))).collect()),
    }
}

/// A JSON value of the library from JSON text.
fn jv(text: &str) -> JsonValue {
    conv(&serde_json::from_str::<serde_json::Value>(text).unwrap())
}

const SCHEMA: &str = "https://json-schema.org/draft/2020-12/schema";

// -- JSON schemas of a few small types

fn string_schema() -> JsonValue {
    jv(&format!(r#"{{"$schema":"{SCHEMA}","title":"String","type":"string"}}"#))
}

fn i32_schema() -> JsonValue {
    jv(&format!(r#"{{"$schema":"{SCHEMA}","title":"int32","type":"integer","format":"int32"}}"#))
}

fn bool_schema() -> JsonValue {
    jv(&format!(r#"{{"$schema":"{SCHEMA}","title":"Boolean","type":"boolean"}}"#))
}

fn simple_params_schema() -> JsonValue {
    jv(&format!(
        r#"{{"$schema":"{SCHEMA}","title":"SimpleParams","type":"object",
            "properties":{{"name":{{"type":"string"}},"age":{{"type":["integer","null"],"format":"int64"}}}},
            "required":["name"]}}"#
    ))
}

fn object_with_desc_schema() -> JsonValue {
    jv(&format!(
        r#"{{"$schema":"{SCHEMA}","title":"ObjectWithDesc","type":"object",
            "properties":{{"name":{{"description":"A description on the name field.","type":"string"}}}},
            "required":["name"]}}"#
    ))
}

fn object_with_required_schema() -> JsonValue {
    jv(&format!(
        r#"{{"$schema":"{SCHEMA}","title":"ObjectWithRequired","type":"object",
            "properties":{{"name":{{"type":"string"}},"age":{{"type":["integer","null"],"format":"int64"}}}},
            "required":["name"]}}"#
    ))
}

fn vec_string_schema() -> JsonValue {
    jv(&format!(r#"{{"$schema":"{SCHEMA}","title":"Array_of_string","type":"array","items":{{"type":"string"}}}}"#))
}

fn multi_line_root_desc_schema() -> JsonValue {
    jv(&format!(
        r#"{{"$schema":"{SCHEMA}","title":"MultiLineRootDesc","description":"First line.\nSecond line.\nThird line.",
            "type":"object","properties":{{"value":{{"type":"string"}}}},"required":["value"]}}"#
    ))
}

fn multi_line_prop_desc_schema() -> JsonValue {
    jv(&format!(
        r#"{{"$schema":"{SCHEMA}","title":"MultiLinePropDesc","type":"object",
            "properties":{{"prop":{{"description":"First line.\nSecond line.\nThird line.","type":"string"}}}},
            "required":["prop"]}}"#
    ))
}

fn params_with_root_desc_schema() -> JsonValue {
    jv(&format!(
        r#"{{"$schema":"{SCHEMA}","title":"ParamsWithRootDesc","description":"Root description for the params.",
            "type":"object","properties":{{"name":{{"type":"string"}}}},"required":["name"]}}"#
    ))
}

fn enum_strings_value() -> JsonValue {
    jv(r#"{"type":"string","enum":["foo","bar"]}"#)
}

fn one_of_value() -> JsonValue {
    jv(r#"{"oneOf":[{"type":"string"},{"type":"number"}]}"#)
}

// -- Primitives

#[test]
fn gen_doc_tests_test_render_type_string() {
    assert_eq!(render_type(&string_schema()), "string");
}

#[test]
fn gen_doc_tests_test_render_type_number() {
    assert_eq!(render_type(&i32_schema()), "number");
}

#[test]
fn gen_doc_tests_test_render_type_boolean() {
    assert_eq!(render_type(&bool_schema()), "boolean");
}

#[test]
fn gen_doc_tests_test_render_type_null_schema() {
    assert_eq!(render_type(&jv("true")), "any");
}

// -- Objects

#[test]
fn gen_doc_tests_test_render_type_object_simple() {
    let result = render_type(&simple_params_schema());
    assert!(result.contains("name: string;"));
    assert!(result.contains("age?: number;"));
}

#[test]
fn gen_doc_tests_test_render_type_object_with_description() {
    let result = render_type(&object_with_desc_schema());
    assert_eq!(
        result.matches("  // A description on the name field.").count(),
        1,
        "Expected exactly one comment; got:\n{}",
        result
    );
}

#[test]
fn gen_doc_tests_test_render_type_object_with_required() {
    let result = render_type(&object_with_required_schema());
    assert!(result.contains("name: string;"));
    assert!(result.contains("age?: number;"));
    let name_pos = result.find("name:").expect("name field missing");
    let age_pos = result.find("age?:").expect("age field missing");
    assert!(name_pos < age_pos, "Required field 'name' should appear before optional 'age'");
}

// -- Array

#[test]
fn gen_doc_tests_test_render_type_array() {
    assert_eq!(render_type(&vec_string_schema()), "Array<string>");
}

// -- Enums / unions

#[test]
fn gen_doc_tests_test_render_type_enum_strings() {
    assert_eq!(render_value(&enum_strings_value()), "\"foo\" | \"bar\"");
}

#[test]
fn gen_doc_tests_test_render_type_one_of() {
    assert!(render_value(&one_of_value()).contains("string | number"));
}

// -- Multi-line descriptions

#[test]
fn gen_doc_tests_test_render_type_block_multi_line_root_description() {
    let result = render_type_block(&multi_line_root_desc_schema(), "Params", true);
    assert!(result.contains("// First line.\n"));
    assert!(result.contains("// Second line.\n"));
    assert!(result.contains("// Third line.\n"));
    assert!(!result.contains("/*"));
}

#[test]
fn gen_doc_tests_test_render_value_multi_line_property_description() {
    let result = render_value(&multi_line_prop_desc_schema());
    assert!(result.contains("  // First line.\n"));
    assert!(result.contains("  // Second line.\n"));
    assert!(result.contains("  // Third line.\n"));
}

// -- Ref simplification

#[test]
fn gen_doc_tests_test_render_value_ref_simplification() {
    assert_eq!(render_value(&jv(r##"{"$ref":"#/$defs/FileGlobs"}"##)), "FileGlobs");
}

#[test]
fn gen_doc_tests_test_render_value_ref_no_prefix() {
    assert_eq!(render_value(&jv(r#"{"$ref":"FileGlobs"}"#)), "FileGlobs");
}

#[test]
fn gen_doc_tests_test_render_value_ref_nested() {
    assert_eq!(render_value(&jv(r##"{"$ref":"#/$defs/SomeNested/Type"}"##)), "Type");
}

#[test]
fn test_render_type_block_include_desc_false() {
    let result = render_type_block(&params_with_root_desc_schema(), "Params", false);
    assert!(!result.contains("// Root description"));
    assert!(result.contains("type Params = {"));
}

// -- Type expressions, by substring

#[test]
fn engine_doc_tests_test_render_type_string() {
    assert_eq!(render_type(&string_schema()), "string");
}

#[test]
fn engine_doc_tests_test_render_type_number() {
    assert_eq!(render_type(&i32_schema()), "number");
}

#[test]
fn engine_doc_tests_test_render_type_boolean() {
    assert_eq!(render_type(&bool_schema()), "boolean");
}

#[test]
fn engine_doc_tests_test_render_type_null_schema() {
    assert_eq!(render_type(&jv("true")), "any");
}

#[test]
fn engine_doc_tests_test_render_type_object_simple() {
    let result = render_type(&simple_params_schema());
    assert!(result.contains("name: string;"));
    assert!(result.contains("age?: number;"));
}

#[test]
fn engine_doc_tests_test_render_type_object_with_description() {
    let result = render_type(&object_with_desc_schema());
    assert_eq!(
        result.matches("// A description on the name field.").count(),
        1,
        "Expected exactly one comment; got:\n{}",
        result
    );
}

#[test]
fn engine_doc_tests_test_render_type_object_with_required() {
    let result = render_type(&object_with_required_schema());
    assert!(result.contains("name: string;"));
    assert!(result.contains("age?: number;"));
}

#[test]
fn engine_doc_tests_test_render_type_array() {
    assert_eq!(render_type(&vec_string_schema()), "Array<string>");
}

#[test]
fn engine_doc_tests_test_render_type_enum_strings() {
    assert_eq!(render_value(&enum_strings_value()), "\"foo\" | \"bar\"");
}

#[test]
fn engine_doc_tests_test_render_type_one_of() {
    assert!(render_value(&one_of_value()).contains("string | number"));
}

#[test]
fn engine_doc_tests_test_render_type_block_multi_line_root_description() {
    let result = render_type_block(&multi_line_root_desc_schema(), "Params", true);
    assert!(result.contains("// First line.\n"));
    assert!(result.contains("// Second line.\n"));
    assert!(result.contains("// Third line.\n"));
}

#[test]
fn engine_doc_tests_test_render_value_multi_line_property_description() {
    let result = render_value(&multi_line_prop_desc_schema());
    assert!(result.contains("// First line.\n"));
    assert!(result.contains("// Second line.\n"));
    assert!(result.contains("// Third line.\n"));
}

#[test]
fn engine_doc_tests_test_render_value_ref_simplification() {
    assert_eq!(render_value(&jv(r##"{"$ref":"#/$defs/FileGlobs"}"##)), "FileGlobs");
}

#[test]
fn engine_doc_tests_test_render_value_ref_no_prefix() {
    assert_eq!(render_value(&jv(r#"{"$ref":"FileGlobs"}"#)), "FileGlobs");
}

#[test]
fn engine_doc_tests_test_render_value_ref_nested() {
    assert_eq!(render_value(&jv(r##"{"$ref":"#/$defs/SomeNested/Type"}"##)), "Type");
}

// -- Exact outputs

#[test]
fn test_render_object_exact_order_and_notes() {
    let v = jv(
        r##"{"type":"object","required":["zeta","alpha"],"properties":{
            "beta":{"type":["string","null"],"description":"B line one\nB line two","default":"x"},
            "zeta":{"type":"integer","default":3},
            "alpha":{"type":"array","items":{"$ref":"#/$defs/Item"}},
            "gamma":{"type":"null"}
        }}"##,
    );
    assert_eq!(
        render_value(&v),
        "{\n  alpha: Array<Item>;\n  // default: 3\n  zeta: number;\n  // B line one\n  // B line two\n  // default: \"x\"\n  beta?: string;\n  gamma?: any;\n}"
    );
}

#[test]
fn test_render_value_fallbacks() {
    assert_eq!(render_value(&jv("null")), "any");
    assert_eq!(render_value(&jv("12")), "any");
    assert_eq!(render_value(&jv(r#"{"type":"object"}"#)), "{}");
    assert_eq!(render_value(&jv(r#"{"type":"object","properties":{}}"#)), "{}");
    assert_eq!(render_value(&jv(r#"{"type":"array"}"#)), "any[]");
    assert_eq!(render_value(&jv(r#"{"type":"thing"}"#)), "any");
    assert_eq!(render_value(&jv(r#"{"type":["integer","null","thing",{"type":"boolean"}]}"#)), "number | null | any | boolean");
    assert_eq!(render_value(&jv(r#"{"anyOf":[{"$ref":"A"},{"type":"null"}]}"#)), "A | null");
    assert_eq!(render_value(&jv(r#"{"oneOf":"x"}"#)), "any");
    assert_eq!(render_value(&jv(r#"{"$ref":3}"#)), "any");
    assert_eq!(render_value(&jv(r#"{"description":"only"}"#)), "any");
}

#[test]
fn test_render_enum_values() {
    assert_eq!(render_enum(&jv(r#"[1,true,null,"a\"b",[1,2],{"k":"v"}]"#)), "1 | true | null | \"a\"b\" | [1,2] | {\"k\":\"v\"}");
    assert_eq!(render_enum(&jv(r#""no""#)), "any");
}

#[test]
fn test_json_text_compact() {
    let v = jv(r#"{"b":[1,2.5,"t\n"],"a":{"x":null,"y":false}}"#);
    let expected = serde_json::to_string(&serde_json::from_str::<serde_json::Value>(r#"{"b":[1,2.5,"t\n"],"a":{"x":null,"y":false}}"#).unwrap()).unwrap();
    assert_eq!(to_json_text(&v), expected);
    assert_eq!(to_json_text(&jv(r#""q\"\\""#)), r#""q\"\\""#);
}

#[test]
fn test_render_type_block_with_description() {
    let v = jv(r#"{"description":"Line A\nLine B","type":"string"}"#);
    assert_eq!(render_type_block(&v, "T", true), "// Line A\n// Line B\ntype T = string;\n");
    assert_eq!(render_type_block(&v, "T", false), "type T = string;\n");
    assert_eq!(render_type_block(&jv("true"), "Error", true), "type Error = any;\n");
}

// -- render_fn

fn reg_fn(path: &str, description: Option<&str>, title: Option<&str>, params: JsonValue, output: JsonValue) -> RegisteredFnDoc {
    RegisteredFnDoc {
        path: path.to_string(),
        title: title.map(|t| t.to_string()),
        description: description.map(|d| d.to_string()),
        params_schema: params,
        output_schema: output,
        error_schema: jv("true"),
    }
}

#[test]
fn gen_doc_tests_test_render_fn_basic() {
    let f = reg_fn("my_func", None, None, params_with_root_desc_schema(), string_schema());
    let result = render_fn(&f, None);
    assert!(result.contains("### my_func\n"));
    // The root description should appear as function-level text, not as a comment
    assert!(!result.contains("// Root description for the params."));
    assert!(result.contains("Root description for the params."));
    assert!(result.contains("```ts\n"));
    assert!(result.contains("type Params = "));
    assert!(result.contains("params: Params): string"));
    assert!(!result.contains("type Output"));
    assert!(result.contains("type Error = any;\n"));
    assert!(result.contains("```\n"));
}

#[test]
fn test_render_fn_with_handler_description() {
    let f = reg_fn("my_func", Some("Custom description"), None, multi_line_prop_desc_schema(), string_schema());
    let result = render_fn(&f, None);
    assert!(result.contains("Custom description\n\n"));
}

#[test]
fn test_render_fn_with_handler_title() {
    let f = reg_fn("my_func", Some("Custom description"), Some("Custom Title"), multi_line_prop_desc_schema(), string_schema());
    let result = render_fn(&f, None);
    assert!(!result.contains("Custom Title"));
    assert!(result.contains("Custom description\n\n"));
}

#[test]
fn test_render_fn_fallback_to_schema_description() {
    let f = reg_fn("my_func", None, None, params_with_root_desc_schema(), string_schema());
    let result = render_fn(&f, None);
    assert!(result.contains("Root description for the params."));
}

#[test]
fn test_render_fn_exact_sections() {
    let f = reg_fn("m.f", Some("Does f."), None, simple_params_schema(), simple_params_schema());
    let result = render_fn(&f, None);
    assert_eq!(
        result,
        "### m.f\n\n`m.f(params: Params): Output`\n\nDoes f.\n\n```ts\ntype Params = {\n  name: string;\n  age?: number;\n};\n\ntype Output = {\n  name: string;\n  age?: number;\n};\n\ntype Error = any;\n```\n\n"
    );
    let common = jv(r#"{"type":"string"}"#);
    let shared = render_fn(&f, Some(&common));
    assert!(!shared.contains("type Error"));
    assert!(shared.ends_with("};\n\n```\n\n"));
}

#[test]
fn test_signature_from_schemas() {
    let f = reg_fn("aip.file.read", Some("Reads a file from disk."), None, simple_params_schema(), string_schema());
    let doc = fn_doc_of(&f);
    assert_eq!(render_fn_signature(&doc), "// Reads a file from disk.\naip.file.read(params: AipFileReadParams): string\n");
    let g = reg_fn("aip.time.add", None, None, params_with_root_desc_schema(), string_schema());
    let h = reg_fn("aip.time.sub", None, None, params_with_root_desc_schema(), string_schema());
    let (block, types) = render_module("aip.time", &[fn_doc_of(&g), fn_doc_of(&h)]);
    assert!(block.contains("// Root description for the params.\naip.time.add(params: AipTimeAddParams): string\n"));
    assert!(block.contains("aip.time.sub(params: AipTimeAddParams): string\n"));
    assert_eq!(types.len(), 1);
    let blocks = module_type_blocks(&types, &[g, h]);
    let types_block = render_module_types("aip.time", &blocks);
    assert!(types_block.contains("### aip.time.* Types\n\n```ts\n"));
    assert!(types_block.contains("type AipTimeAddParams = {\n  name: string;\n};\n"));
    assert!(!types_block.contains("AipTimeSubParams"));
    assert!(!types_block.contains("// Root description"));
    let sd = schema_doc(&jv(r#"{"type":["string","null"]}"#));
    assert_eq!(sd.inline.as_deref(), Some("string | null"));
    assert_eq!(sd.key, r#"{"type":["string","null"]}"#);
    assert_eq!(schema_doc(&simple_params_schema()).inline, None);
}

#[test]
fn test_json_string_escapes_match_serde_json() {
    let text = "a\u{1}\u{1f}\"\\\n\t\r\u{8}\u{c}é\u{7f}/ z";
    let v = JsonValue::String(text.to_string());
    assert_eq!(to_json_text(&v), serde_json::to_string(text).unwrap());
    assert_eq!(to_json_text(&v), "\"a\\u0001\\u001f\\\"\\\\\\n\\t\\r\\b\\fé\u{7f}/ z\"");
}
