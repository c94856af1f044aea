use aiprog::engine::gen_doc::fn_renderer::{
    render_fn_signature, render_module, render_module_signatures, render_module_types, FnDoc, SchemaDoc,
};
use aiprog::engine::gen_doc::{
    format_doc_comment, group_fns_by_module, path_to_type_name, simplify_optional_type, try_primitive_type_name,
};

#[test]
fn test_path_to_type_name() {
    assert_eq!(path_to_type_name("aip.file.list", "Params"), "AipFileListParams");
    assert_eq!(path_to_type_name("aip.time.offset", "Output"), "AipTimeOffsetOutput");
    assert_eq!(path_to_type_name("my_func", "Params"), "MyFuncParams");
    assert_eq!(
        path_to_type_name("custom-tool_name.do_work", "Params"),
        "CustomToolNameDoWorkParams"
    );
}

#[test]
fn test_path_to_type_name_edges() {
    // Empty words are skipped; the suffix alone remains for an empty path.
    assert_eq!(path_to_type_name("", "Params"), "Params");
    assert_eq!(path_to_type_name("..a__b--", "X"), "ABX");
    // Non-ASCII first characters go through the Unicode uppercase mapping.
    assert_eq!(path_to_type_name("é.ß", ""), "ÉSS");
    // Characters other than the first of a word are kept as they are.
    assert_eq!(path_to_type_name("aBC.dEF", ""), "ABCDEF");
}

#[test]
fn test_format_doc_comment_lines() {
    assert_eq!(format_doc_comment("Reads a file from disk."), "// Reads a file from disk.\n");
    assert_eq!(
        format_doc_comment("  First line.\n\n   Second line.  \n"),
        "// First line.\n//\n// Second line.\n"
    );
    assert_eq!(format_doc_comment("a\r\nb"), "// a\n// b\n");
}

#[test]
fn test_format_doc_comment_blank() {
    assert_eq!(format_doc_comment(""), "");
    assert_eq!(format_doc_comment(" \n\t "), "");
}

#[test]
fn test_try_primitive_type_name() {
    assert_eq!(try_primitive_type_name("string"), Some("string"));
    assert_eq!(try_primitive_type_name("number"), Some("number"));
    assert_eq!(try_primitive_type_name("integer"), Some("number"));
    assert_eq!(try_primitive_type_name("boolean"), Some("boolean"));
    assert_eq!(try_primitive_type_name("null"), Some("null"));
    assert_eq!(try_primitive_type_name("object"), None);
    assert_eq!(try_primitive_type_name("String"), None);
}

#[test]
fn test_simplify_optional_type() {
    assert_eq!(simplify_optional_type("number | null"), "number");
    assert_eq!(simplify_optional_type("null | string"), "string");
    assert_eq!(simplify_optional_type("null"), "any");
    assert_eq!(simplify_optional_type("null | null"), "any");
    assert_eq!(simplify_optional_type("string"), "string");
    assert_eq!(simplify_optional_type("a | null | b"), "a | b");
    assert_eq!(simplify_optional_type("nullable"), "nullable");
}

#[test]
fn test_group_fns_by_module() {
    let paths = ["aip.time.now", "aip.file.list", "aip.file.read"];
    let groups = group_fns_by_module(&paths);

    assert_eq!(groups.len(), 2);
    assert_eq!(groups[0].module_name, "aip.file");
    assert_eq!(groups[0].fns.len(), 2);
    assert_eq!(paths[groups[0].fns[0]], "aip.file.list");
    assert_eq!(paths[groups[0].fns[1]], "aip.file.read");

    assert_eq!(groups[1].module_name, "aip.time");
    assert_eq!(groups[1].fns.len(), 1);
    assert_eq!(paths[groups[1].fns[0]], "aip.time.now");
}

#[test]
fn test_group_fns_by_module_edges() {
    // No dot: the whole path is the module; equal paths keep their order;
    // modules sort by text, not by their functions' paths.
    let paths = ["b.x", "a.b.c", "a.bz", "solo", "b.x"];
    let groups = group_fns_by_module(&paths);
    let names: Vec<&str> = groups.iter().map(|g| g.module_name.as_str()).collect();
    assert_eq!(names, vec!["a", "a.b", "b", "solo"]);
    assert_eq!(groups[0].fns, vec![2]);
    assert_eq!(groups[1].fns, vec![1]);
    assert_eq!(groups[2].fns, vec![0, 4]);
    assert_eq!(groups[3].fns, vec![3]);
    assert!(group_fns_by_module(&[]).is_empty());
}

fn object_schema(key: &str) -> SchemaDoc {
    SchemaDoc { inline: None, key: key.to_string() }
}

fn inline_schema(t: &str) -> SchemaDoc {
    SchemaDoc { inline: Some(t.to_string()), key: format!("{{\"type\":\"{t}\"}}") }
}

fn fn_doc(path: &str, description: Option<&str>, params: SchemaDoc, output: SchemaDoc) -> FnDoc {
    FnDoc { path: path.to_string(), description: description.map(|d| d.to_string()), params, output }
}

#[test]
fn test_render_fn_signature() {
    let f = fn_doc("aip.file.read", Some("Reads a file from disk."), object_schema("simple"), inline_schema("string"));
    let sig = render_fn_signature(&f);
    assert_eq!(sig, "// Reads a file from disk.\naip.file.read(params: AipFileReadParams): string\n");
}

#[test]
fn test_render_fn_signature_multiline() {
    let f = fn_doc(
        "aip.file.read",
        Some("First line of description.\n\nSecond line of description."),
        object_schema("simple"),
        inline_schema("string"),
    );
    let sig = render_fn_signature(&f);
    assert!(sig.contains("// First line of description.\n//\n// Second line of description.\n"));
    assert!(sig.contains("aip.file.read(params: AipFileReadParams): string\n"));
}

#[test]
fn test_render_fn_signature_inline_rules() {
    // A parameter expression that says nothing takes the derived name; an
    // output expression stays as it is.
    let f = fn_doc("x.y", None, inline_schema("any"), inline_schema("any"));
    assert_eq!(render_fn_signature(&f), "x.y(params: XYParams): any\n");
    let g = fn_doc("x.y", None, inline_schema("{}"), object_schema("o"));
    assert_eq!(render_fn_signature(&g), "x.y(params: XYParams): XYOutput\n");
    let h = fn_doc("x.y", None, inline_schema("Array<string>"), inline_schema("number"));
    assert_eq!(render_fn_signature(&h), "x.y(params: Array<string>): number\n");
}

#[test]
fn test_render_module_signatures() {
    let fns = vec![
        fn_doc("aip.file.list", Some("Lists files matching glob patterns."), object_schema("simple"), inline_schema("string")),
        fn_doc("aip.file.read", Some("Reads a file from disk."), object_schema("read"), inline_schema("string")),
    ];
    let result = render_module_signatures("aip.file", &fns);
    assert!(result.starts_with("## aip.file.*\n\n```ts\n"));
    assert!(result.contains("// Lists files matching glob patterns.\n"));
    assert!(result.contains("aip.file.list(params: AipFileListParams): string\n"));
    assert!(result.contains("// Reads a file from disk.\n"));
    assert!(result.contains("aip.file.read(params: AipFileReadParams): string\n"));
    assert!(result.ends_with("```\n\n"));
    assert_eq!(
        result,
        "## aip.file.*\n\n```ts\n// Lists files matching glob patterns.\naip.file.list(params: AipFileListParams): string\n\n// Reads a file from disk.\naip.file.read(params: AipFileReadParams): string\n```\n\n"
    );
}

#[test]
fn test_render_module_deduplication() {
    let fns = vec![
        fn_doc("aip.time.add", Some("Adds time offset."), object_schema("simple"), inline_schema("string")),
        fn_doc("aip.time.sub", Some("Subtracts time offset."), object_schema("simple"), inline_schema("string")),
    ];
    let (sig_block, types) = render_module("aip.time", &fns);
    assert!(sig_block.contains("aip.time.add(params: AipTimeAddParams): string\n"));
    assert!(sig_block.contains("aip.time.sub(params: AipTimeAddParams): string\n"));
    assert_eq!(types.len(), 1);
    assert_eq!(types[0].name, "AipTimeAddParams");
    assert_eq!(types[0].fn_index, 0);
    assert!(types[0].is_params);

    let blocks = vec!["type AipTimeAddParams = {\n  name: string;\n};\n".to_string()];
    let types_block = render_module_types("aip.time", &blocks);
    assert_eq!(
        types_block,
        "### aip.time.* Types\n\n```ts\ntype AipTimeAddParams = {\n  name: string;\n};\n```\n\n"
    );
    assert!(!types_block.contains("AipTimeSubParams"));
    assert_eq!(render_module_types("aip.time", &[]), "");
}

#[test]
fn test_render_module_output_types() {
    let fns = vec![
        fn_doc("m.a", None, inline_schema("string"), object_schema("out")),
        fn_doc("m.b", None, object_schema("out"), object_schema("out")),
    ];
    let (block, types) = render_module("m", &fns);
    // Parameter and output names are kept apart.
    assert!(block.contains("m.a(params: string): MAOutput\n"));
    assert!(block.contains("m.b(params: MBParams): MAOutput\n"));
    let names: Vec<(&str, usize, bool)> = types.iter().map(|t| (t.name.as_str(), t.fn_index, t.is_params)).collect();
    assert_eq!(names, vec![("MAOutput", 0, false), ("MBParams", 1, true)]);
}
