use aiprog::LuaErrorDetails;

type Result<T> = core::result::Result<T, Box<dyn std::error::Error>>;

#[test]
fn test_error_lua_details_new_surround_code() -> Result<()> {
    // -- Setup & Fixtures
    let script = "line one\nline two\nline three\nline four\nline five";

    // -- Exec
    let details = LuaErrorDetails::new(script, Some(3), "some failure message", None);

    // -- Check
    assert_eq!(details.line_number(), Some(3));
    assert_eq!(details.message(), "some failure message");
    let surround = details.surround_code().ok_or("Should have surround_code")?;
    assert!(surround.contains("    1 | line one"));
    assert!(surround.contains("  > 3 | line three"));
    assert!(surround.contains("    5 | line five"));

    Ok(())
}

#[test]
fn test_error_lua_details_new_no_line() -> Result<()> {
    // -- Setup & Fixtures
    let script = "local a = 1\nreturn a";

    // -- Exec
    let details = LuaErrorDetails::new(script, None, "plain message", None);

    // -- Check
    assert_eq!(details.line_number(), None);
    assert!(details.surround_code().is_none());

    Ok(())
}

#[test]
fn test_error_lua_details_display_with_line() -> Result<()> {
    // -- Setup & Fixtures
    let script = "local a = 1\nlocal b = bad()\nreturn a";
    let details = LuaErrorDetails::new(script, Some(2), "aip.test - some failure", None);

    // -- Exec
    let rendered = details.to_string();

    // -- Check
    assert!(rendered.starts_with("aip.test - some failure"));
    assert!(rendered.contains("at line 2:"));
    assert!(rendered.contains("  > 2 | local b = bad()"));
    assert!(rendered.contains("    1 | local a = 1"));
    assert!(rendered.contains("    3 | return a"));

    Ok(())
}

#[test]
fn test_error_lua_details_display_no_line() -> Result<()> {
    // -- Setup & Fixtures
    let details = LuaErrorDetails::new("local a = 1", None, "plain message", None);

    // -- Exec
    let rendered = details.to_string();

    // -- Check
    assert_eq!(rendered, "plain message");

    Ok(())
}

#[test]
fn test_error_lua_details_from_lua_error_simple() -> Result<()> {
    // -- Setup & Fixtures
    let script = "local a = 1\nerror('boom')\nreturn a";
    let lua_err = mlua::Error::RuntimeError("script:2: boom".to_string());

    // -- Exec
    let details = LuaErrorDetails::from_lua_error(&lua_err, script);

    // -- Check
    assert_eq!(details.line_number(), Some(2));
    let surround = details.surround_code().ok_or("Should have surround_code")?;
    assert!(surround.contains("  > 2 | error('boom')"));
    assert!(details.message().contains("boom"));
    assert!(details.stack_trace().is_none());

    Ok(())
}

#[test]
fn test_error_lua_details_from_lua_error_with_traceback() -> Result<()> {
    // -- Setup & Fixtures
    let script = "local a = 1\nlocal b = bad()\nreturn a";
    let lua_err = mlua::Error::RuntimeError(
        "script:2: boom\nstack traceback:\n\t[C]: in local 'poll'\n\tscript:2: in main chunk".to_string(),
    );

    // -- Exec
    let details = LuaErrorDetails::from_lua_error(&lua_err, script);

    // -- Check
    assert_eq!(details.line_number(), Some(2));
    assert!(details.message().contains("boom"));
    assert!(!details.message().contains("stack traceback:"));
    let stack_trace = details.stack_trace().ok_or("Should have stack_trace")?;
    assert!(stack_trace.contains("stack traceback:"));
    assert!(stack_trace.contains("[C]: in local 'poll'"));

    Ok(())
}

#[test]
fn test_error_lua_details_display_with_stack_trace() -> Result<()> {
    // -- Setup & Fixtures
    let script = "local a = 1\nlocal b = bad()\nreturn a";
    let lua_err = mlua::Error::RuntimeError(
        "script:2: boom\nstack traceback:\n\t[C]: in local 'poll'\n\tscript:2: in main chunk".to_string(),
    );
    let details = LuaErrorDetails::from_lua_error(&lua_err, script);

    // -- Exec
    let rendered = details.to_string();

    // -- Check
    assert!(rendered.starts_with("runtime error: script:2: boom"));
    assert!(rendered.contains("at line 2:"));
    assert!(rendered.contains("  > 2 | local b = bad()"));
    let surround_pos = rendered.find("  > 2 |").ok_or("Should have surround code")?;
    let tb_pos = rendered.find("stack traceback:").ok_or("Should have stack traceback in display")?;
    assert!(tb_pos > surround_pos, "stack traceback should come after surround code");

    Ok(())
}

#[test]
fn test_surround_code_edges() {
    let script = "l1\nl2\nl3\nl4\nl5\nl6\nl7\nl8\nl9\nl10\nl11";
    assert_eq!(
        aiprog::error_lua_details::build_surround_code(script, 9).as_deref(),
        Some("     7 | l7\n     8 | l8\n  >  9 | l9\n    10 | l10\n    11 | l11")
    );
    assert_eq!(aiprog::error_lua_details::build_surround_code(script, 1).as_deref(), Some("  > 1 | l1\n    2 | l2\n    3 | l3"));
    assert!(aiprog::error_lua_details::build_surround_code(script, 0).is_none());
    assert!(aiprog::error_lua_details::build_surround_code(script, 12).is_none());
}

#[test]
fn test_from_error_chain_picks_first_line_and_traceback() {
    let texts = vec![
        "outer failure".to_string(),
        "script:99999999999: too big".to_string(),
        "inner script:3: boom  \nstack traceback:\n\tmore".to_string(),
    ];
    let d = LuaErrorDetails::from_error_chain(&texts, "a\nb\nc\nd");
    assert_eq!(d.line_number(), Some(3));
    assert_eq!(d.message(), "outer failure");
    assert_eq!(d.stack_trace(), Some("stack traceback:\n\tmore"));
    let empty = LuaErrorDetails::from_error_chain(&[], "x");
    assert_eq!(empty.message(), "");
    assert_eq!(empty.line_number(), None);
}
