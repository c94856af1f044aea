use aiprog::engine::engine_template;
use aiprog::engine::script_engine::lua_runtime_policy::{
    validate_runtime_policy, LuaExecutionLimits, LuaRuntimePolicy, LuaStdLib, LuaStdLibPolicy,
};
use aiprog::engine::script_engine::lua_state::create_restricted_lua;
use aiprog::engine::EngineBuildError;
use std::time::Duration;

type Result<T> = core::result::Result<T, Box<dyn std::error::Error>>;

#[test]
fn test_script_engine_start_returns_context_after_setup_error() -> Result<()> {
    Ok(())
}

#[test]
fn test_default_policy_is_valid() {
    let policy = LuaRuntimePolicy::default();
    assert!(validate_runtime_policy(&policy).is_ok());
    let libs = policy.std_lib_policy().selected_libs();
    assert_eq!(
        libs,
        vec![LuaStdLib::Math, LuaStdLib::String, LuaStdLib::Table, LuaStdLib::Utf8]
    );
    assert_eq!(policy.limits().max_memory_bytes(), None);
}

#[test]
fn test_policy_rejects_disabled_base() {
    let policy = LuaRuntimePolicy::default().with_std_lib_policy(LuaStdLibPolicy::default().with_base(false));
    assert_eq!(validate_runtime_policy(&policy), Err(EngineBuildError::BaseLibraryRequired));
    assert_eq!(
        EngineBuildError::BaseLibraryRequired.to_string(),
        "The base Lua standard library cannot be disabled"
    );
}

#[test]
fn test_policy_rejects_unsupported_limits() {
    let with_instructions =
        LuaRuntimePolicy::default().with_limits(LuaExecutionLimits::default().with_max_instructions(10));
    assert_eq!(
        validate_runtime_policy(&with_instructions),
        Err(EngineBuildError::InstructionLimitUnsupported)
    );
    let with_timeout = LuaRuntimePolicy::default()
        .with_limits(LuaExecutionLimits::default().with_wall_clock_timeout(Duration::from_millis(5)));
    assert_eq!(
        validate_runtime_policy(&with_timeout),
        Err(EngineBuildError::WallClockTimeoutUnsupported)
    );
    // Base checked first.
    let both = with_instructions.with_std_lib_policy(LuaStdLibPolicy::default().with_base(false));
    assert_eq!(validate_runtime_policy(&both), Err(EngineBuildError::BaseLibraryRequired));
}

#[test]
fn test_policy_memory_limit_is_accepted() {
    let limits = LuaExecutionLimits::default().with_max_memory_bytes(1 << 20);
    assert_eq!(limits.max_memory_bytes(), Some(1 << 20));
    assert_eq!(limits.max_instructions(), None);
    assert_eq!(limits.wall_clock_timeout(), None);
    let policy = LuaRuntimePolicy::default().with_limits(limits);
    assert!(validate_runtime_policy(&policy).is_ok());
}

#[test]
fn test_selected_libs_follow_flags() {
    let p = LuaStdLibPolicy::default()
        .with_coroutine(true)
        .with_math(false)
        .with_string(false)
        .with_table(false)
        .with_utf8(false)
        .with_package(true)
        .with_io(true)
        .with_os(true)
        .with_debug(true);
    assert_eq!(
        p.selected_libs(),
        vec![LuaStdLib::Coroutine, LuaStdLib::Package, LuaStdLib::Io, LuaStdLib::Os, LuaStdLib::Debug]
    );
    assert!(p.base);
}

#[test]
fn test_template_policy_defaults_and_checks() {
    let policy = engine_template::LuaRuntimePolicy::default();
    assert!(engine_template::validate_runtime_policy(&policy).is_ok());
    let no_base = policy
        .clone()
        .with_std_lib_policy(engine_template::LuaStdLibPolicy::default().with_base(false));
    let err = engine_template::validate_runtime_policy(&no_base).unwrap_err();
    assert_eq!(err, engine_template::TemplateBuildError::BaseLibraryRequired);
    assert_eq!(
        engine_template::TemplateBuildError::MissingRegistry.to_string(),
        "An engine template requires a registry"
    );
    let limits = engine_template::LuaExecutionLimits::default()
        .with_max_memory_bytes(64)
        .with_wall_clock_timeout(Duration::from_secs(1));
    assert_eq!(limits.max_memory_bytes(), Some(64));
    assert_eq!(limits.wall_clock_timeout(), Some(Duration::from_secs(1)));
    let timed = policy.with_limits(limits);
    assert_eq!(
        engine_template::validate_runtime_policy(&timed),
        Err(engine_template::TemplateBuildError::WallClockTimeoutUnsupported)
    );
}

#[test]
fn test_create_restricted_lua_loads_selected_libs() {
    let state = create_restricted_lua(&LuaRuntimePolicy::default()).unwrap();
    assert_eq!(
        state.std_libs().clone(),
        vec![LuaStdLib::Math, LuaStdLib::String, LuaStdLib::Table, LuaStdLib::Utf8]
    );
    assert_eq!(state.memory_limit(), None);
    let lua = state.into_lua();
    assert_eq!(lua.load("return math.floor(2.5)").eval::<i64>().unwrap(), 2);
    assert!(lua.load("return io == nil and os == nil and coroutine == nil").eval::<bool>().unwrap());

    let with_io = LuaRuntimePolicy::default().with_std_lib_policy(LuaStdLibPolicy::default().with_io(true));
    let lua = create_restricted_lua(&with_io).unwrap().into_lua();
    assert!(lua.load("return io ~= nil").eval::<bool>().unwrap());
}

#[test]
fn test_create_restricted_lua_refuses_debug() {
    let with_debug = LuaRuntimePolicy::default().with_std_lib_policy(LuaStdLibPolicy::default().with_debug(true));
    assert!(create_restricted_lua(&with_debug).is_err());
    let template_debug = engine_template::LuaRuntimePolicy::default()
        .with_std_lib_policy(engine_template::LuaStdLibPolicy::default().with_debug(true));
    assert!(engine_template::create_restricted_lua(&template_debug).is_err());
}

#[test]
fn test_create_restricted_lua_memory_limit() {
    let limited = LuaRuntimePolicy::default()
        .with_limits(LuaExecutionLimits::default().with_max_memory_bytes(256 * 1024));
    let state = create_restricted_lua(&limited).unwrap();
    assert_eq!(state.memory_limit(), Some(256 * 1024));
    let lua = state.into_lua();
    let result = lua.load("local t = {} for i = 1, 10000000 do t[i] = i end return #t").eval::<i64>();
    assert!(result.is_err());
    let template = engine_template::create_restricted_lua(&engine_template::LuaRuntimePolicy::default()).unwrap().into_lua();
    assert!(template.load("return coroutine ~= nil").eval::<bool>().unwrap());
}

#[test]
fn test_lua_engine_stdlib_configuration() -> Result<()> {
    // -- Setup & Fixtures
    let lua = create_restricted_lua(&LuaRuntimePolicy::default())?.into_lua();

    // -- Check enabled libraries
    assert!(lua.globals().get::<mlua::Table>("string").is_ok());
    assert!(lua.globals().get::<mlua::Table>("math").is_ok());
    assert!(lua.globals().get::<mlua::Table>("table").is_ok());
    assert!(lua.globals().get::<mlua::Table>("utf8").is_ok());

    // -- Check disabled libraries
    assert_eq!(lua.globals().get::<mlua::Value>("os")?, mlua::Value::Nil);
    assert_eq!(lua.globals().get::<mlua::Value>("package")?, mlua::Value::Nil);
    assert_eq!(lua.globals().get::<mlua::Value>("debug")?, mlua::Value::Nil);
    assert_eq!(lua.globals().get::<mlua::Value>("coroutine")?, mlua::Value::Nil);
    assert_eq!(lua.globals().get::<mlua::Value>("io")?, mlua::Value::Nil);

    // -- Check standard library functions work
    let str_val: String = lua.load("return string.sub('hello world', 1, 5)").eval()?;
    assert_eq!(str_val, "hello");

    let math_val: i64 = lua.load("return math.floor(42.7)").eval()?;
    assert_eq!(math_val, 42);

    let tbl_val: String = lua.load("return table.concat({'a', 'b', 'c'}, '-')").eval()?;
    assert_eq!(tbl_val, "a-b-c");

    let utf8_val: usize = lua.load("return utf8.len('hello')").eval()?;
    assert_eq!(utf8_val, 5);

    Ok(())
}
