//! Runtime policy of engine templates, with encapsulated settings, and the
//! checks an engine template build makes.

use std::time::Duration;
use vstd::prelude::*;

use crate::error::owned;
use crate::support::lua_api::{lua_with_std_libs, set_lua_memory_limit, LuaState};
use mlua::Error as MluaError;
use super::script_engine::lua_runtime_policy::{
    selected_std_libs, LuaExecutionLimits as LimitsView, LuaStdLibPolicy as StdLibView,
};

verus! {

/// The Lua standard library and limit settings of an engine template.
#[derive(Debug, Clone)]
pub struct LuaRuntimePolicy {
    std_lib_policy: LuaStdLibPolicy,
    limits: LuaExecutionLimits,
}

/// Which Lua standard libraries are loaded (settings read through its view).
#[derive(Debug, Clone)]
pub struct LuaStdLibPolicy {
    base: bool,
    coroutine: bool,
    math: bool,
    string: bool,
    table: bool,
    utf8: bool,
    package: bool,
    io: bool,
    os: bool,
    debug: bool,
}

/// Execution limits of a Lua state (settings read through its view).
#[derive(Debug, Clone)]
pub struct LuaExecutionLimits {
    max_memory_bytes: Option<usize>,
    max_instructions: Option<u64>,
    wall_clock_timeout: Option<Duration>,
}

impl View for LuaStdLibPolicy {
    type V = StdLibView;

    closed spec fn view(&self) -> StdLibView {
        StdLibView {
            base: self.base,
            coroutine: self.coroutine,
            math: self.math,
            string: self.string,
            table: self.table,
            utf8: self.utf8,
            package: self.package,
            io: self.io,
            os: self.os,
            debug: self.debug,
        }
    }
}

impl View for LuaExecutionLimits {
    type V = LimitsView;

    closed spec fn view(&self) -> LimitsView {
        LimitsView {
            max_memory_bytes: self.max_memory_bytes,
            max_instructions: self.max_instructions,
            wall_clock_timeout: self.wall_clock_timeout,
        }
    }
}

impl View for LuaRuntimePolicy {
    type V = (StdLibView, LimitsView);

    closed spec fn view(&self) -> (StdLibView, LimitsView) {
        (self.std_lib_policy@, self.limits@)
    }
}

/// The default standard library selection of a template: base, coroutine,
/// math, string, table and utf8 on; package, io, os and debug off.
pub open spec fn template_default_std_libs() -> StdLibView {
    StdLibView {
        base: true,
        coroutine: true,
        math: true,
        string: true,
        table: true,
        utf8: true,
        package: false,
        io: false,
        os: false,
        debug: false,
    }
}

/// Limits with nothing set.
pub open spec fn no_limits(l: LimitsView) -> bool {
    l.max_memory_bytes is None && l.max_instructions is None && l.wall_clock_timeout is None
}

impl Default for LuaStdLibPolicy {
    fn default() -> (r: Self)
        ensures
            r@ == template_default_std_libs(),
    {
        LuaStdLibPolicy {
            base: true,
            coroutine: true,
            math: true,
            string: true,
            table: true,
            utf8: true,
            package: false,
            io: false,
            os: false,
            debug: false,
        }
    }
}

impl Default for LuaExecutionLimits {
    fn default() -> (r: Self)
        ensures
            no_limits(r@),
    {
        LuaExecutionLimits { max_memory_bytes: None, max_instructions: None, wall_clock_timeout: None }
    }
}

impl Default for LuaRuntimePolicy {
    fn default() -> (r: Self)
        ensures
            r@.0 == template_default_std_libs(),
            no_limits(r@.1),
    {
        LuaRuntimePolicy { std_lib_policy: LuaStdLibPolicy::default(), limits: LuaExecutionLimits::default() }
    }
}

impl LuaRuntimePolicy {
    /// Replaces the standard library selection.
    pub fn with_std_lib_policy(self, policy: LuaStdLibPolicy) -> (r: Self)
        ensures
            r@ == (policy@, self@.1),
    {
        let mut s = self;
        s.std_lib_policy = policy;
        s
    }

    /// Replaces the execution limits.
    pub fn with_limits(self, limits: LuaExecutionLimits) -> (r: Self)
        ensures
            r@ == (self@.0, limits@),
    {
        let mut s = self;
        s.limits = limits;
        s
    }

    /// The standard library selection.
    pub fn std_lib_policy(&self) -> (r: &LuaStdLibPolicy)
        ensures
            r@ == self@.0,
    {
        &self.std_lib_policy
    }

    /// The execution limits.
    pub fn limits(&self) -> (r: &LuaExecutionLimits)
        ensures
            r@ == self@.1,
    {
        &self.limits
    }
}

impl LuaStdLibPolicy {
    /// Sets whether the base library is loaded.
    pub fn with_base(self, enabled: bool) -> (r: Self)
        ensures
            r@ == (StdLibView { base: enabled, ..self@ }),
    {
        let mut s = self;
        s.base = enabled;
        s
    }

    /// Sets whether the coroutine library is loaded.
    pub fn with_coroutine(self, enabled: bool) -> (r: Self)
        ensures
            r@ == (StdLibView { coroutine: enabled, ..self@ }),
    {
        let mut s = self;
        s.coroutine = enabled;
        s
    }

    /// Sets whether the math library is loaded.
    pub fn with_math(self, enabled: bool) -> (r: Self)
        ensures
            r@ == (StdLibView { math: enabled, ..self@ }),
    {
        let mut s = self;
        s.math = enabled;
        s
    }

    /// Sets whether the string library is loaded.
    pub fn with_string(self, enabled: bool) -> (r: Self)
        ensures
            r@ == (StdLibView { string: enabled, ..self@ }),
    {
        let mut s = self;
        s.string = enabled;
        s
    }

    /// Sets whether the table library is loaded.
    pub fn with_table(self, enabled: bool) -> (r: Self)
        ensures
            r@ == (StdLibView { table: enabled, ..self@ }),
    {
        let mut s = self;
        s.table = enabled;
        s
    }

    /// Sets whether the utf8 library is loaded.
    pub fn with_utf8(self, enabled: bool) -> (r: Self)
        ensures
            r@ == (StdLibView { utf8: enabled, ..self@ }),
    {
        let mut s = self;
        s.utf8 = enabled;
        s
    }

    /// Sets whether the package library is loaded.
    pub fn with_package(self, enabled: bool) -> (r: Self)
        ensures
            r@ == (StdLibView { package: enabled, ..self@ }),
    {
        let mut s = self;
        s.package = enabled;
        s
    }

    /// Sets whether the io library is loaded.
    pub fn with_io(self, enabled: bool) -> (r: Self)
        ensures
            r@ == (StdLibView { io: enabled, ..self@ }),
    {
        let mut s = self;
        s.io = enabled;
        s
    }

    /// Sets whether the os library is loaded.
    pub fn with_os(self, enabled: bool) -> (r: Self)
        ensures
            r@ == (StdLibView { os: enabled, ..self@ }),
    {
        let mut s = self;
        s.os = enabled;
        s
    }

    /// Sets whether the debug library is loaded.
    pub fn with_debug(self, enabled: bool) -> (r: Self)
        ensures
            r@ == (StdLibView { debug: enabled, ..self@ }),
    {
        let mut s = self;
        s.debug = enabled;
        s
    }
}

impl LuaExecutionLimits {
    /// Sets the memory limit.
    pub fn with_max_memory_bytes(self, max_memory_bytes: usize) -> (r: Self)
        ensures
            r@ == (LimitsView { max_memory_bytes: Some(max_memory_bytes), ..self@ }),
    {
        let mut s = self;
        s.max_memory_bytes = Some(max_memory_bytes);
        s
    }

    /// Sets the instruction limit.
    pub fn with_max_instructions(self, max_instructions: u64) -> (r: Self)
        ensures
            r@ == (LimitsView { max_instructions: Some(max_instructions), ..self@ }),
    {
        let mut s = self;
        s.max_instructions = Some(max_instructions);
        s
    }

    /// Sets the wall-clock timeout.
    pub fn with_wall_clock_timeout(self, wall_clock_timeout: Duration) -> (r: Self)
        ensures
            r@ == (LimitsView { wall_clock_timeout: Some(wall_clock_timeout), ..self@ }),
    {
        let mut s = self;
        s.wall_clock_timeout = Some(wall_clock_timeout);
        s
    }

    /// The memory limit, if any.
    pub fn max_memory_bytes(&self) -> (r: Option<usize>)
        ensures
            r == self@.max_memory_bytes,
    {
        self.max_memory_bytes
    }

    /// The instruction limit, if any.
    pub fn max_instructions(&self) -> (r: Option<u64>)
        ensures
            r == self@.max_instructions,
    {
        self.max_instructions
    }

    /// The wall-clock timeout, if any.
    pub fn wall_clock_timeout(&self) -> (r: Option<Duration>)
        ensures
            r == self@.wall_clock_timeout,
    {
        self.wall_clock_timeout
    }
}

/// Why an engine template cannot be built.
#[derive(Debug, PartialEq, Eq, Structural)]
pub enum TemplateBuildError {
    MissingRegistry,
    BaseLibraryRequired,
    InstructionLimitUnsupported,
    WallClockTimeoutUnsupported,
}

/// The message of each template build error.
pub open spec fn template_build_error_message(e: TemplateBuildError) -> Seq<char> {
    match e {
        TemplateBuildError::MissingRegistry => "An engine template requires a registry"@,
        TemplateBuildError::BaseLibraryRequired => "The base Lua standard library cannot be disabled"@,
        TemplateBuildError::InstructionLimitUnsupported => "Lua instruction limits are not supported by the current runtime"@,
        TemplateBuildError::WallClockTimeoutUnsupported => "Lua wall-clock limits are not supported by the current runtime"@,
    }
}

impl TemplateBuildError {
    /// The error's message.
    pub fn to_string(&self) -> (r: String)
        ensures
            r@ == template_build_error_message(*self),
    {
        match self {
            TemplateBuildError::MissingRegistry => owned("An engine template requires a registry"),
            TemplateBuildError::BaseLibraryRequired => owned("The base Lua standard library cannot be disabled"),
            TemplateBuildError::InstructionLimitUnsupported => owned(
                "Lua instruction limits are not supported by the current runtime",
            ),
            TemplateBuildError::WallClockTimeoutUnsupported => owned(
                "Lua wall-clock limits are not supported by the current runtime",
            ),
        }
    }
}

/// The outcome of checking a template's runtime policy: the base library
/// must stay on, and instruction and wall-clock limits are not supported.
pub open spec fn template_policy_check(p: (StdLibView, LimitsView)) -> core::result::Result<(), TemplateBuildError> {
    if !p.0.base {
        Err(TemplateBuildError::BaseLibraryRequired)
    } else if p.1.max_instructions is Some {
        Err(TemplateBuildError::InstructionLimitUnsupported)
    } else if p.1.wall_clock_timeout is Some {
        Err(TemplateBuildError::WallClockTimeoutUnsupported)
    } else {
        Ok(())
    }
}

/// Law: a template policy is refused when it turns the base library off;
/// otherwise when it sets an instruction limit, which the runtime cannot
/// enforce; otherwise when it sets a wall-clock limit, which it cannot
/// enforce either. It is accepted exactly when the base library is on and
/// neither limit is set.
pub proof fn law_template_policy_refusals(p: (StdLibView, LimitsView))
    ensures
        !p.0.base ==> template_policy_check(p) == Err::<(), TemplateBuildError>(
            TemplateBuildError::BaseLibraryRequired,
        ),
        p.0.base && p.1.max_instructions is Some ==> template_policy_check(p) == Err::<(), TemplateBuildError>(
            TemplateBuildError::InstructionLimitUnsupported,
        ),
        p.0.base && p.1.max_instructions is None && p.1.wall_clock_timeout is Some ==> template_policy_check(p)
            == Err::<(), TemplateBuildError>(TemplateBuildError::WallClockTimeoutUnsupported),
        template_policy_check(p) is Ok <==> p.0.base && p.1.max_instructions is None
            && p.1.wall_clock_timeout is None,
{
}

/// Checks that a runtime policy can be used to build an engine template.
pub fn validate_runtime_policy(policy: &LuaRuntimePolicy) -> (r: core::result::Result<(), TemplateBuildError>)
    ensures
        r == template_policy_check(policy@),
        !policy@.0.base ==> r == Err::<(), TemplateBuildError>(TemplateBuildError::BaseLibraryRequired),
        policy@.0.base && policy@.1.max_instructions is Some ==> r == Err::<(), TemplateBuildError>(
            TemplateBuildError::InstructionLimitUnsupported,
        ),
        policy@.0.base && policy@.1.max_instructions is None && policy@.1.wall_clock_timeout is Some ==> r
            == Err::<(), TemplateBuildError>(TemplateBuildError::WallClockTimeoutUnsupported),
        r is Ok <==> policy@.0.base && policy@.1.max_instructions is None && policy@.1.wall_clock_timeout is None,
{
    if !policy.std_lib_policy.base {
        return Err(TemplateBuildError::BaseLibraryRequired);
    }
    if policy.limits.max_instructions.is_some() {
        return Err(TemplateBuildError::InstructionLimitUnsupported);
    }
    if policy.limits.wall_clock_timeout.is_some() {
        return Err(TemplateBuildError::WallClockTimeoutUnsupported);
    }
    Ok(())
}

/// Creates a Lua state with the template policy's standard libraries and,
/// when the policy sets one, its memory limit. The state cannot load
/// `debug`: a policy that enables it is refused.
pub fn create_restricted_lua(policy: &LuaRuntimePolicy) -> (r: core::result::Result<LuaState, MluaError>)
    ensures
        policy@.0.debug ==> r is Err,
        !policy@.0.debug ==> r is Ok,
        r matches Ok(s) ==> s@ == (selected_std_libs(policy@.0), policy@.1.max_memory_bytes),
{
    let p = &policy.std_lib_policy;
    let selection = StdLibView {
        base: p.base,
        coroutine: p.coroutine,
        math: p.math,
        string: p.string,
        table: p.table,
        utf8: p.utf8,
        package: p.package,
        io: p.io,
        os: p.os,
        debug: p.debug,
    };
    let libs = selection.selected_libs();
    let mut state = lua_with_std_libs(libs.as_slice())?;
    if let Some(max_memory_bytes) = policy.limits.max_memory_bytes {
        set_lua_memory_limit(&mut state, max_memory_bytes)?;
    }
    Ok(state)
}

} // verus!
