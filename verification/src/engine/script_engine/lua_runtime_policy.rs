//! Which Lua standard libraries a script engine loads, and its execution limits.

use std::time::Duration;
use vstd::prelude::*;

use super::error::EngineBuildError;

verus! {

/// The Lua standard library and limit settings of an engine.
#[derive(Debug, Clone)]
pub struct LuaRuntimePolicy {
    std_lib_policy: LuaStdLibPolicy,
    limits: LuaExecutionLimits,
}

/// Which Lua standard libraries are loaded.
#[derive(Debug, Clone)]
pub struct LuaStdLibPolicy {
    pub base: bool,
    pub coroutine: bool,
    pub math: bool,
    pub string: bool,
    pub table: bool,
    pub utf8: bool,
    pub package: bool,
    pub io: bool,
    pub os: bool,
    pub debug: bool,
}

/// Execution limits of a Lua state.
#[derive(Debug, Clone)]
pub struct LuaExecutionLimits {
    pub max_memory_bytes: Option<usize>,
    pub max_instructions: Option<u64>,
    pub wall_clock_timeout: Option<Duration>,
}

/// The default standard library selection: base, math, string, table and
/// utf8 on; coroutine, package, io, os and debug off.
pub open spec fn default_std_lib_policy() -> LuaStdLibPolicy {
    LuaStdLibPolicy {
        base: true,
        coroutine: false,
        math: true,
        string: true,
        table: true,
        utf8: true,
        package: false,
        io: false,
        os: false,
        debug: false,
    }
}

/// Limits with nothing set.
pub open spec fn no_limits(l: LuaExecutionLimits) -> bool {
    l.max_memory_bytes is None && l.max_instructions is None && l.wall_clock_timeout is None
}

impl Default for LuaStdLibPolicy {
    fn default() -> (r: Self)
        ensures
            r == default_std_lib_policy(),
    {
        LuaStdLibPolicy {
            base: true,
            coroutine: false,
            math: true,
            string: true,
            table: true,
            utf8: true,
            package: false,
            io: false,
            os: false,
            debug: false,
        }
    }
}

impl Default for LuaExecutionLimits {
    fn default() -> (r: Self)
        ensures
            no_limits(r),
    {
        LuaExecutionLimits { max_memory_bytes: None, max_instructions: None, wall_clock_timeout: None }
    }
}

impl Default for LuaRuntimePolicy {
    fn default() -> (r: Self)
        ensures
            r.spec_std_lib_policy() == default_std_lib_policy(),
            no_limits(r.spec_limits()),
    {
        LuaRuntimePolicy { std_lib_policy: LuaStdLibPolicy::default(), limits: LuaExecutionLimits::default() }
    }
}

impl LuaRuntimePolicy {
    /// The standard library selection.
    pub closed spec fn spec_std_lib_policy(self) -> LuaStdLibPolicy {
        self.std_lib_policy
    }

    /// The execution limits.
    pub closed spec fn spec_limits(self) -> LuaExecutionLimits {
        self.limits
    }

    /// Replaces the standard library selection.
    pub fn with_std_lib_policy(self, policy: LuaStdLibPolicy) -> (r: Self)
        ensures
            r.spec_std_lib_policy() == policy,
            r.spec_limits() == self.spec_limits(),
    {
        let mut s = self;
        s.std_lib_policy = policy;
        s
    }

    /// Replaces the execution limits.
    pub fn with_limits(self, limits: LuaExecutionLimits) -> (r: Self)
        ensures
            r.spec_limits() == limits,
            r.spec_std_lib_policy() == self.spec_std_lib_policy(),
    {
        let mut s = self;
        s.limits = limits;
        s
    }

    /// The standard library selection.
    pub fn std_lib_policy(&self) -> (r: &LuaStdLibPolicy)
        ensures
            *r == self.spec_std_lib_policy(),
    {
        &self.std_lib_policy
    }

    /// The execution limits.
    pub fn limits(&self) -> (r: &LuaExecutionLimits)
        ensures
            *r == self.spec_limits(),
    {
        &self.limits
    }
}

impl LuaStdLibPolicy {
    /// Sets whether the base library is loaded.
    pub fn with_base(self, enabled: bool) -> (r: Self)
        ensures
            r == (LuaStdLibPolicy { base: enabled, ..self }),
    {
        let mut s = self;
        s.base = enabled;
        s
    }

    /// Sets whether the coroutine library is loaded.
    pub fn with_coroutine(self, enabled: bool) -> (r: Self)
        ensures
            r == (LuaStdLibPolicy { coroutine: enabled, ..self }),
    {
        let mut s = self;
        s.coroutine = enabled;
        s
    }

    /// Sets whether the math library is loaded.
    pub fn with_math(self, enabled: bool) -> (r: Self)
        ensures
            r == (LuaStdLibPolicy { math: enabled, ..self }),
    {
        let mut s = self;
        s.math = enabled;
        s
    }

    /// Sets whether the string library is loaded.
    pub fn with_string(self, enabled: bool) -> (r: Self)
        ensures
            r == (LuaStdLibPolicy { string: enabled, ..self }),
    {
        let mut s = self;
        s.string = enabled;
        s
    }

    /// Sets whether the table library is loaded.
    pub fn with_table(self, enabled: bool) -> (r: Self)
        ensures
            r == (LuaStdLibPolicy { table: enabled, ..self }),
    {
        let mut s = self;
        s.table = enabled;
        s
    }

    /// Sets whether the utf8 library is loaded.
    pub fn with_utf8(self, enabled: bool) -> (r: Self)
        ensures
            r == (LuaStdLibPolicy { utf8: enabled, ..self }),
    {
        let mut s = self;
        s.utf8 = enabled;
        s
    }

    /// Sets whether the package library is loaded.
    pub fn with_package(self, enabled: bool) -> (r: Self)
        ensures
            r == (LuaStdLibPolicy { package: enabled, ..self }),
    {
        let mut s = self;
        s.package = enabled;
        s
    }

    /// Sets whether the io library is loaded.
    pub fn with_io(self, enabled: bool) -> (r: Self)
        ensures
            r == (LuaStdLibPolicy { io: enabled, ..self }),
    {
        let mut s = self;
        s.io = enabled;
        s
    }

    /// Sets whether the os library is loaded.
    pub fn with_os(self, enabled: bool) -> (r: Self)
        ensures
            r == (LuaStdLibPolicy { os: enabled, ..self }),
    {
        let mut s = self;
        s.os = enabled;
        s
    }

    /// Sets whether the debug library is loaded.
    pub fn with_debug(self, enabled: bool) -> (r: Self)
        ensures
            r == (LuaStdLibPolicy { debug: enabled, ..self }),
    {
        let mut s = self;
        s.debug = enabled;
        s
    }
}

impl LuaExecutionLimits {
    /// Sets the memory limit.
    pub fn with_max_memory_bytes(self, max_memory_bytes: usize) -> (r: Self)
        ensures
            r.max_memory_bytes == Some(max_memory_bytes),
            r.max_instructions == self.max_instructions,
            r.wall_clock_timeout == self.wall_clock_timeout,
    {
        let mut s = self;
        s.max_memory_bytes = Some(max_memory_bytes);
        s
    }

    /// Sets the instruction limit.
    pub fn with_max_instructions(self, max_instructions: u64) -> (r: Self)
        ensures
            r.max_instructions == Some(max_instructions),
            r.max_memory_bytes == self.max_memory_bytes,
            r.wall_clock_timeout == self.wall_clock_timeout,
    {
        let mut s = self;
        s.max_instructions = Some(max_instructions);
        s
    }

    /// Sets the wall-clock timeout.
    pub fn with_wall_clock_timeout(self, wall_clock_timeout: Duration) -> (r: Self)
        ensures
            r.wall_clock_timeout == Some(wall_clock_timeout),
            r.max_memory_bytes == self.max_memory_bytes,
            r.max_instructions == self.max_instructions,
    {
        let mut s = self;
        s.wall_clock_timeout = Some(wall_clock_timeout);
        s
    }

    /// The memory limit, if any.
    pub fn max_memory_bytes(&self) -> (r: Option<usize>)
        ensures
            r == self.max_memory_bytes,
    {
        self.max_memory_bytes
    }

    /// The instruction limit, if any.
    pub fn max_instructions(&self) -> (r: Option<u64>)
        ensures
            r == self.max_instructions,
    {
        self.max_instructions
    }

    /// The wall-clock timeout, if any.
    pub fn wall_clock_timeout(&self) -> (r: Option<Duration>)
        ensures
            r == self.wall_clock_timeout,
    {
        self.wall_clock_timeout
    }
}

/// The outcome of checking a runtime policy: the base library must stay on,
/// and instruction and wall-clock limits are not supported.
pub open spec fn runtime_policy_check(p: LuaRuntimePolicy) -> core::result::Result<(), EngineBuildError> {
    if !p.spec_std_lib_policy().base {
        Err(EngineBuildError::BaseLibraryRequired)
    } else if p.spec_limits().max_instructions is Some {
        Err(EngineBuildError::InstructionLimitUnsupported)
    } else if p.spec_limits().wall_clock_timeout is Some {
        Err(EngineBuildError::WallClockTimeoutUnsupported)
    } else {
        Ok(())
    }
}

/// Law: a policy is refused when it turns the base library off; otherwise
/// when it sets an instruction limit, which the runtime cannot enforce;
/// otherwise when it sets a wall-clock limit, which it cannot enforce
/// either. It is accepted exactly when the base library is on and neither
/// limit is set.
pub proof fn law_runtime_policy_refusals(p: LuaRuntimePolicy)
    ensures
        !p.spec_std_lib_policy().base ==> runtime_policy_check(p) == Err::<(), EngineBuildError>(
            EngineBuildError::BaseLibraryRequired,
        ),
        p.spec_std_lib_policy().base && p.spec_limits().max_instructions is Some ==> runtime_policy_check(p)
            == Err::<(), EngineBuildError>(EngineBuildError::InstructionLimitUnsupported),
        p.spec_std_lib_policy().base && p.spec_limits().max_instructions is None
            && p.spec_limits().wall_clock_timeout is Some ==> runtime_policy_check(p) == Err::<(), EngineBuildError>(
            EngineBuildError::WallClockTimeoutUnsupported,
        ),
        runtime_policy_check(p) is Ok <==> p.spec_std_lib_policy().base && p.spec_limits().max_instructions is None
            && p.spec_limits().wall_clock_timeout is None,
{
}

/// Checks that a runtime policy can be used to build an engine.
pub fn validate_runtime_policy(policy: &LuaRuntimePolicy) -> (r: core::result::Result<(), EngineBuildError>)
    ensures
        r == runtime_policy_check(*policy),
        !policy.spec_std_lib_policy().base ==> r == Err::<(), EngineBuildError>(EngineBuildError::BaseLibraryRequired),
        policy.spec_std_lib_policy().base && policy.spec_limits().max_instructions is Some ==> r == Err::<
            (),
            EngineBuildError,
        >(EngineBuildError::InstructionLimitUnsupported),
        policy.spec_std_lib_policy().base && policy.spec_limits().max_instructions is None
            && policy.spec_limits().wall_clock_timeout is Some ==> r == Err::<(), EngineBuildError>(
            EngineBuildError::WallClockTimeoutUnsupported,
        ),
        r is Ok <==> policy.spec_std_lib_policy().base && policy.spec_limits().max_instructions is None
            && policy.spec_limits().wall_clock_timeout is None,
{
    if !policy.std_lib_policy().base {
        return Err(EngineBuildError::BaseLibraryRequired);
    }
    if policy.limits().max_instructions.is_some() {
        return Err(EngineBuildError::InstructionLimitUnsupported);
    }
    if policy.limits().wall_clock_timeout.is_some() {
        return Err(EngineBuildError::WallClockTimeoutUnsupported);
    }
    Ok(())
}

/// A Lua standard library that can be loaded besides the base library.
#[derive(Debug, Clone, Copy, PartialEq, Eq, Structural)]
pub enum LuaStdLib {
    Coroutine,
    Math,
    String,
    Table,
    Utf8,
    Package,
    Io,
    Os,
    Debug,
}

/// The libraries a selection loads besides the base library, in this order:
/// coroutine, math, string, table, utf8, package, io, os, debug.
pub open spec fn selected_std_libs(p: LuaStdLibPolicy) -> Seq<LuaStdLib> {
    (if p.coroutine { seq![LuaStdLib::Coroutine] } else { Seq::empty() })
        + (if p.math { seq![LuaStdLib::Math] } else { Seq::empty() })
        + (if p.string { seq![LuaStdLib::String] } else { Seq::empty() })
        + (if p.table { seq![LuaStdLib::Table] } else { Seq::empty() })
        + (if p.utf8 { seq![LuaStdLib::Utf8] } else { Seq::empty() })
        + (if p.package { seq![LuaStdLib::Package] } else { Seq::empty() })
        + (if p.io { seq![LuaStdLib::Io] } else { Seq::empty() })
        + (if p.os { seq![LuaStdLib::Os] } else { Seq::empty() })
        + (if p.debug { seq![LuaStdLib::Debug] } else { Seq::empty() })
}

/// Appends `lib` to `v` when `on` holds.
fn push_if(v: &mut Vec<LuaStdLib>, on: bool, lib: LuaStdLib)
    ensures
        final(v)@ == old(v)@ + (if on { seq![lib] } else { Seq::empty() }),
        final(v)@.contains(LuaStdLib::Debug) <==> (old(v)@.contains(LuaStdLib::Debug) || (on && lib
            == LuaStdLib::Debug)),
{
    let ghost before = v@;
    if on {
        v.push(lib);
        proof {
            if before.contains(LuaStdLib::Debug) {
                let i = choose|i: int| 0 <= i < before.len() && before[i] == LuaStdLib::Debug;
                assert(v@[i] == LuaStdLib::Debug);
            }
            if v@.contains(LuaStdLib::Debug) && lib != LuaStdLib::Debug {
                let i = choose|i: int| 0 <= i < v@.len() && v@[i] == LuaStdLib::Debug;
                assert(before[i] == LuaStdLib::Debug);
            }
            assert(v@[v@.len() - 1] == lib);
        }
    }
    assert(v@ =~= before + (if on { seq![lib] } else { Seq::<LuaStdLib>::empty() }));
}

impl LuaStdLibPolicy {
    /// The libraries this selection loads besides the base library (which
    /// the Lua state always has), in a fixed order.
    pub fn selected_libs(&self) -> (r: Vec<LuaStdLib>)
        ensures
            r@ == selected_std_libs(*self),
            r@.contains(LuaStdLib::Debug) <==> self.debug,
    {
        let mut v = Vec::new();
        push_if(&mut v, self.coroutine, LuaStdLib::Coroutine);
        push_if(&mut v, self.math, LuaStdLib::Math);
        push_if(&mut v, self.string, LuaStdLib::String);
        push_if(&mut v, self.table, LuaStdLib::Table);
        push_if(&mut v, self.utf8, LuaStdLib::Utf8);
        push_if(&mut v, self.package, LuaStdLib::Package);
        push_if(&mut v, self.io, LuaStdLib::Io);
        push_if(&mut v, self.os, LuaStdLib::Os);
        push_if(&mut v, self.debug, LuaStdLib::Debug);
        assert(v@ =~= selected_std_libs(*self));
        v
    }
}

} // verus!
