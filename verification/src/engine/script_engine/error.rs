//! Errors of building a script engine.

use vstd::prelude::*;

use crate::error::owned;

verus! {

/// Why a script engine cannot be built.
#[derive(Debug, PartialEq, Eq, Structural)]
pub enum EngineBuildError {
    MissingRegistry,
    BaseLibraryRequired,
    InstructionLimitUnsupported,
    WallClockTimeoutUnsupported,
}

/// The message of each build error.
pub open spec fn engine_build_error_message(e: EngineBuildError) -> Seq<char> {
    match e {
        EngineBuildError::MissingRegistry => "An engine requires a registry"@,
        EngineBuildError::BaseLibraryRequired => "The base Lua standard library cannot be disabled"@,
        EngineBuildError::InstructionLimitUnsupported => "Lua instruction limits are not supported by the current runtime"@,
        EngineBuildError::WallClockTimeoutUnsupported => "Lua wall-clock limits are not supported by the current runtime"@,
    }
}

impl EngineBuildError {
    /// The error's message.
    pub fn to_string(&self) -> (r: String)
        ensures
            r@ == engine_build_error_message(*self),
    {
        match self {
            EngineBuildError::MissingRegistry => owned("An engine requires a registry"),
            EngineBuildError::BaseLibraryRequired => owned("The base Lua standard library cannot be disabled"),
            EngineBuildError::InstructionLimitUnsupported => owned(
                "Lua instruction limits are not supported by the current runtime",
            ),
            EngineBuildError::WallClockTimeoutUnsupported => owned(
                "Lua wall-clock limits are not supported by the current runtime",
            ),
        }
    }
}

} // verus!
