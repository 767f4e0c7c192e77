//! Error kinds of the debugger engine.
use vstd::prelude::*;

verus! {

/// What went wrong in an engine operation.
#[derive(Clone, Copy, Debug, PartialEq, Eq, Structural)]
pub enum UDbgError {
    /// The operation is not implemented for this target.
    NotSupport,
    /// The breakpoint or target the request names is gone.
    NoTarget,
    /// A breakpoint already stands at that address.
    BpExists,
    /// The address could not be read.
    InvalidAddress,
    /// No register has that name.
    InvalidRegister,
    /// Target memory could not be written.
    MemoryError,
    /// An operating-system call failed with this error number.
    System(i32),
}

pub type UDbgResult<T> = Result<T, UDbgError>;

impl UDbgError {
    /// A short description of the error.
    pub fn describe(&self) -> (r: &'static str) {
        match self {
            UDbgError::NotSupport => "not supported",
            UDbgError::NoTarget => "no target",
            UDbgError::BpExists => "breakpoint exists",
            UDbgError::InvalidAddress => "invalid address",
            UDbgError::InvalidRegister => "invalid register",
            UDbgError::MemoryError => "memory error",
            UDbgError::System(_) => "system error",
        }
    }
}

} // verus!
