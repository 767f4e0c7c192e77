//! The events the engine reports and the replies that resume the target.
use crate::bp::BpID;
use vstd::prelude::*;

verus! {

pub const SIGILL: i32 = 4;
pub const SIGTRAP: i32 = 5;
pub const SIGKILL: i32 = 9;
pub const SIGSTOP: i32 = 19;

pub const PTRACE_EVENT_FORK: i32 = 1;
pub const PTRACE_EVENT_VFORK: i32 = 2;
pub const PTRACE_EVENT_CLONE: i32 = 3;
pub const PTRACE_EVENT_EXEC: i32 = 4;
pub const PTRACE_EVENT_STOP: i32 = 128;

/// What the user callback is told.
#[derive(Clone, Copy, Debug, PartialEq, Eq, Structural)]
pub enum UEvent {
    InitBp,
    ThreadCreate(i32),
    ThreadExit(u32),
    ProcessCreate,
    ProcessExit(u32),
    ModuleLoad,
    ModuleUnload,
    Breakpoint(BpID),
    Step,
    Exception { first: bool, code: i32 },
}

/// How the user callback wants the stopped thread resumed.
#[derive(Clone, Copy, Debug, PartialEq, Eq, Structural)]
pub enum UserReply {
    /// Run on; the flag tells whether an exception was handled.
    Run(bool),
    StepIn,
    StepOut,
    Goto(usize),
    Native(usize),
}

} // verus!
