//! A user-mode debugger engine for ptrace-based targets: memory access over a
//! target address space, a software breakpoint registry, per-stop register
//! snapshots, and the debug event state machine that drives a tracee.
pub mod adaptor;
pub mod bp;
pub mod disasm;
pub mod engine;
pub mod error;
pub mod event;
pub mod handle;
pub mod memmap;
pub mod memory;
pub mod module;
pub mod registry;
pub mod regs;
pub mod symbols;
pub mod udbg;
