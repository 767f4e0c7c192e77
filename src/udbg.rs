//! Target status and the per-target base record.
use crate::error::{UDbgError, UDbgResult};
use vstd::prelude::*;

verus! {

pub const ARCH_X86: u32 = 0;
pub const ARCH_X64: u32 = 1;
pub const ARCH_ARM: u32 = 2;
pub const ARCH_ARM64: u32 = 3;

/// The architecture the engine itself is built for.
pub const UDBG_ARCH: u32 = ARCH_X64;

/// Where a target stands in its life.
#[derive(Clone, Copy, Debug, PartialEq, Eq, Structural)]
pub enum UDbgStatus {
    Idle,
    Opened,
    Attached,
    Paused,
    Running,
    Ended,
}

/// The architecture of the code a target runs, and its pointer size.
#[derive(Clone, Copy, Debug)]
pub struct PauseContext {
    pub arch: u32,
    pub psize: usize,
}

/// The pointer size an architecture uses, when it is a known one.
pub open spec fn arch_ptr_size(arch: u32) -> Option<usize> {
    if arch == ARCH_X86 || arch == ARCH_ARM {
        Some(4)
    } else if arch == ARCH_X64 || arch == ARCH_ARM64 {
        Some(8)
    } else {
        None
    }
}

impl PauseContext {
    pub fn new() -> (r: PauseContext)
        ensures
            r.arch == UDBG_ARCH,
            r.psize == 8,
    {
        PauseContext { arch: UDBG_ARCH, psize: 8 }
    }

    /// Switches to `arch`; the pointer size follows a known architecture and
    /// stays as it was for an unknown one.
    pub fn update(&mut self, arch: u32)
        ensures
            final(self).arch == arch,
            final(self).psize == (match arch_ptr_size(arch) {
                Some(p) => p,
                None => old(self).psize,
            }),
    {
        self.arch = arch;
        if arch == ARCH_X86 || arch == ARCH_ARM {
            self.psize = 4;
        } else if arch == ARCH_X64 || arch == ARCH_ARM64 {
            self.psize = 8;
        }
    }
}

/// What every target carries: its process, the thread of the current event,
/// its image, its architecture and its status.
#[derive(Clone, Debug)]
pub struct UDbgBase {
    pub pid: i32,
    pub event_tid: i32,
    pub event_pc: usize,
    pub image_path: String,
    pub image_base: usize,
    pub arch: &'static str,
    pub flags: u32,
    pub context: PauseContext,
    pub status: UDbgStatus,
}

impl UDbgBase {
    pub fn new() -> (r: UDbgBase)
        ensures
            r.pid == 0,
            r.event_tid == 0,
            r.image_base == 0,
            r.image_path@.len() == 0,
            r.context.arch == UDBG_ARCH,
            r.context.psize == 8,
            r.status == UDbgStatus::Attached,
    {
        UDbgBase {
            pid: 0,
            event_tid: 0,
            event_pc: 0,
            image_path: String::new(),
            image_base: 0,
            arch: "x86_64",
            flags: 0,
            context: PauseContext::new(),
            status: UDbgStatus::Attached,
        }
    }

    pub fn is_ptr32(&self) -> (r: bool)
        ensures
            r == (self.context.psize == 4),
    {
        self.ptrsize() == 4
    }

    pub fn ptrsize(&self) -> (r: usize)
        ensures
            r == self.context.psize,
    {
        self.context.psize
    }

    /// Switches the pause context to `arch` unless it is already there.
    pub fn update_arch(&mut self, arch: u32)
        ensures
            final(self).context.arch == arch,
            final(self).context.psize == (if arch == old(self).context.arch {
                old(self).context.psize
            } else {
                match arch_ptr_size(arch) {
                    Some(p) => p,
                    None => old(self).context.psize,
                }
            }),
            final(self).status == old(self).status,
            final(self).pid == old(self).pid,
            final(self).event_tid == old(self).event_tid,
    {
        if arch == self.context.arch {
            return;
        }
        self.context.update(arch);
    }

    pub fn is_opened(&self) -> (r: bool)
        ensures
            r == (self.status == UDbgStatus::Opened),
    {
        self.status == UDbgStatus::Opened
    }

    pub fn is_paused(&self) -> (r: bool)
        ensures
            r == (self.status == UDbgStatus::Paused),
    {
        self.status == UDbgStatus::Paused
    }

    /// A target that is only opened, not debugged, supports no control.
    pub fn check_opened(&self) -> (r: UDbgResult<()>)
        ensures
            r == (if self.status == UDbgStatus::Opened {
                Err::<(), UDbgError>(UDbgError::NotSupport)
            } else {
                Ok(())
            }),
    {
        if self.is_opened() {
            Err(UDbgError::NotSupport)
        } else {
            Ok(())
        }
    }
}

} // verus!

verus! {

/// Control over a debugged target.
pub trait TargetControl {
    fn detach(&mut self) -> UDbgResult<()>;

    /// Stops the target so that it reports an event; not supported unless
    /// overridden.
    fn breakk(&mut self) -> (r: UDbgResult<()>)
        default_ensures
            r == Err::<(), UDbgError>(UDbgError::NotSupport),
    {
        Err(UDbgError::NotSupport)
    }

    fn kill(&mut self) -> UDbgResult<()>;

    fn suspend(&mut self) -> (r: UDbgResult<()>)
        default_ensures
            r == Ok::<(), UDbgError>(()),
    {
        Ok(())
    }

    fn resume(&mut self) -> (r: UDbgResult<()>)
        default_ensures
            r == Ok::<(), UDbgError>(()),
    {
        Ok(())
    }
}

/// A debuggable target: its memory and its control.
pub trait UDbgDebug: crate::memmap::TargetMemory + TargetControl {}

} // verus!
