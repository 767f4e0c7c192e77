//! The state the engine keeps for one traced process: its threads, its
//! breakpoints, the register snapshot of the current stop and the
//! detach/wait latches.
use crate::bp::{BpID, BpOpt, Breakpoint};
use crate::disasm::{check_call, insn_code, return_address};
use crate::event::UserReply;
use crate::error::{UDbgError, UDbgResult};
use crate::memory::{bytes_at, read_spec, ReadMemory, WriteMemory};
use crate::registry::{
    add_bp_post, cleanly_restorable, enable_post, restored, soft_bytes, BpRegistry,
};
use crate::regs::{x64_reg_named, UserRegs};
use crate::udbg::{UDbgBase, UDbgStatus};
use vstd::prelude::*;
use vstd::string::StringSliceAdditionalSpecFns;

verus! {

pub const PTRACE_O_TRACEFORK: u32 = 0x2;
pub const PTRACE_O_TRACEVFORK: u32 = 0x4;
pub const PTRACE_O_TRACECLONE: u32 = 0x8;
pub const PTRACE_O_TRACEEXEC: u32 = 0x10;
pub const PTRACE_O_EXITKILL: u32 = 0x100000;

/// The trap instruction of x86: `int3`.
pub const BP_INSN: u8 = 0xcc;

/// The trace options a target is traced with: exit-kill, clone and exec,
/// and fork and vfork when forks are traced too.
pub open spec fn trace_options_spec(trace_fork: bool) -> u32 {
    if trace_fork {
        0x10001e
    } else {
        0x100018
    }
}

pub fn trace_options(trace_fork: bool) -> (r: u32)
    ensures
        r == trace_options_spec(trace_fork),
{
    let mut o = PTRACE_O_EXITKILL | PTRACE_O_TRACECLONE | PTRACE_O_TRACEEXEC;
    if trace_fork {
        o = o | PTRACE_O_TRACEVFORK | PTRACE_O_TRACEFORK;
    }
    proof {
        assert(0x100000u32 | 0x8u32 | 0x10u32 == 0x100018u32) by (bit_vector);
        assert(0x100018u32 | 0x4u32 | 0x2u32 == 0x10001eu32) by (bit_vector);
    }
    o
}

pub struct CommonAdaptor {
    base: UDbgBase,
    bps: BpRegistry,
    regs: UserRegs,
    regs_dirty: bool,
    threads: Vec<i32>,
    detaching: bool,
    waiting: bool,
    trace_opts: u32,
}

impl CommonAdaptor {
    pub closed spec fn wf(&self) -> bool {
        self.bps.wf() && self.threads@.no_duplicates()
    }

    /// The target's base record.
    pub closed spec fn base_spec(&self) -> UDbgBase {
        self.base
    }

    pub closed spec fn trace_opts_spec(&self) -> u32 {
        self.trace_opts
    }

    pub fn base(&self) -> (r: &UDbgBase)
        ensures
            *r == self.base_spec(),
    {
        &self.base
    }

    pub fn trace_opts(&self) -> (r: u32)
        ensures
            r == self.trace_opts_spec(),
    {
        self.trace_opts
    }

    /// The breakpoints, by address.
    pub closed spec fn bp_view(&self) -> Map<usize, Breakpoint> {
        self.bps@
    }

    pub closed spec fn trap_spec(&self) -> Seq<u8> {
        self.bps.trap_spec()
    }

    /// The threads known to belong to the target.
    pub closed spec fn thread_set(&self) -> Set<i32> {
        self.threads@.to_set()
    }

    /// The register snapshot of the current stop.
    pub closed spec fn regs_spec(&self) -> UserRegs {
        self.regs
    }

    /// Whether the snapshot was changed since it was taken.
    pub closed spec fn dirty_spec(&self) -> bool {
        self.regs_dirty
    }

    pub closed spec fn detaching_spec(&self) -> bool {
        self.detaching
    }

    pub closed spec fn waiting_spec(&self) -> bool {
        self.waiting
    }

    /// A target of process `pid` with image `image_path`, traced with the
    /// options `trace_fork` calls for, no threads and no breakpoints yet.
    pub fn new(pid: i32, image_path: String, trace_fork: bool) -> (r: CommonAdaptor)
        ensures
            r.wf(),
            r.base_spec().pid == pid,
            r.base_spec().image_path@ == image_path@,
            r.base_spec().status == UDbgStatus::Attached,
            r.trace_opts_spec() == trace_options_spec(trace_fork),
            r.bp_view() == Map::<usize, Breakpoint>::empty(),
            r.trap_spec() == seq![BP_INSN],
            r.thread_set() == Set::<i32>::empty(),
            !r.dirty_spec(),
            !r.detaching_spec(),
            !r.waiting_spec(),
    {
        let mut base = UDbgBase::new();
        base.pid = pid;
        base.image_path = image_path;
        let mut trap: Vec<u8> = Vec::new();
        trap.push(BP_INSN);
        proof {
            assert(trap@ =~= seq![BP_INSN]);
        }
        let r = CommonAdaptor {
            base,
            bps: BpRegistry::new(trap),
            regs: UserRegs::zeroed(),
            regs_dirty: false,
            threads: Vec::new(),
            detaching: false,
            waiting: false,
            trace_opts: trace_options(trace_fork),
        };
        proof {
            assert(r.threads@.to_set() =~= Set::<i32>::empty());
        }
        r
    }

    pub fn has_thread(&self, tid: i32) -> (r: bool)
        ensures
            r == self.thread_set().contains(tid),
    {
        let mut i: usize = 0;
        while i < self.threads.len()
            invariant
                i <= self.threads@.len(),
                forall|j: int| 0 <= j < i ==> self.threads@[j] != tid,
            decreases self.threads@.len() - i,
        {
            if self.threads[i] == tid {
                return true;
            }
            i = i + 1;
        }
        false
    }

    /// The known threads, each once.
    pub fn thread_list(&self) -> (r: Vec<i32>)
        requires
            self.wf(),
        ensures
            r@.no_duplicates(),
            r@.to_set() == self.thread_set(),
    {
        let mut r: Vec<i32> = Vec::new();
        let mut i: usize = 0;
        while i < self.threads.len()
            invariant
                i <= self.threads@.len(),
                r@ == self.threads@.subrange(0, i as int),
            decreases self.threads@.len() - i,
        {
            r.push(self.threads[i]);
            i = i + 1;
            proof {
                assert(r@ =~= self.threads@.subrange(0, i as int));
            }
        }
        proof {
            assert(r@ =~= self.threads@);
        }
        r
    }

    /// Adds `tid` to the known threads; true when it was not known before,
    /// that is when trace options must be installed on it.
    pub fn insert_thread(&mut self, tid: i32) -> (r: bool)
        requires
            old(self).wf(),
        ensures
            final(self).wf(),
            r == !old(self).thread_set().contains(tid),
            final(self).thread_set() == old(self).thread_set().insert(tid),
            final(self).bp_view() == old(self).bp_view(),
            final(self).trap_spec() == old(self).trap_spec(),
            final(self).regs_spec() == old(self).regs_spec(),
            final(self).dirty_spec() == old(self).dirty_spec(),
            final(self).detaching_spec() == old(self).detaching_spec(),
            final(self).base_spec() == old(self).base_spec(),
    {
        if self.has_thread(tid) {
            proof {
                assert(self.threads@.to_set().insert(tid) =~= self.threads@.to_set());
            }
            return false;
        }
        let ghost before = self.threads@;
        self.threads.push(tid);
        proof {
            assert(self.threads@.to_set() =~= before.to_set().insert(tid)) by {
                assert forall|x: i32| self.threads@.to_set().contains(x) <==> before.to_set().insert(tid).contains(x) by {
                    if self.threads@.contains(x) && x != tid {
                        let j = choose|j: int| 0 <= j < self.threads@.len() && self.threads@[j] == x;
                        assert(before[j] == x);
                    }
                    if before.contains(x) {
                        let j = choose|j: int| 0 <= j < before.len() && before[j] == x;
                        assert(self.threads@[j] == x);
                    }
                    if x == tid {
                        assert(self.threads@[before.len() as int] == tid);
                    }
                }
            }
            assert(self.threads@.no_duplicates()) by {
                assert forall|x: int, y: int| 0 <= x < self.threads@.len() && 0 <= y < self.threads@.len() && x != y implies self.threads@[x] != self.threads@[y] by {
                    if x < before.len() && y < before.len() {
                    } else if x < before.len() {
                        assert(before.contains(before[x]));
                    } else {
                        assert(before.contains(before[y]));
                    }
                }
            }
        }
        true
    }

    /// Drops `tid` from the known threads. `None` when it was not known;
    /// otherwise whether it was the last one.
    pub fn remove_thread(&mut self, tid: i32) -> (r: Option<bool>)
        requires
            old(self).wf(),
        ensures
            final(self).wf(),
            r is None <==> !old(self).thread_set().contains(tid),
            final(self).thread_set() == old(self).thread_set().remove(tid),
            r matches Some(last) ==> last == final(self).thread_set().is_empty(),
            final(self).bp_view() == old(self).bp_view(),
            final(self).trap_spec() == old(self).trap_spec(),
            final(self).regs_spec() == old(self).regs_spec(),
            final(self).dirty_spec() == old(self).dirty_spec(),
            final(self).detaching_spec() == old(self).detaching_spec(),
            final(self).base_spec() == old(self).base_spec(),
    {
        let mut i: usize = 0;
        while i < self.threads.len()
            invariant
                i <= self.threads@.len(),
                forall|j: int| 0 <= j < i ==> self.threads@[j] != tid,
            ensures
                i <= self.threads@.len(),
                forall|j: int| 0 <= j < i ==> self.threads@[j] != tid,
                i < self.threads@.len() ==> self.threads@[i as int] == tid,
            decreases self.threads@.len() - i,
        {
            if self.threads[i] == tid {
                break;
            }
            i = i + 1;
        }
        if i == self.threads.len() {
            proof {
                assert(self.threads@.to_set().remove(tid) =~= self.threads@.to_set());
            }
            return None;
        }
        let ghost before = self.threads@;
        let _ = self.threads.remove(i);
        proof {
            assert(self.threads@ =~= before.remove(i as int));
            assert forall|x: i32| self.threads@.to_set().contains(x) <==> before.to_set().remove(tid).contains(x) by {
                if self.threads@.contains(x) {
                    let j = choose|j: int| 0 <= j < self.threads@.len() && self.threads@[j] == x;
                    let sj = if j < i { j } else { j + 1 };
                    assert(before[sj] == x);
                    assert(sj != i);
                    assert(before[i as int] == tid);
                    assert(x != tid);
                }
                if before.contains(x) && x != tid {
                    let j = choose|j: int| 0 <= j < before.len() && before[j] == x;
                    assert(j != i);
                    let tj = if j < i { j } else { j - 1 };
                    assert(self.threads@[tj] == x);
                }
            }
            assert(self.threads@.to_set() =~= before.to_set().remove(tid));
            assert(self.threads@.no_duplicates()) by {
                assert forall|x: int, y: int| 0 <= x < self.threads@.len() && 0 <= y < self.threads@.len() && x != y implies self.threads@[x] != self.threads@[y] by {
                    let sx = if x < i { x } else { x + 1 };
                    let sy = if y < i { y } else { y + 1 };
                    assert(self.threads@[x] == before[sx]);
                    assert(self.threads@[y] == before[sy]);
                }
            }
            if self.threads@.len() == 0 {
                assert(self.threads@.to_set() =~= Set::<i32>::empty());
            } else {
                assert(self.threads@.to_set().contains(self.threads@[0]));
            }
        }
        Some(self.threads.len() == 0)
    }
}

/// The temporary breakpoint a reply asks for at the stop whose leading
/// instruction bytes are `code` at `pc`.
pub open spec fn temp_target(reply: UserReply, code: Seq<u8>, is_ptr32: bool, pc: usize) -> Option<usize> {
    match reply {
        UserReply::StepOut => return_address(code, if is_ptr32 { 32 } else { 64 }, pc),
        UserReply::Goto(a) => Some(a),
        _ => None,
    }
}

/// The reply as the engine carries it out: a step-out over an instruction
/// that is not call-like becomes a single step.
pub open spec fn effective_reply(reply: UserReply, code: Seq<u8>, is_ptr32: bool, pc: usize) -> UserReply {
    if reply == UserReply::StepOut && temp_target(reply, code, is_ptr32, pc) is None {
        UserReply::StepIn
    } else {
        reply
    }
}

/// The request for a temporary breakpoint at `a`: enabled, removed on its
/// first hit.
pub open spec fn temp_opt(a: usize) -> BpOpt {
    BpOpt { address: a, rw: None, len: None, enable: true, temp: true, tid: None }
}

impl CommonAdaptor {
    /// Takes a fresh register snapshot for a new stop.
    pub fn set_regs(&mut self, regs: UserRegs)
        ensures
            final(self).regs_spec() == regs,
            !final(self).dirty_spec(),
            final(self).wf() == old(self).wf(),
            final(self).bp_view() == old(self).bp_view(),
            final(self).trap_spec() == old(self).trap_spec(),
            final(self).thread_set() == old(self).thread_set(),
            final(self).detaching_spec() == old(self).detaching_spec(),
            final(self).base_spec() == old(self).base_spec(),
    {
        self.regs = regs;
        self.regs_dirty = false;
    }

    pub fn regs(&self) -> (r: UserRegs)
        ensures
            r == self.regs_spec(),
    {
        self.regs
    }

    /// The program counter of the snapshot.
    pub fn pc(&self) -> (r: usize)
        ensures
            r == self.regs_spec().rip as usize,
    {
        self.regs.rip as usize
    }

    /// Moves the snapshot's program counter; the snapshot must then be
    /// written back before the thread resumes.
    pub fn set_pc(&mut self, pc: usize)
        ensures
            final(self).regs_spec() == (UserRegs { rip: pc as u64, ..old(self).regs_spec() }),
            final(self).dirty_spec(),
            final(self).wf() == old(self).wf(),
            final(self).bp_view() == old(self).bp_view(),
            final(self).trap_spec() == old(self).trap_spec(),
            final(self).thread_set() == old(self).thread_set(),
            final(self).detaching_spec() == old(self).detaching_spec(),
            final(self).base_spec() == old(self).base_spec(),
    {
        self.regs.rip = pc as u64;
        self.regs_dirty = true;
    }

    /// The snapshot to write back before resuming, when it was changed; the
    /// snapshot counts as written back afterwards.
    pub fn take_writeback(&mut self) -> (r: Option<UserRegs>)
        ensures
            r == (if old(self).dirty_spec() {
                Some(old(self).regs_spec())
            } else {
                None
            }),
            !final(self).dirty_spec(),
            final(self).regs_spec() == old(self).regs_spec(),
            final(self).wf() == old(self).wf(),
            final(self).bp_view() == old(self).bp_view(),
            final(self).trap_spec() == old(self).trap_spec(),
            final(self).thread_set() == old(self).thread_set(),
            final(self).detaching_spec() == old(self).detaching_spec(),
            final(self).base_spec() == old(self).base_spec(),
    {
        if self.regs_dirty {
            self.regs_dirty = false;
            Some(self.regs)
        } else {
            None
        }
    }

    /// Reads a register of the current stop by name.
    pub fn get_reg(&self, name: &str) -> (r: UDbgResult<u64>)
        ensures
            r == (match x64_reg_named(name.spec_bytes()) {
                Some(id) => Ok::<u64, UDbgError>(self.regs_spec().spec_get(id)),
                None => Err(UDbgError::InvalidRegister),
            }),
    {
        self.regs.get_reg(name)
    }

    /// Sets a register of the current stop by name; the change is written
    /// back before the thread resumes.
    pub fn set_reg(&mut self, name: &str, val: u64) -> (r: UDbgResult<()>)
        ensures
            r == (match x64_reg_named(name.spec_bytes()) {
                Some(_) => Ok::<(), UDbgError>(()),
                None => Err(UDbgError::InvalidRegister),
            }),
            final(self).regs_spec() == (match x64_reg_named(name.spec_bytes()) {
                Some(id) => old(self).regs_spec().spec_set(id, val),
                None => old(self).regs_spec(),
            }),
            final(self).dirty_spec() == (old(self).dirty_spec() || r is Ok),
            final(self).wf() == old(self).wf(),
            final(self).bp_view() == old(self).bp_view(),
            final(self).thread_set() == old(self).thread_set(),
            final(self).base_spec() == old(self).base_spec(),
    {
        let r = self.regs.set_reg(name, val);
        if r.is_ok() {
            self.regs_dirty = true;
        }
        r
    }
}

/// The temporary breakpoint step of a reply: none when `t` is `None`;
/// otherwise an `add_bp` of `temp_opt(t)`, which an only-opened target refuses.
pub open spec fn temp_step(
    reg: Map<usize, Breakpoint>,
    trap: Seq<u8>,
    m: Map<int, u8>,
    w: Set<int>,
    status: UDbgStatus,
    t: Option<usize>,
    reg1: Map<usize, Breakpoint>,
    m1: Map<int, u8>,
) -> bool {
    match t {
        None => reg1 == reg && m1 == m,
        Some(a) => if status == UDbgStatus::Opened {
            reg1 == reg && m1 == m
        } else {
            exists|e: UDbgResult<BpID>| #[trigger] add_bp_post(reg, trap, m, w, temp_opt(a), reg1, m1, e)
        },
    }
}

/// The re-arm step of a reply: enabling the breakpoint that was stepped
/// over, if any.
pub open spec fn rearm_step(
    reg: Map<usize, Breakpoint>,
    trap: Seq<u8>,
    m: Map<int, u8>,
    w: Set<int>,
    revert: Option<BpID>,
    reg2: Map<usize, Breakpoint>,
    m2: Map<int, u8>,
) -> bool {
    match revert {
        None => reg2 == reg && m2 == m,
        Some(id) => exists|e: UDbgResult<()>| #[trigger] enable_post(reg, trap, m, w, id, true, reg2, m2, e),
    }
}

/// What a hit of the registered breakpoint at `id` does: a temporary one
/// is dropped (its saved bytes written back), any other counts the hit.
pub open spec fn hit_post(
    reg: Map<usize, Breakpoint>,
    m: Map<int, u8>,
    w: Set<int>,
    id: BpID,
    reg2: Map<usize, Breakpoint>,
    m2: Map<int, u8>,
) -> bool {
    if reg[id].temp {
        reg2 == reg.remove(id) && m2 == restored(m, w, reg[id])
    } else {
        reg2 == reg.insert(id, counted(reg[id])) && m2 == m
    }
}

/// The breakpoint to re-arm after stepping off `bpid`: it, when it is
/// registered and enabled.
pub open spec fn revert_of(reg: Map<usize, Breakpoint>, bpid: Option<BpID>) -> Option<BpID> {
    match bpid {
        Some(id) => if reg.dom().contains(id) && reg[id].enabled {
            Some(id)
        } else {
            None
        },
        None => None,
    }
}

/// The disable step before stepping off `bpid`.
pub open spec fn step_over_post(
    reg: Map<usize, Breakpoint>,
    trap: Seq<u8>,
    m: Map<int, u8>,
    w: Set<int>,
    bpid: Option<BpID>,
    reg2: Map<usize, Breakpoint>,
    m2: Map<int, u8>,
) -> bool {
    match revert_of(reg, bpid) {
        None => reg2 == reg && m2 == m,
        Some(id) => exists|e: UDbgResult<()>| #[trigger] enable_post(reg, trap, m, w, id, false, reg2, m2, e),
    }
}

/// The breakpoint steps of a reply after its single step: the temporary
/// breakpoint `t` asks for, then the re-arm of `revert`, taking the registry
/// `reg` and memory `m` to `reg2` and `m2`.
pub open spec fn reply_steps(
    reg: Map<usize, Breakpoint>,
    trap: Seq<u8>,
    m: Map<int, u8>,
    w: Set<int>,
    status: UDbgStatus,
    t: Option<usize>,
    revert: Option<BpID>,
    reg2: Map<usize, Breakpoint>,
    m2: Map<int, u8>,
) -> bool {
    exists|reg1: Map<usize, Breakpoint>, m1: Map<int, u8>|
        #[trigger] temp_step(reg, trap, m, w, status, t, reg1, m1) && rearm_step(reg1, trap, m1, w, revert, reg2, m2)
}

/// The breakpoint `bp` with one more hit counted (saturating).
pub open spec fn counted(bp: Breakpoint) -> Breakpoint {
    Breakpoint {
        hit_count: if bp.hit_count == usize::MAX {
            usize::MAX
        } else {
            (bp.hit_count + 1) as usize
        },
        ..bp
    }
}

impl CommonAdaptor {
    pub fn bp_exists(&self, id: BpID) -> (r: bool)
        requires
            self.wf(),
        ensures
            r == self.bp_view().dom().contains(id),
    {
        self.bps.bp_exists(id)
    }

    pub fn get_bp(&self, id: BpID) -> (r: Option<&Breakpoint>)
        requires
            self.wf(),
        ensures
            r == (if self.bp_view().dom().contains(id) {
                Some(&self.bp_view()[id])
            } else {
                None
            }),
    {
        self.bps.get_bp(id)
    }

    /// How many breakpoints are registered.
    pub fn bp_count(&self) -> (r: usize)
        requires
            self.wf(),
        ensures
            r == self.bp_view().len(),
    {
        self.bps.len()
    }

    pub fn get_bp_list(&self) -> (r: Vec<BpID>)
        requires
            self.wf(),
        ensures
            r@.no_duplicates(),
            forall|a: usize| r@.contains(a) <==> self.bp_view().dom().contains(a),
    {
        self.bps.get_bp_list()
    }

    /// Registers a software breakpoint; a target that is only opened takes
    /// none.
    pub fn add_bp<M: WriteMemory>(&mut self, mem: &mut M, opt: BpOpt) -> (r: UDbgResult<BpID>)
        requires
            old(self).wf(),
        ensures
            final(self).wf(),
            final(mem).writable() == old(mem).writable(),
            old(self).base_spec().status == UDbgStatus::Opened ==> r == Err::<BpID, UDbgError>(
                UDbgError::NotSupport,
            ) && final(self).bp_view() == old(self).bp_view() && final(mem).readable() == old(
                mem,
            ).readable(),
            old(self).base_spec().status != UDbgStatus::Opened ==> add_bp_post(
                old(self).bp_view(),
                old(self).trap_spec(),
                old(mem).readable(),
                old(mem).writable(),
                opt,
                final(self).bp_view(),
                final(mem).readable(),
                r,
            ),
            final(self).trap_spec() == old(self).trap_spec(),
            final(self).thread_set() == old(self).thread_set(),
            final(self).regs_spec() == old(self).regs_spec(),
            final(self).dirty_spec() == old(self).dirty_spec(),
            final(self).detaching_spec() == old(self).detaching_spec(),
            final(self).base_spec() == old(self).base_spec(),
    {
        match self.base.check_opened() {
            Ok(()) => {},
            Err(e) => return Err(e),
        }
        self.bps.add_bp(mem, opt)
    }

    pub fn enable_bp<M: WriteMemory>(&mut self, mem: &mut M, id: BpID, on: bool) -> (r: UDbgResult<()>)
        requires
            old(self).wf(),
        ensures
            final(self).wf(),
            final(mem).writable() == old(mem).writable(),
            enable_post(
                old(self).bp_view(),
                old(self).trap_spec(),
                old(mem).readable(),
                old(mem).writable(),
                id,
                on,
                final(self).bp_view(),
                final(mem).readable(),
                r,
            ),
            final(self).trap_spec() == old(self).trap_spec(),
            final(self).thread_set() == old(self).thread_set(),
            final(self).regs_spec() == old(self).regs_spec(),
            final(self).dirty_spec() == old(self).dirty_spec(),
            final(self).detaching_spec() == old(self).detaching_spec(),
            final(self).base_spec() == old(self).base_spec(),
    {
        self.bps.enable_bp(mem, id, on)
    }

    pub fn remove_bp<M: WriteMemory>(&mut self, mem: &mut M, id: BpID) -> (r: UDbgResult<()>)
        requires
            old(self).wf(),
        ensures
            final(self).wf(),
            final(mem).writable() == old(mem).writable(),
            !old(self).bp_view().dom().contains(id) ==> r == Err::<(), UDbgError>(
                UDbgError::NoTarget,
            ) && final(self).bp_view() == old(self).bp_view() && final(mem).readable() == old(
                mem,
            ).readable(),
            old(self).bp_view().dom().contains(id) ==> r == Ok::<(), UDbgError>(())
                && final(self).bp_view() == old(self).bp_view().remove(id) && final(mem).readable()
                == restored(old(mem).readable(), old(mem).writable(), old(self).bp_view()[id]),
            final(self).trap_spec() == old(self).trap_spec(),
            final(self).thread_set() == old(self).thread_set(),
            final(self).regs_spec() == old(self).regs_spec(),
            final(self).dirty_spec() == old(self).dirty_spec(),
            final(self).detaching_spec() == old(self).detaching_spec(),
            final(self).base_spec() == old(self).base_spec(),
    {
        self.bps.remove_bp(mem, id)
    }

    /// Counts a hit of the breakpoint at `id`; a temporary breakpoint is
    /// dropped right away, so that nothing of it is left when the user hears
    /// of the hit. False when no breakpoint stands at `id`.
    pub fn hit_breakpoint<M: WriteMemory>(&mut self, mem: &mut M, id: BpID) -> (r: bool)
        requires
            old(self).wf(),
        ensures
            final(self).wf(),
            final(mem).writable() == old(mem).writable(),
            r == old(self).bp_view().dom().contains(id),
            !r ==> final(self).bp_view() == old(self).bp_view() && final(mem).readable() == old(
                mem,
            ).readable(),
            r ==> hit_post(
                old(self).bp_view(),
                old(mem).readable(),
                old(mem).writable(),
                id,
                final(self).bp_view(),
                final(mem).readable(),
            ),
            final(self).trap_spec() == old(self).trap_spec(),
            final(self).thread_set() == old(self).thread_set(),
            final(self).regs_spec() == old(self).regs_spec(),
            final(self).dirty_spec() == old(self).dirty_spec(),
            final(self).detaching_spec() == old(self).detaching_spec(),
            final(self).base_spec() == old(self).base_spec(),
    {
        if !self.bps.record_hit(id) {
            return false;
        }
        let temp = match self.bps.get_bp(id) {
            Some(bp) => bp.temp,
            None => false,
        };
        if temp {
            let _ = self.bps.remove_bp(mem, id);
            proof {
                assert(self.bps@ =~= old(self).bps@.remove(id));
            }
        }
        true
    }

    /// Before single-stepping off the breakpoint at `bpid`: disables it when
    /// it is registered and enabled, and names it for re-arming.
    pub fn begin_step_over<M: WriteMemory>(&mut self, mem: &mut M, bpid: Option<BpID>) -> (r: Option<BpID>)
        requires
            old(self).wf(),
        ensures
            final(self).wf(),
            final(mem).writable() == old(mem).writable(),
            r == revert_of(old(self).bp_view(), bpid),
            step_over_post(
                old(self).bp_view(),
                old(self).trap_spec(),
                old(mem).readable(),
                old(mem).writable(),
                bpid,
                final(self).bp_view(),
                final(mem).readable(),
            ),
            final(self).trap_spec() == old(self).trap_spec(),
            final(self).thread_set() == old(self).thread_set(),
            final(self).regs_spec() == old(self).regs_spec(),
            final(self).dirty_spec() == old(self).dirty_spec(),
            final(self).detaching_spec() == old(self).detaching_spec(),
            final(self).base_spec() == old(self).base_spec(),
    {
        let id = match bpid {
            Some(id) => id,
            None => return None,
        };
        let enabled = match self.bps.get_bp(id) {
            Some(bp) => bp.enabled,
            None => false,
        };
        if !enabled {
            return None;
        }
        let e = self.bps.enable_bp(mem, id, false);
        proof {
            assert(enable_post(
                old(self).bp_view(),
                old(self).trap_spec(),
                old(mem).readable(),
                old(mem).writable(),
                id,
                false,
                self.bp_view(),
                mem.readable(),
                e,
            ));
        }
        Some(id)
    }

    /// After the single step: sets the temporary breakpoint the reply asks
    /// for (downgrading a step-out over a non-call to a single step), then
    /// re-arms the breakpoint that was stepped over.
    pub fn finish_reply<M: WriteMemory>(
        &mut self,
        mem: &mut M,
        reply: UserReply,
        revert: Option<BpID>,
    ) -> (r: UserReply)
        requires
            old(self).wf(),
        ensures
            final(self).wf(),
            final(mem).writable() == old(mem).writable(),
            ({
                let code = insn_code(old(mem).readable(), old(self).regs_spec().rip as usize);
                let ptr32 = old(self).base_spec().context.psize == 4;
                let pc = old(self).regs_spec().rip as usize;
                let t = temp_target(reply, code, ptr32, pc);
                &&& r == effective_reply(reply, code, ptr32, pc)
                &&& reply_steps(
                    old(self).bp_view(),
                    old(self).trap_spec(),
                    old(mem).readable(),
                    old(mem).writable(),
                    old(self).base_spec().status,
                    t,
                    revert,
                    final(self).bp_view(),
                    final(mem).readable(),
                )
            }),
            final(self).trap_spec() == old(self).trap_spec(),
            final(self).thread_set() == old(self).thread_set(),
            final(self).regs_spec() == old(self).regs_spec(),
            final(self).dirty_spec() == old(self).dirty_spec(),
            final(self).detaching_spec() == old(self).detaching_spec(),
            final(self).base_spec() == old(self).base_spec(),
    {
        let old_reply = reply;
        let mut reply = reply;
        let pc = self.pc();
        let temp = match reply {
            UserReply::StepOut => {
                let t = check_call(&*mem, self.base.is_ptr32(), pc);
                if t.is_none() {
                    reply = UserReply::StepIn;
                }
                t
            },
            UserReply::Goto(a) => Some(a),
            _ => None,
        };
        let ghost reg0 = self.bps@;
        let ghost m0 = mem.readable();
        let ghost st = self.base.status;
        let ghost trap = self.bps.trap_spec();
        let ghost w = mem.writable();
        if let Some(a) = temp {
            let opt = BpOpt::int3(a).enable(true).temp(true);
            let e1 = self.add_bp(mem, opt);
            proof {
                assert(opt == temp_opt(a));
                if st != UDbgStatus::Opened {
                    assert(add_bp_post(reg0, trap, m0, w, temp_opt(a), self.bps@, mem.readable(), e1));
                }
            }
        }
        let ghost reg1 = self.bps@;
        let ghost m1 = mem.readable();
        proof {
            assert(temp_step(reg0, trap, m0, w, st, temp, reg1, m1));
        }
        if let Some(id) = revert {
            let e2 = self.bps.enable_bp(mem, id, true);
            proof {
                assert(enable_post(reg1, trap, m1, w, id, true, self.bps@, mem.readable(), e2));
            }
        }
        proof {
            assert(rearm_step(reg1, trap, m1, w, revert, self.bps@, mem.readable()));
            let code = insn_code(old(mem).readable(), old(self).regs_spec().rip as usize);
            let ptr32 = old(self).base_spec().context.psize == 4;
            assert(temp == temp_target(old_reply, code, ptr32, pc));
            assert(reply == effective_reply(old_reply, code, ptr32, pc));
            assert(temp_step(old(self).bp_view(), old(self).trap_spec(), old(mem).readable(), old(mem).writable(), old(self).base_spec().status, temp_target(old_reply, code, ptr32, pc), reg1, m1)
                && rearm_step(reg1, old(self).trap_spec(), m1, old(mem).writable(), revert, self.bp_view(), mem.readable()));
        }
        reply
    }
}

impl CommonAdaptor {
    /// Asks the target to detach. An only-opened target just ends (false).
    /// Otherwise the detach latch is set, and the result tells whether the
    /// engine is blocked waiting and must be interrupted with a stop signal.
    pub fn detach(&mut self) -> (r: bool)
        ensures
            old(self).base_spec().status == UDbgStatus::Opened ==> !r && final(self).base_spec()
                == (UDbgBase { status: UDbgStatus::Ended, ..old(self).base_spec() })
                && final(self).detaching_spec() == old(self).detaching_spec(),
            old(self).base_spec().status != UDbgStatus::Opened ==> r == old(self).waiting_spec()
                && final(self).detaching_spec() && final(self).base_spec() == old(self).base_spec(),
            final(self).wf() == old(self).wf(),
            final(self).waiting_spec() == old(self).waiting_spec(),
            final(self).bp_view() == old(self).bp_view(),
            final(self).trap_spec() == old(self).trap_spec(),
            final(self).thread_set() == old(self).thread_set(),
            final(self).regs_spec() == old(self).regs_spec(),
            final(self).dirty_spec() == old(self).dirty_spec(),
    {
        if self.base.is_opened() {
            self.base.status = UDbgStatus::Ended;
            return false;
        }
        self.detaching = true;
        self.waiting
    }

    pub fn is_detaching(&self) -> (r: bool)
        ensures
            r == self.detaching_spec(),
    {
        self.detaching
    }

    /// Marks the engine as blocked in its wait for the target (or no longer),
    /// with the status that goes with it.
    pub fn set_waiting(&mut self, waiting: bool)
        ensures
            final(self).waiting_spec() == waiting,
            final(self).base_spec() == (UDbgBase {
                status: if waiting {
                    UDbgStatus::Running
                } else {
                    UDbgStatus::Paused
                },
                ..old(self).base_spec()
            }),
            final(self).wf() == old(self).wf(),
            final(self).detaching_spec() == old(self).detaching_spec(),
            final(self).bp_view() == old(self).bp_view(),
            final(self).trap_spec() == old(self).trap_spec(),
            final(self).thread_set() == old(self).thread_set(),
            final(self).regs_spec() == old(self).regs_spec(),
            final(self).dirty_spec() == old(self).dirty_spec(),
    {
        self.waiting = waiting;
        self.base.status = if waiting {
            UDbgStatus::Running
        } else {
            UDbgStatus::Paused
        };
    }

    /// Records the thread of the event being handled.
    pub fn set_event_tid(&mut self, tid: i32)
        ensures
            final(self).base_spec() == (UDbgBase { event_tid: tid, ..old(self).base_spec() }),
            final(self).wf() == old(self).wf(),
            final(self).waiting_spec() == old(self).waiting_spec(),
            final(self).detaching_spec() == old(self).detaching_spec(),
            final(self).bp_view() == old(self).bp_view(),
            final(self).trap_spec() == old(self).trap_spec(),
            final(self).thread_set() == old(self).thread_set(),
            final(self).regs_spec() == old(self).regs_spec(),
            final(self).dirty_spec() == old(self).dirty_spec(),
    {
        self.base.event_tid = tid;
    }

    /// The cleanup of a detach: every breakpoint is dropped with its saved
    /// bytes written back; the result lists the threads to release.
    pub fn detach_cleanup<M: WriteMemory>(&mut self, mem: &mut M) -> (r: Vec<i32>)
        requires
            old(self).wf(),
        ensures
            final(self).wf(),
            r@.no_duplicates(),
            r@.to_set() == old(self).thread_set(),
            final(self).bp_view() == Map::<usize, Breakpoint>::empty(),
            final(mem).writable() == old(mem).writable(),
            forall|id: usize|
                #[trigger] old(self).bp_view().dom().contains(id) && cleanly_restorable(
                    old(self).bp_view(),
                    old(mem).writable(),
                    id,
                    old(self).trap_spec().len(),
                ) ==> bytes_at(final(mem).readable(), id as int, old(self).trap_spec().len())
                    == soft_bytes(old(self).bp_view()[id], old(self).trap_spec(), false),
            final(self).trap_spec() == old(self).trap_spec(),
            final(self).thread_set() == old(self).thread_set(),
            final(self).regs_spec() == old(self).regs_spec(),
            final(self).dirty_spec() == old(self).dirty_spec(),
            final(self).detaching_spec() == old(self).detaching_spec(),
            final(self).base_spec() == old(self).base_spec(),
    {
        self.bps.remove_all(mem);
        self.thread_list()
    }
}

} // verus!
