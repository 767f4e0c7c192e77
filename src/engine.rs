//! The debug event state machine.
//!
//! The engine decides; the caller waits on the OS, performs each `Action`
//! the engine returns and hands the answer back as the next `Input`. One
//! status is handled to its end (a `Continue` or a `Detach`) before the next
//! one is taken, so the events of a thread reach the user in the order the
//! kernel reported them.
use crate::adaptor::{
    counted, effective_reply, hit_post, rearm_step, reply_steps, revert_of, step_over_post,
    temp_step, temp_target, CommonAdaptor,
};
use crate::bp::{BpID, Breakpoint};
use crate::disasm::insn_code;
use crate::event::{
    UEvent, UserReply, PTRACE_EVENT_CLONE, PTRACE_EVENT_STOP, SIGILL, SIGSTOP, SIGTRAP,
};
use crate::memory::WriteMemory;
use crate::memory::bytes_at;
use crate::registry::{cleanly_restorable, soft_bytes};
use crate::regs::UserRegs;
use vstd::prelude::*;

verus! {

/// What the caller hands the engine.
#[derive(Clone, Copy, Debug)]
pub enum Input {
    /// A thread stopped with a signal; `regs` is its register block.
    Stopped { tid: i32, sig: i32, regs: UserRegs },
    /// A ptrace event stop.
    PtraceEvent { tid: i32, code: i32 },
    /// A thread was killed by a signal.
    Signaled { tid: i32, sig: i32 },
    /// A thread exited normally.
    Exited { tid: i32, code: i32 },
    /// The user callback's reply to the event delivered last.
    Reply(UserReply),
    /// The requested OS operation was carried out.
    Done,
    /// The thread id the kernel's event message holds.
    EventMsg(i32),
    /// A fresh register block of the event thread.
    Regs(UserRegs),
}

/// What the engine asks the caller to do next.
#[derive(Clone, Debug)]
pub enum Action {
    /// Call the user callback; answer with `Reply`.
    Deliver(UEvent),
    /// Install the trace options on a new thread; answer with `Done`.
    SetOptions(i32),
    /// Fetch the event message of the thread; answer with `EventMsg`.
    GetEventMsg(i32),
    /// Attach to a new thread; answer with `Done`.
    Attach(i32),
    /// Write back the registers, if given, then single-step the thread and
    /// wait for it; answer with `Done`.
    SingleStep(i32, Option<UserRegs>),
    /// Fetch the thread's registers; answer with `Regs`.
    FetchRegs(i32),
    /// Write back the registers, if given, and let the thread run with the
    /// signal, if any; then wait for the next status.
    Continue(i32, Option<i32>, Option<UserRegs>),
    /// Release these threads; the loop ends.
    Detach(Vec<i32>),
}

/// Where the engine is within the handling of one status.
#[derive(Clone, Copy, Debug, PartialEq, Eq, Structural)]
pub enum Phase {
    Idle,
    InitReply,
    ExceptionReply(Option<i32>),
    HitReply(Option<BpID>),
    Stepping(UserReply, Option<BpID>),
    Refreshing(UserReply, Option<BpID>),
    CloneMsg,
    CloneCreated(i32),
    CloneAttached(i32),
    Options(Option<i32>),
    SignaledReply(i32),
    ThreadExitReply(bool, u32, Option<i32>),
    ProcessExitReply(Option<i32>),
    Ended,
}

/// How a signal stop is handled.
#[derive(Clone, Copy, Debug, PartialEq, Eq, Structural)]
pub enum StopKind {
    /// The first stop of the session.
    Init,
    /// The first stop of a thread not known yet.
    NewThread,
    /// The stop the kernel sends a freshly cloned thread.
    ClonedStop,
    /// A breakpoint hit at this address.
    Hit(BpID),
    /// Anything else: an exception for the user.
    Exception,
}

/// The address a trap reports: one before the program counter for
/// `SIGTRAP` (the trap instruction has run), the program counter otherwise.
pub open spec fn trap_address(sig: i32, pc: usize) -> usize {
    if sig == SIGTRAP && pc > 0 {
        (pc - 1) as usize
    } else {
        pc
    }
}

pub open spec fn stop_kind(
    inited: bool,
    known: bool,
    cloned: bool,
    sig: i32,
    pc: usize,
    bps: Set<BpID>,
) -> StopKind {
    if !inited && (sig == SIGSTOP || sig == SIGTRAP) {
        StopKind::Init
    } else if sig == SIGSTOP && !known {
        StopKind::NewThread
    } else if sig == SIGSTOP && cloned {
        StopKind::ClonedStop
    } else if (sig == SIGTRAP || sig == SIGILL) && bps.contains(trap_address(sig, pc)) {
        StopKind::Hit(trap_address(sig, pc))
    } else {
        StopKind::Exception
    }
}

/// Whether the engine takes `input` in `phase`.
pub open spec fn accepts_spec(phase: Phase, input: Input) -> bool {
    match phase {
        Phase::Idle => input is Stopped || input is PtraceEvent || input is Signaled
            || input is Exited,
        Phase::InitReply | Phase::ExceptionReply(_) | Phase::HitReply(_) | Phase::CloneCreated(_)
        | Phase::SignaledReply(_) | Phase::ThreadExitReply(..) | Phase::ProcessExitReply(_) =>
            input is Reply,
        Phase::Stepping(..) | Phase::CloneAttached(_) | Phase::Options(_) => input is Done,
        Phase::Refreshing(..) => input is Regs,
        Phase::CloneMsg => input is EventMsg,
        Phase::Ended => false,
    }
}

/// The inputs that answer action `a`: a reply to an event, the outcome of an
/// OS operation, or after a resume the next status; nothing after a detach.
pub open spec fn answers(a: Action, i: Input) -> bool {
    match a {
        Action::Deliver(_) => i is Reply,
        Action::SetOptions(_) | Action::Attach(_) | Action::SingleStep(..) => i is Done,
        Action::GetEventMsg(_) => i is EventMsg,
        Action::FetchRegs(_) => i is Regs,
        Action::Continue(..) => i is Stopped || i is PtraceEvent || i is Signaled || i is Exited,
        Action::Detach(_) => false,
    }
}

/// The end of a status. On a detach: every thread is released, the
/// registry `bps0` is emptied and each breakpoint of it that can be cleanly
/// restored has its saved bytes back in memory. Otherwise the event thread
/// `tid` resumes with `sig` (after `writeback`), registry and memory as they
/// were.
pub open spec fn resume_post(
    tid: i32,
    sig: Option<i32>,
    detaching: bool,
    threads: Set<i32>,
    writeback: Option<UserRegs>,
    bps0: Map<BpID, Breakpoint>,
    trap: Seq<u8>,
    m0: Map<int, u8>,
    w: Set<int>,
    bps1: Map<BpID, Breakpoint>,
    m1: Map<int, u8>,
    phase: Phase,
    r: Action,
) -> bool {
    if detaching {
        &&& phase == Phase::Ended
        &&& r matches Action::Detach(ts) && ts@.to_set() == threads
        &&& bps1.is_empty()
        &&& forall|id: usize|
            #[trigger] bps0.dom().contains(id) && cleanly_restorable(bps0, w, id, trap.len())
                ==> bytes_at(m1, id as int, trap.len()) == soft_bytes(bps0[id], trap, false)
    } else {
        &&& phase == Phase::Idle
        &&& r == Action::Continue(tid, sig, writeback)
        &&& bps1 == bps0
        &&& m1 == m0
    }
}

/// `resume_post` for a target that goes from `t0` to `t1` and memory from
/// `m0` to `m1`.
pub open spec fn resumed(
    tid: i32,
    sig: Option<i32>,
    writeback: Option<UserRegs>,
    t0: CommonAdaptor,
    t1: CommonAdaptor,
    m0: Map<int, u8>,
    w: Set<int>,
    m1: Map<int, u8>,
    phase: Phase,
    r: Action,
) -> bool {
    resume_post(
        tid,
        sig,
        t0.detaching_spec(),
        t0.thread_set(),
        writeback,
        t0.bp_view(),
        t0.trap_spec(),
        m0,
        w,
        t1.bp_view(),
        m1,
        phase,
        r,
    )
}

/// The register block to write back: the snapshot, when it was changed.
pub open spec fn writeback_of(t: CommonAdaptor) -> Option<UserRegs> {
    if t.dirty_spec() {
        Some(t.regs_spec())
    } else {
        None
    }
}

/// What every step keeps of the target: its trap, base record and detach
/// latch, and the writable addresses of memory.
pub open spec fn kept(t0: CommonAdaptor, t1: CommonAdaptor) -> bool {
    &&& t1.wf()
    &&& t1.trap_spec() == t0.trap_spec()
    &&& t1.base_spec() == t0.base_spec()
    &&& t1.detaching_spec() == t0.detaching_spec()
}

/// The handling of a signal stop of `tid` with register block `regs`.
pub open spec fn stopped_post(
    e0: DefaultEngine,
    e1: DefaultEngine,
    t0: CommonAdaptor,
    t1: CommonAdaptor,
    m0: Map<int, u8>,
    w: Set<int>,
    m1: Map<int, u8>,
    tid: i32,
    sig: i32,
    regs: UserRegs,
    r: Action,
) -> bool {
    let kind = stop_kind(
        e0.inited_spec(),
        t0.thread_set().contains(tid),
        e0.cloned_set().contains(tid),
        sig,
        regs.rip as usize,
        t0.bp_view().dom(),
    );
    &&& e1.tid_spec() == tid
    &&& e1.inited_spec() == (e0.inited_spec() || kind == StopKind::Init)
    &&& e1.cloned_set() == (if kind == StopKind::ClonedStop {
        e0.cloned_set().remove(tid)
    } else {
        e0.cloned_set()
    })
    &&& match kind {
        StopKind::Init => {
            &&& r == Action::Deliver(UEvent::InitBp)
            &&& e1.phase_spec() == Phase::InitReply
            &&& t1.regs_spec() == regs
            &&& t1.thread_set() == t0.thread_set()
            &&& t1.bp_view() == t0.bp_view()
            &&& m1 == m0
        },
        StopKind::NewThread => {
            &&& r == Action::SetOptions(tid)
            &&& e1.phase_spec() == Phase::Options(None)
            &&& t1.regs_spec() == regs
            &&& t1.thread_set() == t0.thread_set().insert(tid)
            &&& t1.bp_view() == t0.bp_view()
            &&& m1 == m0
        },
        StopKind::ClonedStop => {
            &&& t1.regs_spec() == regs
            &&& t1.thread_set() == t0.thread_set()
            &&& resumed(tid, None, None, t0, t1, m0, w, m1, e1.phase_spec(), r)
        },
        StopKind::Hit(a) => {
            &&& r == Action::Deliver(UEvent::Breakpoint(a))
            &&& e1.phase_spec() == Phase::HitReply(Some(a))
            &&& t1.regs_spec() == (UserRegs { rip: a as u64, ..regs })
            &&& t1.dirty_spec()
            &&& t1.thread_set() == t0.thread_set()
            &&& hit_post(t0.bp_view(), m0, w, a, t1.bp_view(), m1)
        },
        StopKind::Exception => {
            &&& r == Action::Deliver(UEvent::Exception { first: true, code: sig })
            &&& e1.phase_spec() == Phase::ExceptionReply(Some(sig))
            &&& t1.regs_spec() == regs
            &&& t1.thread_set() == t0.thread_set()
            &&& t1.bp_view() == t0.bp_view()
            &&& m1 == m0
        },
    }
}

/// The handling of a ptrace event stop of `tid`.
pub open spec fn ptrace_event_post(
    e0: DefaultEngine,
    e1: DefaultEngine,
    t0: CommonAdaptor,
    t1: CommonAdaptor,
    m0: Map<int, u8>,
    w: Set<int>,
    m1: Map<int, u8>,
    tid: i32,
    code: i32,
    r: Action,
) -> bool {
    &&& e1.tid_spec() == tid
    &&& e1.inited_spec() == e0.inited_spec()
    &&& e1.cloned_set() == e0.cloned_set()
    &&& t1.regs_spec() == t0.regs_spec()
    &&& if code == PTRACE_EVENT_CLONE {
        &&& r == Action::GetEventMsg(tid)
        &&& e1.phase_spec() == Phase::CloneMsg
        &&& t1.thread_set() == t0.thread_set()
        &&& t1.bp_view() == t0.bp_view()
        &&& m1 == m0
    } else if code == PTRACE_EVENT_STOP && !t0.thread_set().contains(tid) {
        &&& r == Action::SetOptions(tid)
        &&& e1.phase_spec() == Phase::Options(None)
        &&& t1.thread_set() == t0.thread_set().insert(tid)
        &&& t1.bp_view() == t0.bp_view()
        &&& m1 == m0
    } else {
        &&& t1.thread_set() == t0.thread_set()
        &&& resumed(tid, None, writeback_of(t0), t0, t1, m0, w, m1, e1.phase_spec(), r)
    }
}

/// The handling of `tid` killed by `sig`.
pub open spec fn signaled_post(e0: DefaultEngine, e1: DefaultEngine, tid: i32, sig: i32, r: Action) -> bool {
    &&& e1.tid_spec() == tid
    &&& e1.inited_spec() == e0.inited_spec()
    &&& e1.cloned_set() == e0.cloned_set()
    &&& r == Action::Deliver(UEvent::Exception { first: false, code: sig })
    &&& e1.phase_spec() == Phase::SignaledReply(sig)
}

/// The handling of `tid` exiting with `code`.
pub open spec fn exited_post(
    e0: DefaultEngine,
    e1: DefaultEngine,
    t0: CommonAdaptor,
    t1: CommonAdaptor,
    m0: Map<int, u8>,
    w: Set<int>,
    m1: Map<int, u8>,
    tid: i32,
    code: i32,
    r: Action,
) -> bool {
    &&& e1.tid_spec() == tid
    &&& e1.inited_spec() == e0.inited_spec()
    &&& e1.cloned_set() == e0.cloned_set()
    &&& t1.regs_spec() == t0.regs_spec()
    &&& t1.thread_set() == t0.thread_set().remove(tid)
    &&& if t0.thread_set().contains(tid) {
        &&& r == Action::Deliver(UEvent::ThreadExit(code as u32))
        &&& e1.phase_spec() == Phase::ThreadExitReply(t1.thread_set().is_empty(), code as u32, None)
        &&& t1.bp_view() == t0.bp_view()
        &&& m1 == m0
    } else {
        resumed(tid, None, writeback_of(t0), t0, t1, m0, w, m1, e1.phase_spec(), r)
    }
}

/// The handling of the user's `reply` to the event delivered last.
pub open spec fn reply_post(
    e0: DefaultEngine,
    e1: DefaultEngine,
    t0: CommonAdaptor,
    t1: CommonAdaptor,
    m0: Map<int, u8>,
    w: Set<int>,
    m1: Map<int, u8>,
    reply: UserReply,
    r: Action,
) -> bool {
    let tid = e0.tid_spec();
    &&& e1.tid_spec() == tid
    &&& e1.inited_spec() == e0.inited_spec()
    &&& e1.cloned_set() == e0.cloned_set()
    &&& t1.regs_spec() == t0.regs_spec()
    &&& match e0.phase_spec() {
        Phase::InitReply => if !t0.thread_set().contains(tid) {
            &&& r == Action::SetOptions(tid)
            &&& e1.phase_spec() == Phase::Options(None)
            &&& t1.thread_set() == t0.thread_set().insert(tid)
            &&& t1.bp_view() == t0.bp_view()
            &&& m1 == m0
        } else {
            t1.thread_set() == t0.thread_set() && resumed(tid, None, writeback_of(t0), t0, t1, m0, w, m1, e1.phase_spec(), r)
        },
        Phase::ExceptionReply(fwd) => t1.thread_set() == t0.thread_set() && resumed(
            tid,
            fwd,
            writeback_of(t0),
            t0,
            t1,
            m0,
            w,
            m1,
            e1.phase_spec(),
            r,
        ),
        Phase::HitReply(bpid) => {
            &&& e1.phase_spec() == Phase::Stepping(reply, revert_of(t0.bp_view(), bpid))
            &&& r == Action::SingleStep(tid, writeback_of(t0))
            &&& !t1.dirty_spec()
            &&& t1.thread_set() == t0.thread_set()
            &&& step_over_post(t0.bp_view(), t0.trap_spec(), m0, w, bpid, t1.bp_view(), m1)
        },
        Phase::CloneCreated(new_tid) => {
            &&& r == Action::Attach(new_tid)
            &&& e1.phase_spec() == Phase::CloneAttached(new_tid)
            &&& t1.bp_view() == t0.bp_view()
            &&& t1.thread_set() == t0.thread_set()
            &&& m1 == m0
        },
        Phase::SignaledReply(sig) => if sig != SIGSTOP && t0.thread_set().contains(tid) {
            &&& r == Action::Deliver(UEvent::ThreadExit((-1i32) as u32))
            &&& t1.thread_set() == t0.thread_set().remove(tid)
            &&& e1.phase_spec() == Phase::ThreadExitReply(t1.thread_set().is_empty(), (-1i32) as u32, Some(sig))
            &&& t1.bp_view() == t0.bp_view()
            &&& m1 == m0
        } else {
            t1.thread_set() == t0.thread_set() && resumed(tid, Some(sig), writeback_of(t0), t0, t1, m0, w, m1, e1.phase_spec(), r)
        },
        Phase::ThreadExitReply(last, code, fwd) => if last {
            &&& r == Action::Deliver(UEvent::ProcessExit(code))
            &&& e1.phase_spec() == Phase::ProcessExitReply(fwd)
            &&& t1.bp_view() == t0.bp_view()
            &&& t1.thread_set() == t0.thread_set()
            &&& m1 == m0
        } else {
            t1.thread_set() == t0.thread_set() && resumed(tid, fwd, writeback_of(t0), t0, t1, m0, w, m1, e1.phase_spec(), r)
        },
        Phase::ProcessExitReply(fwd) => t1.thread_set() == t0.thread_set() && resumed(
            tid,
            fwd,
            writeback_of(t0),
            t0,
            t1,
            m0,
            w,
            m1,
            e1.phase_spec(),
            r,
        ),
        _ => false,
    }
}

/// The handling of a requested OS operation (a single step, an attach,
/// trace options) having been carried out.
pub open spec fn done_post(
    e0: DefaultEngine,
    e1: DefaultEngine,
    t0: CommonAdaptor,
    t1: CommonAdaptor,
    m0: Map<int, u8>,
    w: Set<int>,
    m1: Map<int, u8>,
    r: Action,
) -> bool {
    let tid = e0.tid_spec();
    &&& e1.tid_spec() == tid
    &&& e1.inited_spec() == e0.inited_spec()
    &&& t1.regs_spec() == t0.regs_spec()
    &&& match e0.phase_spec() {
        Phase::Stepping(reply, revert) => {
            &&& r == Action::FetchRegs(tid)
            &&& e1.phase_spec() == Phase::Refreshing(reply, revert)
            &&& e1.cloned_set() == e0.cloned_set()
            &&& t1.thread_set() == t0.thread_set()
            &&& t1.bp_view() == t0.bp_view()
            &&& t1.dirty_spec() == t0.dirty_spec()
            &&& m1 == m0
        },
        Phase::CloneAttached(new_tid) => {
            &&& e1.cloned_set() == e0.cloned_set().insert(new_tid)
            &&& t1.thread_set() == t0.thread_set().insert(new_tid)
            &&& if !t0.thread_set().contains(new_tid) {
                &&& r == Action::SetOptions(new_tid)
                &&& e1.phase_spec() == Phase::Options(None)
                &&& t1.bp_view() == t0.bp_view()
                &&& m1 == m0
            } else {
                resumed(tid, None, writeback_of(t0), t0, t1, m0, w, m1, e1.phase_spec(), r)
            }
        },
        Phase::Options(fwd) => {
            &&& e1.cloned_set() == e0.cloned_set()
            &&& t1.thread_set() == t0.thread_set()
            &&& resumed(tid, fwd, writeback_of(t0), t0, t1, m0, w, m1, e1.phase_spec(), r)
        },
        _ => false,
    }
}

/// The handling of the event message that names the thread a clone made.
pub open spec fn event_msg_post(e0: DefaultEngine, e1: DefaultEngine, new_tid: i32, r: Action) -> bool {
    &&& e1.tid_spec() == e0.tid_spec()
    &&& e1.inited_spec() == e0.inited_spec()
    &&& e1.cloned_set() == e0.cloned_set()
    &&& r == Action::Deliver(UEvent::ThreadCreate(new_tid))
    &&& e1.phase_spec() == Phase::CloneCreated(new_tid)
}

/// The handling of the registers fetched after a single step: the reply is
/// carried out at the program counter the step reached (a step-out over a
/// call-like instruction sets a temporary breakpoint after it, any other
/// step-out becomes a single step), the stepped-over breakpoint is re-armed,
/// and then a reply that asks for one more step gets a `Step` event while any
/// other resumes the thread.
pub open spec fn regs_post(
    e0: DefaultEngine,
    e1: DefaultEngine,
    t0: CommonAdaptor,
    t1: CommonAdaptor,
    m0: Map<int, u8>,
    w: Set<int>,
    m1: Map<int, u8>,
    regs: UserRegs,
    r: Action,
) -> bool {
    let tid = e0.tid_spec();
    &&& e1.tid_spec() == tid
    &&& e1.inited_spec() == e0.inited_spec()
    &&& e1.cloned_set() == e0.cloned_set()
    &&& t1.regs_spec() == regs
    &&& t1.thread_set() == t0.thread_set()
    &&& match e0.phase_spec() {
        Phase::Refreshing(reply, revert) => {
            let pc = regs.rip as usize;
            let code = insn_code(m0, pc);
            let ptr32 = t0.base_spec().context.psize == 4;
            exists|reg2: Map<BpID, Breakpoint>, m2: Map<int, u8>|
                #[trigger] reply_steps(
                    t0.bp_view(),
                    t0.trap_spec(),
                    m0,
                    w,
                    t0.base_spec().status,
                    temp_target(reply, code, ptr32, pc),
                    revert,
                    reg2,
                    m2,
                ) && if effective_reply(reply, code, ptr32, pc) == UserReply::StepIn {
                    &&& r == Action::Deliver(UEvent::Step)
                    &&& e1.phase_spec() == Phase::HitReply(None)
                    &&& t1.bp_view() == reg2
                    &&& m1 == m2
                } else {
                    resume_post(
                        tid,
                        None,
                        t0.detaching_spec(),
                        t0.thread_set(),
                        None,
                        reg2,
                        t0.trap_spec(),
                        m2,
                        w,
                        t1.bp_view(),
                        m1,
                        e1.phase_spec(),
                        r,
                    )
                }
        },
        _ => false,
    }
}

pub struct DefaultEngine {
    inited: bool,
    cloned_tids: Vec<i32>,
    tid: i32,
    phase: Phase,
}

impl DefaultEngine {
    pub closed spec fn inited_spec(&self) -> bool {
        self.inited
    }

    /// Threads whose first stop after their clone is still to come.
    pub closed spec fn cloned_set(&self) -> Set<i32> {
        self.cloned_tids@.to_set()
    }

    /// The thread of the status being handled.
    pub closed spec fn tid_spec(&self) -> i32 {
        self.tid
    }

    pub closed spec fn phase_spec(&self) -> Phase {
        self.phase
    }

    pub fn new() -> (r: DefaultEngine)
        ensures
            !r.inited_spec(),
            r.cloned_set() == Set::<i32>::empty(),
            r.phase_spec() == Phase::Idle,
            r.tid_spec() == 0,
    {
        let r = DefaultEngine { inited: false, cloned_tids: Vec::new(), tid: 0, phase: Phase::Idle };
        proof {
            assert(r.cloned_tids@.to_set() =~= Set::<i32>::empty());
        }
        r
    }

    pub fn phase(&self) -> (r: Phase)
        ensures
            r == self.phase_spec(),
    {
        self.phase
    }

    pub fn accepts(&self, input: &Input) -> (r: bool)
        ensures
            r == accepts_spec(self.phase_spec(), *input),
    {
        match self.phase {
            Phase::Idle => matches!(input, Input::Stopped { .. } | Input::PtraceEvent { .. } | Input::Signaled { .. } | Input::Exited { .. }),
            Phase::InitReply | Phase::ExceptionReply(_) | Phase::HitReply(_) | Phase::CloneCreated(_)
            | Phase::SignaledReply(_) | Phase::ThreadExitReply(..) | Phase::ProcessExitReply(_) =>
                matches!(input, Input::Reply(_)),
            Phase::Stepping(..) | Phase::CloneAttached(_) | Phase::Options(_) => matches!(input, Input::Done),
            Phase::Refreshing(..) => matches!(input, Input::Regs(_)),
            Phase::CloneMsg => matches!(input, Input::EventMsg(_)),
            Phase::Ended => false,
        }
    }

    fn cloned_contains(&self, tid: i32) -> (r: bool)
        ensures
            r == self.cloned_set().contains(tid),
    {
        let mut i: usize = 0;
        while i < self.cloned_tids.len()
            invariant
                i <= self.cloned_tids@.len(),
                forall|j: int| 0 <= j < i ==> self.cloned_tids@[j] != tid,
            decreases self.cloned_tids@.len() - i,
        {
            if self.cloned_tids[i] == tid {
                return true;
            }
            i = i + 1;
        }
        false
    }

    fn cloned_remove(&mut self, tid: i32)
        ensures
            final(self).cloned_set() == old(self).cloned_set().remove(tid),
            final(self).inited == old(self).inited,
            final(self).tid == old(self).tid,
            final(self).phase == old(self).phase,
    {
        let mut kept: Vec<i32> = Vec::new();
        let mut i: usize = 0;
        while i < self.cloned_tids.len()
            invariant
                i <= self.cloned_tids@.len(),
                forall|x: i32| kept@.contains(x) <==> (x != tid && exists|j: int| 0 <= j < i && self.cloned_tids@[j] == x),
            decreases self.cloned_tids@.len() - i,
        {
            let t = self.cloned_tids[i];
            let ghost k0 = kept@;
            if t != tid {
                kept.push(t);
            }
            proof {
                assert forall|x: i32| kept@.contains(x) <==> (x != tid && exists|j: int| 0 <= j < i + 1 && self.cloned_tids@[j] == x) by {
                    if x != tid && exists|j: int| 0 <= j < i + 1 && self.cloned_tids@[j] == x {
                        let j = choose|j: int| 0 <= j < i + 1 && self.cloned_tids@[j] == x;
                        if j < i {
                            assert(k0.contains(x));
                            let k = choose|k: int| 0 <= k < k0.len() && k0[k] == x;
                            assert(kept@[k] == x);
                        } else {
                            assert(kept@[kept@.len() - 1] == x);
                        }
                    }
                    if kept@.contains(x) {
                        let k = choose|k: int| 0 <= k < kept@.len() && kept@[k] == x;
                        if k < k0.len() {
                            assert(k0[k] == x);
                            assert(k0.contains(x));
                        } else {
                            assert(x == t);
                            assert(self.cloned_tids@[i as int] == x);
                        }
                    }
                }
            }
            i = i + 1;
        }
        let ghost before = self.cloned_tids@;
        self.cloned_tids = kept;
        proof {
            assert(self.cloned_tids@.to_set() =~= before.to_set().remove(tid));
        }
    }

    fn cloned_insert(&mut self, tid: i32)
        ensures
            final(self).cloned_set() == old(self).cloned_set().insert(tid),
            final(self).inited == old(self).inited,
            final(self).tid == old(self).tid,
            final(self).phase == old(self).phase,
    {
        let ghost before = self.cloned_tids@;
        self.cloned_tids.push(tid);
        proof {
            assert(self.cloned_tids@.to_set() =~= before.to_set().insert(tid)) by {
                assert forall|x: i32| self.cloned_tids@.to_set().contains(x) <==> before.to_set().insert(tid).contains(x) by {
                    if self.cloned_tids@.contains(x) && x != tid {
                        let j = choose|j: int| 0 <= j < self.cloned_tids@.len() && self.cloned_tids@[j] == x;
                        assert(before[j] == x);
                    }
                    if before.contains(x) {
                        let j = choose|j: int| 0 <= j < before.len() && before[j] == x;
                        assert(self.cloned_tids@[j] == x);
                    }
                    if x == tid {
                        assert(self.cloned_tids@[before.len() as int] == tid);
                    }
                }
            }
        }
    }

    /// Ends the handling of a status: a detach releases everything, anything
    /// else resumes the event thread with `sig`.
    fn cont<M: WriteMemory>(&mut self, target: &mut CommonAdaptor, mem: &mut M, sig: Option<i32>) -> (r: Action)
        requires
            old(target).wf(),
        ensures
            kept(*old(target), *final(target)),
            final(mem).writable() == old(mem).writable(),
            resumed(
                old(self).tid,
                sig,
                writeback_of(*old(target)),
                *old(target),
                *final(target),
                old(mem).readable(),
                old(mem).writable(),
                final(mem).readable(),
                final(self).phase,
                r,
            ),
            final(target).thread_set() == old(target).thread_set(),
            final(target).regs_spec() == old(target).regs_spec(),
            !old(target).detaching_spec() ==> !final(target).dirty_spec(),
            old(target).detaching_spec() ==> final(target).dirty_spec() == old(target).dirty_spec(),
            final(self).inited == old(self).inited,
            final(self).tid == old(self).tid,
            final(self).cloned_set() == old(self).cloned_set(),
    {
        if target.is_detaching() {
            let tids = target.detach_cleanup(mem);
            self.phase = Phase::Ended;
            proof {
                assert(target.bp_view() =~= Map::empty());
            }
            Action::Detach(tids)
        } else {
            let wb = target.take_writeback();
            self.phase = Phase::Idle;
            Action::Continue(self.tid, sig, wb)
        }
    }
}

impl DefaultEngine {
    /// A signal stop of `tid` with register block `regs`.
    pub fn on_stopped<M: WriteMemory>(
        &mut self,
        target: &mut CommonAdaptor,
        mem: &mut M,
        tid: i32,
        sig: i32,
        regs: UserRegs,
    ) -> (r: Action)
        requires
            old(target).wf(),
        ensures
            kept(*old(target), *final(target)),
            final(mem).writable() == old(mem).writable(),
            stopped_post(
                *old(self),
                *final(self),
                *old(target),
                *final(target),
                old(mem).readable(),
                old(mem).writable(),
                final(mem).readable(),
                tid,
                sig,
                regs,
                r,
            ),
    {
        self.tid = tid;
        target.set_regs(regs);
        if !self.inited && (sig == SIGSTOP || sig == SIGTRAP) {
            self.inited = true;
            self.phase = Phase::InitReply;
            return Action::Deliver(UEvent::InitBp);
        }
        if sig == SIGSTOP {
            if !target.has_thread(tid) {
                let _ = target.insert_thread(tid);
                self.phase = Phase::Options(None);
                return Action::SetOptions(tid);
            }
            if self.cloned_contains(tid) {
                self.cloned_remove(tid);
                return self.cont(target, mem, None);
            }
        }
        if sig == SIGTRAP || sig == SIGILL {
            let pc = target.pc();
            let address = if sig == SIGTRAP && pc > 0 {
                pc - 1
            } else {
                pc
            };
            if target.bp_exists(address) {
                target.set_pc(address);
                let _ = target.hit_breakpoint(mem, address);
                self.phase = Phase::HitReply(Some(address));
                return Action::Deliver(UEvent::Breakpoint(address));
            }
        }
        self.phase = Phase::ExceptionReply(Some(sig));
        Action::Deliver(UEvent::Exception { first: true, code: sig })
    }

    /// A ptrace event stop of `tid`: a group stop registers the thread, a
    /// clone asks for the new thread's id; other events pass.
    pub fn on_ptrace_event<M: WriteMemory>(
        &mut self,
        target: &mut CommonAdaptor,
        mem: &mut M,
        tid: i32,
        code: i32,
    ) -> (r: Action)
        requires
            old(target).wf(),
        ensures
            kept(*old(target), *final(target)),
            final(mem).writable() == old(mem).writable(),
            ptrace_event_post(
                *old(self),
                *final(self),
                *old(target),
                *final(target),
                old(mem).readable(),
                old(mem).writable(),
                final(mem).readable(),
                tid,
                code,
                r,
            ),
    {
        self.tid = tid;
        proof {
            if old(target).thread_set().contains(tid) {
                assert(old(target).thread_set().insert(tid) =~= old(target).thread_set());
            }
        }
        if code == PTRACE_EVENT_STOP {
            if target.insert_thread(tid) {
                self.phase = Phase::Options(None);
                return Action::SetOptions(tid);
            }
        } else if code == PTRACE_EVENT_CLONE {
            self.phase = Phase::CloneMsg;
            return Action::GetEventMsg(tid);
        }
        self.cont(target, mem, None)
    }

    /// `tid` was killed by `sig`: the user hears of it first.
    pub fn on_signaled(&mut self, tid: i32, sig: i32) -> (r: Action)
        ensures
            signaled_post(*old(self), *final(self), tid, sig, r),
    {
        self.tid = tid;
        self.phase = Phase::SignaledReply(sig);
        Action::Deliver(UEvent::Exception { first: false, code: sig })
    }

    /// `tid` exited with `code`: a known thread's exit is reported.
    pub fn on_exited<M: WriteMemory>(
        &mut self,
        target: &mut CommonAdaptor,
        mem: &mut M,
        tid: i32,
        code: i32,
    ) -> (r: Action)
        requires
            old(target).wf(),
        ensures
            kept(*old(target), *final(target)),
            final(mem).writable() == old(mem).writable(),
            exited_post(
                *old(self),
                *final(self),
                *old(target),
                *final(target),
                old(mem).readable(),
                old(mem).writable(),
                final(mem).readable(),
                tid,
                code,
                r,
            ),
    {
        self.tid = tid;
        proof {
            if !old(target).thread_set().contains(tid) {
                assert(old(target).thread_set().remove(tid) =~= old(target).thread_set());
            }
        }
        match target.remove_thread(tid) {
            Some(last) => {
                self.phase = Phase::ThreadExitReply(last, code as u32, None);
                Action::Deliver(UEvent::ThreadExit(code as u32))
            },
            None => self.cont(target, mem, None),
        }
    }

    /// The user's reply to the event delivered last.
    pub fn on_reply<M: WriteMemory>(
        &mut self,
        target: &mut CommonAdaptor,
        mem: &mut M,
        reply: UserReply,
    ) -> (r: Action)
        requires
            old(target).wf(),
            accepts_spec(old(self).phase_spec(), Input::Reply(reply)),
        ensures
            kept(*old(target), *final(target)),
            final(mem).writable() == old(mem).writable(),
            reply_post(
                *old(self),
                *final(self),
                *old(target),
                *final(target),
                old(mem).readable(),
                old(mem).writable(),
                final(mem).readable(),
                reply,
                r,
            ),
    {
        let tid = self.tid;
        match self.phase {
            Phase::InitReply => {
                if target.insert_thread(tid) {
                    self.phase = Phase::Options(None);
                    Action::SetOptions(tid)
                } else {
                    proof {
                        assert(old(target).thread_set().insert(tid) =~= old(target).thread_set());
                    }
                    self.cont(target, mem, None)
                }
            },
            Phase::ExceptionReply(fwd) => self.cont(target, mem, fwd),
            Phase::HitReply(bpid) => {
                let revert = target.begin_step_over(mem, bpid);
                let wb = target.take_writeback();
                self.phase = Phase::Stepping(reply, revert);
                Action::SingleStep(tid, wb)
            },
            Phase::CloneCreated(new_tid) => {
                self.phase = Phase::CloneAttached(new_tid);
                Action::Attach(new_tid)
            },
            Phase::SignaledReply(sig) => {
                if sig != SIGSTOP {
                    match target.remove_thread(tid) {
                        Some(last) => {
                            let code: u32 = (-1i32) as u32;
                            self.phase = Phase::ThreadExitReply(last, code, Some(sig));
                            return Action::Deliver(UEvent::ThreadExit(code));
                        },
                        None => {
                            proof {
                                assert(old(target).thread_set().remove(tid) =~= old(target).thread_set());
                            }
                        },
                    }
                }
                self.cont(target, mem, Some(sig))
            },
            Phase::ThreadExitReply(last, code, fwd) => {
                if last {
                    self.phase = Phase::ProcessExitReply(fwd);
                    Action::Deliver(UEvent::ProcessExit(code))
                } else {
                    self.cont(target, mem, fwd)
                }
            },
            Phase::ProcessExitReply(fwd) => self.cont(target, mem, fwd),
            _ => {
                proof {
                    assert(false);
                }
                self.cont(target, mem, None)
            },
        }
    }

    /// The requested OS operation (a single step, an attach, trace options)
    /// was carried out.
    pub fn on_done<M: WriteMemory>(&mut self, target: &mut CommonAdaptor, mem: &mut M) -> (r: Action)
        requires
            old(target).wf(),
            accepts_spec(old(self).phase_spec(), Input::Done),
        ensures
            kept(*old(target), *final(target)),
            final(mem).writable() == old(mem).writable(),
            done_post(
                *old(self),
                *final(self),
                *old(target),
                *final(target),
                old(mem).readable(),
                old(mem).writable(),
                final(mem).readable(),
                r,
            ),
    {
        let tid = self.tid;
        match self.phase {
            Phase::Stepping(reply, revert) => {
                self.phase = Phase::Refreshing(reply, revert);
                Action::FetchRegs(tid)
            },
            Phase::CloneAttached(new_tid) => {
                let fresh = target.insert_thread(new_tid);
                self.cloned_insert(new_tid);
                if fresh {
                    self.phase = Phase::Options(None);
                    Action::SetOptions(new_tid)
                } else {
                    proof {
                        assert(old(target).thread_set().insert(new_tid) =~= old(target).thread_set());
                    }
                    self.cont(target, mem, None)
                }
            },
            Phase::Options(fwd) => self.cont(target, mem, fwd),
            _ => {
                proof {
                    assert(false);
                }
                self.cont(target, mem, None)
            },
        }
    }

    /// The id of the thread a clone created: the user hears of it.
    pub fn on_event_msg(&mut self, new_tid: i32) -> (r: Action)
        requires
            accepts_spec(old(self).phase_spec(), Input::EventMsg(new_tid)),
        ensures
            event_msg_post(*old(self), *final(self), new_tid, r),
    {
        self.phase = Phase::CloneCreated(new_tid);
        Action::Deliver(UEvent::ThreadCreate(new_tid))
    }

    /// The registers after a single step: the reply is carried out at the
    /// program counter the step reached, the stepped-over breakpoint is
    /// re-armed, then a reply that asked for one more step gets a `Step`
    /// event and any other resumes the thread.
    pub fn on_regs<M: WriteMemory>(&mut self, target: &mut CommonAdaptor, mem: &mut M, regs: UserRegs) -> (r: Action)
        requires
            old(target).wf(),
            accepts_spec(old(self).phase_spec(), Input::Regs(regs)),
        ensures
            kept(*old(target), *final(target)),
            final(mem).writable() == old(mem).writable(),
            regs_post(
                *old(self),
                *final(self),
                *old(target),
                *final(target),
                old(mem).readable(),
                old(mem).writable(),
                final(mem).readable(),
                regs,
                r,
            ),
    {
        target.set_regs(regs);
        match self.phase {
            Phase::Refreshing(reply, revert) => {
                let next = target.finish_reply(mem, reply, revert);
                if next == UserReply::StepIn {
                    self.phase = Phase::HitReply(None);
                    Action::Deliver(UEvent::Step)
                } else {
                    self.cont(target, mem, None)
                }
            },
            _ => {
                proof {
                    assert(false);
                }
                self.cont(target, mem, None)
            },
        }
    }

    /// Hands `input` to the engine and returns what to do next: the handler
    /// of the input's kind does the work, and the engine then takes exactly
    /// the inputs that answer the action returned.
    pub fn advance<M: WriteMemory>(&mut self, target: &mut CommonAdaptor, mem: &mut M, input: Input) -> (r: Action)
        requires
            old(target).wf(),
            accepts_spec(old(self).phase_spec(), input),
        ensures
            kept(*old(target), *final(target)),
            final(mem).writable() == old(mem).writable(),
            forall|i: Input| #[trigger] accepts_spec(final(self).phase_spec(), i) == answers(r, i),
            ({
                let e0 = *old(self);
                let e1 = *final(self);
                let t0 = *old(target);
                let t1 = *final(target);
                let m0 = old(mem).readable();
                let w = old(mem).writable();
                let m1 = final(mem).readable();
                match input {
                    Input::Stopped { tid, sig, regs } => stopped_post(e0, e1, t0, t1, m0, w, m1, tid, sig, regs, r),
                    Input::PtraceEvent { tid, code } => ptrace_event_post(e0, e1, t0, t1, m0, w, m1, tid, code, r),
                    Input::Signaled { tid, sig } => signaled_post(e0, e1, tid, sig, r) && t1 == t0 && m1 == m0,
                    Input::Exited { tid, code } => exited_post(e0, e1, t0, t1, m0, w, m1, tid, code, r),
                    Input::Reply(reply) => reply_post(e0, e1, t0, t1, m0, w, m1, reply, r),
                    Input::Done => done_post(e0, e1, t0, t1, m0, w, m1, r),
                    Input::EventMsg(new_tid) => event_msg_post(e0, e1, new_tid, r) && t1 == t0 && m1 == m0,
                    Input::Regs(regs) => regs_post(e0, e1, t0, t1, m0, w, m1, regs, r),
                }
            }),
    {
        match input {
            Input::Stopped { tid, sig, regs } => self.on_stopped(target, mem, tid, sig, regs),
            Input::PtraceEvent { tid, code } => self.on_ptrace_event(target, mem, tid, code),
            Input::Signaled { tid, sig } => self.on_signaled(tid, sig),
            Input::Exited { tid, code } => self.on_exited(target, mem, tid, code),
            Input::Reply(reply) => self.on_reply(target, mem, reply),
            Input::Done => self.on_done(target, mem),
            Input::EventMsg(new_tid) => self.on_event_msg(new_tid),
            Input::Regs(regs) => self.on_regs(target, mem, regs),
        }
    }
}

/// A temporary breakpoint fires once: by the time its hit is reported it is
/// no longer registered, so its address is free to be added again.
pub proof fn lemma_temp_bp_single_shot(
    reg: Map<usize, crate::bp::Breakpoint>,
    m: Map<int, u8>,
    w: Set<int>,
    a: BpID,
    reg2: Map<usize, crate::bp::Breakpoint>,
    m2: Map<int, u8>,
)
    requires
        reg.dom().contains(a),
        reg[a].temp,
        hit_post(reg, m, w, a, reg2, m2),
    ensures
        !reg2.dom().contains(a),
{
}

/// Stepping over an enabled, permanent software breakpoint re-arms it: after
/// its hit, the disable before the single step, and a `Run` reply carried out
/// at the stepped-to `pc` (no temporary breakpoint, then the re-arm), it is
/// registered and enabled
/// again with its trap in memory, so the next trap at its address is a hit.
pub proof fn lemma_step_over_rearms(
    reg0: Map<usize, crate::bp::Breakpoint>,
    trap: Seq<u8>,
    m0: Map<int, u8>,
    w: Set<int>,
    a: BpID,
    handled: bool,
    code: Seq<u8>,
    ptr32: bool,
    pc: usize,
    status: crate::udbg::UDbgStatus,
    reg1: Map<usize, crate::bp::Breakpoint>,
    m1: Map<int, u8>,
    reg2: Map<usize, crate::bp::Breakpoint>,
    m2: Map<int, u8>,
    reg4: Map<usize, crate::bp::Breakpoint>,
    m4: Map<int, u8>,
)
    requires
        reg0.dom().contains(a),
        reg0[a].enabled,
        !reg0[a].temp,
        reg0[a].bp_type is Soft,
        trap.len() > 0,
        forall|x: int| a <= x < a + trap.len() ==> #[trigger] w.contains(x),
        hit_post(reg0, m0, w, a, reg1, m1),
        step_over_post(reg1, trap, m1, w, Some(a), reg2, m2),
        reply_steps(reg2, trap, m2, w, status, temp_target(UserReply::Run(handled), code, ptr32, pc), revert_of(reg1, Some(a)), reg4, m4),
        a + 1 <= usize::MAX,
    ensures
        reg4.dom().contains(a),
        reg4[a].enabled,
        crate::memory::bytes_at(m4, a as int, trap.len()) == trap,
        stop_kind(true, true, false, SIGTRAP, (a + 1) as usize, reg4.dom()) == StopKind::Hit(a),
{
    assert(reg1[a] == counted(reg0[a]));
    assert(revert_of(reg1, Some(a)) == Some(a));
    assert(reg2.dom().contains(a) && reg2[a].bp_type == reg0[a].bp_type);
    let (reg3, m3) = choose|reg3: Map<usize, crate::bp::Breakpoint>, m3: Map<int, u8>|
        #[trigger] temp_step(reg2, trap, m2, w, status, temp_target(UserReply::Run(handled), code, ptr32, pc), reg3, m3)
            && rearm_step(reg3, trap, m3, w, revert_of(reg1, Some(a)), reg4, m4);
    assert(reg3 == reg2 && m3 == m2);
    let e = choose|e: crate::error::UDbgResult<()>| #[trigger] crate::registry::enable_post(reg3, trap, m3, w, a, true, reg4, m4, e);
    crate::memory::lemma_run_len_full(w, a as int, trap.len());
    assert(crate::memory::bytes_at(m4, a as int, trap.len()) =~= trap);
}

/// The target that owns thread `tid`: the first whose known threads hold
/// it, else the first whose process has it as a task (`is_task`).
pub open spec fn owner_of(sets: Seq<Set<i32>>, tid: i32, is_task: Seq<bool>, i: int) -> bool {
    &&& 0 <= i < sets.len()
    &&& (sets[i].contains(tid) && forall|j: int| 0 <= j < i ==> !(#[trigger] sets[j]).contains(tid))
        || ((forall|j: int| 0 <= j < sets.len() ==> !(#[trigger] sets[j]).contains(tid)) && is_task[i]
        && forall|j: int| 0 <= j < i ==> !(#[trigger] is_task[j]))
}

/// The known threads of each target.
pub open spec fn thread_sets(targets: Seq<CommonAdaptor>) -> Seq<Set<i32>> {
    Seq::new(targets.len(), |i: int| targets[i].thread_set())
}

impl DefaultEngine {
    /// Finds the target a reported thread belongs to.
    pub fn fetch_target(targets: &Vec<CommonAdaptor>, tid: i32, is_task: &Vec<bool>) -> (r: Option<usize>)
        requires
            is_task@.len() == targets@.len(),
        ensures
            r matches Some(i) ==> owner_of(thread_sets(targets@), tid, is_task@, i as int),
            r is None ==> forall|j: int|
                0 <= j < targets@.len() ==> !(#[trigger] targets@[j]).thread_set().contains(tid)
                    && !is_task@[j],
    {
        let ghost sets = thread_sets(targets@);
        let mut i: usize = 0;
        while i < targets.len()
            invariant
                i <= targets@.len(),
                sets == thread_sets(targets@),
                forall|j: int| 0 <= j < i ==> !(#[trigger] sets[j]).contains(tid),
            decreases targets@.len() - i,
        {
            if targets[i].has_thread(tid) {
                return Some(i);
            }
            i = i + 1;
        }
        let mut k: usize = 0;
        while k < targets.len()
            invariant
                k <= targets@.len(),
                is_task@.len() == targets@.len(),
                sets == thread_sets(targets@),
                forall|j: int| 0 <= j < targets@.len() ==> !(#[trigger] sets[j]).contains(tid),
                forall|j: int| 0 <= j < k ==> !(#[trigger] is_task@[j]),
            decreases targets@.len() - k,
        {
            if is_task[k] {
                return Some(k);
            }
            k = k + 1;
        }
        proof {
            assert forall|j: int| 0 <= j < targets@.len() implies !(#[trigger] targets@[j]).thread_set().contains(tid)
                && !is_task@[j] by {
                assert(!sets[j].contains(tid));
            }
        }
        None
    }
}

/// One status at a time: while a status is being handled (the phase is
/// not `Idle`) the engine takes no other status, so the statuses of a thread
/// reach the user in the order the caller hands them over; and only the
/// first stop of a session is reported as `InitBp`.
pub proof fn lemma_one_status_at_a_time(phase: Phase, input: Input, known: bool, cloned: bool, sig: i32, pc: usize, bps: Set<BpID>)
    ensures
        phase != Phase::Idle && (input is Stopped || input is PtraceEvent || input is Signaled || input is Exited)
            ==> !accepts_spec(phase, input),
        stop_kind(true, known, cloned, sig, pc, bps) != StopKind::Init,
{
}

} // verus!
