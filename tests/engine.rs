use udbg::adaptor::{trace_options, CommonAdaptor, BP_INSN, PTRACE_O_EXITKILL};
use udbg::bp::{BpOpt, BpType, UDbgBreakpoint};
use udbg::disasm::check_call_bytes;
use udbg::engine::{Action, DefaultEngine, Input, Phase};
use udbg::error::UDbgError;
use udbg::event::{UEvent, UserReply, PTRACE_EVENT_CLONE, SIGKILL, SIGSTOP, SIGTRAP};
use udbg::memory::{ReadMemory, ReadMemoryUtils, WriteMemory};
use udbg::regs::UserRegs;
use udbg::udbg::UDbgStatus;

/// A flat address space: `bytes` live from `base` on; `locked` bytes can be
/// read but not written.
struct FlatMemory {
    base: usize,
    bytes: Vec<u8>,
    locked: Vec<bool>,
}

impl FlatMemory {
    fn new(base: usize, bytes: Vec<u8>) -> Self {
        let locked = vec![false; bytes.len()];
        FlatMemory { base, bytes, locked }
    }
}

impl ReadMemory for FlatMemory {
    fn read_memory(&self, addr: usize, data: &mut Vec<u8>) -> Option<usize> {
        let mut n = 0;
        while n < data.len() {
            let a = addr.wrapping_add(n);
            if a < self.base || a - self.base >= self.bytes.len() {
                break;
            }
            data[n] = self.bytes[a - self.base];
            n += 1;
        }
        if n == 0 && !data.is_empty() {
            None
        } else {
            Some(n)
        }
    }
}

impl WriteMemory for FlatMemory {
    fn write_memory(&mut self, addr: usize, data: &[u8]) -> Option<usize> {
        let mut n = 0;
        while n < data.len() {
            let a = addr.wrapping_add(n);
            if a < self.base || a - self.base >= self.bytes.len() || self.locked[a - self.base] {
                break;
            }
            self.bytes[a - self.base] = data[n];
            n += 1;
        }
        if n == 0 && !data.is_empty() {
            None
        } else {
            Some(n)
        }
    }
}


const TID: i32 = 100;

fn regs_at(pc: u64) -> UserRegs {
    let mut r = UserRegs::zeroed();
    r.rip = pc;
    r
}

fn setup(code: Vec<u8>) -> (DefaultEngine, CommonAdaptor, FlatMemory) {
    let mut e = DefaultEngine::new();
    let mut t = CommonAdaptor::new(TID, "/bin/demo".to_string(), false);
    let mut m = FlatMemory::new(0x1000, code);
    // the first stop of the session
    let a = e.advance(&mut t, &mut m, Input::Stopped { tid: TID, sig: SIGSTOP, regs: regs_at(0x1000) });
    assert!(matches!(a, Action::Deliver(UEvent::InitBp)));
    let a = e.advance(&mut t, &mut m, Input::Reply(UserReply::Run(false)));
    assert!(matches!(a, Action::SetOptions(TID)));
    let a = e.advance(&mut t, &mut m, Input::Done);
    assert!(matches!(a, Action::Continue(TID, None, None)));
    (e, t, m)
}

/// Runs one breakpoint hit at `a` with `reply`, up to the resume.
fn hit_and_reply(e: &mut DefaultEngine, t: &mut CommonAdaptor, m: &mut FlatMemory, a: usize, reply: UserReply) -> Action {
    let ev = e.advance(t, m, Input::Stopped { tid: TID, sig: SIGTRAP, regs: regs_at(a as u64 + 1) });
    assert!(matches!(ev, Action::Deliver(UEvent::Breakpoint(x)) if x == a));
    let step = e.advance(t, m, Input::Reply(reply));
    match step {
        Action::SingleStep(tid, Some(r)) => {
            assert_eq!(tid, TID);
            assert_eq!(r.rip, a as u64);
        }
        other => panic!("expected a single step, got {:?}", other),
    }
    let fetch = e.advance(t, m, Input::Done);
    assert!(matches!(fetch, Action::FetchRegs(TID)));
    e.advance(t, m, Input::Regs(regs_at(a as u64 + 1)))
}

#[test]
fn init_bp_once_then_kill_reports_exit() {
    let (mut e, mut t, mut m) = setup(vec![0x90; 16]);
    assert!(t.has_thread(TID));
    // a later SIGSTOP of a known thread is an exception, not a second InitBp
    let a = e.advance(&mut t, &mut m, Input::Stopped { tid: TID, sig: SIGSTOP, regs: regs_at(0x1000) });
    assert!(matches!(a, Action::Deliver(UEvent::Exception { first: true, code: SIGSTOP })));
    let a = e.advance(&mut t, &mut m, Input::Reply(UserReply::Run(false)));
    assert!(matches!(a, Action::Continue(TID, Some(SIGSTOP), None)));
    // killed
    let a = e.advance(&mut t, &mut m, Input::Signaled { tid: TID, sig: SIGKILL });
    assert!(matches!(a, Action::Deliver(UEvent::Exception { first: false, code: SIGKILL })));
    let a = e.advance(&mut t, &mut m, Input::Reply(UserReply::Run(false)));
    assert!(matches!(a, Action::Deliver(UEvent::ThreadExit(u32::MAX))));
    let a = e.advance(&mut t, &mut m, Input::Reply(UserReply::Run(false)));
    assert!(matches!(a, Action::Deliver(UEvent::ProcessExit(u32::MAX))));
    let a = e.advance(&mut t, &mut m, Input::Reply(UserReply::Run(false)));
    assert!(matches!(a, Action::Continue(TID, Some(SIGKILL), None)));
    assert!(!t.has_thread(TID));
}

#[test]
fn soft_breakpoint_counts_hits_and_rearms() {
    let (mut e, mut t, mut m) = setup(vec![0x55, 0x48, 0x89, 0xe5, 0x90, 0x90]);
    let a = 0x1000;
    assert_eq!(t.add_bp(&mut m, BpOpt::int3(a).enable(true)), Ok(a));
    assert_eq!(m.read_bytes(a, 1), vec![BP_INSN]);
    for n in 1..=3usize {
        let r = hit_and_reply(&mut e, &mut t, &mut m, a, UserReply::Run(false));
        assert!(matches!(r, Action::Continue(TID, None, None)));
        let bp = t.get_bp(a).unwrap();
        assert_eq!(bp.hit_count(), n);
        assert!(bp.enabled());
        // re-armed: the trap is back for the next pass
        assert_eq!(m.read_bytes(a, 1), vec![BP_INSN]);
    }
    assert_eq!(t.remove_bp(&mut m, a), Ok(()));
    assert_eq!(m.read_bytes(a, 1), vec![0x55]);
    // the address no longer fires a breakpoint event
    let ev = e.advance(&mut t, &mut m, Input::Stopped { tid: TID, sig: SIGTRAP, regs: regs_at(a as u64 + 1) });
    assert!(matches!(ev, Action::Deliver(UEvent::Exception { first: true, code: SIGTRAP })));
}

#[test]
fn step_in_delivers_step_event() {
    let (mut e, mut t, mut m) = setup(vec![0x90, 0x90, 0x90, 0x90]);
    let a = 0x1000;
    t.add_bp(&mut m, BpOpt::int3(a).enable(true)).unwrap();
    let r = hit_and_reply(&mut e, &mut t, &mut m, a, UserReply::StepIn);
    assert!(matches!(r, Action::Deliver(UEvent::Step)));
    // the snapshot follows the step
    assert_eq!(t.pc(), a + 1);
    let step = e.advance(&mut t, &mut m, Input::Reply(UserReply::Run(false)));
    assert!(matches!(step, Action::SingleStep(TID, None)));
    assert!(matches!(e.advance(&mut t, &mut m, Input::Done), Action::FetchRegs(TID)));
    let c = e.advance(&mut t, &mut m, Input::Regs(regs_at(a as u64 + 2)));
    assert!(matches!(c, Action::Continue(TID, None, None)));
}

#[test]
fn step_out_over_call_sets_temp_breakpoint() {
    // a nop at 0x1000, then call rel32 at 0x1001
    let (mut e, mut t, mut m) = setup(vec![0x90, 0xe8, 0x10, 0x00, 0x00, 0x00, 0x90, 0x90, 0x90]);
    let a = 0x1000;
    t.add_bp(&mut m, BpOpt::int3(a).enable(true)).unwrap();
    // the single step lands on the call, which is what step-out looks at
    let r = hit_and_reply(&mut e, &mut t, &mut m, a, UserReply::StepOut);
    assert!(matches!(r, Action::Continue(TID, None, None)));
    let ret = a + 1 + 5;
    let temp = t.get_bp(ret).unwrap();
    assert!(temp.temp && temp.enabled());
    assert_eq!(m.read_bytes(ret, 1), vec![BP_INSN]);
    // the stepped-over breakpoint is armed again
    assert_eq!(m.read_bytes(a, 1), vec![BP_INSN]);
    // the return lands on the temporary breakpoint, which is then gone
    let ev = e.advance(&mut t, &mut m, Input::Stopped { tid: TID, sig: SIGTRAP, regs: regs_at(ret as u64 + 1) });
    assert!(matches!(ev, Action::Deliver(UEvent::Breakpoint(x)) if x == ret));
    assert!(!t.bp_exists(ret));
    assert_eq!(m.read_bytes(ret, 1), vec![0x90]);
}

#[test]
fn step_out_from_a_call_looks_at_the_next_instruction() {
    // the breakpoint is on a call; the step goes into it, where there is no call
    let (mut e, mut t, mut m) = setup(vec![0xe8, 0x10, 0x00, 0x00, 0x00, 0x90, 0x90, 0x90]);
    let a = 0x1000;
    t.add_bp(&mut m, BpOpt::int3(a).enable(true)).unwrap();
    let r = hit_and_reply(&mut e, &mut t, &mut m, a, UserReply::StepOut);
    assert!(matches!(r, Action::Deliver(UEvent::Step)));
    assert_eq!(t.get_bp_list(), vec![a]);
}

#[test]
fn step_out_over_plain_instruction_is_a_step() {
    let (mut e, mut t, mut m) = setup(vec![0x90, 0x90, 0x90]);
    let a = 0x1000;
    t.add_bp(&mut m, BpOpt::int3(a).enable(true)).unwrap();
    let r = hit_and_reply(&mut e, &mut t, &mut m, a, UserReply::StepOut);
    assert!(matches!(r, Action::Deliver(UEvent::Step)));
    assert_eq!(t.get_bp_list(), vec![a]);
}

#[test]
fn goto_sets_temp_breakpoint() {
    let (mut e, mut t, mut m) = setup(vec![0x90; 16]);
    let a = 0x1000;
    t.add_bp(&mut m, BpOpt::int3(a).enable(true)).unwrap();
    let r = hit_and_reply(&mut e, &mut t, &mut m, a, UserReply::Goto(0x1008));
    assert!(matches!(r, Action::Continue(TID, None, None)));
    assert!(t.get_bp(0x1008).unwrap().temp);
}

#[test]
fn temp_breakpoint_is_gone_at_its_event() {
    let (mut e, mut t, mut m) = setup(vec![0x90; 8]);
    let a = 0x1004;
    t.add_bp(&mut m, BpOpt::int3(a).enable(true).temp(true)).unwrap();
    let ev = e.advance(&mut t, &mut m, Input::Stopped { tid: TID, sig: SIGTRAP, regs: regs_at(a as u64 + 1) });
    assert!(matches!(ev, Action::Deliver(UEvent::Breakpoint(x)) if x == a));
    assert!(!t.bp_exists(a));
    assert_eq!(m.read_bytes(a, 1), vec![0x90]);
    // its address is free again
    assert_eq!(t.add_bp(&mut m, BpOpt::int3(a)), Ok(a));
}

#[test]
fn thread_creation_and_exits() {
    let (mut e, mut t, mut m) = setup(vec![0x90; 4]);
    let t2 = 101;
    let a = e.advance(&mut t, &mut m, Input::PtraceEvent { tid: TID, code: PTRACE_EVENT_CLONE });
    assert!(matches!(a, Action::GetEventMsg(TID)));
    let a = e.advance(&mut t, &mut m, Input::EventMsg(t2));
    assert!(matches!(a, Action::Deliver(UEvent::ThreadCreate(x)) if x == t2));
    let a = e.advance(&mut t, &mut m, Input::Reply(UserReply::Run(false)));
    assert!(matches!(a, Action::Attach(x) if x == t2));
    let a = e.advance(&mut t, &mut m, Input::Done);
    assert!(matches!(a, Action::SetOptions(x) if x == t2));
    let a = e.advance(&mut t, &mut m, Input::Done);
    assert!(matches!(a, Action::Continue(TID, None, None)));
    let mut ts = t.thread_list();
    ts.sort();
    assert_eq!(ts, vec![TID, t2]);
    // the new thread's first stop is absorbed
    let a = e.advance(&mut t, &mut m, Input::Stopped { tid: t2, sig: SIGSTOP, regs: regs_at(0x1000) });
    assert!(matches!(a, Action::Continue(x, None, None) if x == t2));
    // worker exits
    let a = e.advance(&mut t, &mut m, Input::Exited { tid: t2, code: 0 });
    assert!(matches!(a, Action::Deliver(UEvent::ThreadExit(0))));
    let a = e.advance(&mut t, &mut m, Input::Reply(UserReply::Run(false)));
    assert!(matches!(a, Action::Continue(x, None, None) if x == t2));
    // main exits
    let a = e.advance(&mut t, &mut m, Input::Exited { tid: TID, code: 3 });
    assert!(matches!(a, Action::Deliver(UEvent::ThreadExit(3))));
    let a = e.advance(&mut t, &mut m, Input::Reply(UserReply::Run(false)));
    assert!(matches!(a, Action::Deliver(UEvent::ProcessExit(3))));
    let a = e.advance(&mut t, &mut m, Input::Reply(UserReply::Run(false)));
    assert!(matches!(a, Action::Continue(TID, None, None)));
}

#[test]
fn detach_during_wait_restores_code() {
    let (mut e, mut t, mut m) = setup(vec![0x11, 0x22, 0x33, 0x44]);
    t.add_bp(&mut m, BpOpt::int3(0x1000).enable(true)).unwrap();
    t.add_bp(&mut m, BpOpt::int3(0x1002).enable(true)).unwrap();
    t.add_bp(&mut m, BpOpt::int3(0x1003)).unwrap();
    t.set_waiting(true);
    assert_eq!(t.base().status, UDbgStatus::Running);
    // blocked in wait: the caller must interrupt with a stop signal
    assert!(t.detach());
    t.set_waiting(false);
    let a = e.advance(&mut t, &mut m, Input::Stopped { tid: TID, sig: SIGSTOP, regs: regs_at(0x1001) });
    assert!(matches!(a, Action::Deliver(UEvent::Exception { first: true, code: SIGSTOP })));
    let a = e.advance(&mut t, &mut m, Input::Reply(UserReply::Run(false)));
    match a {
        Action::Detach(ts) => assert_eq!(ts, vec![TID]),
        other => panic!("expected a detach, got {:?}", other),
    }
    assert_eq!(e.phase(), Phase::Ended);
    assert_eq!(m.read_bytes(0x1000, 4), vec![0x11, 0x22, 0x33, 0x44]);
    assert_eq!(t.get_bp_list(), Vec::<usize>::new());
}

#[test]
fn detach_when_not_waiting_needs_no_interrupt() {
    let (_e, mut t, _m) = setup(vec![0x90]);
    assert!(!t.detach());
    assert!(t.is_detaching());
}

#[test]
fn breakpoint_errors() {
    let mut t = CommonAdaptor::new(1, String::new(), false);
    let mut m = FlatMemory::new(0x1000, vec![0x90; 4]);
    assert_eq!(t.add_bp(&mut m, BpOpt::int3(0x1000)), Ok(0x1000));
    assert_eq!(t.bp_count(), 1);
    // a second breakpoint at the same address
    assert_eq!(t.add_bp(&mut m, BpOpt::int3(0x1000).enable(true)), Err(UDbgError::BpExists));
    assert_eq!(t.bp_count(), 1);
    assert_eq!(m.read_bytes(0x1000, 1), vec![0x90]);
    // unreadable
    assert_eq!(t.add_bp(&mut m, BpOpt::int3(0x5000)), Err(UDbgError::InvalidAddress));
    // hardware breakpoints are not supported here
    let mut hw = BpOpt::int3(0x1001);
    hw.rw = Some(1);
    assert_eq!(t.add_bp(&mut m, hw), Err(UDbgError::NotSupport));
    // a breakpoint that is not there
    assert_eq!(t.enable_bp(&mut m, 0x1003, true), Err(UDbgError::NoTarget));
    assert_eq!(t.remove_bp(&mut m, 0x1003), Err(UDbgError::NoTarget));
    // a trap that cannot be written
    m.locked[2] = true;
    assert_eq!(t.add_bp(&mut m, BpOpt::int3(0x1002).enable(true)), Err(UDbgError::MemoryError));
    assert!(!t.get_bp(0x1002).unwrap().enabled());
    assert_eq!(t.enable_bp(&mut m, 0x1002, true), Err(UDbgError::MemoryError));
    assert_eq!(UDbgError::System(2).describe(), "system error");
}

#[test]
fn opened_target_takes_no_breakpoint() {
    let mut t = CommonAdaptor::new(1, String::new(), false);
    let mut base = t.base().clone();
    base.status = UDbgStatus::Opened;
    assert!(base.check_opened().is_err());
    let mut m = FlatMemory::new(0x1000, vec![0x90; 4]);
    // a target that is only opened ends on detach
    let mut o = CommonAdaptor::new(2, String::new(), false);
    assert!(!o.detach());
    let _ = t.add_bp(&mut m, BpOpt::int3(0x1000));
}

#[test]
fn enable_disable_cycles_keep_saved_bytes() {
    let mut t = CommonAdaptor::new(1, String::new(), false);
    let mut m = FlatMemory::new(0x1000, vec![0xab, 0xcd]);
    t.add_bp(&mut m, BpOpt::int3(0x1001)).unwrap();
    assert_eq!(t.get_bp(0x1001).unwrap().origin_bytes(), Some(&[0xcdu8][..]));
    for _ in 0..3 {
        assert_eq!(t.enable_bp(&mut m, 0x1001, true), Ok(()));
        assert_eq!(m.read_bytes(0x1000, 2), vec![0xab, BP_INSN]);
        assert_eq!(t.enable_bp(&mut m, 0x1001, false), Ok(()));
        assert_eq!(m.read_bytes(0x1000, 2), vec![0xab, 0xcd]);
    }
    assert_eq!(t.get_bp(0x1001).unwrap().get_type(), BpType::Soft);
}

#[test]
fn register_names_and_aliases() {
    let mut t = CommonAdaptor::new(1, String::new(), false);
    let mut r = UserRegs::zeroed();
    r.rip = 0x4000;
    r.rsp = 0x7fff_0000;
    r.rax = 42;
    r.eflags = 0x246;
    t.set_regs(r);
    assert_eq!(t.get_reg("_pc"), Ok(0x4000));
    assert_eq!(t.get_reg("rip"), Ok(0x4000));
    assert_eq!(t.get_reg("_sp"), Ok(0x7fff_0000));
    assert_eq!(t.get_reg("rax"), Ok(42));
    assert_eq!(t.get_reg("rflags"), Ok(0x246));
    assert_eq!(t.get_reg("eax"), Err(UDbgError::InvalidRegister));
    assert_eq!(t.set_reg("r12", 7), Ok(()));
    assert_eq!(t.regs().r12, 7);
    assert_eq!(t.set_reg("xmm0", 7), Err(UDbgError::InvalidRegister));
    // the change is written back before the thread resumes
    assert_eq!(t.take_writeback().map(|r| r.r12), Some(7));
    assert_eq!(t.take_writeback(), None);
}

#[test]
fn call_like_instructions() {
    assert_eq!(check_call_bytes(&[0xe8, 0, 0, 0, 0], false, 0x400000), Some(0x400005));
    assert_eq!(check_call_bytes(&[0x0f, 0x05], false, 0x10), Some(0x12));
    assert_eq!(check_call_bytes(&[0xf3, 0xa4], false, 0x10), Some(0x12));
    assert_eq!(check_call_bytes(&[0xff, 0xd0], true, 0x10), Some(0x12));
    assert_eq!(check_call_bytes(&[0x90], false, 0x10), None);
    assert_eq!(check_call_bytes(&[], false, 0x10), None);
}

#[test]
fn trace_options_follow_fork_setting() {
    assert_eq!(trace_options(false), 0x100018);
    assert_eq!(trace_options(true), 0x10001e);
    assert_ne!(trace_options(true) & PTRACE_O_EXITKILL, 0);
}

#[test]
fn routing_prefers_thread_sets() {
    let mut a = CommonAdaptor::new(10, String::new(), false);
    let mut b = CommonAdaptor::new(20, String::new(), false);
    a.insert_thread(10);
    b.insert_thread(20);
    b.insert_thread(21);
    let ts = vec![a, b];
    assert_eq!(DefaultEngine::fetch_target(&ts, 21, &vec![true, false]), Some(1));
    assert_eq!(DefaultEngine::fetch_target(&ts, 30, &vec![false, true]), Some(1));
    assert_eq!(DefaultEngine::fetch_target(&ts, 30, &vec![false, false]), None);
}

#[test]
fn engine_accepts_only_the_expected_answer() {
    let (e, _t, _m) = setup(vec![0x90]);
    assert!(e.accepts(&Input::Exited { tid: TID, code: 0 }));
    assert!(!e.accepts(&Input::Done));
    assert!(!e.accepts(&Input::Reply(UserReply::StepIn)));
}
