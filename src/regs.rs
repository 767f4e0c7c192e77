//! Per-stop register snapshots and access to them by name.
use crate::error::{UDbgError, UDbgResult};
use vstd::prelude::*;
use vstd::string::StringSliceAdditionalSpecFns;

verus! {

/// The general-purpose registers of an x86-64 thread, in the kernel's order.
#[derive(Clone, Copy, Debug, PartialEq, Eq, Structural)]
pub struct UserRegs {
    pub r15: u64,
    pub r14: u64,
    pub r13: u64,
    pub r12: u64,
    pub rbp: u64,
    pub rbx: u64,
    pub r11: u64,
    pub r10: u64,
    pub r9: u64,
    pub r8: u64,
    pub rax: u64,
    pub rcx: u64,
    pub rdx: u64,
    pub rsi: u64,
    pub rdi: u64,
    pub orig_rax: u64,
    pub rip: u64,
    pub cs: u64,
    pub eflags: u64,
    pub rsp: u64,
    pub ss: u64,
    pub fs_base: u64,
    pub gs_base: u64,
    pub ds: u64,
    pub es: u64,
    pub fs: u64,
    pub gs: u64,
}

/// The registers reachable by name.
#[derive(Clone, Copy, Debug, PartialEq, Eq, Structural)]
pub enum X64Reg {
    Rax,
    Rbx,
    Rcx,
    Rdx,
    Rbp,
    Rsp,
    Rsi,
    Rdi,
    R8,
    R9,
    R10,
    R11,
    R12,
    R13,
    R14,
    R15,
    Rip,
    Rflags,
}

/// `n` spells the ASCII text `t`.
pub open spec fn spells(n: Seq<u8>, t: Seq<char>) -> bool {
    n.len() == t.len() && forall|i: int| 0 <= i < n.len() ==> #[trigger] n[i] == t[i] as u8
}

/// The register a name stands for; `_pc` and `_sp` are the program counter
/// and the stack pointer.
pub open spec fn x64_reg_named(n: Seq<u8>) -> Option<X64Reg> {
    match legacy_reg_named(n) {
        Some(r) => Some(r),
        None => match numbered_reg_named(n) {
            Some(r) => Some(r),
            None => control_reg_named(n),
        },
    }
}

pub open spec fn legacy_reg_named(n: Seq<u8>) -> Option<X64Reg> {
    if spells(n, seq!['r', 'a', 'x']) {
        Some(X64Reg::Rax)
    } else if spells(n, seq!['r', 'b', 'x']) {
        Some(X64Reg::Rbx)
    } else if spells(n, seq!['r', 'c', 'x']) {
        Some(X64Reg::Rcx)
    } else if spells(n, seq!['r', 'd', 'x']) {
        Some(X64Reg::Rdx)
    } else if spells(n, seq!['r', 'b', 'p']) {
        Some(X64Reg::Rbp)
    } else if spells(n, seq!['r', 's', 'i']) {
        Some(X64Reg::Rsi)
    } else if spells(n, seq!['r', 'd', 'i']) {
        Some(X64Reg::Rdi)
    } else {
        None
    }
}

pub open spec fn numbered_reg_named(n: Seq<u8>) -> Option<X64Reg> {
    if spells(n, seq!['r', '8']) {
        Some(X64Reg::R8)
    } else if spells(n, seq!['r', '9']) {
        Some(X64Reg::R9)
    } else if spells(n, seq!['r', '1', '0']) {
        Some(X64Reg::R10)
    } else if spells(n, seq!['r', '1', '1']) {
        Some(X64Reg::R11)
    } else if spells(n, seq!['r', '1', '2']) {
        Some(X64Reg::R12)
    } else if spells(n, seq!['r', '1', '3']) {
        Some(X64Reg::R13)
    } else if spells(n, seq!['r', '1', '4']) {
        Some(X64Reg::R14)
    } else if spells(n, seq!['r', '1', '5']) {
        Some(X64Reg::R15)
    } else {
        None
    }
}

pub open spec fn control_reg_named(n: Seq<u8>) -> Option<X64Reg> {
    if spells(n, seq!['r', 's', 'p']) || spells(n, seq!['_', 's', 'p']) {
        Some(X64Reg::Rsp)
    } else if spells(n, seq!['r', 'i', 'p']) || spells(n, seq!['_', 'p', 'c']) {
        Some(X64Reg::Rip)
    } else if spells(n, seq!['r', 'f', 'l', 'a', 'g', 's']) {
        Some(X64Reg::Rflags)
    } else {
        None
    }
}

/// Whether the bytes `n` spell the ASCII text of `lit`.
fn is_name(n: &[u8], lit: &str) -> (r: bool)
    requires
        vstd::string::is_ascii(lit),
    ensures
        r == spells(n@, lit@),
{
    let l = lit.as_bytes();
    proof {
        vstd::string::is_ascii_spec_bytes(lit);
    }
    if n.len() != l.len() {
        return false;
    }
    let mut i: usize = 0;
    while i < n.len()
        invariant
            i <= n@.len(),
            n@.len() == l@.len(),
            l@ == Seq::new(lit@.len(), |j: int| lit@[j] as u8),
            forall|j: int| 0 <= j < i ==> n@[j] == lit@[j] as u8,
        decreases n@.len() - i,
    {
        if n[i] != l[i] {
            return false;
        }
        i = i + 1;
    }
    true
}

fn legacy_reg_id(n: &[u8]) -> (r: Option<X64Reg>)
    ensures
        r == legacy_reg_named(n@),
{
    proof {
        reveal_strlit("rax");
        reveal_strlit("rbx");
        reveal_strlit("rcx");
        reveal_strlit("rdx");
        reveal_strlit("rbp");
        reveal_strlit("rsi");
        reveal_strlit("rdi");
    }
    if is_name(n, "rax") {
        Some(X64Reg::Rax)
    } else if is_name(n, "rbx") {
        Some(X64Reg::Rbx)
    } else if is_name(n, "rcx") {
        Some(X64Reg::Rcx)
    } else if is_name(n, "rdx") {
        Some(X64Reg::Rdx)
    } else if is_name(n, "rbp") {
        Some(X64Reg::Rbp)
    } else if is_name(n, "rsi") {
        Some(X64Reg::Rsi)
    } else if is_name(n, "rdi") {
        Some(X64Reg::Rdi)
    } else {
        None
    }
}

fn numbered_reg_id(n: &[u8]) -> (r: Option<X64Reg>)
    ensures
        r == numbered_reg_named(n@),
{
    proof {
        reveal_strlit("r8");
        reveal_strlit("r9");
        reveal_strlit("r10");
        reveal_strlit("r11");
        reveal_strlit("r12");
        reveal_strlit("r13");
        reveal_strlit("r14");
        reveal_strlit("r15");
    }
    if is_name(n, "r8") {
        Some(X64Reg::R8)
    } else if is_name(n, "r9") {
        Some(X64Reg::R9)
    } else if is_name(n, "r10") {
        Some(X64Reg::R10)
    } else if is_name(n, "r11") {
        Some(X64Reg::R11)
    } else if is_name(n, "r12") {
        Some(X64Reg::R12)
    } else if is_name(n, "r13") {
        Some(X64Reg::R13)
    } else if is_name(n, "r14") {
        Some(X64Reg::R14)
    } else if is_name(n, "r15") {
        Some(X64Reg::R15)
    } else {
        None
    }
}

fn control_reg_id(n: &[u8]) -> (r: Option<X64Reg>)
    ensures
        r == control_reg_named(n@),
{
    proof {
        reveal_strlit("rsp");
        reveal_strlit("_sp");
        reveal_strlit("rip");
        reveal_strlit("_pc");
        reveal_strlit("rflags");
    }
    if is_name(n, "rsp") || is_name(n, "_sp") {
        Some(X64Reg::Rsp)
    } else if is_name(n, "rip") || is_name(n, "_pc") {
        Some(X64Reg::Rip)
    } else if is_name(n, "rflags") {
        Some(X64Reg::Rflags)
    } else {
        None
    }
}

/// The register `name` stands for.
pub fn x64_reg_id(name: &str) -> (r: Option<X64Reg>)
    ensures
        r == x64_reg_named(name.spec_bytes()),
{
    let n = name.as_bytes();
    match legacy_reg_id(n) {
        Some(r) => Some(r),
        None => match numbered_reg_id(n) {
            Some(r) => Some(r),
            None => control_reg_id(n),
        },
    }
}

impl UserRegs {
    /// The value of register `r`.
    pub open spec fn spec_get(&self, r: X64Reg) -> u64 {
        match r {
            X64Reg::Rax => self.rax,
            X64Reg::Rbx => self.rbx,
            X64Reg::Rcx => self.rcx,
            X64Reg::Rdx => self.rdx,
            X64Reg::Rbp => self.rbp,
            X64Reg::Rsp => self.rsp,
            X64Reg::Rsi => self.rsi,
            X64Reg::Rdi => self.rdi,
            X64Reg::R8 => self.r8,
            X64Reg::R9 => self.r9,
            X64Reg::R10 => self.r10,
            X64Reg::R11 => self.r11,
            X64Reg::R12 => self.r12,
            X64Reg::R13 => self.r13,
            X64Reg::R14 => self.r14,
            X64Reg::R15 => self.r15,
            X64Reg::Rip => self.rip,
            X64Reg::Rflags => self.eflags,
        }
    }

    /// The snapshot with register `r` set to `v`.
    pub open spec fn spec_set(self, r: X64Reg, v: u64) -> UserRegs {
        match r {
            X64Reg::Rax => UserRegs { rax: v, ..self },
            X64Reg::Rbx => UserRegs { rbx: v, ..self },
            X64Reg::Rcx => UserRegs { rcx: v, ..self },
            X64Reg::Rdx => UserRegs { rdx: v, ..self },
            X64Reg::Rbp => UserRegs { rbp: v, ..self },
            X64Reg::Rsp => UserRegs { rsp: v, ..self },
            X64Reg::Rsi => UserRegs { rsi: v, ..self },
            X64Reg::Rdi => UserRegs { rdi: v, ..self },
            X64Reg::R8 => UserRegs { r8: v, ..self },
            X64Reg::R9 => UserRegs { r9: v, ..self },
            X64Reg::R10 => UserRegs { r10: v, ..self },
            X64Reg::R11 => UserRegs { r11: v, ..self },
            X64Reg::R12 => UserRegs { r12: v, ..self },
            X64Reg::R13 => UserRegs { r13: v, ..self },
            X64Reg::R14 => UserRegs { r14: v, ..self },
            X64Reg::R15 => UserRegs { r15: v, ..self },
            X64Reg::Rip => UserRegs { rip: v, ..self },
            X64Reg::Rflags => UserRegs { eflags: v, ..self },
        }
    }

    pub fn zeroed() -> (r: UserRegs)
        ensures
            forall|x: X64Reg| #[trigger] r.spec_get(x) == 0,
    {
        UserRegs {
            r15: 0,
            r14: 0,
            r13: 0,
            r12: 0,
            rbp: 0,
            rbx: 0,
            r11: 0,
            r10: 0,
            r9: 0,
            r8: 0,
            rax: 0,
            rcx: 0,
            rdx: 0,
            rsi: 0,
            rdi: 0,
            orig_rax: 0,
            rip: 0,
            cs: 0,
            eflags: 0,
            rsp: 0,
            ss: 0,
            fs_base: 0,
            gs_base: 0,
            ds: 0,
            es: 0,
            fs: 0,
            gs: 0,
        }
    }

    pub fn get(&self, r: X64Reg) -> (v: u64)
        ensures
            v == self.spec_get(r),
    {
        match r {
            X64Reg::Rax => self.rax,
            X64Reg::Rbx => self.rbx,
            X64Reg::Rcx => self.rcx,
            X64Reg::Rdx => self.rdx,
            X64Reg::Rbp => self.rbp,
            X64Reg::Rsp => self.rsp,
            X64Reg::Rsi => self.rsi,
            X64Reg::Rdi => self.rdi,
            X64Reg::R8 => self.r8,
            X64Reg::R9 => self.r9,
            X64Reg::R10 => self.r10,
            X64Reg::R11 => self.r11,
            X64Reg::R12 => self.r12,
            X64Reg::R13 => self.r13,
            X64Reg::R14 => self.r14,
            X64Reg::R15 => self.r15,
            X64Reg::Rip => self.rip,
            X64Reg::Rflags => self.eflags,
        }
    }

    pub fn set(&mut self, r: X64Reg, v: u64)
        ensures
            *final(self) == old(self).spec_set(r, v),
    {
        match r {
            X64Reg::Rax => self.rax = v,
            X64Reg::Rbx => self.rbx = v,
            X64Reg::Rcx => self.rcx = v,
            X64Reg::Rdx => self.rdx = v,
            X64Reg::Rbp => self.rbp = v,
            X64Reg::Rsp => self.rsp = v,
            X64Reg::Rsi => self.rsi = v,
            X64Reg::Rdi => self.rdi = v,
            X64Reg::R8 => self.r8 = v,
            X64Reg::R9 => self.r9 = v,
            X64Reg::R10 => self.r10 = v,
            X64Reg::R11 => self.r11 = v,
            X64Reg::R12 => self.r12 = v,
            X64Reg::R13 => self.r13 = v,
            X64Reg::R14 => self.r14 = v,
            X64Reg::R15 => self.r15 = v,
            X64Reg::Rip => self.rip = v,
            X64Reg::Rflags => self.eflags = v,
        }
    }

    /// Reads a register by name; an unknown name is an invalid register.
    pub fn get_reg(&self, name: &str) -> (r: UDbgResult<u64>)
        ensures
            r == (match x64_reg_named(name.spec_bytes()) {
                Some(id) => Ok::<u64, UDbgError>(self.spec_get(id)),
                None => Err(UDbgError::InvalidRegister),
            }),
    {
        match x64_reg_id(name) {
            Some(id) => Ok(self.get(id)),
            None => Err(UDbgError::InvalidRegister),
        }
    }

    /// Sets a register by name; an unknown name is an invalid register and
    /// changes nothing.
    pub fn set_reg(&mut self, name: &str, val: u64) -> (r: UDbgResult<()>)
        ensures
            r == (match x64_reg_named(name.spec_bytes()) {
                Some(_) => Ok::<(), UDbgError>(()),
                None => Err(UDbgError::InvalidRegister),
            }),
            *final(self) == (match x64_reg_named(name.spec_bytes()) {
                Some(id) => old(self).spec_set(id, val),
                None => *old(self),
            }),
    {
        match x64_reg_id(name) {
            Some(id) => {
                self.set(id, val);
                Ok(())
            },
            None => Err(UDbgError::InvalidRegister),
        }
    }
}

} // verus!

verus! {

/// The general-purpose registers of an AArch64 thread: `x0` to `x30`, the
/// stack pointer, the program counter and the processor state.
#[derive(Clone, Debug)]
pub struct Arm64Regs {
    x: Vec<u64>,
    sp: u64,
    pc: u64,
    pstate: u64,
}

/// The AArch64 registers reachable by name.
#[derive(Clone, Copy, Debug, PartialEq, Eq, Structural)]
pub enum Arm64Reg {
    X(u8),
    Sp,
    Pc,
    Pstate,
}

pub open spec fn is_digit(c: u8) -> bool {
    0x30 <= c <= 0x39
}

/// The number of `x0` to `x30`.
pub open spec fn xreg_number(n: Seq<u8>) -> Option<u8> {
    if n.len() == 2 && n[0] == 0x78 && is_digit(n[1]) {
        Some((n[1] - 0x30) as u8)
    } else if n.len() == 3 && n[0] == 0x78 && 0x31 <= n[1] <= 0x33 && is_digit(n[2]) && (n[1] - 0x30)
        * 10 + (n[2] - 0x30) <= 30 {
        Some(((n[1] - 0x30) * 10 + (n[2] - 0x30)) as u8)
    } else {
        None
    }
}

/// The AArch64 register a name stands for; `_pc` and `_sp` are the program
/// counter and the stack pointer.
pub open spec fn arm64_reg_named(n: Seq<u8>) -> Option<Arm64Reg> {
    if spells(n, seq!['p', 'c']) || spells(n, seq!['_', 'p', 'c']) {
        Some(Arm64Reg::Pc)
    } else if spells(n, seq!['s', 'p']) || spells(n, seq!['_', 's', 'p']) {
        Some(Arm64Reg::Sp)
    } else if spells(n, seq!['p', 's', 't', 'a', 't', 'e']) {
        Some(Arm64Reg::Pstate)
    } else {
        match xreg_number(n) {
            Some(i) => Some(Arm64Reg::X(i)),
            None => None,
        }
    }
}

fn xreg_number_of(n: &[u8]) -> (r: Option<u8>)
    ensures
        r == xreg_number(n@),
{
    if n.len() == 2 && n[0] == 0x78 && 0x30 <= n[1] && n[1] <= 0x39 {
        Some(n[1] - 0x30)
    } else if n.len() == 3 && n[0] == 0x78 && 0x31 <= n[1] && n[1] <= 0x33 && 0x30 <= n[2] && n[2] <= 0x39
        && (n[1] - 0x30) * 10 + (n[2] - 0x30) <= 30 {
        Some((n[1] - 0x30) * 10 + (n[2] - 0x30))
    } else {
        None
    }
}

/// The AArch64 register `name` stands for.
pub fn arm64_reg_id(name: &str) -> (r: Option<Arm64Reg>)
    ensures
        r == arm64_reg_named(name.spec_bytes()),
{
    let n = name.as_bytes();
    proof {
        reveal_strlit("pc");
        reveal_strlit("_pc");
        reveal_strlit("sp");
        reveal_strlit("_sp");
        reveal_strlit("pstate");
    }
    if is_name(n, "pc") || is_name(n, "_pc") {
        Some(Arm64Reg::Pc)
    } else if is_name(n, "sp") || is_name(n, "_sp") {
        Some(Arm64Reg::Sp)
    } else if is_name(n, "pstate") {
        Some(Arm64Reg::Pstate)
    } else {
        match xreg_number_of(n) {
            Some(i) => Some(Arm64Reg::X(i)),
            None => None,
        }
    }
}

impl Arm64Regs {
    pub closed spec fn wf(&self) -> bool {
        self.x@.len() == 31
    }

    /// The value of register `r`.
    pub closed spec fn spec_get(&self, r: Arm64Reg) -> u64 {
        match r {
            Arm64Reg::X(i) => self.x@[i as int],
            Arm64Reg::Sp => self.sp,
            Arm64Reg::Pc => self.pc,
            Arm64Reg::Pstate => self.pstate,
        }
    }

    pub fn zeroed() -> (r: Arm64Regs)
        ensures
            r.wf(),
            forall|i: u8| i <= 30 ==> #[trigger] r.spec_get(Arm64Reg::X(i)) == 0,
            r.spec_get(Arm64Reg::Sp) == 0 && r.spec_get(Arm64Reg::Pc) == 0 && r.spec_get(Arm64Reg::Pstate) == 0,
    {
        let mut x: Vec<u64> = Vec::new();
        let mut i: usize = 0;
        while i < 31
            invariant
                i <= 31,
                x@.len() == i,
                forall|j: int| 0 <= j < i ==> x@[j] == 0,
            decreases 31 - i,
        {
            x.push(0);
            i = i + 1;
        }
        Arm64Regs { x, sp: 0, pc: 0, pstate: 0 }
    }

    /// Reads a register by name; an unknown name is an invalid register.
    pub fn get_reg(&self, name: &str) -> (r: UDbgResult<u64>)
        requires
            self.wf(),
        ensures
            r == (match arm64_reg_named(name.spec_bytes()) {
                Some(id) => Ok::<u64, UDbgError>(self.spec_get(id)),
                None => Err(UDbgError::InvalidRegister),
            }),
    {
        match arm64_reg_id(name) {
            Some(Arm64Reg::X(i)) => Ok(self.x[i as usize]),
            Some(Arm64Reg::Sp) => Ok(self.sp),
            Some(Arm64Reg::Pc) => Ok(self.pc),
            Some(Arm64Reg::Pstate) => Ok(self.pstate),
            None => Err(UDbgError::InvalidRegister),
        }
    }

    /// Sets a register by name; an unknown name is an invalid register and
    /// changes nothing.
    pub fn set_reg(&mut self, name: &str, val: u64) -> (r: UDbgResult<()>)
        requires
            old(self).wf(),
        ensures
            final(self).wf(),
            r == (match arm64_reg_named(name.spec_bytes()) {
                Some(_) => Ok::<(), UDbgError>(()),
                None => Err(UDbgError::InvalidRegister),
            }),
            forall|q: Arm64Reg|
                (q matches Arm64Reg::X(i) ==> i <= 30) ==> #[trigger] final(self).spec_get(q) == (if r is Ok
                    && arm64_reg_named(name.spec_bytes()) == Some(q) {
                    val
                } else {
                    old(self).spec_get(q)
                }),
    {
        match arm64_reg_id(name) {
            Some(Arm64Reg::X(i)) => {
                self.x.set(i as usize, val);
                Ok(())
            },
            Some(Arm64Reg::Sp) => {
                self.sp = val;
                Ok(())
            },
            Some(Arm64Reg::Pc) => {
                self.pc = val;
                Ok(())
            },
            Some(Arm64Reg::Pstate) => {
                self.pstate = val;
                Ok(())
            },
            None => Err(UDbgError::InvalidRegister),
        }
    }
}

} // verus!
