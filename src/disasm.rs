//! Classifying the instruction at an address, for stepping out of calls.
use crate::memory::{read_spec, ReadMemory, ReadMemoryUtils};
use vstd::prelude::*;

verus! {

/// The longest x86 instruction, in bytes.
pub const MAX_INSN_SIZE: usize = 16;

/// The kinds of instruction that step-out cares about.
#[derive(Clone, Copy, Debug, PartialEq, Eq, Structural)]
pub enum InsnKind {
    Call,
    Syscall,
    Sysenter,
    Other,
}

/// What the decoder makes of the first instruction of `code` at the given
/// bitness: its length, its kind and whether it has a `rep` prefix.
pub uninterp spec fn x86_first_insn(code: Seq<u8>, bitness: u32) -> (usize, InsnKind, bool);

/// Relies on `iced_x86::Decoder::decode_out`: the instruction it decodes
/// depends on the bytes and the bitness alone, and is at most 15 bytes long.
#[verifier::external_body]
fn decode_first(code: &[u8], bitness: u32) -> (r: (usize, InsnKind, bool))
    requires
        code@.len() > 0,
        bitness == 16 || bitness == 32 || bitness == 64,
    ensures
        r == x86_first_insn(code@, bitness),
        r.0 <= 15,
{
    let mut decoder = iced_x86::Decoder::new(bitness, code, iced_x86::DecoderOptions::NONE);
    let mut insn = iced_x86::Instruction::default();
    decoder.decode_out(&mut insn);
    let kind = match insn.mnemonic() {
        iced_x86::Mnemonic::Call => InsnKind::Call,
        iced_x86::Mnemonic::Syscall => InsnKind::Syscall,
        iced_x86::Mnemonic::Sysenter => InsnKind::Sysenter,
        _ => InsnKind::Other,
    };
    (insn.len(), kind, insn.has_rep_prefix())
}

/// An instruction that step-out runs to the end of: a call, a system call
/// or a `rep`-prefixed one.
pub open spec fn call_like(i: (usize, InsnKind, bool)) -> bool {
    i.1 != InsnKind::Other || i.2
}

/// Where execution resumes after the call-like instruction at `address`
/// whose leading bytes are `code`; `None` for any other instruction.
pub open spec fn return_address(code: Seq<u8>, bitness: u32, address: usize) -> Option<usize> {
    if code.len() == 0 {
        None
    } else {
        let i = x86_first_insn(code, bitness);
        if call_like(i) && address + i.0 <= usize::MAX {
            Some((address + i.0) as usize)
        } else {
            None
        }
    }
}

/// The instruction bytes a read at `address` delivers.
pub open spec fn insn_code(m: Map<int, u8>, address: usize) -> Seq<u8> {
    match read_spec(m, address as int, MAX_INSN_SIZE as nat) {
        Some(b) => b,
        None => Seq::empty(),
    }
}

/// Classifies already-read instruction bytes at `address`.
pub fn check_call_bytes(code: &[u8], is_ptr32: bool, address: usize) -> (r: Option<usize>)
    ensures
        r == return_address(code@, if is_ptr32 { 32 } else { 64 }, address),
{
    if code.len() == 0 {
        return None;
    }
    let bitness: u32 = if is_ptr32 {
        32
    } else {
        64
    };
    let insn = decode_first(code, bitness);
    if insn.1 != InsnKind::Other || insn.2 {
        address.checked_add(insn.0)
    } else {
        None
    }
}

/// Reads the instruction at `address` and, when it is call-like, returns
/// the address right after it.
pub fn check_call<M: ReadMemory>(mem: &M, is_ptr32: bool, address: usize) -> (r: Option<usize>)
    ensures
        r == return_address(insn_code(mem.readable(), address), if is_ptr32 { 32 } else { 64 }, address),
{
    let code = mem.read_bytes(address, MAX_INSN_SIZE);
    check_call_bytes(code.as_slice(), is_ptr32, address)
}

} // verus!
