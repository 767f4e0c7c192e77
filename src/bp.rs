//! Breakpoints and the address-keyed registry that owns them.
//!
//! A software breakpoint saves the bytes its trap instruction overwrites;
//! enabling writes the trap, disabling writes the saved bytes back.
use vstd::prelude::*;

verus! {

/// A breakpoint is known by its address.
pub type BpID = usize;

/// Debug-register length encodings of a hardware breakpoint.
pub const LEN_1: u8 = 0;
pub const LEN_2: u8 = 1;
pub const LEN_8: u8 = 2;
pub const LEN_4: u8 = 3;

/// A hardware breakpoint: its debug-register slot, length code and access kind.
#[derive(Clone, Copy, Debug, PartialEq, Eq, Structural)]
pub struct HwbpInfo {
    pub index: u8,
    pub len: u8,
    pub rw: u8,
}

/// How a breakpoint is realised.
#[derive(Clone, Debug)]
pub enum InnerBpType {
    /// A trap instruction over these saved bytes.
    Soft(Vec<u8>),
    Hard(HwbpInfo),
    Table,
}

/// The kind of a breakpoint as users see it.
#[derive(Clone, Copy, Debug, PartialEq, Eq, Structural)]
pub enum BpType {
    Soft,
    Table,
    Hwbp(u8, u8),
}

#[derive(Clone, Debug)]
pub struct Breakpoint {
    pub address: usize,
    pub enabled: bool,
    pub temp: bool,
    pub bp_type: InnerBpType,
    pub hit_count: usize,
    pub hit_tid: Option<i32>,
}

/// The byte length a hardware length code stands for; 0 for an unknown code.
pub open spec fn hwbp_len_of(code: u8) -> usize {
    if code == LEN_1 {
        1
    } else if code == LEN_2 {
        2
    } else if code == LEN_4 {
        4
    } else if code == LEN_8 {
        8
    } else {
        0
    }
}

impl Breakpoint {
    pub fn get_hwbp_len(&self) -> (r: Option<usize>)
        ensures
            r == (match self.bp_type {
                InnerBpType::Hard(info) => Some(hwbp_len_of(info.len)),
                _ => None,
            }),
    {
        if let InnerBpType::Hard(info) = &self.bp_type {
            let l = info.len;
            Some(
                if l == LEN_1 {
                    1
                } else if l == LEN_2 {
                    2
                } else if l == LEN_4 {
                    4
                } else if l == LEN_8 {
                    8
                } else {
                    0
                },
            )
        } else {
            None
        }
    }

    pub fn is_hard(&self) -> (r: bool)
        ensures
            r == self.bp_type is Hard,
    {
        matches!(self.bp_type, InnerBpType::Hard(_))
    }

    pub fn is_soft(&self) -> (r: bool)
        ensures
            r == self.bp_type is Soft,
    {
        matches!(self.bp_type, InnerBpType::Soft(_))
    }

    pub fn is_table(&self) -> (r: bool)
        ensures
            r == self.bp_type is Table,
    {
        matches!(self.bp_type, InnerBpType::Table)
    }

    pub fn hard_index(&self) -> (r: Option<usize>)
        ensures
            r == (match self.bp_type {
                InnerBpType::Hard(info) => Some(info.index as usize),
                _ => None,
            }),
    {
        if let InnerBpType::Hard(info) = &self.bp_type {
            Some(info.index as usize)
        } else {
            None
        }
    }
}

/// What users may read of a breakpoint.
pub trait UDbgBreakpoint {
    fn get_id(&self) -> BpID;

    fn address(&self) -> usize;

    fn enabled(&self) -> bool;

    fn get_type(&self) -> BpType;

    /// How often the breakpoint was hit.
    fn hit_count(&self) -> usize;

    /// The thread the breakpoint is limited to; 0 for every thread.
    fn hit_tid(&self) -> i32;

    /// The bytes a software breakpoint overwrote.
    fn origin_bytes(&self) -> Option<&[u8]>;
}

impl UDbgBreakpoint for Breakpoint {
    fn get_id(&self) -> (r: BpID)
        ensures
            r == self.address,
    {
        self.address
    }

    fn address(&self) -> (r: usize)
        ensures
            r == self.address,
    {
        self.address
    }

    fn enabled(&self) -> (r: bool)
        ensures
            r == self.enabled,
    {
        self.enabled
    }

    fn get_type(&self) -> (r: BpType)
        ensures
            r == (match self.bp_type {
                InnerBpType::Soft(_) => BpType::Soft,
                InnerBpType::Table => BpType::Table,
                InnerBpType::Hard(info) => BpType::Hwbp(info.rw, info.len),
            }),
    {
        match &self.bp_type {
            InnerBpType::Soft(_) => BpType::Soft,
            InnerBpType::Table => BpType::Table,
            InnerBpType::Hard(info) => BpType::Hwbp(info.rw, info.len),
        }
    }

    fn hit_count(&self) -> (r: usize)
        ensures
            r == self.hit_count,
    {
        self.hit_count
    }

    fn hit_tid(&self) -> (r: i32)
        ensures
            r == (match self.hit_tid {
                Some(t) => t,
                None => 0,
            }),
    {
        match self.hit_tid {
            Some(t) => t,
            None => 0,
        }
    }

    fn origin_bytes(&self) -> (r: Option<&[u8]>)
        ensures
            r matches Some(b) ==> self.bp_type matches InnerBpType::Soft(o) && b@ == o@,
            r is None <==> !(self.bp_type is Soft),
    {
        match &self.bp_type {
            InnerBpType::Soft(o) => Some(o.as_slice()),
            _ => None,
        }
    }
}

/// What `add_bp` is asked for.
#[derive(Clone, Copy, Debug)]
pub struct BpOpt {
    pub address: usize,
    pub rw: Option<u8>,
    pub len: Option<u8>,
    pub enable: bool,
    pub temp: bool,
    pub tid: Option<i32>,
}

impl BpOpt {
    /// A software breakpoint at `address`, disabled and permanent.
    pub fn int3(address: usize) -> (r: BpOpt)
        ensures
            r.address == address,
            r.rw is None,
            r.len is None,
            !r.enable,
            !r.temp,
            r.tid is None,
    {
        BpOpt { address, rw: None, len: None, enable: false, temp: false, tid: None }
    }

    pub fn enable(self, enable: bool) -> (r: BpOpt)
        ensures
            r == (BpOpt { enable, ..self }),
    {
        BpOpt { enable, ..self }
    }

    pub fn temp(self, temp: bool) -> (r: BpOpt)
        ensures
            r == (BpOpt { temp, ..self }),
    {
        BpOpt { temp, ..self }
    }

    pub fn thread(self, tid: i32) -> (r: BpOpt)
        ensures
            r == (BpOpt { tid: Some(tid), ..self }),
    {
        BpOpt { tid: Some(tid), ..self }
    }
}

} // verus!
