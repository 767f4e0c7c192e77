//! The memory-map cache: a time-bounded snapshot of a target's mappings,
//! ordered by base address, with range lookup.
use crate::error::{UDbgError, UDbgResult};
use crate::memory::{ReadMemory, WriteMemory};
use vstd::prelude::*;
use vstd::string::StringSliceAdditionalSpecFns;

verus! {

pub const MF_IMAGE: u32 = 1;
pub const MF_MAP: u32 = 2;
pub const MF_PRIVATE: u32 = 4;
pub const MF_SECTION: u32 = 8;
pub const MF_STACK: u32 = 16;
pub const MF_HEAP: u32 = 32;
pub const MF_PEB: u32 = 64;

/// A rate limiter: `check` lets a refresh through only when more than
/// `duration` has passed since the last one. Times are in milliseconds.
#[derive(Clone, Copy, Debug)]
pub struct TimeCheck {
    pub last: u64,
    pub duration: u64,
}

impl TimeCheck {
    /// A limiter that lets the first check through at `now`.
    pub fn new(duration: u64, now: u64) -> (r: TimeCheck)
        ensures
            r.duration == duration,
            r.last == (if now >= duration + 1 {
                (now - duration - 1) as u64
            } else {
                0
            }),
    {
        TimeCheck { last: now.saturating_sub(duration).saturating_sub(1), duration }
    }

    /// Whether a refresh is due at `now`; when it is, `now` becomes the
    /// time of the last refresh.
    pub fn check(&mut self, now: u64) -> (r: bool)
        ensures
            r == (now >= old(self).last && now - old(self).last > old(self).duration),
            final(self).duration == old(self).duration,
            final(self).last == (if r {
                now
            } else {
                old(self).last
            }),
    {
        if now >= self.last && now - self.last > self.duration {
            self.last = now;
            true
        } else {
            false
        }
    }
}

/// One mapping of a target's address space.
#[derive(Clone, Debug)]
pub struct MemoryPage {
    pub base: usize,
    pub size: usize,
    /// Protection, such as `r-xp`.
    pub protect: String,
    /// Image, map or private.
    pub type_: String,
    /// What the mapping holds: often a path, or a tag such as `[heap]`.
    pub usage: String,
}

/// A mapping as reported to users.
#[derive(Clone, Debug)]
pub struct MemoryPageInfo {
    pub base: usize,
    pub size: usize,
    pub flags: u32,
    pub type_: String,
    pub protect: String,
    pub usage: String,
}

/// The pages are ordered by base and do not overlap.
pub open spec fn pages_ordered(p: Seq<MemoryPage>) -> bool {
    &&& forall|i: int| 0 <= i < p.len() ==> (#[trigger] p[i]).base + p[i].size <= usize::MAX
    &&& forall|i: int, j: int|
        0 <= i < j < p.len() ==> (#[trigger] p[i]).base + p[i].size <= (#[trigger] p[j]).base
}

/// `a` lies in page `p`.
pub open spec fn page_holds(p: MemoryPage, a: usize) -> bool {
    p.base <= a < p.base + p.size
}

/// The flags a mapping's usage tag gives it.
pub open spec fn usage_flags(usage: Seq<char>) -> u32 {
    if usage == seq!['[', 'h', 'e', 'a', 'p', ']'] {
        MF_HEAP
    } else if usage == seq!['[', 's', 't', 'a', 'c', 'k', ']'] {
        MF_STACK
    } else {
        0
    }
}

/// Whether `s` is the ASCII text `lit`.
pub fn str_is(s: &str, lit: &str) -> (r: bool)
    requires
        vstd::string::is_ascii(lit),
    ensures
        r == (s@ == lit@),
{
    proof {
        vstd::string::is_ascii_spec_bytes(lit);
    }
    let a = s.as_bytes();
    let b = lit.as_bytes();
    if a.len() != b.len() {
        proof {
            if s@ == lit@ {
                assert(s.spec_bytes() == lit.spec_bytes());
            }
        }
        return false;
    }
    let mut i: usize = 0;
    while i < a.len()
        invariant
            i <= a@.len(),
            a@.len() == b@.len(),
            a@ == s.spec_bytes(),
            b@ == lit.spec_bytes(),
            forall|j: int| 0 <= j < i ==> a@[j] == b@[j],
        decreases a@.len() - i,
    {
        if a[i] != b[i] {
            proof {
                if s@ == lit@ {
                    assert(s.spec_bytes() == lit.spec_bytes());
                }
            }
            return false;
        }
        i = i + 1;
    }
    proof {
        assert(a@ =~= b@);
        lemma_same_bytes_same_str(s, lit);
    }
    true
}

proof fn lemma_same_bytes_same_str(s: &str, t: &str)
    requires
        s.spec_bytes() == t.spec_bytes(),
    ensures
        s@ == t@,
{
    vstd::utf8::encode_utf8_decode_utf8(s@);
    vstd::utf8::encode_utf8_decode_utf8(t@);
}

pub fn usage_flags_of(usage: &str) -> (r: u32)
    ensures
        r == usage_flags(usage@),
{
    proof {
        reveal_strlit("[heap]");
        reveal_strlit("[stack]");
        assert("[heap]"@ =~= seq!['[', 'h', 'e', 'a', 'p', ']']);
        assert("[stack]"@ =~= seq!['[', 's', 't', 'a', 'c', 'k', ']']);
    }
    if str_is(usage, "[heap]") {
        MF_HEAP
    } else if str_is(usage, "[stack]") {
        MF_STACK
    } else {
        0
    }
}

impl MemoryPage {
    /// Whether the page maps an image file (its type is `IMG`).
    pub fn is_image(&self) -> (r: bool)
        ensures
            r == (self.type_@ == seq!['I', 'M', 'G']),
    {
        proof {
            reveal_strlit("IMG");
            assert("IMG"@ =~= seq!['I', 'M', 'G']);
        }
        str_is(self.type_.as_str(), "IMG")
    }

    /// The page as reported to users, with the flags its usage gives it.
    pub fn info(&self) -> (r: MemoryPageInfo)
        ensures
            r.base == self.base,
            r.size == self.size,
            r.flags == usage_flags(self.usage@),
            r.type_@ == self.type_@,
            r.protect@ == self.protect@,
            r.usage@ == self.usage@,
    {
        MemoryPageInfo {
            base: self.base,
            size: self.size,
            flags: usage_flags_of(self.usage.as_str()),
            type_: self.type_.as_str().to_owned(),
            protect: self.protect.as_str().to_owned(),
            usage: self.usage.as_str().to_owned(),
        }
    }
}

/// Binary search over ordered pages: the index of the page holding `a`.
pub fn find_page(pages: &Vec<MemoryPage>, a: usize) -> (r: Option<usize>)
    requires
        pages_ordered(pages@),
    ensures
        r matches Some(i) ==> i < pages@.len() && page_holds(pages@[i as int], a),
        r is None ==> forall|i: int| 0 <= i < pages@.len() ==> !page_holds(#[trigger] pages@[i], a),
{
    let mut lo: usize = 0;
    let mut hi: usize = pages.len();
    while lo < hi
        invariant
            pages_ordered(pages@),
            lo <= hi <= pages@.len(),
            forall|i: int| 0 <= i < lo ==> (#[trigger] pages@[i]).base + pages@[i].size <= a,
            forall|i: int| hi <= i < pages@.len() ==> a < (#[trigger] pages@[i]).base,
        decreases hi - lo,
    {
        let mid = lo + (hi - lo) / 2;
        let p = &pages[mid];
        if a < p.base {
            proof {
                assert forall|i: int| mid <= i < pages@.len() implies a < (#[trigger] pages@[i]).base by {
                    if i > mid {
                        assert(pages@[mid as int].base + pages@[mid as int].size <= pages@[i].base);
                    }
                }
            }
            hi = mid;
        } else if a - p.base < p.size {
            return Some(mid);
        } else {
            proof {
                assert forall|i: int| 0 <= i <= mid implies (#[trigger] pages@[i]).base + pages@[i].size <= a by {
                    if i < mid {
                        assert(pages@[i].base + pages@[i].size <= pages@[mid as int].base);
                    }
                }
            }
            lo = mid + 1;
        }
    }
    None
}

/// Whether `pages` are ordered by base without overlap.
pub fn check_ordered(pages: &Vec<MemoryPage>) -> (r: bool)
    ensures
        r == pages_ordered(pages@),
{
    let mut i: usize = 0;
    while i < pages.len()
        invariant
            i <= pages@.len(),
            forall|k: int| 0 <= k < i ==> (#[trigger] pages@[k]).base + pages@[k].size <= usize::MAX,
            forall|k: int, j: int| 0 <= k < j < i ==> (#[trigger] pages@[k]).base + pages@[k].size <= (#[trigger] pages@[j]).base,
        decreases pages@.len() - i,
    {
        let p = &pages[i];
        if p.base > usize::MAX - p.size {
            return false;
        }
        if i > 0 {
            let q = &pages[i - 1];
            if q.base + q.size > p.base {
                return false;
            }
        }
        proof {
            assert forall|k: int, j: int| 0 <= k < j < i + 1 implies (#[trigger] pages@[k]).base + pages@[k].size <= (#[trigger] pages@[j]).base by {
                if j == i && k < i - 1 {
                    assert(pages@[k].base + pages@[k].size <= pages@[i - 1].base);
                }
            }
        }
        i = i + 1;
    }
    true
}

/// The cached memory map of a target and the limiter of its refreshes.
pub struct MemoryMap {
    pages: Vec<MemoryPage>,
    tc: TimeCheck,
}

impl MemoryMap {
    pub closed spec fn wf(&self) -> bool {
        pages_ordered(self.pages@)
    }

    pub closed spec fn pages_spec(&self) -> Seq<MemoryPage> {
        self.pages@
    }

    pub closed spec fn tc_spec(&self) -> TimeCheck {
        self.tc
    }

    /// Whether a refresh is due at `now` (see `TimeCheck::check`).
    pub fn refresh_due(&mut self, now: u64) -> (r: bool)
        ensures
            r == (now >= old(self).tc_spec().last && now - old(self).tc_spec().last > old(
                self,
            ).tc_spec().duration),
            final(self).tc_spec() == (TimeCheck { last: if r { now } else { old(self).tc_spec().last }, ..old(self).tc_spec() }),
            final(self).pages_spec() == old(self).pages_spec(),
            final(self).wf() == old(self).wf(),
    {
        self.tc.check(now)
    }

    /// An empty map refreshed at most every `duration` milliseconds, the
    /// first time at `now`.
    pub fn new(duration: u64, now: u64) -> (r: MemoryMap)
        ensures
            r.wf(),
            r.pages_spec() == Seq::<MemoryPage>::empty(),
            r.tc_spec().duration == duration,
            r.tc_spec().last == (if now >= duration + 1 {
                (now - duration - 1) as u64
            } else {
                0
            }),
    {
        let r = MemoryMap { pages: Vec::new(), tc: TimeCheck::new(duration, now) };
        proof {
            assert(r.pages@ =~= Seq::<MemoryPage>::empty());
        }
        r
    }

    /// Replaces the snapshot with `pages` when they are ordered; otherwise
    /// the old snapshot stays and false is returned.
    pub fn update(&mut self, pages: Vec<MemoryPage>) -> (r: bool)
        requires
            old(self).wf(),
        ensures
            final(self).wf(),
            r == pages_ordered(pages@),
            final(self).pages_spec() == (if r {
                pages@
            } else {
                old(self).pages_spec()
            }),
            final(self).tc_spec() == old(self).tc_spec(),
    {
        if check_ordered(&pages) {
            self.pages = pages;
            true
        } else {
            false
        }
    }

    /// The page holding `address`, from the snapshot.
    pub fn query(&self, address: usize) -> (r: Option<&MemoryPage>)
        requires
            self.wf(),
        ensures
            r matches Some(p) ==> self.pages_spec().contains(*p) && page_holds(*p, address),
            r is None ==> forall|i: int|
                0 <= i < self.pages_spec().len() ==> !page_holds(#[trigger] self.pages_spec()[i], address),
    {
        match find_page(&self.pages, address) {
            Some(i) => Some(&self.pages[i]),
            None => None,
        }
    }

    /// The snapshot as reported to users.
    pub fn memory_info(&self) -> (r: Vec<MemoryPageInfo>)
        ensures
            r@.len() == self.pages_spec().len(),
            forall|i: int|
                0 <= i < r@.len() ==> (#[trigger] r@[i]).base == self.pages_spec()[i].base
                    && r@[i].size == self.pages_spec()[i].size && r@[i].flags == usage_flags(
                    self.pages_spec()[i].usage@,
                ) && r@[i].usage@ == self.pages_spec()[i].usage@ && r@[i].type_@ == self.pages_spec()[i].type_@
                    && r@[i].protect@ == self.pages_spec()[i].protect@,
    {
        let mut r: Vec<MemoryPageInfo> = Vec::new();
        let mut i: usize = 0;
        while i < self.pages.len()
            invariant
                i <= self.pages@.len(),
                r@.len() == i,
                forall|k: int|
                    0 <= k < i ==> (#[trigger] r@[k]).base == self.pages@[k].base && r@[k].size
                        == self.pages@[k].size && r@[k].flags == usage_flags(self.pages@[k].usage@)
                        && r@[k].usage@ == self.pages@[k].usage@ && r@[k].type_@ == self.pages@[k].type_@
                        && r@[k].protect@ == self.pages@[k].protect@,
            decreases self.pages@.len() - i,
        {
            r.push(self.pages[i].info());
            i = i + 1;
        }
        r
    }
}

/// A target address space with a memory map.
pub trait TargetMemory: ReadMemory + WriteMemory {
    /// The target's mappings.
    fn enum_memory(&self) -> UDbgResult<Vec<MemoryPage>>;

    /// The mapping that holds `address`.
    fn virtual_query(&self, address: usize) -> Option<MemoryPage>;

    /// Reserves memory in the target; not supported unless overridden.
    fn virtual_alloc(&mut self, address: usize, size: usize, ty: &str) -> (r: UDbgResult<usize>)
        default_ensures
            r == Err::<usize, UDbgError>(UDbgError::NotSupport),
    {
        Err(UDbgError::NotSupport)
    }

    /// Releases memory in the target; not supported unless overridden.
    fn virtual_free(&mut self, address: usize) -> (r: UDbgResult<()>)
        default_ensures
            r == Err::<(), UDbgError>(UDbgError::NotSupport),
    {
        Err(UDbgError::NotSupport)
    }

    /// All mappings, as reported to users.
    fn collect_memory_info(&self) -> Vec<MemoryPageInfo>;
}

} // verus!
