//! The breakpoint registry: at most one breakpoint per address.
use crate::bp::{BpID, BpOpt, Breakpoint, InnerBpType};
use crate::error::{UDbgError, UDbgResult};
use crate::memory::{
    bytes_at, lemma_run_len_bound, lemma_run_len_full, run_len, write_bytes, zeroed_bytes, ReadMemory,
    WriteMemory,
};
use vstd::prelude::*;

verus! {

/// The breakpoints of `s`, keyed by address (a later entry wins).
pub open spec fn bp_map(s: Seq<Breakpoint>) -> Map<usize, Breakpoint>
    decreases s.len(),
{
    if s.len() == 0 {
        Map::empty()
    } else {
        bp_map(s.drop_last()).insert(s.last().address, s.last())
    }
}

/// No two entries of `s` share an address.
pub open spec fn unique_addresses(s: Seq<Breakpoint>) -> bool {
    forall|i: int, j: int|
        0 <= i < s.len() && 0 <= j < s.len() && i != j ==> #[trigger] s[i].address
            != #[trigger] s[j].address
}

pub proof fn lemma_bp_map_dom(s: Seq<Breakpoint>, a: usize)
    ensures
        bp_map(s).dom().contains(a) <==> exists|i: int| 0 <= i < s.len() && #[trigger] s[i].address == a,
    decreases s.len(),
{
    if s.len() > 0 {
        lemma_bp_map_dom(s.drop_last(), a);
        if bp_map(s.drop_last()).dom().contains(a) {
            let i = choose|i: int| 0 <= i < s.drop_last().len() && #[trigger] s.drop_last()[i].address == a;
            assert(s[i].address == a);
        }
        if exists|i: int| 0 <= i < s.len() && #[trigger] s[i].address == a {
            let i = choose|i: int| 0 <= i < s.len() && #[trigger] s[i].address == a;
            if i < s.len() - 1 {
                assert(s.drop_last()[i].address == a);
            }
        }
    }
}

pub proof fn lemma_bp_map_index(s: Seq<Breakpoint>, i: int)
    requires
        unique_addresses(s),
        0 <= i < s.len(),
    ensures
        bp_map(s).dom().contains(s[i].address),
        bp_map(s)[s[i].address] == s[i],
    decreases s.len(),
{
    if i < s.len() - 1 {
        assert(unique_addresses(s.drop_last()));
        lemma_bp_map_index(s.drop_last(), i);
        assert(s.last().address != s[i].address);
    }
}

pub proof fn lemma_bp_map_update(s: Seq<Breakpoint>, i: int, b: Breakpoint)
    requires
        unique_addresses(s),
        0 <= i < s.len(),
        b.address == s[i].address,
    ensures
        unique_addresses(s.update(i, b)),
        bp_map(s.update(i, b)) == bp_map(s).insert(b.address, b),
    decreases s.len(),
{
    let t = s.update(i, b);
    assert(unique_addresses(t)) by {
        assert forall|x: int, y: int|
            0 <= x < t.len() && 0 <= y < t.len() && x != y implies #[trigger] t[x].address
            != #[trigger] t[y].address by {
            assert(s[x].address != s[y].address);
        }
    }
    if i == s.len() - 1 {
        assert(t.drop_last() =~= s.drop_last());
        assert(bp_map(t) =~= bp_map(s).insert(b.address, b));
    } else {
        assert(unique_addresses(s.drop_last()));
        lemma_bp_map_update(s.drop_last(), i, b);
        assert(t.drop_last() =~= s.drop_last().update(i, b));
        assert(s.last().address != b.address);
        assert(bp_map(t) =~= bp_map(s).insert(b.address, b));
    }
}

pub proof fn lemma_bp_map_remove(s: Seq<Breakpoint>, i: int)
    requires
        unique_addresses(s),
        0 <= i < s.len(),
    ensures
        unique_addresses(s.remove(i)),
        bp_map(s.remove(i)) == bp_map(s).remove(s[i].address),
    decreases s.len(),
{
    let t = s.remove(i);
    let a = s[i].address;
    assert(unique_addresses(t)) by {
        assert forall|x: int, y: int|
            0 <= x < t.len() && 0 <= y < t.len() && x != y implies #[trigger] t[x].address
            != #[trigger] t[y].address by {
            let sx = if x < i { x } else { x + 1 };
            let sy = if y < i { y } else { y + 1 };
            assert(t[x] == s[sx]);
            assert(t[y] == s[sy]);
        }
    }
    if i == s.len() - 1 {
        assert(t =~= s.drop_last());
        assert(!bp_map(t).dom().contains(a)) by {
            lemma_bp_map_dom(t, a);
            if exists|j: int| 0 <= j < t.len() && #[trigger] t[j].address == a {
                let j = choose|j: int| 0 <= j < t.len() && #[trigger] t[j].address == a;
                assert(s[j].address == a);
            }
        }
        assert(bp_map(t) =~= bp_map(s).remove(a));
    } else {
        assert(unique_addresses(s.drop_last()));
        lemma_bp_map_remove(s.drop_last(), i);
        assert(t.drop_last() =~= s.drop_last().remove(i));
        assert(t.last() == s.last());
        assert(s.last().address != a);
        assert(bp_map(t) =~= bp_map(s).remove(a));
    }
}

/// The bytes that enabling (`on`) or disabling a software breakpoint writes.
pub open spec fn soft_bytes(bp: Breakpoint, trap: Seq<u8>, on: bool) -> Seq<u8> {
    if on {
        trap
    } else {
        match bp.bp_type {
            InnerBpType::Soft(o) => o@,
            _ => Seq::empty(),
        }
    }
}

/// Memory after writing `bs` at `a` where only the writable prefix lands.
pub open spec fn written(m: Map<int, u8>, w: Set<int>, a: int, bs: Seq<u8>) -> Map<int, u8> {
    write_bytes(m, a, bs.subrange(0, run_len(w, a, bs.len()) as int))
}

/// A software breakpoint saved `n` bytes.
pub open spec fn saved_len_ok(bp: Breakpoint, n: nat) -> bool {
    match bp.bp_type {
        InnerBpType::Soft(o) => o@.len() == n,
        _ => true,
    }
}

/// `bp` is what `add_bp` registers for `opt` over the saved bytes `origin`.
pub open spec fn added_entry(bp: Breakpoint, opt: BpOpt, origin: Seq<u8>, enabled: bool) -> bool {
    &&& bp.address == opt.address
    &&& bp.enabled == enabled
    &&& bp.temp == opt.temp
    &&& bp.hit_count == 0
    &&& bp.hit_tid == opt.tid
    &&& bp.bp_type matches InnerBpType::Soft(o) && o@ == origin
}

/// Memory after a breakpoint is dropped: a software breakpoint's saved bytes
/// written back as far as memory takes them.
pub open spec fn restored(m: Map<int, u8>, w: Set<int>, bp: Breakpoint) -> Map<int, u8> {
    match bp.bp_type {
        InnerBpType::Soft(o) => written(m, w, bp.address as int, o@),
        _ => m,
    }
}

/// The breakpoint at `id` is a software one whose trap bytes are all
/// writable and overlap no other breakpoint's.
pub open spec fn cleanly_restorable(reg: Map<usize, Breakpoint>, w: Set<int>, id: usize, n: nat) -> bool {
    &&& reg[id].bp_type is Soft
    &&& forall|x: int| id <= x < id + n ==> #[trigger] w.contains(x)
    &&& forall|other: usize|
        #[trigger] reg.dom().contains(other) && other != id ==> other + n <= id || id + n <= other
}

/// What `enable_bp` does to the registry `reg` and the memory `m` (with
/// writable addresses `w`) when asked to set the breakpoint at `id` to `on`.
pub open spec fn enable_post(
    reg: Map<usize, Breakpoint>,
    trap: Seq<u8>,
    m: Map<int, u8>,
    w: Set<int>,
    id: usize,
    on: bool,
    reg2: Map<usize, Breakpoint>,
    m2: Map<int, u8>,
    r: UDbgResult<()>,
) -> bool {
    if !reg.dom().contains(id) {
        r == Err::<(), UDbgError>(UDbgError::NoTarget) && reg2 == reg && m2 == m
    } else if !(reg[id].bp_type is Soft) {
        r == Err::<(), UDbgError>(UDbgError::NotSupport) && reg2 == reg && m2 == m
    } else {
        let bp = reg[id];
        let bs = soft_bytes(bp, trap, on);
        &&& m2 == written(m, w, id as int, bs)
        &&& if run_len(w, id as int, bs.len()) == bs.len() {
            r == Ok::<(), UDbgError>(()) && reg2 == reg.insert(id, Breakpoint { enabled: on, ..bp })
        } else {
            r == Err::<(), UDbgError>(UDbgError::MemoryError) && reg2 == reg
        }
    }
}

/// What `add_bp` does to the registry `reg` and the memory `m` (with
/// writable addresses `w`) for the request `opt`.
pub open spec fn add_bp_post(
    reg: Map<usize, Breakpoint>,
    trap: Seq<u8>,
    m: Map<int, u8>,
    w: Set<int>,
    opt: BpOpt,
    reg2: Map<usize, Breakpoint>,
    m2: Map<int, u8>,
    r: UDbgResult<BpID>,
) -> bool {
    let a = opt.address;
    let n = trap.len();
    if reg.dom().contains(a) {
        r == Err::<BpID, UDbgError>(UDbgError::BpExists) && reg2 == reg && m2 == m
    } else if opt.rw is Some {
        r == Err::<BpID, UDbgError>(UDbgError::NotSupport) && reg2 == reg && m2 == m
    } else if run_len(m.dom(), a as int, n) < n {
        r == Err::<BpID, UDbgError>(UDbgError::InvalidAddress) && reg2 == reg && m2 == m
    } else {
        let landed = opt.enable && run_len(w, a as int, n) == n;
        &&& reg2 == reg.insert(a, reg2[a])
        &&& added_entry(reg2[a], opt, bytes_at(m, a as int, n), landed)
        &&& m2 == (if opt.enable {
            written(m, w, a as int, trap)
        } else {
            m
        })
        &&& r == (if opt.enable && !landed {
            Err::<BpID, UDbgError>(UDbgError::MemoryError)
        } else {
            Ok(a)
        })
    }
}

/// The address-keyed table of breakpoints together with the trap pattern
/// this target's architecture uses.
pub struct BpRegistry {
    bps: Vec<Breakpoint>,
    trap: Vec<u8>,
}

impl View for BpRegistry {
    type V = Map<usize, Breakpoint>;

    closed spec fn view(&self) -> Map<usize, Breakpoint> {
        bp_map(self.bps@)
    }
}

impl BpRegistry {
    /// The registry is well formed: one entry per address, a non-empty trap,
    /// and each software breakpoint saved as many bytes as the trap has.
    pub closed spec fn wf(&self) -> bool {
        &&& unique_addresses(self.bps@)
        &&& self.trap@.len() > 0
        &&& forall|i: int|
            0 <= i < self.bps@.len() ==> saved_len_ok(#[trigger] self.bps@[i], self.trap@.len())
    }

    pub closed spec fn trap_spec(&self) -> Seq<u8> {
        self.trap@
    }

    proof fn lemma_wf_entry(&self, id: usize)
        requires
            self.wf(),
            self@.dom().contains(id),
        ensures
            self@[id].address == id,
            self@[id].bp_type matches InnerBpType::Soft(o) ==> o@.len() == self.trap_spec().len(),
    {
        lemma_bp_map_dom(self.bps@, id);
        let i = choose|i: int| 0 <= i < self.bps@.len() && #[trigger] self.bps@[i].address == id;
        lemma_bp_map_index(self.bps@, i);
    }

    /// An empty registry whose software breakpoints use `trap`.
    pub fn new(trap: Vec<u8>) -> (r: BpRegistry)
        requires
            trap@.len() > 0,
        ensures
            r.wf(),
            r@ == Map::<usize, Breakpoint>::empty(),
            r.trap_spec() == trap@,
    {
        let r = BpRegistry { bps: Vec::new(), trap };
        proof {
            assert(r.bps@ =~= Seq::<Breakpoint>::empty());
        }
        r
    }

    pub fn trap(&self) -> (r: &[u8])
        ensures
            r@ == self.trap_spec(),
    {
        self.trap.as_slice()
    }

    /// The position of the breakpoint at `id`, if there is one.
    fn find(&self, id: BpID) -> (r: Option<usize>)
        requires
            self.wf(),
        ensures
            r is Some <==> self@.dom().contains(id),
            r matches Some(i) ==> i < self.bps@.len() && self.bps@[i as int].address == id
                && self@[id] == self.bps@[i as int],
    {
        let mut i: usize = 0;
        while i < self.bps.len()
            invariant
                self.wf(),
                i <= self.bps@.len(),
                forall|j: int| 0 <= j < i ==> #[trigger] self.bps@[j].address != id,
            decreases self.bps@.len() - i,
        {
            if self.bps[i].address == id {
                proof {
                    lemma_bp_map_index(self.bps@, i as int);
                }
                return Some(i);
            }
            i = i + 1;
        }
        proof {
            lemma_bp_map_dom(self.bps@, id);
        }
        None
    }

    pub fn bp_exists(&self, id: BpID) -> (r: bool)
        requires
            self.wf(),
        ensures
            r == self@.dom().contains(id),
    {
        self.find(id).is_some()
    }

    pub fn get_bp(&self, id: BpID) -> (r: Option<&Breakpoint>)
        requires
            self.wf(),
        ensures
            r == (if self@.dom().contains(id) {
                Some(&self@[id])
            } else {
                None
            }),
    {
        match self.find(id) {
            Some(i) => Some(&self.bps[i]),
            None => None,
        }
    }

    /// The addresses of all breakpoints, each once.
    pub fn get_bp_list(&self) -> (r: Vec<BpID>)
        requires
            self.wf(),
        ensures
            r@.no_duplicates(),
            forall|a: usize| r@.contains(a) <==> self@.dom().contains(a),
    {
        let mut r: Vec<BpID> = Vec::new();
        let mut i: usize = 0;
        while i < self.bps.len()
            invariant
                self.wf(),
                i <= self.bps@.len(),
                r@.len() == i,
                forall|j: int| 0 <= j < i ==> #[trigger] r@[j] == self.bps@[j].address,
            decreases self.bps@.len() - i,
        {
            r.push(self.bps[i].address);
            i = i + 1;
        }
        proof {
            assert forall|x: int, y: int| 0 <= x < r@.len() && 0 <= y < r@.len() && x != y implies r@[x] != r@[y] by {
                assert(self.bps@[x].address != self.bps@[y].address);
            }
            assert forall|a: usize| r@.contains(a) <==> self@.dom().contains(a) by {
                lemma_bp_map_dom(self.bps@, a);
                if r@.contains(a) {
                    let j = choose|j: int| 0 <= j < r@.len() && r@[j] == a;
                    assert(self.bps@[j].address == a);
                }
                if self@.dom().contains(a) {
                    let j = choose|j: int| 0 <= j < self.bps@.len() && #[trigger] self.bps@[j].address == a;
                    assert(r@[j] == a);
                }
            }
        }
        r
    }

    /// How many breakpoints there are.
    pub fn len(&self) -> (r: usize)
        requires
            self.wf(),
        ensures
            r == self@.len(),
    {
        proof {
            self.lemma_len();
        }
        self.bps.len()
    }

    /// Writes the trap (`on`) or the saved bytes (off) of the breakpoint at
    /// `id`; the enabled flag follows only a write that landed whole.
    pub fn enable_bp<M: WriteMemory>(&mut self, mem: &mut M, id: BpID, on: bool) -> (r: UDbgResult<()>)
        requires
            old(self).wf(),
        ensures
            final(self).wf(),
            final(self).trap_spec() == old(self).trap_spec(),
            final(mem).writable() == old(mem).writable(),
            enable_post(
                old(self)@,
                old(self).trap_spec(),
                old(mem).readable(),
                old(mem).writable(),
                id,
                on,
                final(self)@,
                final(mem).readable(),
                r,
            ),
    {
        let i = match self.find(id) {
            Some(i) => i,
            None => return Err(UDbgError::NoTarget),
        };
        let n = match &self.bps[i].bp_type {
            InnerBpType::Soft(o) => {
                let bytes = if on {
                    self.trap.as_slice()
                } else {
                    o.as_slice()
                };
                let got = mem.write_memory(id, bytes);
                proof {
                    lemma_run_len_bound(old(mem).writable(), id as int, bytes@.len());
                }
                match got {
                    Some(n) => if n == bytes.len() {
                        1usize
                    } else {
                        0usize
                    },
                    None => 0usize,
                }
            },
            _ => return Err(UDbgError::NotSupport),
        };
        if n == 0 {
            return Err(UDbgError::MemoryError);
        }
        let ghost before = self.bps@;
        self.bps[i].enabled = on;
        proof {
            assert(self.bps@ == before.update(i as int, Breakpoint { enabled: on, ..before[i as int] }));
            lemma_bp_map_update(before, i as int, Breakpoint { enabled: on, ..before[i as int] });
            assert forall|j: int|
                0 <= j < self.bps@.len() implies saved_len_ok(#[trigger] self.bps@[j], self.trap@.len()) by {
                assert(self.bps@[j].bp_type == before[j].bp_type);
            }
        }
        Ok(())
    }

    /// Registers a software breakpoint at `opt.address`: saves the bytes its
    /// trap will cover and, when `opt.enable` is set, writes the trap. When
    /// the trap cannot be written the breakpoint stays registered, disabled,
    /// and the memory error is returned.
    pub fn add_bp<M: WriteMemory>(&mut self, mem: &mut M, opt: BpOpt) -> (r: UDbgResult<BpID>)
        requires
            old(self).wf(),
        ensures
            final(self).wf(),
            final(self).trap_spec() == old(self).trap_spec(),
            final(mem).writable() == old(mem).writable(),
            add_bp_post(
                old(self)@,
                old(self).trap_spec(),
                old(mem).readable(),
                old(mem).writable(),
                opt,
                final(self)@,
                final(mem).readable(),
                r,
            ),
    {
        let a = opt.address;
        if self.bp_exists(a) {
            return Err(UDbgError::BpExists);
        }
        if opt.rw.is_some() {
            return Err(UDbgError::NotSupport);
        }
        let n = self.trap.len();
        let mut origin = zeroed_bytes(n);
        let got = mem.read_memory(a, &mut origin);
        proof {
            lemma_run_len_bound(mem.readable().dom(), a as int, n as nat);
        }
        match got {
            Some(k) => {
                if k != n {
                    return Err(UDbgError::InvalidAddress);
                }
            },
            None => return Err(UDbgError::InvalidAddress),
        }
        proof {
            assert(origin@ =~= bytes_at(mem.readable(), a as int, n as nat));
        }
        let bp = Breakpoint {
            address: a,
            enabled: false,
            temp: opt.temp,
            bp_type: InnerBpType::Soft(origin),
            hit_count: 0,
            hit_tid: opt.tid,
        };
        let ghost before = self.bps@;
        self.bps.push(bp);
        proof {
            assert(self.bps@.drop_last() =~= before);
            assert(unique_addresses(self.bps@)) by {
                lemma_bp_map_dom(before, a);
                assert forall|x: int, y: int|
                    0 <= x < self.bps@.len() && 0 <= y < self.bps@.len() && x != y implies #[trigger] self.bps@[x].address
                    != #[trigger] self.bps@[y].address by {
                    if x < before.len() && y < before.len() {
                        assert(before[x].address != before[y].address);
                    } else if x < before.len() {
                        assert(before[x].address != a);
                    } else {
                        assert(before[y].address != a);
                    }
                }
            }
            assert forall|j: int|
                0 <= j < self.bps@.len() implies saved_len_ok(#[trigger] self.bps@[j], self.trap@.len()) by {
                if j < before.len() {
                    assert(self.bps@[j] == before[j]);
                }
            }
            assert(self@ == old(self)@.insert(a, self@[a]));
        }
        let ghost reg1 = self@;
        if opt.enable {
            let e = self.enable_bp(mem, a, true);
            proof {
                if e is Ok {
                    assert(self@ =~= old(self)@.insert(a, self@[a]));
                }
            }
            match e {
                Ok(()) => {},
                Err(_) => return Err(UDbgError::MemoryError),
            }
        }
        Ok(a)
    }

    /// Counts a hit of the breakpoint at `id` (saturating).
    pub fn record_hit(&mut self, id: BpID) -> (r: bool)
        requires
            old(self).wf(),
        ensures
            final(self).wf(),
            final(self).trap_spec() == old(self).trap_spec(),
            r == old(self)@.dom().contains(id),
            r ==> final(self)@ == old(self)@.insert(
                id,
                Breakpoint {
                    hit_count: if old(self)@[id].hit_count == usize::MAX {
                        usize::MAX
                    } else {
                        (old(self)@[id].hit_count + 1) as usize
                    },
                    ..old(self)@[id]
                },
            ),
            !r ==> final(self)@ == old(self)@,
    {
        let i = match self.find(id) {
            Some(i) => i,
            None => return false,
        };
        let c = self.bps[i].hit_count;
        let ghost before = self.bps@;
        self.bps[i].hit_count = c.saturating_add(1);
        proof {
            let nb = Breakpoint { hit_count: self.bps@[i as int].hit_count, ..before[i as int] };
            assert(self.bps@ == before.update(i as int, nb));
            lemma_bp_map_update(before, i as int, nb);
            assert forall|j: int|
                0 <= j < self.bps@.len() implies saved_len_ok(#[trigger] self.bps@[j], self.trap@.len()) by {
                assert(self.bps@[j].bp_type == before[j].bp_type);
            }
        }
        true
    }

    /// Disables the breakpoint at `id` (writing its saved bytes back, as far
    /// as memory takes them) and drops it.
    pub fn remove_bp<M: WriteMemory>(&mut self, mem: &mut M, id: BpID) -> (r: UDbgResult<()>)
        requires
            old(self).wf(),
        ensures
            final(self).wf(),
            final(self).trap_spec() == old(self).trap_spec(),
            final(mem).writable() == old(mem).writable(),
            !old(self)@.dom().contains(id) ==> r == Err::<(), UDbgError>(UDbgError::NoTarget)
                && final(self)@ == old(self)@ && final(mem).readable() == old(mem).readable(),
            old(self)@.dom().contains(id) ==> r == Ok::<(), UDbgError>(()) && final(self)@ == old(
                self,
            )@.remove(id) && final(mem).readable() == restored(
                old(mem).readable(),
                old(mem).writable(),
                old(self)@[id],
            ),
    {
        let i = match self.find(id) {
            Some(i) => i,
            None => return Err(UDbgError::NoTarget),
        };
        if let InnerBpType::Soft(o) = &self.bps[i].bp_type {
            let _ = mem.write_memory(id, o.as_slice());
        }
        let ghost before = self.bps@;
        let _ = self.bps.remove(i);
        proof {
            lemma_bp_map_remove(before, i as int);
            assert forall|j: int|
                0 <= j < self.bps@.len() implies saved_len_ok(#[trigger] self.bps@[j], self.trap@.len()) by {
                let sj = if j < i { j } else { j + 1 };
                assert(self.bps@[j] == before[sj]);
            }
        }
        Ok(())
    }

    /// Drops every breakpoint, writing each software breakpoint's saved
    /// bytes back first.
    pub fn remove_all<M: WriteMemory>(&mut self, mem: &mut M)
        requires
            old(self).wf(),
        ensures
            final(self).wf(),
            final(self).trap_spec() == old(self).trap_spec(),
            final(self)@ == Map::<usize, Breakpoint>::empty(),
            final(mem).writable() == old(mem).writable(),
            forall|id: usize|
                #[trigger] old(self)@.dom().contains(id) && cleanly_restorable(
                    old(self)@,
                    old(mem).writable(),
                    id,
                    old(self).trap_spec().len(),
                ) ==> bytes_at(final(mem).readable(), id as int, old(self).trap_spec().len())
                    == soft_bytes(old(self)@[id], old(self).trap_spec(), false),
    {
        let ghost orig = self.bps@;
        let ghost w = mem.writable();
        let ghost n = self.trap@.len();
        while self.bps.len() > 0
            invariant
                self.wf(),
                self.trap@.len() == n,
                self.trap@ == old(self).trap@,
                orig == old(self).bps@,
                unique_addresses(orig),
                self.bps@.len() <= orig.len(),
                self.bps@ == orig.subrange(0, self.bps@.len() as int),
                mem.writable() == w,
                w == old(mem).writable(),
                forall|i: int|
                    0 <= i < orig.len() ==> saved_len_ok(#[trigger] orig[i], n),
                forall|j: int|
                    self.bps@.len() <= j < orig.len() && cleanly_restorable(
                        bp_map(orig),
                        w,
                        (#[trigger] orig[j]).address,
                        n,
                    ) ==> bytes_at(mem.readable(), orig[j].address as int, n) == soft_bytes(
                        orig[j],
                        self.trap@,
                        false,
                    ) && forall|x: int|
                        orig[j].address <= x < orig[j].address + n ==> #[trigger] mem.readable().dom().contains(x),
            decreases self.bps@.len(),
        {
            let ghost k = self.bps@.len() - 1;
            let ghost m0 = mem.readable();
            let bp = self.bps.pop().unwrap();
            proof {
                assert(bp == orig[k]);
                assert(self.bps@ =~= orig.subrange(0, k));
                lemma_bp_map_index(orig, k);
            }
            if let InnerBpType::Soft(o) = &bp.bp_type {
                let _ = mem.write_memory(bp.address, o.as_slice());
                proof {
                    let a = bp.address as int;
                    if cleanly_restorable(bp_map(orig), w, bp.address, n) {
                        lemma_run_len_full(w, a, n);
                        assert(bytes_at(mem.readable(), a, n) =~= o@);
                        assert forall|x: int| a <= x < a + n implies #[trigger] mem.readable().dom().contains(x) by {}
                    }
                    assert forall|j: int|
                        self.bps@.len() <= j < orig.len() && cleanly_restorable(
                            bp_map(orig),
                            w,
                            (#[trigger] orig[j]).address,
                            n,
                        ) implies bytes_at(mem.readable(), orig[j].address as int, n) == soft_bytes(
                            orig[j],
                            self.trap@,
                            false,
                        ) && forall|x: int|
                            orig[j].address <= x < orig[j].address + n ==> #[trigger] mem.readable().dom().contains(x) by {
                        if j > k {
                            lemma_bp_map_index(orig, j);
                            assert(orig[j].address != orig[k].address);
                            assert(bp_map(orig).dom().contains(orig[k].address));
                            assert(saved_len_ok(orig[k], n));
                            assert(o@.len() == n);
                            assert(orig[k].address + n <= orig[j].address || orig[j].address + n
                                <= orig[k].address);
                            lemma_run_len_bound(w, bp.address as int, n);
                            let sub = o@.subrange(0, run_len(w, bp.address as int, o@.len()) as int);
                            assert(mem.readable() == write_bytes(m0, bp.address as int, sub));
                            assert forall|t: int| 0 <= t < n implies bytes_at(mem.readable(), orig[j].address as int, n)[t] == bytes_at(m0, orig[j].address as int, n)[t] by {
                                let x = orig[j].address + t;
                                assert(!(bp.address <= x < bp.address + sub.len()));
                            }
                            assert(bytes_at(mem.readable(), orig[j].address as int, n) =~= bytes_at(m0, orig[j].address as int, n));
                        }
                    }
                }
            }
        }
        proof {
            assert(self.bps@ =~= Seq::<Breakpoint>::empty());
            assert(self@ =~= Map::<usize, Breakpoint>::empty());
            assert forall|id: usize|
                #[trigger] old(self)@.dom().contains(id) && cleanly_restorable(
                    old(self)@,
                    old(mem).writable(),
                    id,
                    n,
                ) implies bytes_at(mem.readable(), id as int, n) == soft_bytes(old(self)@[id], self.trap@, false) by {
                lemma_bp_map_dom(orig, id);
                let j = choose|j: int| 0 <= j < orig.len() && #[trigger] orig[j].address == id;
                lemma_bp_map_index(orig, j);
            }
        }
    }

    proof fn lemma_len(&self)
        requires
            self.wf(),
        ensures
            self@.len() == self.bps@.len(),
    {
        lemma_bp_map_len(self.bps@);
    }
}

pub proof fn lemma_bp_map_len(s: Seq<Breakpoint>)
    requires
        unique_addresses(s),
    ensures
        bp_map(s).dom().finite(),
        bp_map(s).len() == s.len(),
    decreases s.len(),
{
    if s.len() > 0 {
        let t = s.drop_last();
        assert(unique_addresses(t));
        lemma_bp_map_len(t);
        lemma_bp_map_dom(t, s.last().address);
        if bp_map(t).dom().contains(s.last().address) {
            let j = choose|j: int| 0 <= j < t.len() && #[trigger] t[j].address == s.last().address;
            assert(s[j].address == s[s.len() - 1].address);
        }
    }
}

/// A breakpoint address is registered at most once: after an `add_bp` at
/// `opt.address` succeeds, another `add_bp` at that address is refused with
/// `BpExists` and leaves the registry, its size and memory as they were.
pub proof fn lemma_add_bp_unique(
    reg0: Map<usize, Breakpoint>,
    trap: Seq<u8>,
    m0: Map<int, u8>,
    w: Set<int>,
    opt: BpOpt,
    reg1: Map<usize, Breakpoint>,
    m1: Map<int, u8>,
    r1: UDbgResult<BpID>,
    opt2: BpOpt,
    reg2: Map<usize, Breakpoint>,
    m2: Map<int, u8>,
    r2: UDbgResult<BpID>,
)
    requires
        add_bp_post(reg0, trap, m0, w, opt, reg1, m1, r1),
        r1 is Ok,
        opt2.address == opt.address,
        add_bp_post(reg1, trap, m1, w, opt2, reg2, m2, r2),
    ensures
        r2 == Err::<BpID, UDbgError>(UDbgError::BpExists),
        reg2 == reg1,
        reg2.len() == reg1.len(),
        m2 == m1,
{
    if reg0.dom().contains(opt.address) {
    } else {
        assert(reg1.dom().contains(opt.address));
    }
}

/// Disabling a software breakpoint that `add_bp` registered writes back the
/// exact bytes `add_bp` found at its address, however often it was enabled
/// and disabled in between: an enable or disable keeps the saved bytes, and
/// a successful disable leaves them in memory.
pub proof fn lemma_soft_bp_reversible(
    reg: Map<usize, Breakpoint>,
    trap: Seq<u8>,
    m: Map<int, u8>,
    w: Set<int>,
    id: usize,
    on: bool,
    reg2: Map<usize, Breakpoint>,
    m2: Map<int, u8>,
    r: UDbgResult<()>,
)
    requires
        enable_post(reg, trap, m, w, id, on, reg2, m2, r),
        reg.dom().contains(id),
        reg[id].bp_type is Soft,
    ensures
        reg2.dom().contains(id),
        reg2[id].bp_type == reg[id].bp_type,
        r is Ok && !on ==> bytes_at(m2, id as int, soft_bytes(reg[id], trap, false).len())
            == soft_bytes(reg[id], trap, false),
        r is Ok && on ==> bytes_at(m2, id as int, trap.len()) == trap,
{
    let bs = soft_bytes(reg[id], trap, on);
    if r is Ok {
        let n = bs.len();
        let k = run_len(w, id as int, n);
        assert(bytes_at(m2, id as int, n) =~= bs);
    }
}

/// The bytes that `add_bp` saves are the bytes it found: a breakpoint added
/// at `a` saves `bytes_at(m, a, trap.len())` of the memory before the add.
pub proof fn lemma_add_bp_saves_found_bytes(
    reg: Map<usize, Breakpoint>,
    trap: Seq<u8>,
    m: Map<int, u8>,
    w: Set<int>,
    opt: BpOpt,
    reg2: Map<usize, Breakpoint>,
    m2: Map<int, u8>,
    r: UDbgResult<BpID>,
)
    requires
        add_bp_post(reg, trap, m, w, opt, reg2, m2, r),
        !reg.dom().contains(opt.address),
        reg2.dom().contains(opt.address),
    ensures
        soft_bytes(reg2[opt.address], trap, false) == bytes_at(m, opt.address as int, trap.len()),
{
}

} // verus!
