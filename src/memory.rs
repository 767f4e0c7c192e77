//! Reading and writing a target's address space.
//!
//! A target memory is modelled by the bytes a read can deliver (`readable`)
//! and the addresses a write can change (`writable`). Every derived read and
//! write below is stated over that model.
use vstd::bytes::*;
use vstd::prelude::*;
use vstd::utf8::*;

verus! {

/// Length of the run of addresses in `dom` that starts at `a`, capped at `n`.
pub open spec fn run_len(dom: Set<int>, a: int, n: nat) -> nat
    decreases n,
{
    if n == 0 || !dom.contains(a) {
        0
    } else {
        1 + run_len(dom, a + 1, (n - 1) as nat)
    }
}

/// The `n` bytes of `m` starting at `a`.
pub open spec fn bytes_at(m: Map<int, u8>, a: int, n: nat) -> Seq<u8> {
    Seq::new(n, |i: int| m[a + i])
}

/// How many bytes an access of `n` bytes at `a` reaches: `None` when it
/// reaches none of a non-empty request.
pub open spec fn access_len(dom: Set<int>, a: int, n: nat) -> Option<usize> {
    let k = run_len(dom, a, n);
    if k == 0 && n > 0 {
        None
    } else {
        Some(k as usize)
    }
}

/// `m` with `bs` stored from address `a` on.
pub open spec fn write_bytes(m: Map<int, u8>, a: int, bs: Seq<u8>) -> Map<int, u8> {
    Map::new(
        |x: int| m.dom().contains(x) || (a <= x < a + bs.len()),
        |x: int|
            if a <= x < a + bs.len() {
                bs[x - a]
            } else {
                m[x]
            },
    )
}

/// What a read of `n` bytes at `a` delivers: the readable prefix, or `None`.
pub open spec fn read_spec(m: Map<int, u8>, a: int, n: nat) -> Option<Seq<u8>> {
    match access_len(m.dom(), a, n) {
        Some(k) => Some(bytes_at(m, a, k as nat)),
        None => None,
    }
}

pub proof fn lemma_run_len_bound(dom: Set<int>, a: int, n: nat)
    ensures
        run_len(dom, a, n) <= n,
        forall|x: int| a <= x < a + run_len(dom, a, n) ==> #[trigger] dom.contains(x),
        run_len(dom, a, n) < n ==> !dom.contains(a + run_len(dom, a, n)),
    decreases n,
{
    if n > 0 && dom.contains(a) {
        lemma_run_len_bound(dom, a + 1, (n - 1) as nat);
    }
}

pub proof fn lemma_run_len_full(dom: Set<int>, a: int, n: nat)
    requires
        forall|x: int| a <= x < a + n ==> #[trigger] dom.contains(x),
    ensures
        run_len(dom, a, n) == n,
    decreases n,
{
    if n > 0 {
        assert(dom.contains(a));
        lemma_run_len_full(dom, a + 1, (n - 1) as nat);
    }
}

/// A source of target memory.
pub trait ReadMemory {
    /// The bytes a read can deliver, by address. An implementation that is
    /// verified against this trait defines it; left alone it is unspecified.
    closed spec fn readable(&self) -> Map<int, u8> {
        arbitrary()
    }

    /// Reads up to `data.len()` bytes at `addr` into the front of `data` and
    /// returns how many were read; `None` when nothing of a non-empty request
    /// could be read. A read stops at the first unreadable address.
    fn read_memory(&self, addr: usize, data: &mut Vec<u8>) -> (r: Option<usize>)
        ensures
            final(data)@.len() == old(data)@.len(),
            r == access_len(self.readable().dom(), addr as int, old(data)@.len()),
            r matches Some(k) ==> final(data)@ == bytes_at(self.readable(), addr as int, k as nat)
                + old(data)@.subrange(k as int, old(data)@.len() as int),
    ;
}

/// A target memory that can also be written.
pub trait WriteMemory: ReadMemory {
    /// The addresses a write can change. An implementation that is verified
    /// against this trait defines it; left alone it is unspecified.
    closed spec fn writable(&self) -> Set<int> {
        arbitrary()
    }

    /// Writes `data` at `addr`, stopping at the first address that cannot be
    /// written; returns how many bytes were written, `None` when none of a
    /// non-empty request was.
    fn write_memory(&mut self, addr: usize, data: &[u8]) -> (r: Option<usize>)
        ensures
            final(self).writable() == old(self).writable(),
            r == access_len(old(self).writable(), addr as int, data@.len()),
            final(self).readable() == write_bytes(
                old(self).readable(),
                addr as int,
                data@.subrange(0, run_len(old(self).writable(), addr as int, data@.len()) as int),
            ),
    ;
}


/// A value with a fixed little-endian byte image.
pub trait AsByteArray {
    /// The bytes that make up the value.
    spec fn byte_view(&self) -> Seq<u8>;

    fn as_byte_array(&self) -> (r: Vec<u8>)
        ensures
            r@ == self.byte_view(),
    ;
}

/// A value that can be rebuilt from its byte image.
pub trait AsByteArrayMut: AsByteArray + Sized {
    /// How many bytes make up a value.
    spec fn spec_size() -> nat;

    /// The value whose image is `b`.
    spec fn spec_from_bytes(b: Seq<u8>) -> Self;

    fn byte_size() -> (r: usize)
        ensures
            r == Self::spec_size(),
    ;

    fn from_byte_array(b: &[u8]) -> (r: Self)
        requires
            b@.len() == Self::spec_size(),
        ensures
            r == Self::spec_from_bytes(b@),
    ;

    proof fn lemma_image(v: Self, b: Seq<u8>)
        ensures
            1 <= Self::spec_size() <= 1024,
            v.byte_view().len() == Self::spec_size(),
            Self::spec_from_bytes(v.byte_view()) == v,
            b.len() == Self::spec_size() ==> Self::spec_from_bytes(b).byte_view() == b,
    ;
}

impl AsByteArray for u8 {
    open spec fn byte_view(&self) -> Seq<u8> {
        seq![*self]
    }

    fn as_byte_array(&self) -> (r: Vec<u8>) {
        let mut v: Vec<u8> = Vec::new();
        v.push(*self);
        proof {
            assert(v@ =~= seq![*self]);
        }
        v
    }
}

impl AsByteArrayMut for u8 {
    open spec fn spec_size() -> nat {
        1
    }

    open spec fn spec_from_bytes(b: Seq<u8>) -> u8 {
        b[0]
    }

    fn byte_size() -> (r: usize) {
        1
    }

    fn from_byte_array(b: &[u8]) -> (r: u8) {
        b[0]
    }

    proof fn lemma_image(v: u8, b: Seq<u8>) {
        if b.len() == 1 {
            assert(seq![b[0]] =~= b);
        }
    }
}

impl AsByteArray for u16 {
    open spec fn byte_view(&self) -> Seq<u8> {
        spec_u16_to_le_bytes(*self)
    }

    fn as_byte_array(&self) -> (r: Vec<u8>) {
        u16_to_le_bytes(*self)
    }
}

impl AsByteArrayMut for u16 {
    open spec fn spec_size() -> nat {
        2
    }

    open spec fn spec_from_bytes(b: Seq<u8>) -> u16 {
        spec_u16_from_le_bytes(b)
    }

    fn byte_size() -> (r: usize) {
        2
    }

    fn from_byte_array(b: &[u8]) -> (r: u16) {
        u16_from_le_bytes(b)
    }

    proof fn lemma_image(v: u16, b: Seq<u8>) {
        lemma_auto_spec_u16_to_from_le_bytes();
    }
}

impl AsByteArray for u32 {
    open spec fn byte_view(&self) -> Seq<u8> {
        spec_u32_to_le_bytes(*self)
    }

    fn as_byte_array(&self) -> (r: Vec<u8>) {
        u32_to_le_bytes(*self)
    }
}

impl AsByteArrayMut for u32 {
    open spec fn spec_size() -> nat {
        4
    }

    open spec fn spec_from_bytes(b: Seq<u8>) -> u32 {
        spec_u32_from_le_bytes(b)
    }

    fn byte_size() -> (r: usize) {
        4
    }

    fn from_byte_array(b: &[u8]) -> (r: u32) {
        u32_from_le_bytes(b)
    }

    proof fn lemma_image(v: u32, b: Seq<u8>) {
        lemma_auto_spec_u32_to_from_le_bytes();
    }
}

impl AsByteArray for u64 {
    open spec fn byte_view(&self) -> Seq<u8> {
        spec_u64_to_le_bytes(*self)
    }

    fn as_byte_array(&self) -> (r: Vec<u8>) {
        u64_to_le_bytes(*self)
    }
}

impl AsByteArrayMut for u64 {
    open spec fn spec_size() -> nat {
        8
    }

    open spec fn spec_from_bytes(b: Seq<u8>) -> u64 {
        spec_u64_from_le_bytes(b)
    }

    fn byte_size() -> (r: usize) {
        8
    }

    fn from_byte_array(b: &[u8]) -> (r: u64) {
        u64_from_le_bytes(b)
    }

    proof fn lemma_image(v: u64, b: Seq<u8>) {
        lemma_auto_spec_u64_to_from_le_bytes();
    }
}


/// The value of type `T` stored at `a`, when all its bytes are readable.
pub open spec fn value_spec<T: AsByteArrayMut>(m: Map<int, u8>, a: int) -> Option<T> {
    if run_len(m.dom(), a, T::spec_size()) == T::spec_size() {
        Some(T::spec_from_bytes(bytes_at(m, a, T::spec_size())))
    } else {
        None
    }
}

/// `n` zero bytes.
pub fn zeroed_bytes(n: usize) -> (r: Vec<u8>)
    ensures
        r@ == Seq::new(n as nat, |i: int| 0u8),
{
    let mut r: Vec<u8> = Vec::with_capacity(n);
    let mut i: usize = 0;
    while i < n
        invariant
            i <= n,
            r@ == Seq::new(i as nat, |j: int| 0u8),
        decreases n - i,
    {
        r.push(0u8);
        i = i + 1;
        proof {
            assert(r@ =~= Seq::new(i as nat, |j: int| 0u8));
        }
    }
    r
}

/// Reads of typed values, byte strings and pointer chains, built on `read_memory` alone.
pub trait ReadMemoryUtils: ReadMemory {
    /// Reads one value of type `T`; `None` unless all of its bytes were read.
    fn read_value<T: AsByteArrayMut>(&self, address: usize) -> (r: Option<T>)
        ensures
            r == value_spec::<T>(self.readable(), address as int),
    {
        let size = T::byte_size();
        let mut buf = zeroed_bytes(size);
        let got = self.read_memory(address, &mut buf);
        proof {
            lemma_run_len_bound(self.readable().dom(), address as int, size as nat);
        }
        match got {
            Some(n) => {
                if n == size {
                    proof {
                        assert(buf@ =~= bytes_at(self.readable(), address as int, size as nat));
                    }
                    Some(T::from_byte_array(buf.as_slice()))
                } else {
                    None
                }
            },
            None => None,
        }
    }

    /// Reads up to `size` bytes; the result holds the bytes actually read.
    fn read_bytes(&self, addr: usize, size: usize) -> (r: Vec<u8>)
        ensures
            r@ == (match read_spec(self.readable(), addr as int, size as nat) {
                Some(b) => b,
                None => Seq::empty(),
            }),
    {
        let mut buf = zeroed_bytes(size);
        let len = match self.read_memory(addr, &mut buf) {
            Some(n) => n,
            None => 0,
        };
        proof {
            lemma_run_len_bound(self.readable().dom(), addr as int, size as nat);
        }
        buf.truncate(len);
        proof {
            if read_spec(self.readable(), addr as int, size as nat) is Some {
                assert(buf@ =~= bytes_at(self.readable(), addr as int, len as nat));
            } else {
                assert(buf@ =~= Seq::<u8>::empty());
            }
        }
        buf
    }

    /// Reads consecutive values from `address` on, in chunks of a hundred
    /// values, up to the first value that satisfies `pred` (not included).
    /// Stops early after `max_count` values or where memory stops being
    /// readable.
    fn read_util<T: AsByteArrayMut, F: Fn(&T) -> bool>(
        &self,
        address: usize,
        pred: F,
        max_count: usize,
    ) -> (r: Vec<T>)
        requires
            forall|x: &T| #[trigger] pred.requires((x,)),
        ensures
            r.len() <= max_count,
            forall|i: int|
                0 <= i < r.len() ==> value_spec::<T>(
                    self.readable(),
                    address + i * T::spec_size(),
                ) == Some(#[trigger] r@[i]) && pred.ensures((&r@[i],), false),
            address + r.len() * T::spec_size() <= usize::MAX + 1,
            r.len() < max_count ==> (address + (r.len() + 1) * T::spec_size() > usize::MAX + 1 || match value_spec::<T>(
                self.readable(),
                address + r.len() * T::spec_size(),
            ) {
                None => true,
                Some(v) => pred.ensures((&v,), true),
            }),
    {
        let size = T::byte_size();
        proof {
            T::lemma_image(arbitrary(), Seq::empty());
        }
        let chunk: usize = 100 * size;
        let ghost m = self.readable();
        let mut result: Vec<T> = Vec::new();
        let mut buf = zeroed_bytes(chunk);
        let mut addr = address;
        proof {
            assert(address + result.len() * size == address) by (nonlinear_arith)
                requires
                    result.len() == 0,
            ;
        }
        loop
            invariant
                size == T::spec_size(),
                1 <= size <= 1024,
                chunk == 100 * size,
                m == self.readable(),
                buf@.len() == chunk,
                addr as int == address + result.len() * size,
                result.len() <= max_count,
                forall|x: &T| #[trigger] pred.requires((x,)),
                forall|i: int|
                    0 <= i < result.len() ==> value_spec::<T>(m, address + i * size) == Some(
                        #[trigger] result@[i],
                    ) && pred.ensures((&result@[i],), false),
            decreases usize::MAX - addr,
        {
            let got = self.read_memory(addr, &mut buf);
            proof {
                lemma_run_len_bound(m.dom(), addr as int, chunk as nat);
            }
            let n = match got {
                Some(n) => n,
                None => {
                    proof {
                        assert(!m.dom().contains(addr as int));
                        assert(run_len(m.dom(), addr as int, size as nat) == 0);
                    }
                    return result;
                },
            };
            let k = n / size;
            let len0 = result.len();
            proof {
                assert(k * size <= n) by (nonlinear_arith)
                    requires
                        k == n / size,
                        size > 0,
                ;
                assert(n < (k + 1) * size) by (nonlinear_arith)
                    requires
                        k == n / size,
                        size > 0,
                ;
                assert(k <= 100) by (nonlinear_arith)
                    requires
                        k == n / size,
                        n <= 100 * size,
                        size > 0,
                ;
            }
            let mut j: usize = 0;
            while j < k
                invariant
                    size == T::spec_size(),
                    1 <= size <= 1024,
                    chunk == 100 * size,
                    m == self.readable(),
                    buf@.len() == chunk,
                    n <= chunk,
                    n == run_len(m.dom(), addr as int, chunk as nat),
                    k * size <= n,
                    k <= 100,
                    forall|x: int| addr <= x < addr + n ==> #[trigger] m.dom().contains(x),
                    buf@.subrange(0, n as int) == bytes_at(m, addr as int, n as nat),
                    addr as int == address + len0 * size,
                    address + result.len() * size <= usize::MAX + 1,
                    j <= k,
                    result.len() == len0 + j,
                    result.len() <= max_count,
                    forall|x: &T| #[trigger] pred.requires((x,)),
                    forall|i: int|
                        0 <= i < result.len() ==> value_spec::<T>(m, address + i * size) == Some(
                            #[trigger] result@[i],
                        ) && pred.ensures((&result@[i],), false),
                decreases k - j,
            {
                let ghost ea: int = address + result.len() * size;
                proof {
                    assert(ea == addr + j * size) by (nonlinear_arith)
                        requires
                            ea == address + result.len() * size,
                            addr == address + len0 * size,
                            result.len() == len0 + j,
                    ;
                    assert((j + 1) * size <= k * size) by (nonlinear_arith)
                        requires
                            j < k,
                            size > 0,
                    ;
                    assert(j * size + size == (j + 1) * size) by (nonlinear_arith);
                }
                if result.len() == max_count {
                    return result;
                }
                let lo = j * size;
                let hi = lo + size;
                proof {
                    assert((result.len() + 1) * size == result.len() * size + size) by (nonlinear_arith);
                }
                if hi - 1 > usize::MAX - addr {
                    return result;
                }
                let piece = vstd::slice::slice_subrange(buf.as_slice(), lo, hi);
                proof {
                    assert forall|x: int| ea <= x < ea + size implies #[trigger] m.dom().contains(x) by {}
                    lemma_run_len_full(m.dom(), ea, size as nat);
                    assert forall|t: int| 0 <= t < size implies piece@[t] == bytes_at(m, ea, size as nat)[t] by {
                        assert(piece@[t] == buf@.subrange(0, n as int)[lo + t]);
                    }
                    assert(piece@ =~= bytes_at(m, ea, size as nat));
                }
                let v = T::from_byte_array(piece);
                if pred(&v) {
                    return result;
                }
                result.push(v);
                j = j + 1;
                proof {
                    assert(address + result.len() * size == ea + size) by (nonlinear_arith)
                        requires
                            ea == address + (result.len() - 1) * size,
                    ;
                    assert forall|i: int|
                        0 <= i < result.len() implies value_spec::<T>(m, address + i * size) == Some(
                            #[trigger] result@[i],
                        ) && pred.ensures((&result@[i],), false) by {
                        if i < result.len() - 1 {
                        } else {
                            assert(address + i * size == ea);
                        }
                    }
                }
            }
            proof {
                assert(addr + k * size == address + result.len() * size) by (nonlinear_arith)
                    requires
                        addr == address + len0 * size,
                        result.len() == len0 + k,
                ;
            }
            if result.len() == max_count {
                return result;
            }
            if n < chunk {
                proof {
                    let ea: int = address + result.len() * size;
                    assert(!m.dom().contains(addr + n));
                    assert((k + 1) * size == k * size + size) by (nonlinear_arith);
                    lemma_run_len_bound(m.dom(), ea, size as nat);
                    assert(ea <= addr + n < ea + size);
                    if run_len(m.dom(), ea, size as nat) == size {
                        assert(m.dom().contains(addr + n));
                    }
                }
                return result;
            }
            match addr.checked_add(n) {
                Some(a2) => {
                    proof {
                        assert(k == 100) by (nonlinear_arith)
                            requires
                                k == n / size,
                                n == 100 * size,
                                size > 0,
                        ;
                    }
                    addr = a2;
                },
                None => {
                    proof {
                        assert(k == 100) by (nonlinear_arith)
                            requires
                                k == n / size,
                                n == 100 * size,
                                size > 0,
                        ;
                        assert((result.len() + 1) * size == result.len() * size + size) by (nonlinear_arith);
                    }
                    return result;
                },
            }
        }
    }

    /// Reads a zero-terminated byte string of at most `max` bytes (1000 by
    /// default), without its terminator. An empty result, or a single control
    /// byte, is no string.
    fn read_cstring(&self, address: usize, max: Option<usize>) -> (r: Option<Vec<u8>>)
        ensures
            exists|s: Seq<u8>|
                #[trigger] cstring_run(self.readable(), address as int, limit_of(max), s) && (r is None <==> (
                s.len() == 0 || (s.len() == 1 && s[0] < 32))) && (r matches Some(v) ==> v@ == s),
    {
        let limit = match max {
            Some(n) => n,
            None => 1000,
        };
        let zero = |x: &u8| -> (b: bool)
            ensures
                b == (*x == 0),
            { *x == 0 };
        let found = self.read_util::<u8, _>(address, zero, limit);
        proof {
            let m = self.readable();
            assert forall|i: int| #![trigger found@[i]] 0 <= i < found@.len() implies (m.dom().contains(address + i) && found@[i] == m[address + i] && found@[i] != 0) by {
                assert(address + i * 1 == address + i);
                assert(value_spec::<u8>(m, address + i) == Some(found@[i]));
                lemma_run_len_bound(m.dom(), address + i, 1);
                assert(run_len(m.dom(), address + i, 1) == 1);
                assert(m.dom().contains(address + i));
                assert(bytes_at(m, address + i, 1)[0] == m[address + i]);
            }
            assert forall|x: int| address <= x < address + found@.len() implies #[trigger] m.dom().contains(x) by {
                assert(found@[x - address] == m[address + (x - address)]);
            }
            assert(address + found@.len() * 1 == address + found@.len());
            if found@.len() < limit && address + found@.len() <= usize::MAX {
                let e = address + found@.len();
                if m.dom().contains(e) {
                    lemma_run_len_bound(m.dom(), e, 1);
                    assert(run_len(m.dom(), e, 1) == 1);
                    assert(bytes_at(m, e, 1)[0] == m[e]);
                    assert(value_spec::<u8>(m, e) == Some(m[e]));
                    assert(zero.ensures((&m[e],), true));
                    assert(m[e] == 0);
                }
            }
            assert(limit as nat == limit_of(max));
            assert(cstring_run(m, address as int, limit_of(max), found@));
        }
        if found.len() == 0 || (found.len() == 1 && found[0] < 32u8) {
            None
        } else {
            Some(found)
        }
    }

    /// Reads a C string and keeps it only when it is valid UTF-8.
    fn read_utf8(&self, address: usize, max: Option<usize>) -> (r: Option<String>)
        ensures
            exists|s: Seq<u8>|
                #[trigger] cstring_run(self.readable(), address as int, limit_of(max), s) && (r is None <==> (
                s.len() == 0 || (s.len() == 1 && s[0] < 32) || !valid_utf8(s))) && (r matches Some(v)
                    ==> v@ == decode_utf8(s)),
    {
        match self.read_cstring(address, max) {
            Some(bytes) => utf8_string(bytes),
            None => None,
        }
    }

    /// Guesses a string at `address`: a UTF-8 C string of at most `max`
    /// bytes, reported as not wide (the flag is false).
    fn detect_string(&self, address: usize, max: usize) -> (r: Option<(bool, String)>)
        ensures
            exists|s: Seq<u8>|
                #[trigger] cstring_run(self.readable(), address as int, max as nat, s) && (r is None <==> (s.len()
                    == 0 || (s.len() == 1 && s[0] < 32) || !valid_utf8(s))) && (r matches Some(p)
                    ==> !p.0 && p.1@ == decode_utf8(s)),
    {
        match self.read_utf8(address, Some(max)) {
            Some(s) => Some((false, s)),
            None => None,
        }
    }

    /// Reads `count` values of type `T` laid out one after another, each on
    /// its own; a value whose address is past the address space is `None`.
    fn read_array<T: AsByteArrayMut>(&self, addr: usize, count: usize) -> (r: Vec<Option<T>>)
        ensures
            r.len() == count,
            forall|i: int|
                0 <= i < count ==> #[trigger] r@[i] == (if addr + i * T::spec_size() <= usize::MAX {
                    value_spec::<T>(self.readable(), addr + i * T::spec_size())
                } else {
                    None
                }),
    {
        let size = T::byte_size();
        let mut result: Vec<Option<T>> = Vec::with_capacity(count);
        let mut i: usize = 0;
        while i < count
            invariant
                size == T::spec_size(),
                i <= count,
                result.len() == i,
                forall|j: int|
                    0 <= j < i ==> #[trigger] result@[j] == (if addr + j * size <= usize::MAX {
                        value_spec::<T>(self.readable(), addr + j * size)
                    } else {
                        None
                    }),
            decreases count - i,
        {
            let v = match size.checked_mul(i) {
                Some(off) => match addr.checked_add(off) {
                    Some(a) => self.read_value::<T>(a),
                    None => None,
                },
                None => {
                    proof {
                        assert(size * i <= addr + i * size) by (nonlinear_arith);
                    }
                    None
                },
            };
            proof {
                assert(size * i == i * size) by (nonlinear_arith);
            }
            result.push(v);
            i = i + 1;
        }
        result
    }

    /// Fills `buf` with values read from `address` on and returns how many
    /// whole values were read.
    fn read_to_array<T: AsByteArrayMut>(&self, address: usize, buf: &mut Vec<T>) -> (r: usize)
        requires
            old(buf)@.len() * T::spec_size() <= usize::MAX,
        ensures
            final(buf)@.len() == old(buf)@.len(),
            r as int == (match access_len(
                self.readable().dom(),
                address as int,
                old(buf)@.len() * T::spec_size(),
            ) {
                Some(k) => k as int / T::spec_size() as int,
                None => 0,
            }),
            forall|i: int|
                0 <= i < old(buf)@.len() ==> #[trigger] final(buf)@[i] == (if i < r {
                    T::spec_from_bytes(bytes_at(self.readable(), address + i * T::spec_size(), T::spec_size()))
                } else {
                    old(buf)@[i]
                }),
    {
        let size = T::byte_size();
        proof {
            T::lemma_image(arbitrary(), Seq::empty());
        }
        let total = buf.len() * size;
        let mut bytes = zeroed_bytes(total);
        let got = self.read_memory(address, &mut bytes);
        proof {
            lemma_run_len_bound(self.readable().dom(), address as int, total as nat);
        }
        let n = match got {
            Some(n) => n,
            None => 0,
        };
        let k = n / size;
        proof {
            assert(k * size <= n) by (nonlinear_arith)
                requires
                    k == n / size,
                    size > 0,
            ;
            assert(k <= buf.len()) by (nonlinear_arith)
                requires
                    k == n / size,
                    n <= buf.len() * size,
                    size > 0,
            ;
        }
        let ghost m = self.readable();
        let ghost orig = buf@;
        let mut j: usize = 0;
        while j < k
            invariant
                size == T::spec_size(),
                1 <= size <= 1024,
                m == self.readable(),
                bytes@.len() == total,
                n <= total,
                k * size <= n,
                k <= orig.len(),
                got is Some ==> bytes@.subrange(0, n as int) == bytes_at(m, address as int, n as nat),
                got is None ==> n == 0,
                j <= k,
                buf@.len() == orig.len(),
                forall|i: int|
                    0 <= i < orig.len() ==> #[trigger] buf@[i] == (if i < j {
                        T::spec_from_bytes(bytes_at(m, address + i * size, size as nat))
                    } else {
                        orig[i]
                    }),
            decreases k - j,
        {
            proof {
                assert((j + 1) * size <= k * size) by (nonlinear_arith)
                    requires
                        j < k,
                        size > 0,
                ;
                assert(j * size + size == (j + 1) * size) by (nonlinear_arith);
            }
            let lo = j * size;
            let piece = vstd::slice::slice_subrange(bytes.as_slice(), lo, lo + size);
            proof {
                assert(got is Some) by {
                    if got is None {
                        assert(k == 0) by (nonlinear_arith)
                            requires
                                k == n / size,
                                n == 0,
                                size > 0,
                        ;
                    }
                }
                assert forall|t: int| 0 <= t < size implies piece@[t] == bytes_at(m, address + j * size, size as nat)[t] by {
                    assert(piece@[t] == bytes@.subrange(0, n as int)[lo + t]);
                }
                assert(piece@ =~= bytes_at(m, address + j * size, size as nat));
            }
            let v = T::from_byte_array(piece);
            buf.set(j, v);
            j = j + 1;
        }
        proof {
            if got is None {
                assert(k == 0) by (nonlinear_arith)
                    requires
                        k == n / size,
                        n == 0,
                        size > 0,
                ;
            }
        }
        k
    }

    /// Follows a pointer chain: for each offset, `p` becomes the pointer stored
    /// at `p + offset` (a null `p` ends the chase); then reads a `T` at `p`.
    fn read_multilevel<T: AsByteArrayMut>(&self, address: usize, offset: &[usize]) -> (r: Option<T>)
        ensures
            r == (match chase(self.readable(), address as int, offset@) {
                Some(p) => value_spec::<T>(self.readable(), p),
                None => None,
            }),
    {
        let mut p = address;
        let mut i: usize = 0;
        proof {
            assert(offset@.subrange(0, offset@.len() as int) =~= offset@);
        }
        while i < offset.len()
            invariant
                i <= offset@.len(),
                chase(self.readable(), address as int, offset@) == chase(
                    self.readable(),
                    p as int,
                    offset@.subrange(i as int, offset@.len() as int),
                ),
            decreases offset@.len() - i,
        {
            let ghost rest = offset@.subrange(i as int, offset@.len() as int);
            proof {
                assert(rest.drop_first() =~= offset@.subrange(i + 1, offset@.len() as int));
            }
            if p == 0 {
                return None;
            }
            let o = offset[i];
            let a = match p.checked_add(o) {
                Some(a) => a,
                None => return None,
            };
            match self.read_value::<u64>(a) {
                Some(v) => {
                    p = v as usize;
                },
                None => return None,
            }
            i = i + 1;
        }
        proof {
            assert(offset@.subrange(i as int, offset@.len() as int) =~= Seq::<usize>::empty());
        }
        self.read_value::<T>(p)
    }
}

/// The address a pointer chase from `p` through `offs` ends at.
pub open spec fn chase(m: Map<int, u8>, p: int, offs: Seq<usize>) -> Option<int>
    decreases offs.len(),
{
    if offs.len() == 0 {
        Some(p)
    } else if p == 0 || p + offs[0] > usize::MAX {
        None
    } else {
        match value_spec::<u64>(m, p + offs[0]) {
            Some(v) => chase(m, (v as usize) as int, offs.drop_first()),
            None => None,
        }
    }
}

/// Relies on `String::from_utf8`: it accepts exactly the valid UTF-8 byte
/// strings and keeps their characters.
#[verifier::external_body]
fn utf8_string(bytes: Vec<u8>) -> (r: Option<String>)
    ensures
        r is Some <==> valid_utf8(bytes@),
        r matches Some(s) ==> s@ == decode_utf8(bytes@),
{
    String::from_utf8(bytes).ok()
}

/// The bound a C-string read uses: the one given, else 1000 bytes.
pub open spec fn limit_of(max: Option<usize>) -> nat {
    match max {
        Some(n) => n as nat,
        None => 1000,
    }
}

/// `s` is what a scan for a zero byte from `a` delivers: readable non-zero
/// bytes, at most `limit` of them, ended by the limit, by unreadable memory,
/// by the end of the address space or by a zero byte.
pub open spec fn cstring_run(m: Map<int, u8>, a: int, limit: nat, s: Seq<u8>) -> bool {
    &&& s.len() <= limit
    &&& a + s.len() <= usize::MAX + 1
    &&& forall|x: int| a <= x < a + s.len() ==> #[trigger] m.dom().contains(x)
    &&& forall|i: int| 0 <= i < s.len() ==> #[trigger] s[i] != 0 && s[i] == m[a + i]
    &&& s.len() < limit ==> (a + s.len() > usize::MAX || !m.dom().contains(a + s.len()) || m[a
        + s.len()] == 0)
}

impl<M: ReadMemory + ?Sized> ReadMemoryUtils for M {}

} // verus!

verus! {

/// Writes of typed values and byte strings, built on `write_memory` alone.
pub trait WriteMemoryUtils: WriteMemory {
    /// Writes the byte image of `val`.
    fn write_value<T: AsByteArray>(&mut self, address: usize, val: &T) -> (r: Option<usize>)
        ensures
            final(self).writable() == old(self).writable(),
            r == access_len(old(self).writable(), address as int, val.byte_view().len()),
            final(self).readable() == write_bytes(
                old(self).readable(),
                address as int,
                val.byte_view().subrange(
                    0,
                    run_len(old(self).writable(), address as int, val.byte_view().len()) as int,
                ),
            ),
    {
        let bytes = val.as_byte_array();
        self.write_memory(address, bytes.as_slice())
    }

    /// Writes the byte images of `data`, one after another.
    fn write_array<T: AsByteArrayMut>(&mut self, address: usize, data: &[T]) -> (r: Option<usize>)
        requires
            data@.len() * T::spec_size() <= usize::MAX,
        ensures
            final(self).writable() == old(self).writable(),
            r == access_len(old(self).writable(), address as int, data@.len() * T::spec_size()),
            final(self).readable() == write_bytes(
                old(self).readable(),
                address as int,
                array_image(data@).subrange(
                    0,
                    run_len(
                        old(self).writable(),
                        address as int,
                        data@.len() * T::spec_size(),
                    ) as int,
                ),
            ),
    {
        let mut bytes: Vec<u8> = Vec::new();
        let mut i: usize = 0;
        while i < data.len()
            invariant
                i <= data@.len(),
                bytes@ == array_image(data@.subrange(0, i as int)),
            decreases data@.len() - i,
        {
            let piece = data[i].as_byte_array();
            let ghost before = bytes@;
            let mut j: usize = 0;
            while j < piece.len()
                invariant
                    j <= piece@.len(),
                    bytes@ == before + piece@.subrange(0, j as int),
                decreases piece@.len() - j,
            {
                bytes.push(piece[j]);
                j = j + 1;
                proof {
                    assert(bytes@ =~= before + piece@.subrange(0, j as int));
                }
            }
            proof {
                assert(piece@.subrange(0, j as int) =~= piece@);
                assert(data@.subrange(0, i + 1).drop_last() =~= data@.subrange(0, i as int));
            }
            i = i + 1;
        }
        proof {
            assert(data@.subrange(0, data@.len() as int) =~= data@);
            lemma_array_image_len(data@);
        }
        self.write_memory(address, bytes.as_slice())
    }

    /// Writes `data` followed by one zero byte. The result counts both
    /// writes; `None` when either reached nothing, or when the terminator's
    /// address is past the address space.
    fn write_cstring(&mut self, address: usize, data: &[u8]) -> (r: Option<usize>)
        requires
            data@.len() < usize::MAX,
        ensures
            final(self).writable() == old(self).writable(),
            ({
                let w = old(self).writable();
                let a = address as int;
                let n = data@.len();
                let k1 = run_len(w, a, n);
                let m1 = write_bytes(old(self).readable(), a, data@.subrange(0, k1 as int));
                if n > 0 && k1 == 0 {
                    r is None && final(self).readable() == old(self).readable()
                } else if a + n > usize::MAX || run_len(w, a + n, 1) == 0 {
                    r is None && final(self).readable() == m1
                } else {
                    r == Some((k1 + 1) as usize) && final(self).readable() == write_bytes(
                        m1,
                        a + n,
                        seq![0u8],
                    )
                }
            }),
    {
        let ghost w = self.writable();
        let ghost m0 = self.readable();
        proof {
            lemma_run_len_bound(w, address as int, data@.len());
        }
        let n1 = match self.write_memory(address, data) {
            Some(n1) => n1,
            None => {
                proof {
                    assert(data@.subrange(0, 0) =~= Seq::<u8>::empty());
                    assert(write_bytes(m0, address as int, Seq::<u8>::empty()) =~= m0);
                }
                return None;
            },
        };
        let end = match address.checked_add(data.len()) {
            Some(e) => e,
            None => return None,
        };
        let zero: [u8; 1] = [0u8];
        let n2 = match self.write_memory(end, zero.as_slice()) {
            Some(n2) => n2,
            None => return None,
        };
        proof {
            lemma_run_len_bound(w, end as int, 1);
            if n2 == 0 {
                assert(run_len(w, end as int, 1) == 0);
            }
            assert(zero@ =~= seq![0u8]);
            assert(zero@.subrange(0, 1) =~= seq![0u8]);
        }
        if n2 == 0 {
            return None;
        }
        Some(n1 + n2)
    }
}

impl<M: WriteMemory + ?Sized> WriteMemoryUtils for M {}

/// The byte images of `s`, one after another.
pub open spec fn array_image<T: AsByteArray>(s: Seq<T>) -> Seq<u8>
    decreases s.len(),
{
    if s.len() == 0 {
        Seq::empty()
    } else {
        array_image(s.drop_last()) + s.last().byte_view()
    }
}

pub proof fn lemma_array_image_len<T: AsByteArrayMut>(s: Seq<T>)
    ensures
        array_image(s).len() == s.len() * T::spec_size(),
    decreases s.len(),
{
    if s.len() > 0 {
        lemma_array_image_len(s.drop_last());
        T::lemma_image(s.last(), Seq::empty());
        assert(s.len() * T::spec_size() == (s.len() - 1) * T::spec_size() + T::spec_size())
            by (nonlinear_arith);
    }
}

/// Writing `bs` where every byte is writable and then reading `bs.len()`
/// bytes at the same address gives back `bs`.
pub proof fn lemma_write_read_round_trip(m: Map<int, u8>, w: Set<int>, a: int, bs: Seq<u8>)
    requires
        bs.len() <= usize::MAX,
        forall|x: int| a <= x < a + bs.len() ==> #[trigger] w.contains(x),
    ensures
        access_len(w, a, bs.len()) == Some(bs.len() as usize),
        read_spec(write_bytes(m, a, bs.subrange(0, run_len(w, a, bs.len()) as int)), a, bs.len())
            == Some(bs),
{
    lemma_run_len_full(w, a, bs.len());
    let m2 = write_bytes(m, a, bs.subrange(0, bs.len() as int));
    assert forall|x: int| a <= x < a + bs.len() implies #[trigger] m2.dom().contains(x) by {}
    lemma_run_len_full(m2.dom(), a, bs.len());
    assert(bytes_at(m2, a, bs.len()) =~= bs);
}

/// A typed read yields a value exactly when a plain read of the type's size
/// delivers all of its bytes; the value is the one those bytes make up, and
/// its byte image is those bytes.
pub proof fn lemma_typed_read_atomic<T: AsByteArrayMut>(m: Map<int, u8>, a: int)
    ensures
        value_spec::<T>(m, a) is Some <==> (read_spec(m, a, T::spec_size()) matches Some(b)
            && b.len() == T::spec_size()),
        value_spec::<T>(m, a) matches Some(v) ==> read_spec(m, a, T::spec_size()) == Some(
            v.byte_view(),
        ) && v == T::spec_from_bytes(v.byte_view()),
{
    T::lemma_image(arbitrary(), bytes_at(m, a, T::spec_size()));
    lemma_run_len_bound(m.dom(), a, T::spec_size());
}

/// A C-string read has one outcome: at most one string meets `cstring_run`.
pub proof fn lemma_cstring_run_unique(m: Map<int, u8>, a: int, limit: nat, s1: Seq<u8>, s2: Seq<u8>)
    requires
        cstring_run(m, a, limit, s1),
        cstring_run(m, a, limit, s2),
    ensures
        s1 == s2,
{
    if s1.len() < s2.len() {
        let k = s1.len() as int;
        assert(s2[k] != 0 && s2[k] == m[a + k]);
        assert(m.dom().contains(a + k));
    } else if s2.len() < s1.len() {
        let k = s2.len() as int;
        assert(s1[k] != 0 && s1[k] == m[a + k]);
        assert(m.dom().contains(a + k));
    }
    assert(s1 =~= s2);
}

/// A C-string read never delivers more than its bound, nor a zero byte.
pub proof fn lemma_cstring_bound(m: Map<int, u8>, a: int, limit: nat, s: Seq<u8>)
    requires
        cstring_run(m, a, limit, s),
    ensures
        s.len() <= limit,
        forall|i: int| 0 <= i < s.len() ==> #[trigger] s[i] != 0,
{
}

} // verus!

verus! {

/// The pointer stored at `a` in `m`: four bytes wide when `is_ptr32`, else
/// eight.
pub open spec fn ptr_spec(m: Map<int, u8>, is_ptr32: bool, a: int) -> Option<usize> {
    if is_ptr32 {
        match value_spec::<u32>(m, a) {
            Some(v) => Some(v as usize),
            None => None,
        }
    } else {
        match value_spec::<u64>(m, a) {
            Some(v) => Some(v as usize),
            None => None,
        }
    }
}

/// Reads a pointer of the target's width.
pub fn read_ptr<M: ReadMemory>(mem: &M, is_ptr32: bool, a: usize) -> (r: Option<usize>)
    ensures
        r == ptr_spec(mem.readable(), is_ptr32, a as int),
{
    if is_ptr32 {
        match mem.read_value::<u32>(a) {
            Some(v) => Some(v as usize),
            None => None,
        }
    } else {
        match mem.read_value::<u64>(a) {
            Some(v) => Some(v as usize),
            None => None,
        }
    }
}

/// The bytes a pointer `p` of the target's width is stored as.
pub open spec fn ptr_bytes(is_ptr32: bool, p: usize) -> Seq<u8> {
    if is_ptr32 {
        (p as u32).byte_view()
    } else {
        (p as u64).byte_view()
    }
}

/// Writes a pointer of the target's width (a 32-bit target keeps the low
/// half of `p`).
pub fn write_ptr<M: WriteMemory>(mem: &mut M, is_ptr32: bool, a: usize, p: usize) -> (r: Option<usize>)
    ensures
        final(mem).writable() == old(mem).writable(),
        r == access_len(old(mem).writable(), a as int, ptr_bytes(is_ptr32, p).len()),
        final(mem).readable() == write_bytes(
            old(mem).readable(),
            a as int,
            ptr_bytes(is_ptr32, p).subrange(
                0,
                run_len(old(mem).writable(), a as int, ptr_bytes(is_ptr32, p).len()) as int,
            ),
        ),
{
    if is_ptr32 {
        mem.write_value(a, &(p as u32))
    } else {
        mem.write_value(a, &(p as u64))
    }
}

} // verus!

verus! {

/// `run_len` over the addresses `[lo, hi)`.
pub proof fn lemma_run_len_interval(lo: int, hi: int, a: int, n: nat)
    ensures
        run_len(Set::new(|x: int| lo <= x < hi), a, n) == (if lo <= a < hi {
            if n <= hi - a {
                n as int
            } else {
                hi - a
            }
        } else {
            0
        }),
    decreases n,
{
    if n > 0 && lo <= a < hi {
        lemma_run_len_interval(lo, hi, a + 1, (n - 1) as nat);
    }
}

/// A copy of a range of target memory: `bytes` from `base` on, every byte
/// readable and writable.
pub struct MemoryImage {
    base: usize,
    bytes: Vec<u8>,
}

impl MemoryImage {
    /// The addresses the image covers.
    pub open spec fn span(base: usize, len: nat) -> Set<int> {
        Set::new(|x: int| base <= x < base + len)
    }

    pub closed spec fn base_spec(&self) -> usize {
        self.base
    }

    pub closed spec fn bytes_spec(&self) -> Seq<u8> {
        self.bytes@
    }

    pub fn new(base: usize, bytes: Vec<u8>) -> (r: MemoryImage)
        ensures
            r.base_spec() == base,
            r.bytes_spec() == bytes@,
    {
        MemoryImage { base, bytes }
    }

    pub fn bytes(&self) -> (r: &[u8])
        ensures
            r@ == self.bytes_spec(),
    {
        self.bytes.as_slice()
    }
}

impl ReadMemory for MemoryImage {
    closed spec fn readable(&self) -> Map<int, u8> {
        Map::new(
            |x: int| self.base <= x < self.base + self.bytes@.len(),
            |x: int| self.bytes@[x - self.base],
        )
    }

    fn read_memory(&self, addr: usize, data: &mut Vec<u8>) -> (r: Option<usize>) {
        let n = data.len();
        let len = self.bytes.len();
        let ghost lo = self.base as int;
        let ghost hi = self.base + len;
        proof {
            assert(self.readable().dom() =~= Set::new(|x: int| lo <= x < hi));
            lemma_run_len_interval(lo, hi, addr as int, n as nat);
        }
        let k: usize = if addr < self.base || addr - self.base >= len {
            0
        } else if n <= len - (addr - self.base) {
            n
        } else {
            len - (addr - self.base)
        };
        let off: usize = if k == 0 {
            0
        } else {
            addr - self.base
        };
        let ghost before = data@;
        let mut i: usize = 0;
        while i < k
            invariant
                i <= k <= n,
                n == before.len(),
                data@.len() == n,
                k > 0 ==> off + k <= len && off == addr - self.base,
                len == self.bytes@.len(),
                forall|j: int| 0 <= j < i ==> data@[j] == self.bytes@[off + j],
                forall|j: int| i <= j < n ==> data@[j] == before[j],
            decreases k - i,
        {
            data.set(i, self.bytes[off + i]);
            i = i + 1;
        }
        proof {
            assert(data@ =~= bytes_at(self.readable(), addr as int, k as nat) + before.subrange(k as int, n as int));
        }
        if k == 0 && n > 0 {
            None
        } else {
            Some(k)
        }
    }
}

impl WriteMemory for MemoryImage {
    closed spec fn writable(&self) -> Set<int> {
        Set::new(|x: int| self.base <= x < self.base + self.bytes@.len())
    }

    fn write_memory(&mut self, addr: usize, data: &[u8]) -> (r: Option<usize>) {
        let n = data.len();
        let len = self.bytes.len();
        let ghost lo = self.base as int;
        let ghost hi = self.base + len;
        let ghost m0 = self.readable();
        proof {
            assert(self.writable() =~= Set::new(|x: int| lo <= x < hi));
            lemma_run_len_interval(lo, hi, addr as int, n as nat);
        }
        let k: usize = if addr < self.base || addr - self.base >= len {
            0
        } else if n <= len - (addr - self.base) {
            n
        } else {
            len - (addr - self.base)
        };
        let off: usize = if k == 0 {
            0
        } else {
            addr - self.base
        };
        let ghost before = self.bytes@;
        let mut i: usize = 0;
        while i < k
            invariant
                i <= k <= n,
                n == data@.len(),
                self.bytes@.len() == len,
                len == before.len(),
                k > 0 ==> off + k <= len && off == addr - self.base,
                self.base == lo,
                forall|j: int| 0 <= j < len ==> self.bytes@[j] == (if off <= j < off + i {
                    data@[j - off]
                } else {
                    before[j]
                }),
            decreases k - i,
        {
            self.bytes.set(off + i, data[i]);
            i = i + 1;
        }
        proof {
            let w = write_bytes(m0, addr as int, data@.subrange(0, k as int));
            assert(self.readable() =~= w);
            assert(self.writable() =~= old(self).writable());
        }
        if k == 0 && n > 0 {
            None
        } else {
            Some(k)
        }
    }
}

} // verus!
