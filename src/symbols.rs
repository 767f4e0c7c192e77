//! Resolving addresses to symbols and symbol expressions to addresses.
use crate::module::{
    first_of, lemma_first_of, module_holds, module_named, str_eq, symbol_named, Module, ModuleSet,
};
use crate::regs::{x64_reg_named, UserRegs};
use vstd::prelude::*;
use vstd::string::StringSliceAdditionalSpecFns;
use vstd::utf8::{decode_utf8, encode_utf8, is_char_boundary};

verus! {

/// Where an address lies: module, symbol and the offset past the symbol (or
/// past the module base, when no symbol is near).
#[derive(Clone, Debug)]
pub struct SymbolInfo {
    pub mod_base: usize,
    pub offset: usize,
    pub module: String,
    pub symbol: String,
}

/// Unicode `White_Space`, what `char::is_whitespace` tests.
pub open spec fn is_white_space(c: char) -> bool {
    let u = c as u32;
    (0x9 <= u <= 0xd) || u == 0x20 || u == 0x85 || u == 0xa0 || u == 0x1680 || (0x2000 <= u
        <= 0x200a) || u == 0x2028 || u == 0x2029 || u == 0x202f || u == 0x205f || u == 0x3000
}

/// `s` without its leading white space.
pub open spec fn trim_start_spec(s: Seq<char>) -> Seq<char>
    decreases s.len(),
{
    if s.len() > 0 && is_white_space(s[0]) {
        trim_start_spec(s.drop_first())
    } else {
        s
    }
}

/// `s` without its trailing white space.
pub open spec fn trim_end_spec(s: Seq<char>) -> Seq<char>
    decreases s.len(),
{
    if s.len() > 0 && is_white_space(s.last()) {
        trim_end_spec(s.drop_last())
    } else {
        s
    }
}

/// The text `s` without leading and trailing white space.
pub open spec fn trimmed(s: Seq<char>) -> Seq<char> {
    trim_end_spec(trim_start_spec(s))
}

/// Relies on `str::trim`: it drops the leading and trailing characters
/// that `char::is_whitespace` (Unicode `White_Space`) accepts, and the
/// result is a part of the text.
#[verifier::external_body]
fn trim(s: &str) -> (r: &str)
    ensures
        r@ == trimmed(s@),
        r.spec_bytes().len() <= s.spec_bytes().len(),
{
    s.trim()
}

/// The bytes of `b` trimmed as text.
pub open spec fn trim_bytes(b: Seq<u8>) -> Seq<u8> {
    encode_utf8(trimmed(decode_utf8(b)))
}

/// `a + b`, when it fits in a `usize`.
pub open spec fn checked_sum(a: usize, b: int) -> Option<usize> {
    if 0 <= a + b <= usize::MAX {
        Some((a + b) as usize)
    } else {
        None
    }
}

/// The address of the first symbol named `x` in the first module of `mods`
/// that has one at an address that fits.
pub open spec fn symbol_address(mods: Seq<Module>, x: Seq<u8>) -> Option<usize>
    decreases mods.len(),
{
    if mods.len() == 0 {
        None
    } else {
        match symbol_named(mods[0].symbols(), x) {
            Some(s) => if mods[0].base + s.offset <= usize::MAX {
                Some((mods[0].base + s.offset) as usize)
            } else {
                symbol_address(mods.drop_first(), x)
            },
            None => symbol_address(mods.drop_first(), x),
        }
    }
}

/// A bare name: the base of the module of that name, else the address of
/// the first symbol of that name.
pub open spec fn name_address(mods: Seq<Module>, x: Seq<u8>) -> Option<usize> {
    match module_named(mods, x) {
        Some(m) => Some(m.base),
        None => symbol_address(mods, x),
    }
}

/// The bytes of `$entry`, which names a module's entry point.
pub open spec fn entry_tag() -> Seq<u8> {
    seq![0x24u8, 0x65u8, 0x6eu8, 0x74u8, 0x72u8, 0x79u8]
}

/// The address a symbol expression `b` stands for: `module!symbol`,
/// `module!$entry`, or a bare name (see `name_address`); the parts around
/// `!` are trimmed.
pub open spec fn expr_address(mods: Seq<Module>, b: Seq<u8>) -> Option<usize> {
    let p = first_of(b, 0x21);
    if p >= b.len() {
        name_address(mods, b)
    } else {
        let left = trim_bytes(b.subrange(0, p));
        let right = trim_bytes(b.subrange(p + 1, b.len() as int));
        if right.len() == 0 {
            name_address(mods, left)
        } else {
            match module_named(mods, left) {
                None => None,
                Some(m) => if right == entry_tag() {
                    checked_sum(m.base, m.entry as int)
                } else {
                    match symbol_named(m.symbols(), right) {
                        Some(s) => checked_sum(m.base, s.offset as int),
                        None => None,
                    }
                },
            }
        }
    }
}

/// Describes `addr`: the first module holding it and the nearest symbol at
/// most `max_offset` below it; without such a symbol, the offset from the
/// module base, when `max_offset` is not 0.
pub fn get_symbol(mods: &ModuleSet, addr: usize, max_offset: usize) -> (r: Option<SymbolInfo>)
    ensures
        (forall|i: int| 0 <= i < mods.modules().len() ==> !module_holds(#[trigger] mods.modules()[i], addr))
            ==> r is None,
        r matches Some(info) ==> exists|i: int|
            0 <= i < mods.modules().len() && #[trigger] mods.modules()[i].base == info.mod_base
                && module_holds(mods.modules()[i], addr) && info.module@ == mods.modules()[i].name@
                && (forall|j: int| 0 <= j < i ==> !module_holds(#[trigger] mods.modules()[j], addr))
                && if info.symbol@.len() == 0 && info.offset == addr - info.mod_base && max_offset > 0 {
                    true
                } else {
                    exists|k: int|
                        0 <= k < mods.modules()[i].symbols().len() && #[trigger] mods.modules()[i].symbols()[k].name@
                            == info.symbol@ && mods.modules()[i].symbols()[k].offset + info.offset == addr
                            - info.mod_base && info.offset <= max_offset && forall|q: int|
                            0 <= q < mods.modules()[i].symbols().len() && (#[trigger] mods.modules()[i].symbols()[q]).offset
                                <= addr - info.mod_base ==> mods.modules()[i].symbols()[q].offset
                                <= mods.modules()[i].symbols()[k].offset
                },
        r is None && max_offset > 0 ==> forall|i: int| 0 <= i < mods.modules().len() ==> !module_holds(#[trigger] mods.modules()[i], addr),
{
    let m = match mods.find_module(addr) {
        Some(m) => m,
        None => return None,
    };
    let offset = addr - m.base;
    let ghost mi = choose|i: int|
        0 <= i < mods.modules().len() && mods.modules()[i] == *m && forall|j: int|
            0 <= j < i ==> !module_holds(#[trigger] mods.modules()[j], addr);
    match m.find_symbol(offset, max_offset) {
        Some(s) => {
            let info = SymbolInfo {
                mod_base: m.base,
                offset: offset - s.offset as usize,
                module: m.name.as_str().to_owned(),
                symbol: s.name.as_str().to_owned(),
            };
            proof {
                let k = choose|k: int| 0 <= k < m.symbols().len() && m.symbols()[k] == *s;
                assert(mods.modules()[mi].symbols()[k].name@ == info.symbol@);
            }
            Some(info)
        },
        None => {
            if max_offset > 0 {
                Some(SymbolInfo { mod_base: m.base, offset, module: m.name.as_str().to_owned(), symbol: String::new() })
            } else {
                None
            }
        },
    }
}

/// The address of the symbol or module a name such as `libc!puts`,
/// `libc!$entry`, `libc` or `puts` stands for.
pub fn get_address_by_symbol(mods: &ModuleSet, symbol: &str) -> (r: Option<usize>)
    ensures
        r == expr_address(mods.modules(), symbol.spec_bytes()),
{
    let b = symbol.as_bytes();
    proof {
        lemma_first_of(b@, 0x21);
    }
    let mut p: usize = 0;
    while p < b.len()
        invariant
            p <= b@.len(),
            b@ == symbol.spec_bytes(),
            forall|j: int| 0 <= j < p ==> b@[j] != 0x21,
        ensures
            p <= b@.len(),
            forall|j: int| 0 <= j < p ==> b@[j] != 0x21,
            p < b@.len() ==> b@[p as int] == 0x21,
        decreases b@.len() - p,
    {
        if b[p] == 0x21 {
            break;
        }
        p = p + 1;
    }
    proof {
        assert(p as int == first_of(b@, 0x21));
    }
    if p == b.len() {
        return address_of_name(mods, symbol);
    }
    proof {
        vstd::utf8::encode_utf8_valid_utf8(symbol@);
        vstd::utf8::is_char_boundary_iff_not_is_continuation_byte(symbol.spec_bytes(), p as int);
    }
    let (head, tail) = symbol.split_at(p);
    proof {
        vstd::utf8::encode_utf8_valid_utf8(tail@);
        assert(tail.spec_bytes()[0] == 0x21);
        assert(vstd::utf8::length_of_first_scalar(tail.spec_bytes()) == 1);
        assert(is_char_boundary(vstd::utf8::pop_first_scalar(tail.spec_bytes()), 0));
        assert(is_char_boundary(tail.spec_bytes(), 1));
    }
    let (_, rest) = tail.split_at(1);
    let left = trim(head);
    let right = trim(rest);
    proof {
        vstd::utf8::encode_utf8_decode_utf8(head@);
        vstd::utf8::encode_utf8_decode_utf8(rest@);
        assert(rest.spec_bytes() =~= b@.subrange(p + 1, b@.len() as int));
        assert(left.spec_bytes() == trim_bytes(b@.subrange(0, p as int)));
        assert(right.spec_bytes() == trim_bytes(b@.subrange(p + 1, b@.len() as int)));
    }
    if right.as_bytes().len() == 0 {
        return address_of_name(mods, left);
    }
    let m = match mods.get_module(left) {
        Some(m) => m,
        None => return None,
    };
    proof {
        reveal_strlit("$entry");
        vstd::string::is_ascii_spec_bytes("$entry");
        assert("$entry".spec_bytes() =~= entry_tag());
    }
    if str_eq(right, "$entry") {
        return m.base.checked_add(m.entry);
    }
    match m.get_symbol(right) {
        Some(s) => m.base.checked_add(s.offset as usize),
        None => None,
    }
}

/// A bare name: a module's base, else the first symbol of that name.
fn address_of_name(mods: &ModuleSet, name: &str) -> (r: Option<usize>)
    ensures
        r == name_address(mods.modules(), name.spec_bytes()),
{
    match mods.get_module(name) {
        Some(m) => {
            return Some(m.base);
        },
        None => {},
    }
    let mut i: usize = 0;
    proof {
        assert(mods.modules().skip(0) =~= mods.modules());
    }
    while i < mods.len()
        invariant
            i <= mods.modules().len(),
            module_named(mods.modules(), name.spec_bytes()) is None,
            symbol_address(mods.modules(), name.spec_bytes()) == symbol_address(mods.modules().skip(i as int), name.spec_bytes()),
        decreases mods.modules().len() - i,
    {
        let m = mods.get(i);
        let ghost rest = mods.modules().skip(i as int);
        proof {
            assert(rest[0] == mods.modules()[i as int]);
            assert(rest.drop_first() =~= mods.modules().skip(i + 1));
        }
        match m.get_symbol(name) {
            Some(s) => {
                match m.base.checked_add(s.offset as usize) {
                    Some(a) => {
                        return Some(a);
                    },
                    None => {},
                }
            },
            None => {},
        }
        i = i + 1;
    }
    proof {
        assert(mods.modules().skip(i as int).len() == 0);
    }
    None
}

/// The main module of a target: the one holding its image base when that is
/// known, else the first whose path is the image path.
pub fn get_main_module<'a>(mods: &'a ModuleSet, image_base: usize, image_path: &str) -> (r: Option<&'a Module>)
    ensures
        r matches Some(m) ==> mods.modules().contains(*m) && (image_base > 0 ==> module_holds(*m, image_base))
            && (image_base == 0 ==> m.path@ == image_path@),
        r is None && image_base > 0 ==> forall|i: int|
            0 <= i < mods.modules().len() ==> !module_holds(#[trigger] mods.modules()[i], image_base),
        r is None && image_base == 0 ==> forall|i: int|
            0 <= i < mods.modules().len() ==> (#[trigger] mods.modules()[i]).path@ != image_path@,
{
    if image_base > 0 {
        return mods.find_module(image_base);
    }
    let mut i: usize = 0;
    while i < mods.len()
        invariant
            i <= mods.modules().len(),
            image_base == 0,
            forall|k: int| 0 <= k < i ==> (#[trigger] mods.modules()[k]).path@ != image_path@,
        decreases mods.modules().len() - i,
    {
        let m = mods.get(i);
        proof {
            vstd::utf8::encode_utf8_decode_utf8(m.path@);
            vstd::utf8::encode_utf8_decode_utf8(image_path@);
        }
        if str_eq(m.path.as_str(), image_path) {
            proof {
                vstd::utf8::encode_utf8_decode_utf8(m.path@);
                vstd::utf8::encode_utf8_decode_utf8(image_path@);
                assert(mods.modules()[i as int] == *m);
                assert(mods.modules().contains(*m));
            }
            return Some(m);
        }
        i = i + 1;
    }
    None
}

/// The value of a hexadecimal digit.
pub open spec fn hex_digit(c: u8) -> Option<nat> {
    if 0x30 <= c <= 0x39 {
        Some((c - 0x30) as nat)
    } else if 0x61 <= c <= 0x66 {
        Some((c - 0x61 + 10) as nat)
    } else if 0x41 <= c <= 0x46 {
        Some((c - 0x41 + 10) as nat)
    } else {
        None
    }
}

/// The value of a non-empty string of hexadecimal digits.
pub open spec fn hex_value(s: Seq<u8>) -> Option<nat>
    decreases s.len(),
{
    if s.len() == 0 {
        None
    } else if s.len() == 1 {
        hex_digit(s[0])
    } else {
        match (hex_value(s.drop_last()), hex_digit(s.last())) {
            (Some(v), Some(d)) => Some(v * 16 + d),
            _ => None,
        }
    }
}

/// What `usize::from_str_radix(s, 16)` gives: an optional `+`, then at least
/// one hexadecimal digit, with a value that fits.
pub open spec fn radix16(s: Seq<u8>) -> Option<usize> {
    let body = if s.len() > 0 && s[0] == 0x2b {
        s.drop_first()
    } else {
        s
    };
    match hex_value(body) {
        Some(v) => if v <= usize::MAX {
            Some(v as usize)
        } else {
            None
        },
        None => None,
    }
}

proof fn lemma_hex_value_grows(s: Seq<u8>, i: int)
    requires
        1 <= i <= s.len(),
        hex_value(s.subrange(0, i)) matches Some(v) && v > usize::MAX,
    ensures
        hex_value(s) is None || hex_value(s).unwrap() > usize::MAX,
    decreases s.len() - i,
{
    if i < s.len() {
        let t = s.subrange(0, i + 1);
        assert(t.drop_last() =~= s.subrange(0, i));
        if hex_value(t) is None {
            lemma_hex_value_none(s, i + 1);
        } else {
            let v = hex_value(s.subrange(0, i)).unwrap();
            let d = hex_digit(t.last()).unwrap();
            assert(v * 16 + d >= v) by (nonlinear_arith);
            lemma_hex_value_grows(s, i + 1);
        }
    } else {
        assert(s.subrange(0, i) =~= s);
    }
}

/// Parses hexadecimal text as `usize::from_str_radix` with radix 16 does.
pub fn parse_hex(s: &[u8]) -> (r: Option<usize>)
    ensures
        r == radix16(s@),
{
    let mut start: usize = 0;
    if s.len() > 0 && s[0] == 0x2b {
        start = 1;
    }
    let ghost body = if s@.len() > 0 && s@[0] == 0x2b {
        s@.drop_first()
    } else {
        s@
    };
    proof {
        assert(body =~= s@.subrange(start as int, s@.len() as int));
    }
    if start == s.len() {
        return None;
    }
    let mut acc: usize = 0;
    let mut i: usize = start;
    while i < s.len()
        invariant
            start < s@.len(),
            start <= i <= s@.len(),
            body =~= s@.subrange(start as int, s@.len() as int),
            body == (if s@.len() > 0 && s@[0] == 0x2b {
                s@.drop_first()
            } else {
                s@
            }),
            i > start ==> hex_value(body.subrange(0, i - start)) == Some(acc as nat),
        decreases s@.len() - i,
    {
        let c = s[i];
        let d: usize = if 0x30 <= c && c <= 0x39 {
            (c - 0x30) as usize
        } else if 0x61 <= c && c <= 0x66 {
            (c - 0x61 + 10) as usize
        } else if 0x41 <= c && c <= 0x46 {
            (c - 0x41 + 10) as usize
        } else {
            proof {
                let t = body.subrange(0, i - start + 1);
                assert(t.last() == c);
                assert(hex_digit(c) is None);
                if i - start >= 1 {
                    assert(t.drop_last() =~= body.subrange(0, i - start));
                } else {
                    assert(t[0] == c);
                }
                assert(hex_value(t) is None);
                lemma_hex_value_none(body, i - start + 1);
            }
            return None;
        };
        let ghost t = body.subrange(0, i - start + 1);
        proof {
            assert(t.last() == c);
            if i > start {
                assert(t.drop_last() =~= body.subrange(0, i - start));
            }
        }
        let next = if i == start {
            Some(d)
        } else {
            match acc.checked_mul(16) {
                Some(x) => x.checked_add(d),
                None => None,
            }
        };
        match next {
            Some(v) => {
                proof {
                    assert(hex_digit(c) == Some(d as nat));
                    if i > start {
                        assert(hex_value(t) == Some((acc as nat * 16 + d) as nat));
                    } else {
                        assert(t[0] == c);
                        assert(hex_value(t) == Some(d as nat));
                    }
                }
                acc = v;
            },
            None => {
                proof {
                    assert(i > start);
                    assert(hex_digit(c) == Some(d as nat));
                    assert(hex_value(t) == Some((acc as nat * 16 + d) as nat));
                    assert(acc as nat * 16 + d > usize::MAX);
                    lemma_hex_value_grows(body, i - start + 1);
                }
                return None;
            },
        }
        i = i + 1;
    }
    proof {
        assert(body.subrange(0, i - start) =~= body);
    }
    Some(acc)
}

proof fn lemma_hex_value_none(s: Seq<u8>, i: int)
    requires
        1 <= i <= s.len(),
        hex_value(s.subrange(0, i)) is None,
    ensures
        hex_value(s) is None,
    decreases s.len() - i,
{
    if i < s.len() {
        let t = s.subrange(0, i + 1);
        assert(t.drop_last() =~= s.subrange(0, i));
        lemma_hex_value_none(s, i + 1);
    } else {
        assert(s.subrange(0, i) =~= s);
    }
}

/// `t` without a leading `0x` or `0X`.
pub open spec fn strip_hex_prefix(t: Seq<u8>) -> Seq<u8> {
    if t.len() >= 2 && t[0] == 0x30 && (t[1] == 0x78 || t[1] == 0x58) {
        t.subrange(2, t.len() as int)
    } else {
        t
    }
}

/// The value of one term of an address expression: a register of the
/// current stop, else a hexadecimal number, else a symbol expression.
pub open spec fn term_value(regs: UserRegs, mods: Seq<Module>, t: Seq<u8>) -> Option<usize> {
    match x64_reg_named(t) {
        Some(id) => Some(regs.spec_get(id) as usize),
        None => match radix16(strip_hex_prefix(t)) {
            Some(v) => Some(v),
            None => expr_address(mods, t),
        },
    }
}

/// The value of an address expression: terms (trimmed) joined by `+`.
pub open spec fn address_value(regs: UserRegs, mods: Seq<Module>, b: Seq<u8>) -> Option<usize>
    decreases b.len(),
{
    let p = first_of(b, 0x2b);
    if p < 0 || p >= b.len() {
        term_value(regs, mods, trim_bytes(b))
    } else {
        match term_value(regs, mods, trim_bytes(b.subrange(0, p))) {
            None => None,
            Some(v) => match address_value(regs, mods, b.subrange(p + 1, b.len() as int)) {
                Some(w) => checked_sum(v, w as int),
                None => None,
            },
        }
    }
}

fn term_of(regs: &UserRegs, mods: &ModuleSet, t: &str) -> (r: Option<usize>)
    ensures
        r == term_value(*regs, mods.modules(), t.spec_bytes()),
{
    match crate::regs::x64_reg_id(t) {
        Some(id) => return Some(regs.get(id) as usize),
        None => {},
    }
    let b = t.as_bytes();
    let digits = if b.len() >= 2 && b[0] == 0x30 && (b[1] == 0x78 || b[1] == 0x58) {
        vstd::slice::slice_subrange(b, 2, b.len())
    } else {
        b
    };
    match parse_hex(digits) {
        Some(v) => Some(v),
        None => get_address_by_symbol(mods, t),
    }
}

/// Evaluates an address expression such as `rip+10`, `0x401000`,
/// `libc!puts+4`: registers of the current stop, hexadecimal numbers and
/// symbol expressions, joined by `+`; `None` when a term means nothing or the
/// sum overflows.
pub fn parse_address(regs: &UserRegs, mods: &ModuleSet, symbol: &str) -> (r: Option<usize>)
    ensures
        r == address_value(*regs, mods.modules(), symbol.spec_bytes()),
    decreases symbol.spec_bytes().len(),
{
    let b = symbol.as_bytes();
    proof {
        lemma_first_of(b@, 0x2b);
    }
    let mut p: usize = 0;
    while p < b.len()
        invariant
            p <= b@.len(),
            b@ == symbol.spec_bytes(),
            forall|j: int| 0 <= j < p ==> b@[j] != 0x2b,
        ensures
            p <= b@.len(),
            forall|j: int| 0 <= j < p ==> b@[j] != 0x2b,
            p < b@.len() ==> b@[p as int] == 0x2b,
        decreases b@.len() - p,
    {
        if b[p] == 0x2b {
            break;
        }
        p = p + 1;
    }
    proof {
        assert(p as int == first_of(b@, 0x2b));
        vstd::utf8::encode_utf8_decode_utf8(symbol@);
    }
    if p == b.len() {
        let whole = trim(symbol);
        return term_of(regs, mods, whole);
    }
    proof {
        vstd::utf8::encode_utf8_valid_utf8(symbol@);
        vstd::utf8::is_char_boundary_iff_not_is_continuation_byte(symbol.spec_bytes(), p as int);
    }
    let (head, tail) = symbol.split_at(p);
    proof {
        vstd::utf8::encode_utf8_valid_utf8(tail@);
        assert(tail.spec_bytes()[0] == 0x2b);
        assert(vstd::utf8::length_of_first_scalar(tail.spec_bytes()) == 1);
        assert(is_char_boundary(vstd::utf8::pop_first_scalar(tail.spec_bytes()), 0));
        assert(is_char_boundary(tail.spec_bytes(), 1));
    }
    let (_, rest) = tail.split_at(1);
    let left = trim(head);
    proof {
        vstd::utf8::encode_utf8_decode_utf8(head@);
        assert(rest.spec_bytes() =~= b@.subrange(p + 1, b@.len() as int));
        assert(left.spec_bytes() == trim_bytes(b@.subrange(0, p as int)));
    }
    let v = match term_of(regs, mods, left) {
        Some(v) => v,
        None => return None,
    };
    match parse_address(regs, mods, rest) {
        Some(w) => v.checked_add(w),
        None => None,
    }
}

} // verus!
