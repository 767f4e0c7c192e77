//! Naming and recognising the modules a target maps.
use vstd::prelude::*;
use vstd::string::StringSliceAdditionalSpecFns;
use vstd::utf8::{is_char_boundary, valid_utf8};

verus! {

/// Whether two strings hold the same bytes.
pub fn str_eq(a: &str, b: &str) -> (r: bool)
    ensures
        r == (a.spec_bytes() == b.spec_bytes()),
{
    let x = a.as_bytes();
    let y = b.as_bytes();
    if x.len() != y.len() {
        return false;
    }
    let mut i: usize = 0;
    while i < x.len()
        invariant
            i <= x@.len(),
            x@.len() == y@.len(),
            x@ == a.spec_bytes(),
            y@ == b.spec_bytes(),
            forall|j: int| 0 <= j < i ==> x@[j] == y@[j],
        decreases x@.len() - i,
    {
        if x[i] != y[i] {
            return false;
        }
        i = i + 1;
    }
    proof {
        assert(x@ =~= y@);
    }
    true
}

/// Where the leftmost `-` followed by a decimal digit starts in `name`, as
/// a byte offset.
pub uninterp spec fn version_dash(name: Seq<char>) -> Option<usize>;

/// Relies on `regex::Regex::find` with the pattern `-\d`: the leftmost match
/// depends on the text alone, and its start is a character boundary of the
/// text.
#[verifier::external_body]
fn find_version_dash(name: &str) -> (r: Option<usize>)
    ensures
        r == version_dash(name@),
        r matches Some(p) ==> p <= name.spec_bytes().len() && is_char_boundary(name.spec_bytes(), p as int),
{
    regex::Regex::new(r"-\d").unwrap().find(name).map(|m| m.start())
}

/// Where `name` is cut to drop a version suffix.
pub open spec fn ver_cut(name: &str) -> int {
    match version_dash(name@) {
        Some(p) => p as int,
        None => name.spec_bytes().len() as int,
    }
}

/// The first position of byte `c` in `b`, or the length.
pub open spec fn first_of(b: Seq<u8>, c: u8) -> int
    decreases b.len(),
{
    if b.len() == 0 {
        0
    } else if b[0] == c {
        0
    } else {
        1 + first_of(b.drop_first(), c)
    }
}

/// The last position of byte `c` in `b`, or -1.
pub open spec fn last_of(b: Seq<u8>, c: u8) -> int
    decreases b.len(),
{
    if b.len() == 0 {
        -1
    } else if b.last() == c {
        b.len() - 1
    } else {
        last_of(b.drop_last(), c)
    }
}

/// Where `b` is cut to drop its last extension.
pub open spec fn last_cut(b: Seq<u8>) -> int {
    if last_of(b, 0x2e) < 0 {
        b.len() as int
    } else {
        last_of(b, 0x2e)
    }
}

pub proof fn lemma_first_of(b: Seq<u8>, c: u8)
    ensures
        0 <= first_of(b, c) <= b.len(),
        forall|j: int| 0 <= j < first_of(b, c) ==> b[j] != c,
        first_of(b, c) < b.len() ==> b[first_of(b, c)] == c,
    decreases b.len(),
{
    if b.len() > 0 && b[0] != c {
        lemma_first_of(b.drop_first(), c);
        assert forall|j: int| 0 <= j < first_of(b, c) implies b[j] != c by {
            if j > 0 {
                assert(b[j] == b.drop_first()[j - 1]);
            }
        }
    }
}

proof fn lemma_last_of(b: Seq<u8>, c: u8)
    ensures
        -1 <= last_of(b, c) < b.len(),
        last_of(b, c) >= 0 ==> b[last_of(b, c)] == c,
        forall|j: int| last_of(b, c) < j < b.len() ==> b[j] != c,
    decreases b.len(),
{
    if b.len() > 0 && b.last() != c {
        lemma_last_of(b.drop_last(), c);
        assert forall|j: int| last_of(b, c) < j < b.len() implies b[j] != c by {
            if j < b.len() - 1 {
                assert(b[j] == b.drop_last()[j]);
            }
        }
    }
}

/// The part of a string's bytes before `cut`.
pub open spec fn cut_at(s: &str, cut: int) -> Seq<u8> {
    s.spec_bytes().subrange(0, cut)
}

proof fn lemma_ascii_boundary(s: &str, i: int)
    requires
        0 <= i < s.spec_bytes().len(),
        s.spec_bytes()[i] < 0x80,
    ensures
        is_char_boundary(s.spec_bytes(), i),
{
    vstd::utf8::encode_utf8_valid_utf8(s@);
    vstd::utf8::is_char_boundary_iff_not_is_continuation_byte(s.spec_bytes(), i);
}

/// `name` without a version suffix (`libc-2.31.so` becomes `libc`).
pub fn trim_ver(name: &str) -> (r: &str)
    ensures
        0 <= ver_cut(name) <= name.spec_bytes().len(),
        r.spec_bytes() == cut_at(name, ver_cut(name)),
{
    match find_version_dash(name) {
        Some(p) => {
            let (a, _) = name.split_at(p);
            a
        },
        None => {
            proof {
                assert(name.spec_bytes().subrange(0, name.spec_bytes().len() as int) =~= name.spec_bytes());
            }
            name
        },
    }
}

/// `name` up to its first `.`.
pub fn trim_allext(name: &str) -> (r: &str)
    ensures
        0 <= first_of(name.spec_bytes(), 0x2e) <= name.spec_bytes().len(),
        r.spec_bytes() == cut_at(name, first_of(name.spec_bytes(), 0x2e)),
{
    let b = name.as_bytes();
    proof {
        lemma_first_of(b@, 0x2e);
    }
    let mut i: usize = 0;
    while i < b.len()
        invariant
            i <= b@.len(),
            b@ == name.spec_bytes(),
            forall|j: int| 0 <= j < i ==> b@[j] != 0x2e,
        ensures
            i <= b@.len(),
            forall|j: int| 0 <= j < i ==> b@[j] != 0x2e,
            i < b@.len() ==> b@[i as int] == 0x2e,
        decreases b@.len() - i,
    {
        if b[i] == 0x2e {
            break;
        }
        i = i + 1;
    }
    proof {
        if i < b@.len() {
            lemma_ascii_boundary(name, i as int);
        } else {
            vstd::utf8::encode_utf8_valid_utf8(name@);
            vstd::utf8::is_char_boundary_start_end_of_seq(name.spec_bytes());
        }
        assert(i as int == first_of(b@, 0x2e));
    }
    let (a, _) = name.split_at(i);
    a
}

/// `name` up to its last `.`.
pub fn trim_lastext(name: &str) -> (r: &str)
    ensures
        0 <= last_cut(name.spec_bytes()) <= name.spec_bytes().len(),
        r.spec_bytes() == cut_at(name, last_cut(name.spec_bytes())),
{
    let b = name.as_bytes();
    proof {
        lemma_last_of(b@, 0x2e);
    }
    let mut i: usize = b.len();
    while i > 0
        invariant
            i <= b@.len(),
            b@ == name.spec_bytes(),
            forall|j: int| i <= j < b@.len() ==> b@[j] != 0x2e,
        ensures
            i <= b@.len(),
            forall|j: int| i <= j < b@.len() ==> b@[j] != 0x2e,
            i > 0 ==> b@[i - 1] == 0x2e,
        decreases i,
    {
        if b[i - 1] == 0x2e {
            break;
        }
        i = i - 1;
    }
    let cut = if i > 0 {
        i - 1
    } else {
        b.len()
    };
    proof {
        if i > 0 {
            lemma_ascii_boundary(name, cut as int);
            assert(last_of(b@, 0x2e) == cut);
        } else {
            vstd::utf8::encode_utf8_valid_utf8(name@);
            vstd::utf8::is_char_boundary_start_end_of_seq(name.spec_bytes());
            if last_of(b@, 0x2e) >= 0 {
                assert(b@[last_of(b@, 0x2e)] == 0x2e);
            }
        }
    }
    let (a, _) = name.split_at(cut);
    a
}

/// Where the file name of a path starts: after its last `/`.
pub open spec fn file_name_start(b: Seq<u8>) -> int {
    last_of(b, 0x2f) + 1
}

/// The file name of an image path: what follows its last `/`.
pub fn image_name(path: &str) -> (r: &str)
    ensures
        0 <= file_name_start(path.spec_bytes()) <= path.spec_bytes().len(),
        r.spec_bytes() == path.spec_bytes().subrange(
            file_name_start(path.spec_bytes()),
            path.spec_bytes().len() as int,
        ),
{
    let b = path.as_bytes();
    proof {
        lemma_last_of(b@, 0x2f);
    }
    let mut i: usize = b.len();
    while i > 0
        invariant
            i <= b@.len(),
            b@ == path.spec_bytes(),
            forall|j: int| i <= j < b@.len() ==> b@[j] != 0x2f,
        ensures
            i <= b@.len(),
            forall|j: int| i <= j < b@.len() ==> b@[j] != 0x2f,
            i > 0 ==> b@[i - 1] == 0x2f,
        decreases i,
    {
        if b[i - 1] == 0x2f {
            break;
        }
        i = i - 1;
    }
    if i == 0 {
        proof {
            if last_of(b@, 0x2f) >= 0 {
                assert(b@[last_of(b@, 0x2f)] == 0x2f);
            }
            assert(b@.subrange(0, b@.len() as int) =~= b@);
        }
        return path;
    }
    proof {
        assert(last_of(b@, 0x2f) == i - 1);
        lemma_ascii_boundary(path, i - 1);
    }
    let (_, tail) = path.split_at(i - 1);
    proof {
        vstd::utf8::encode_utf8_valid_utf8(tail@);
        assert(tail.spec_bytes()[0] == 0x2f);
        assert(vstd::utf8::length_of_first_scalar(tail.spec_bytes()) == 1);
        assert(is_char_boundary(vstd::utf8::pop_first_scalar(tail.spec_bytes()), 0));
        assert(is_char_boundary(tail.spec_bytes(), 1));
    }
    let (_, rest) = tail.split_at(1);
    proof {
        assert(rest.spec_bytes() =~= b@.subrange(i as int, b@.len() as int));
    }
    rest
}

/// Some registered name has the bytes `x`.
pub open spec fn taken(reg: Seq<String>, x: Seq<u8>) -> bool {
    exists|i: int| 0 <= i < reg.len() && vstd::utf8::encode_utf8(#[trigger] reg[i]@) == x
}

fn is_taken(reg: &Vec<String>, x: &str) -> (r: bool)
    ensures
        r == taken(reg@, x.spec_bytes()),
{
    let mut i: usize = 0;
    while i < reg.len()
        invariant
            i <= reg@.len(),
            forall|j: int| 0 <= j < i ==> vstd::utf8::encode_utf8(#[trigger] reg@[j]@) != x.spec_bytes(),
        decreases reg@.len() - i,
    {
        if str_eq(reg[i].as_str(), x) {
            return true;
        }
        i = i + 1;
    }
    false
}

/// The name a module file gets: without version suffix when that is
/// shorter than without extensions and still free, else without extensions,
/// else without its last extension, else the file name itself.
pub open spec fn module_name_spec(name: &str, reg: Seq<String>) -> Seq<u8> {
    let tv = cut_at(name, ver_cut(name));
    let te = cut_at(name, first_of(name.spec_bytes(), 0x2e));
    let tl = cut_at(name, last_cut(name.spec_bytes()));
    if tv.len() < te.len() && !taken(reg, tv) {
        tv
    } else if !taken(reg, te) {
        te
    } else if !taken(reg, tl) {
        tl
    } else {
        name.spec_bytes()
    }
}

/// Picks the name for a module file, given the names already registered.
pub fn module_name<'a>(name: &'a str, registered: &Vec<String>) -> (r: &'a str)
    ensures
        r.spec_bytes() == module_name_spec(name, registered@),
        r.spec_bytes().len() <= name.spec_bytes().len(),
        r.spec_bytes() == name.spec_bytes().subrange(0, r.spec_bytes().len() as int),
{
    let tv = trim_ver(name);
    let te = trim_allext(name);
    proof {
        assert(tv.spec_bytes() == cut_at(name, ver_cut(name)));
        assert(te.spec_bytes() == cut_at(name, first_of(name.spec_bytes(), 0x2e)));
    }
    if tv.as_bytes().len() < te.as_bytes().len() && !is_taken(registered, tv) {
        return tv;
    }
    if !is_taken(registered, te) {
        return te;
    }
    let tl = trim_lastext(name);
    if !is_taken(registered, tl) {
        return tl;
    }
    name
}

/// `name` ends with the ASCII text `ext`.
pub open spec fn ends_with(name: Seq<u8>, ext: Seq<char>) -> bool {
    name.len() >= ext.len() && forall|i: int|
        0 <= i < ext.len() ==> #[trigger] name[name.len() - ext.len() + i] == ext[i] as u8
}

fn has_suffix(name: &str, ext: &str) -> (r: bool)
    requires
        vstd::string::is_ascii(ext),
    ensures
        r == ends_with(name.spec_bytes(), ext@),
{
    proof {
        vstd::string::is_ascii_spec_bytes(ext);
    }
    let n = name.as_bytes();
    let e = ext.as_bytes();
    if n.len() < e.len() {
        return false;
    }
    let off = n.len() - e.len();
    let mut i: usize = 0;
    while i < e.len()
        invariant
            i <= e@.len(),
            off + e@.len() == n@.len(),
            n@ == name.spec_bytes(),
            e@ == Seq::new(ext@.len(), |j: int| ext@[j] as u8),
            e@.len() == ext@.len(),
            n@.len() <= usize::MAX,
            forall|j: int| 0 <= j < i ==> #[trigger] n@[off + j] == e@[j],
        decreases e@.len() - i,
    {
        if n[off + i] != e[i] {
            proof {
                assert(name.spec_bytes()[name.spec_bytes().len() - ext@.len() + i] != e@[i as int]);
            }
            return false;
        }
        i = i + 1;
    }
    proof {
        assert forall|j: int| 0 <= j < ext@.len() implies #[trigger] name.spec_bytes()[name.spec_bytes().len() - ext@.len() + j] == ext@[j] as u8 by {
            assert(n@[off + j] == e@[j]);
        }
    }
    true
}

/// Image files that are never loaded as modules: compiled `.oat` and
/// packaged `.apk` files.
pub open spec fn skipped_image(name: Seq<u8>) -> bool {
    ends_with(name, seq!['.', 'o', 'a', 't']) || ends_with(name, seq!['.', 'a', 'p', 'k'])
}

pub fn is_skipped_image(name: &str) -> (r: bool)
    ensures
        r == skipped_image(name.spec_bytes()),
{
    proof {
        reveal_strlit(".oat");
        reveal_strlit(".apk");
        assert(".oat"@ =~= seq!['.', 'o', 'a', 't']);
        assert(".apk"@ =~= seq!['.', 'a', 'p', 'k']);
    }
    has_suffix(name, ".oat") || has_suffix(name, ".apk")
}

} // verus!

verus! {

pub const EM_386: u16 = 3;
pub const EM_ARM: u16 = 40;
pub const EM_X86_64: u16 = 62;
pub const EM_AARCH64: u16 = 183;

/// The architectures a module image can be built for.
#[derive(Clone, Copy, Debug, PartialEq, Eq, Structural)]
pub enum ElfArch {
    X86,
    X86_64,
    Arm,
    Arm64,
}

impl ElfArch {
    pub fn name(&self) -> (r: &'static str) {
        match self {
            ElfArch::X86 => "x86",
            ElfArch::X86_64 => "x86_64",
            ElfArch::Arm => "arm",
            ElfArch::Arm64 => "arm64",
        }
    }

    pub open spec fn is_64(self) -> bool {
        self == ElfArch::X86_64 || self == ElfArch::Arm64
    }
}

/// The architecture an ELF `e_machine` value names.
pub open spec fn arch_of_machine(m: u16) -> Option<ElfArch> {
    if m == EM_386 {
        Some(ElfArch::X86)
    } else if m == EM_X86_64 {
        Some(ElfArch::X86_64)
    } else if m == EM_ARM {
        Some(ElfArch::Arm)
    } else if m == EM_AARCH64 {
        Some(ElfArch::Arm64)
    } else {
        None
    }
}

pub fn elf_arch(m: u16) -> (r: Option<ElfArch>)
    ensures
        r == arch_of_machine(m),
{
    if m == EM_386 {
        Some(ElfArch::X86)
    } else if m == EM_X86_64 {
        Some(ElfArch::X86_64)
    } else if m == EM_ARM {
        Some(ElfArch::Arm)
    } else if m == EM_AARCH64 {
        Some(ElfArch::Arm64)
    } else {
        None
    }
}

/// The size of a 64-bit ELF header, which is read to learn about a module.
pub const ELF_HEADER_SIZE: usize = 64;

/// The architecture and entry-point offset an ELF header gives: `e_machine`
/// is the little-endian half-word at 18, `e_entry` the word at 24 (eight
/// bytes in a 64-bit header, four in a 32-bit one).
pub open spec fn header_info(h: Seq<u8>) -> Option<(ElfArch, u64)> {
    if h.len() < ELF_HEADER_SIZE {
        None
    } else {
        match arch_of_machine(vstd::bytes::spec_u16_from_le_bytes(h.subrange(18, 20))) {
            Some(a) => Some(
                (
                    a,
                    if a.is_64() {
                        vstd::bytes::spec_u64_from_le_bytes(h.subrange(24, 32))
                    } else {
                        vstd::bytes::spec_u32_from_le_bytes(h.subrange(24, 28)) as u64
                    },
                ),
            ),
            None => None,
        }
    }
}

pub fn module_header_info(h: &[u8]) -> (r: Option<(ElfArch, u64)>)
    ensures
        r == header_info(h@),
{
    if h.len() < ELF_HEADER_SIZE {
        return None;
    }
    let machine = vstd::bytes::u16_from_le_bytes(vstd::slice::slice_subrange(h, 18, 20));
    let arch = match elf_arch(machine) {
        Some(a) => a,
        None => return None,
    };
    let entry = match arch {
        ElfArch::X86_64 | ElfArch::Arm64 => vstd::bytes::u64_from_le_bytes(
            vstd::slice::slice_subrange(h, 24, 32),
        ),
        ElfArch::X86 | ElfArch::Arm => vstd::bytes::u32_from_le_bytes(
            vstd::slice::slice_subrange(h, 24, 28),
        ) as u64,
    };
    Some((arch, entry))
}

} // verus!

verus! {

/// A symbol flag: the symbol is a function.
pub const SYM_FUNCTION: u32 = 1;

/// A symbol of a module, at an offset from the module's base.
#[derive(Clone, Debug)]
pub struct Symbol {
    pub offset: u32,
    pub name: String,
    pub flags: u32,
    pub len: u32,
}

/// Names the symbol table leaves out: mapping symbols such as `$x.12`.
pub open spec fn mapping_symbol(name: Seq<u8>) -> bool {
    name.len() >= 3 && name[0] == 0x24 && name[1] == 0x78 && name[2] == 0x2e
}

/// A loaded module: its image, where it is mapped and its symbols, at most
/// one per offset.
#[derive(Clone, Debug)]
pub struct Module {
    pub name: String,
    pub path: String,
    pub base: usize,
    pub size: usize,
    pub arch: ElfArch,
    pub entry: usize,
    pub loaded: bool,
    pub syms: Vec<Symbol>,
}

impl Module {
    pub open spec fn symbols(&self) -> Seq<Symbol> {
        self.syms@
    }

    /// At most one symbol per offset.
    pub open spec fn wf(&self) -> bool {
        forall|i: int, j: int|
            0 <= i < self.syms@.len() && 0 <= j < self.syms@.len() && i != j ==> #[trigger] self.syms@[i].offset
                != #[trigger] self.syms@[j].offset
    }

    pub fn new(name: String, path: String, base: usize, size: usize, arch: ElfArch, entry: usize) -> (r: Module)
        ensures
            r.wf(),
            r.name@ == name@,
            r.path@ == path@,
            r.base == base,
            r.size == size,
            r.arch == arch,
            r.entry == entry,
            !r.loaded,
            r.symbols() == Seq::<Symbol>::empty(),
    {
        let r = Module { name, path, base, size, arch, entry, loaded: false, syms: Vec::new() };
        proof {
            assert(r.syms@ =~= Seq::<Symbol>::empty());
        }
        r
    }

    /// The position of the symbol at `offset`, if there is one.
    fn symbol_at(&self, offset: u32) -> (r: Option<usize>)
        ensures
            r matches Some(i) ==> i < self.symbols().len() && self.symbols()[i as int].offset == offset,
            r is None ==> forall|i: int| 0 <= i < self.symbols().len() ==> (#[trigger] self.symbols()[i]).offset != offset,
    {
        let mut i: usize = 0;
        while i < self.syms.len()
            invariant
                i <= self.syms@.len(),
                forall|j: int| 0 <= j < i ==> (#[trigger] self.syms@[j]).offset != offset,
            decreases self.syms@.len() - i,
        {
            if self.syms[i].offset == offset {
                return Some(i);
            }
            i = i + 1;
        }
        None
    }

    /// Adds a symbol unless it is a mapping symbol or its offset already has
    /// one (the first symbol at an offset stays). True when it was added.
    pub fn add_symbol(&mut self, sym: Symbol) -> (r: bool)
        requires
            old(self).wf(),
        ensures
            final(self).wf(),
            r == (!mapping_symbol(vstd::utf8::encode_utf8(sym.name@)) && forall|i: int|
                0 <= i < old(self).symbols().len() ==> (#[trigger] old(self).symbols()[i]).offset != sym.offset),
            final(self).symbols() == (if r {
                old(self).symbols().push(sym)
            } else {
                old(self).symbols()
            }),
            final(self).name == old(self).name,
            final(self).base == old(self).base,
            final(self).size == old(self).size,
            final(self).entry == old(self).entry,
    {
        let b = sym.name.as_str().as_bytes();
        if b.len() >= 3 && b[0] == 0x24 && b[1] == 0x78 && b[2] == 0x2e {
            return false;
        }
        if self.symbol_at(sym.offset).is_some() {
            return false;
        }
        let ghost before = self.syms@;
        self.syms.push(sym);
        proof {
            assert forall|i: int, j: int|
                0 <= i < self.syms@.len() && 0 <= j < self.syms@.len() && i != j implies #[trigger] self.syms@[i].offset
                != #[trigger] self.syms@[j].offset by {
                if i < before.len() && j < before.len() {
                    assert(before[i].offset != before[j].offset);
                } else if i < before.len() {
                    assert(before[i].offset != self.syms@[j].offset);
                } else {
                    assert(before[j].offset != self.syms@[i].offset);
                }
            }
        }
        true
    }

    /// The first symbol called `name`.
    pub fn get_symbol(&self, name: &str) -> (r: Option<&Symbol>)
        ensures
            r matches Some(sym) ==> symbol_named(self.symbols(), name.spec_bytes()) == Some(*sym),
            r is None ==> symbol_named(self.symbols(), name.spec_bytes()) is None,
    {
        let mut i: usize = 0;
        proof {
            assert(self.syms@.skip(0) =~= self.syms@);
        }
        while i < self.syms.len()
            invariant
                i <= self.syms@.len(),
                symbol_named(self.syms@, name.spec_bytes()) == symbol_named(self.syms@.skip(i as int), name.spec_bytes()),
            decreases self.syms@.len() - i,
        {
            let ghost rest = self.syms@.skip(i as int);
            proof {
                assert(rest[0] == self.syms@[i as int]);
                assert(rest.drop_first() =~= self.syms@.skip(i + 1));
            }
            if str_eq(self.syms[i].name.as_str(), name) {
                return Some(&self.syms[i]);
            }
            i = i + 1;
        }
        proof {
            assert(self.syms@.skip(i as int).len() == 0);
        }
        None
    }

    /// The symbol nearest below `offset` (or at it), when `offset` is at
    /// most `max_offset` past it.
    pub fn find_symbol(&self, offset: usize, max_offset: usize) -> (r: Option<&Symbol>)
        ensures
            r matches Some(s) ==> self.symbols().contains(*s) && s.offset <= offset && offset - s.offset
                <= max_offset && forall|i: int|
                0 <= i < self.symbols().len() && (#[trigger] self.symbols()[i]).offset <= offset ==> self.symbols()[i].offset <= s.offset,
            r is None ==> forall|i: int|
                0 <= i < self.symbols().len() && (#[trigger] self.symbols()[i]).offset <= offset ==> offset - self.symbols()[i].offset > max_offset,
    {
        let mut best: Option<usize> = None;
        let mut i: usize = 0;
        while i < self.syms.len()
            invariant
                i <= self.syms@.len(),
                best matches Some(k) ==> k < i && self.syms@[k as int].offset <= offset && forall|j: int|
                    0 <= j < i && (#[trigger] self.syms@[j]).offset <= offset ==> self.syms@[j].offset <= self.syms@[k as int].offset,
                best is None ==> forall|j: int| 0 <= j < i ==> (#[trigger] self.syms@[j]).offset > offset,
            decreases self.syms@.len() - i,
        {
            let o = self.syms[i].offset as usize;
            if o <= offset {
                match best {
                    Some(k) => {
                        if self.syms[k].offset < self.syms[i].offset {
                            best = Some(i);
                        }
                    },
                    None => {
                        best = Some(i);
                    },
                }
            }
            i = i + 1;
        }
        match best {
            Some(k) => {
                if offset - (self.syms[k].offset as usize) <= max_offset {
                    Some(&self.syms[k])
                } else {
                    None
                }
            },
            None => None,
        }
    }
}

/// The first symbol of `syms` whose name has the bytes `x`.
pub open spec fn symbol_named(syms: Seq<Symbol>, x: Seq<u8>) -> Option<Symbol>
    decreases syms.len(),
{
    if syms.len() == 0 {
        None
    } else if vstd::utf8::encode_utf8(syms[0].name@) == x {
        Some(syms[0])
    } else {
        symbol_named(syms.drop_first(), x)
    }
}

/// The first module of `mods` whose name has the bytes `x`.
pub open spec fn module_named(mods: Seq<Module>, x: Seq<u8>) -> Option<Module>
    decreases mods.len(),
{
    if mods.len() == 0 {
        None
    } else if vstd::utf8::encode_utf8(mods[0].name@) == x {
        Some(mods[0])
    } else {
        module_named(mods.drop_first(), x)
    }
}

/// `a` lies in module `m`.
pub open spec fn module_holds(m: Module, a: usize) -> bool {
    m.base <= a && a - m.base < m.size
}

/// The loaded modules of a target.
pub struct ModuleSet {
    mods: Vec<Module>,
}

impl ModuleSet {
    pub closed spec fn modules(&self) -> Seq<Module> {
        self.mods@
    }

    pub fn new() -> (r: ModuleSet)
        ensures
            r.modules() == Seq::<Module>::empty(),
    {
        let r = ModuleSet { mods: Vec::new() };
        proof {
            assert(r.mods@ =~= Seq::<Module>::empty());
        }
        r
    }

    pub fn add(&mut self, m: Module)
        ensures
            final(self).modules() == old(self).modules().push(m),
    {
        self.mods.push(m);
    }

    pub fn len(&self) -> (r: usize)
        ensures
            r == self.modules().len(),
    {
        self.mods.len()
    }

    pub fn get(&self, i: usize) -> (r: &Module)
        requires
            i < self.modules().len(),
        ensures
            *r == self.modules()[i as int],
    {
        &self.mods[i]
    }

    /// The first module that holds `address`.
    pub fn find_module(&self, address: usize) -> (r: Option<&Module>)
        ensures
            r matches Some(m) ==> module_holds(*m, address) && exists|i: int|
                0 <= i < self.modules().len() && self.modules()[i] == *m && forall|j: int|
                    0 <= j < i ==> !module_holds(#[trigger] self.modules()[j], address),
            r is None ==> forall|i: int| 0 <= i < self.modules().len() ==> !module_holds(#[trigger] self.modules()[i], address),
    {
        let mut i: usize = 0;
        while i < self.mods.len()
            invariant
                i <= self.mods@.len(),
                forall|j: int| 0 <= j < i ==> !module_holds(#[trigger] self.mods@[j], address),
            decreases self.mods@.len() - i,
        {
            let m = &self.mods[i];
            if m.base <= address && address - m.base < m.size {
                proof {
                    let k = i as int;
                    assert(0 <= k < self.modules().len() && self.modules()[k] == *m && forall|j: int|
                        0 <= j < k ==> !module_holds(#[trigger] self.modules()[j], address));
                }
                return Some(m);
            }
            i = i + 1;
        }
        None
    }

    /// The first module called `name`.
    pub fn get_module(&self, name: &str) -> (r: Option<&Module>)
        ensures
            r matches Some(m) ==> module_named(self.modules(), name.spec_bytes()) == Some(*m),
            r is None ==> module_named(self.modules(), name.spec_bytes()) is None,
    {
        let mut i: usize = 0;
        proof {
            assert(self.mods@.skip(0) =~= self.mods@);
        }
        while i < self.mods.len()
            invariant
                i <= self.mods@.len(),
                module_named(self.mods@, name.spec_bytes()) == module_named(self.mods@.skip(i as int), name.spec_bytes()),
            decreases self.mods@.len() - i,
        {
            let ghost rest = self.mods@.skip(i as int);
            proof {
                assert(rest[0] == self.mods@[i as int]);
                assert(rest.drop_first() =~= self.mods@.skip(i + 1));
            }
            if str_eq(self.mods[i].name.as_str(), name) {
                return Some(&self.mods[i]);
            }
            i = i + 1;
        }
        proof {
            assert(self.mods@.skip(i as int).len() == 0);
        }
        None
    }

    /// The names of the modules, in order.
    pub fn names(&self) -> (r: Vec<String>)
        ensures
            r@.len() == self.modules().len(),
            forall|i: int| 0 <= i < r@.len() ==> (#[trigger] r@[i])@ == self.modules()[i].name@,
    {
        let mut r: Vec<String> = Vec::new();
        let mut i: usize = 0;
        while i < self.mods.len()
            invariant
                i <= self.mods@.len(),
                r@.len() == i,
                forall|j: int| 0 <= j < i ==> (#[trigger] r@[j])@ == self.mods@[j].name@,
            decreases self.mods@.len() - i,
        {
            r.push(self.mods[i].name.as_str().to_owned());
            i = i + 1;
        }
        r
    }

    /// Whether a mapped image at `base` called `image_name` should be loaded
    /// as a new module: nothing is loaded there yet and it is not an `.oat`
    /// or `.apk` image.
    pub fn admits(&self, base: usize, image_name: &str) -> (r: bool)
        ensures
            r == (!skipped_image(image_name.spec_bytes()) && forall|i: int|
                0 <= i < self.modules().len() ==> !module_holds(#[trigger] self.modules()[i], base)),
    {
        if is_skipped_image(image_name) {
            return false;
        }
        self.find_module(base).is_none()
    }
}

/// The entry point of the module mapped at `base`, from the ELF header in
/// memory there: 0 when the header cannot be read, `base` itself when it
/// names no known architecture (or the sum overflows).
pub fn get_module_entry<M: crate::memory::ReadMemory>(mem: &M, base: usize) -> (r: usize)
    ensures
        r == (match crate::memory::read_spec(mem.readable(), base as int, ELF_HEADER_SIZE as nat) {
            None => 0,
            Some(h) => match header_info(h) {
                Some((_, e)) => if base + e <= usize::MAX {
                    (base + e) as usize
                } else {
                    base
                },
                None => base,
            },
        }),
{
    let h = crate::memory::ReadMemoryUtils::read_bytes(mem, base, ELF_HEADER_SIZE);
    proof {
        crate::memory::lemma_run_len_bound(mem.readable().dom(), base as int, ELF_HEADER_SIZE as nat);
    }
    if h.len() == 0 {
        return 0;
    }
    match module_header_info(h.as_slice()) {
        Some((_, e)) => {
            if e <= (usize::MAX - base) as u64 {
                base + e as usize
            } else {
                base
            }
        },
        None => base,
    }
}

/// The symbols an ELF image lists, static ones first, then dynamic ones:
/// value, name, whether it is a function, size; `None` when the image does
/// not parse.
pub uninterp spec fn elf_symbols_of(image: Seq<u8>) -> Option<Seq<(u64, String, bool, u64)>>;

/// Relies on `goblin::elf::Elf::parse`: the symbol tables it reads depend on
/// the image bytes alone.
#[verifier::external_body]
fn elf_symbols(image: &[u8]) -> (r: Option<Vec<(u64, String, bool, u64)>>)
    ensures
        match r {
            Some(v) => elf_symbols_of(image@) == Some(v@),
            None => elf_symbols_of(image@) is None,
        },
{
    let elf = goblin::elf::Elf::parse(image).ok()?;
    let mut out = Vec::new();
    for (syms, strtab) in [(&elf.syms, &elf.strtab), (&elf.dynsyms, &elf.dynstrtab)] {
        for s in syms.iter() {
            let name = strtab.get_at(s.st_name).unwrap_or("").to_string();
            out.push((s.st_value, name, s.is_function(), s.st_size));
        }
    }
    Some(out)
}

/// The symbol an ELF table entry becomes.
pub open spec fn to_symbol_spec(e: (u64, String, bool, u64)) -> Symbol {
    Symbol { offset: e.0 as u32, name: e.1, flags: if e.2 { SYM_FUNCTION } else { 0 }, len: e.3 as u32 }
}

/// Whether `add_symbol` takes `sym` into a table holding `syms`.
pub open spec fn takes_symbol(syms: Seq<Symbol>, sym: Symbol) -> bool {
    !mapping_symbol(vstd::utf8::encode_utf8(sym.name@)) && forall|i: int|
        0 <= i < syms.len() ==> (#[trigger] syms[i]).offset != sym.offset
}

/// The table after adding the named entries of `es` one by one.
pub open spec fn with_symbols(syms: Seq<Symbol>, es: Seq<(u64, String, bool, u64)>) -> Seq<Symbol>
    decreases es.len(),
{
    if es.len() == 0 {
        syms
    } else {
        let before = with_symbols(syms, es.drop_last());
        let sym = to_symbol_spec(es.last());
        if sym.name@.len() > 0 && takes_symbol(before, sym) {
            before.push(sym)
        } else {
            before
        }
    }
}

fn to_symbol(e: &(u64, String, bool, u64)) -> (r: Symbol)
    ensures
        r == to_symbol_spec(*e),
{
    Symbol {
        offset: e.0 as u32,
        name: e.1.clone(),
        flags: if e.2 {
            SYM_FUNCTION
        } else {
            0
        },
        len: e.3 as u32,
    }
}

impl Module {
    /// Loads the symbols of the module's ELF image `image`: every named
    /// symbol of its tables, static ones first, through `add_symbol`. False
    /// (and nothing loaded) when the image does not parse.
    pub fn load_symbols(&mut self, image: &[u8]) -> (r: bool)
        requires
            old(self).wf(),
        ensures
            final(self).wf(),
            r == elf_symbols_of(image@) is Some,
            final(self).symbols() == (match elf_symbols_of(image@) {
                Some(es) => with_symbols(old(self).symbols(), es),
                None => old(self).symbols(),
            }),
            final(self).name == old(self).name,
            final(self).base == old(self).base,
            final(self).size == old(self).size,
            final(self).entry == old(self).entry,
    {
        let es = match elf_symbols(image) {
            Some(v) => v,
            None => return false,
        };
        let ghost start = self.syms@;
        let mut i: usize = 0;
        proof {
            assert(es@.subrange(0, 0) =~= Seq::<(u64, String, bool, u64)>::empty());
        }
        while i < es.len()
            invariant
                i <= es@.len(),
                self.wf(),
                self.syms@ == with_symbols(start, es@.subrange(0, i as int)),
                self.name == old(self).name,
                self.base == old(self).base,
                self.size == old(self).size,
                self.entry == old(self).entry,
            decreases es@.len() - i,
        {
            let sym = to_symbol(&es[i]);
            proof {
                assert(es@.subrange(0, i + 1).drop_last() =~= es@.subrange(0, i as int));
                assert(es@.subrange(0, i + 1).last() == es@[i as int]);
            }
            if !sym.name.as_str().is_empty() {
                let _ = self.add_symbol(sym);
            }
            i = i + 1;
        }
        proof {
            assert(es@.subrange(0, i as int) =~= es@);
        }
        true
    }
}

} // verus!
