use udbg::module::{ElfArch, Module, ModuleSet, Symbol, SYM_FUNCTION};
use udbg::regs::UserRegs;
use udbg::symbols::{get_address_by_symbol, get_main_module, get_symbol, parse_address, parse_hex};

fn sym(offset: u32, name: &str) -> Symbol {
    Symbol { offset, name: name.to_string(), flags: SYM_FUNCTION, len: 4 }
}

fn modules() -> ModuleSet {
    let mut set = ModuleSet::new();
    let mut libc = Module::new("libc".to_string(), "/lib/libc.so.6".to_string(), 0x7000_0000, 0x10_0000, ElfArch::X86_64, 0x2_0000);
    assert!(libc.add_symbol(sym(0x1000, "puts")));
    assert!(libc.add_symbol(sym(0x2000, "printf")));
    // the first symbol at an offset stays; mapping symbols are left out
    assert!(!libc.add_symbol(sym(0x2000, "printf_alias")));
    assert!(!libc.add_symbol(sym(0x3000, "$x.7")));
    let mut demo = Module::new("demo".to_string(), "/bin/demo".to_string(), 0x40_0000, 0x1000, ElfArch::X86_64, 0x100);
    assert!(demo.add_symbol(sym(0x200, "main")));
    set.add(demo);
    set.add(libc);
    set
}

#[test]
fn symbol_expressions_resolve() {
    let m = modules();
    assert_eq!(get_address_by_symbol(&m, "libc!puts"), Some(0x7000_1000));
    assert_eq!(get_address_by_symbol(&m, " libc ! printf "), Some(0x7000_2000));
    assert_eq!(get_address_by_symbol(&m, "libc!$entry"), Some(0x7002_0000));
    assert_eq!(get_address_by_symbol(&m, "libc"), Some(0x7000_0000));
    assert_eq!(get_address_by_symbol(&m, "main"), Some(0x40_0200));
    assert_eq!(get_address_by_symbol(&m, "libc!"), Some(0x7000_0000));
    assert_eq!(get_address_by_symbol(&m, "libc!nothing"), None);
    assert_eq!(get_address_by_symbol(&m, "nomod!puts"), None);
    assert_eq!(get_address_by_symbol(&m, "$x.7"), None);
    // Unicode white space around the parts is dropped too
    assert_eq!(get_address_by_symbol(&m, "\u{3000}libc!\u{a0}puts\t"), Some(0x7000_1000));
}

#[test]
fn addresses_describe_symbols() {
    let m = modules();
    let s = get_symbol(&m, 0x7000_1004, 0x100).unwrap();
    assert_eq!((s.mod_base, s.offset, s.module.as_str(), s.symbol.as_str()), (0x7000_0000, 4, "libc", "puts"));
    // too far past any symbol: the module offset, unless no offset is allowed
    let s = get_symbol(&m, 0x7005_0000, 0x100).unwrap();
    assert_eq!((s.offset, s.symbol.as_str()), (0x5_0000, ""));
    assert!(get_symbol(&m, 0x7005_0000, 0).is_none());
    assert!(get_symbol(&m, 0x1234, 0x100).is_none());
}

#[test]
fn main_module_by_base_or_path() {
    let m = modules();
    assert_eq!(get_main_module(&m, 0x40_0010, "").map(|x| x.base), Some(0x40_0000));
    assert_eq!(get_main_module(&m, 0, "/lib/libc.so.6").map(|x| x.base), Some(0x7000_0000));
    assert!(get_main_module(&m, 0, "/bin/other").is_none());
    assert_eq!(m.names(), vec!["demo".to_string(), "libc".to_string()]);
    assert!(m.admits(0x9000_0000, "libz.so"));
    assert!(!m.admits(0x7000_0010, "libz.so"));
    assert!(!m.admits(0x9000_0000, "boot.oat"));
}

#[test]
fn hexadecimal_numbers() {
    assert_eq!(parse_hex(b"ff"), Some(255));
    assert_eq!(parse_hex(b"+1A"), Some(26));
    assert_eq!(parse_hex(b"+"), None);
    assert_eq!(parse_hex(b""), None);
    assert_eq!(parse_hex(b"12g"), None);
    assert_eq!(parse_hex(b"ffffffffffffffff"), Some(usize::MAX));
    assert_eq!(parse_hex(b"10000000000000000"), None);
}

#[test]
fn address_expressions() {
    let m = modules();
    let mut regs = UserRegs::zeroed();
    regs.rip = 0x40_0100;
    regs.rsp = 0x7fff_0000;
    assert_eq!(parse_address(&regs, &m, "rip"), Some(0x40_0100));
    assert_eq!(parse_address(&regs, &m, "rip+10"), Some(0x40_0110));
    assert_eq!(parse_address(&regs, &m, "0x1000 + 0X20"), Some(0x1020));
    assert_eq!(parse_address(&regs, &m, "libc!puts+4"), Some(0x7000_1004));
    assert_eq!(parse_address(&regs, &m, "main + _sp"), Some(0x40_0200 + 0x7fff_0000));
    assert_eq!(parse_address(&regs, &m, "nothing"), None);
    assert_eq!(parse_address(&regs, &m, "1+nothing"), None);
    assert_eq!(parse_address(&regs, &m, "ffffffffffffffff+1"), None);
}

#[test]
fn symbols_load_from_elf_images() {
    let mut m = Module::new("x".to_string(), "/x".to_string(), 0x1000, 0x1000, ElfArch::X86_64, 0);
    assert!(m.add_symbol(sym(0x10, "start")));
    // not an image
    assert!(!m.load_symbols(&[1, 2, 3, 4]));
    assert_eq!(m.syms.len(), 1);
    // a header with no tables parses and adds nothing
    let mut h = vec![0u8; 64];
    h[..4].copy_from_slice(&[0x7f, b'E', b'L', b'F']);
    h[4] = 2;
    h[5] = 1;
    h[6] = 1;
    h[16] = 2;
    h[18] = 62;
    h[20] = 1;
    h[52] = 64;
    h[54] = 56;
    h[58] = 64;
    assert!(m.load_symbols(&h));
    assert_eq!(m.syms.len(), 1);
    assert_eq!(m.get_symbol("start").map(|s| s.offset), Some(0x10));
}
