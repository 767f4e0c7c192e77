use udbg::error::UDbgError;
use udbg::handle::{handle_info, handle_kind_name, FileKind};
use udbg::memmap::{find_page, usage_flags_of, MemoryMap, MemoryPage, TimeCheck, MF_HEAP, MF_STACK};
use udbg::module::{get_module_entry, image_name, is_skipped_image, module_header_info, module_name, trim_allext, trim_lastext, trim_ver, ElfArch};
use udbg::memory::{MemoryImage, ReadMemory, ReadMemoryUtils, WriteMemory};
use udbg::regs::Arm64Regs;
use udbg::udbg::{PauseContext, UDbgBase, UDbgStatus, ARCH_ARM, ARCH_X64, ARCH_X86};

fn page(base: usize, size: usize, usage: &str) -> MemoryPage {
    MemoryPage { base, size, protect: "r-xp".to_string(), type_: "IMG".to_string(), usage: usage.to_string() }
}

#[test]
fn time_check_gates_refresh() {
    let mut tc = TimeCheck::new(10_000, 50_000);
    assert!(tc.check(50_000));
    assert!(!tc.check(55_000));
    assert!(!tc.check(60_000));
    assert!(tc.check(60_001));
    assert_eq!(tc.last, 60_001);
}

#[test]
fn memory_map_lookup() {
    let mut mm = MemoryMap::new(10_000, 0);
    let pages = vec![page(0x1000, 0x1000, "/bin/a"), page(0x3000, 0x2000, "[heap]"), page(0x8000, 0x1000, "[stack]")];
    assert!(mm.update(pages));
    assert_eq!(mm.query(0x1fff).map(|p| p.base), Some(0x1000));
    assert_eq!(mm.query(0x4800).map(|p| p.base), Some(0x3000));
    assert!(mm.query(0x2000).is_none());
    assert!(mm.query(0x9000).is_none());
    let info = mm.memory_info();
    assert_eq!(info[0].flags, 0);
    assert_eq!(info[1].flags, MF_HEAP);
    assert_eq!(info[2].flags, MF_STACK);
    // an unordered snapshot is refused and the old one served
    assert!(!mm.update(vec![page(0x5000, 0x10, ""), page(0x1000, 0x10, "")]));
    assert_eq!(mm.query(0x8000).map(|p| p.base), Some(0x8000));
    assert!(mm.refresh_due(20_000));
    assert!(!mm.refresh_due(25_000));
}

#[test]
fn page_search_on_empty_map() {
    assert_eq!(find_page(&Vec::new(), 5), None);
    assert_eq!(usage_flags_of("[stack]"), MF_STACK);
    assert_eq!(usage_flags_of("[heapx]"), 0);
}

#[test]
fn module_names() {
    assert_eq!(trim_ver("libc-2.31.so"), "libc");
    assert_eq!(trim_ver("ld-linux-x86-64.so.2"), "ld-linux-x86");
    assert_eq!(trim_ver("libm.so.6"), "libm.so.6");
    assert_eq!(trim_allext("libm.so.6"), "libm");
    assert_eq!(trim_lastext("libm.so.6"), "libm.so");
    assert_eq!(trim_lastext("noext"), "noext");
    let none: Vec<String> = vec![];
    assert_eq!(module_name("libc-2.31.so", &none), "libc");
    assert_eq!(module_name("libm.so.6", &none), "libm");
    assert_eq!(module_name("libm.so.6", &vec!["libm".to_string()]), "libm.so");
    assert_eq!(module_name("libm.so.6", &vec!["libm".to_string(), "libm.so".to_string()]), "libm.so.6");
}

#[test]
fn skipped_images() {
    assert!(is_skipped_image("boot.oat"));
    assert!(is_skipped_image("base.apk"));
    assert!(!is_skipped_image("libc.so"));
    assert!(!is_skipped_image("oat"));
}

#[test]
fn elf_header_fields() {
    let mut h = vec![0u8; 64];
    h[18] = 62;
    h[24..32].copy_from_slice(&0x1040u64.to_le_bytes());
    assert_eq!(module_header_info(&h), Some((ElfArch::X86_64, 0x1040)));
    h[18] = 3;
    h[24..32].copy_from_slice(&0xdead_0000_0000_1234u64.to_le_bytes());
    assert_eq!(module_header_info(&h), Some((ElfArch::X86, 0x1234)));
    assert_eq!(ElfArch::X86.name(), "x86");
    h[18] = 99;
    assert_eq!(module_header_info(&h), None);
    assert_eq!(module_header_info(&h[..40]), None);
}

#[test]
fn handle_kinds() {
    assert_eq!(handle_kind_name(Some(FileKind::Fifo), "x"), "FIFO");
    assert_eq!(handle_kind_name(Some(FileKind::Other), "/etc/passwd"), "File");
    assert_eq!(handle_kind_name(None, "socket:[1234]"), "Socket");
    assert_eq!(handle_kind_name(None, "pipe:[9]"), "Pipe");
    assert_eq!(handle_kind_name(None, "anon_inode:[eventfd]"), "");
    let h = handle_info(3, Some(FileKind::BlockDevice), "/dev/sda");
    assert_eq!(h.handle, 3);
    assert_eq!(h.kind_name, "Block");
    assert_eq!(h.name, "/dev/sda");
}

#[test]
fn pause_context_pointer_size() {
    let mut c = PauseContext::new();
    assert_eq!(c.psize, 8);
    c.update(ARCH_X86);
    assert_eq!((c.arch, c.psize), (ARCH_X86, 4));
    c.update(77);
    assert_eq!((c.arch, c.psize), (77, 4));
    let mut b = UDbgBase::new();
    assert!(!b.is_ptr32());
    b.update_arch(ARCH_ARM);
    assert!(b.is_ptr32());
    assert_eq!(b.ptrsize(), 4);
    b.update_arch(ARCH_X64);
    assert_eq!(b.ptrsize(), 8);
    assert!(!b.is_opened());
    assert!(!b.is_paused());
    b.status = UDbgStatus::Paused;
    assert!(b.is_paused());
    assert!(b.check_opened().is_ok());
    b.status = UDbgStatus::Opened;
    assert!(b.check_opened().is_err());
}

#[test]
fn arm64_register_names() {
    use_arm64();
}

fn use_arm64() {
    let mut r = Arm64Regs::zeroed();
    assert_eq!(r.set_reg("x30", 7), Ok(()));
    assert_eq!(r.set_reg("x0", 1), Ok(()));
    assert_eq!(r.set_reg("_pc", 0x4000), Ok(()));
    assert_eq!(r.set_reg("sp", 0x8000), Ok(()));
    assert_eq!(r.get_reg("x30"), Ok(7));
    assert_eq!(r.get_reg("x0"), Ok(1));
    assert_eq!(r.get_reg("pc"), Ok(0x4000));
    assert_eq!(r.get_reg("_sp"), Ok(0x8000));
    assert_eq!(r.get_reg("pstate"), Ok(0));
    assert_eq!(r.get_reg("x31"), Err(UDbgError::InvalidRegister));
    assert_eq!(r.get_reg("x01"), Err(UDbgError::InvalidRegister));
    assert_eq!(r.set_reg("w0", 1), Err(UDbgError::InvalidRegister));
}

#[test]
fn memory_image_round_trip() {
    let mut img = MemoryImage::new(0x2000, vec![0u8; 8]);
    assert_eq!(img.write_memory(0x2006, &[1, 2, 3]), Some(2));
    assert_eq!(img.read_bytes(0x2006, 4), vec![1, 2]);
    assert_eq!(img.write_memory(0x2000, &[9, 8]), Some(2));
    assert_eq!(img.read_value::<u16>(0x2000), Some(0x0809));
    assert_eq!(img.read_memory(0x3000, &mut vec![0u8; 2]), None);
    assert_eq!(img.bytes(), &[9, 8, 0, 0, 0, 0, 1, 2]);
}

#[test]
fn module_entry_from_memory() {
    let mut h = vec![0u8; 64];
    h[18] = 62;
    h[24..32].copy_from_slice(&0x1040u64.to_le_bytes());
    let img = MemoryImage::new(0x40_0000, h);
    assert_eq!(get_module_entry(&img, 0x40_0000), 0x40_1040);
    assert_eq!(get_module_entry(&img, 0x50_0000), 0);
    let short = MemoryImage::new(0x40_0000, vec![0u8; 64]);
    assert_eq!(get_module_entry(&short, 0x40_0000), 0x40_0000);
}

#[test]
fn image_names_and_pages() {
    assert_eq!(image_name("/usr/lib/libc.so.6"), "libc.so.6");
    assert_eq!(image_name("demo"), "demo");
    assert_eq!(image_name("/bin/"), "");
    assert!(page(0x1000, 0x1000, "/bin/a").is_image());
    let mut p = page(0x1000, 0x1000, "[heap]");
    p.type_ = "PRV".to_string();
    assert!(!p.is_image());
}
