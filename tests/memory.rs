use udbg::memory::{read_ptr, write_ptr, ReadMemory, ReadMemoryUtils, WriteMemory, WriteMemoryUtils};

/// A flat address space: `bytes` live from `base` on; `locked` bytes can be
/// read but not written.
struct FlatMemory {
    base: usize,
    bytes: Vec<u8>,
    locked: Vec<bool>,
}

impl FlatMemory {
    fn new(base: usize, bytes: Vec<u8>) -> Self {
        let locked = vec![false; bytes.len()];
        FlatMemory { base, bytes, locked }
    }
}

impl ReadMemory for FlatMemory {
    fn read_memory(&self, addr: usize, data: &mut Vec<u8>) -> Option<usize> {
        let mut n = 0;
        while n < data.len() {
            let a = addr.wrapping_add(n);
            if a < self.base || a - self.base >= self.bytes.len() {
                break;
            }
            data[n] = self.bytes[a - self.base];
            n += 1;
        }
        if n == 0 && !data.is_empty() {
            None
        } else {
            Some(n)
        }
    }
}

impl WriteMemory for FlatMemory {
    fn write_memory(&mut self, addr: usize, data: &[u8]) -> Option<usize> {
        let mut n = 0;
        while n < data.len() {
            let a = addr.wrapping_add(n);
            if a < self.base || a - self.base >= self.bytes.len() || self.locked[a - self.base] {
                break;
            }
            self.bytes[a - self.base] = data[n];
            n += 1;
        }
        if n == 0 && !data.is_empty() {
            None
        } else {
            Some(n)
        }
    }
}

#[test]
fn write_then_read_round_trip() {
    let mut m = FlatMemory::new(0x1000, vec![0u8; 64]);
    let bs = vec![1u8, 2, 3, 4, 5];
    assert_eq!(m.write_memory(0x1010, &bs), Some(5));
    assert_eq!(m.read_bytes(0x1010, 5), bs);
}

#[test]
fn partial_read_returns_prefix() {
    let m = FlatMemory::new(0x1000, vec![7u8; 16]);
    assert_eq!(m.read_bytes(0x100c, 8), vec![7u8; 4]);
    assert_eq!(m.read_bytes(0x2000, 8), Vec::<u8>::new());
}

#[test]
fn typed_read_needs_all_bytes() {
    let m = FlatMemory::new(0x1000, vec![0x78, 0x56, 0x34, 0x12, 0xff, 0xee]);
    assert_eq!(m.read_value::<u32>(0x1000), Some(0x1234_5678));
    assert_eq!(m.read_value::<u16>(0x1004), Some(0xeeff));
    // only two of four bytes are readable
    assert_eq!(m.read_value::<u32>(0x1004), None);
    assert_eq!(m.read_value::<u64>(0x1000), None);
    assert_eq!(m.read_value::<u8>(0x1005), Some(0xee));
}

#[test]
fn read_array_reads_each_value() {
    let m = FlatMemory::new(0x1000, vec![1, 0, 2, 0, 3]);
    let r = m.read_array::<u16>(0x1000, 3);
    assert_eq!(r, vec![Some(1u16), Some(2u16), None]);
}

#[test]
fn read_to_array_counts_whole_values() {
    let m = FlatMemory::new(0x1000, vec![1, 0, 2, 0, 3]);
    let mut buf = vec![9u16; 4];
    assert_eq!(m.read_to_array(0x1000, &mut buf), 2);
    assert_eq!(buf, vec![1u16, 2, 9, 9]);
}

#[test]
fn cstring_stops_at_zero_and_bound() {
    let mut bytes = b"hello\0world".to_vec();
    bytes.resize(32, b'x');
    let m = FlatMemory::new(0x1000, bytes);
    assert_eq!(m.read_cstring(0x1000, None), Some(b"hello".to_vec()));
    assert_eq!(m.read_cstring(0x1000, Some(3)), Some(b"hel".to_vec()));
    // runs to the end of readable memory
    assert_eq!(m.read_cstring(0x1006, None), Some(m.read_bytes(0x1006, 26)));
    // an empty string is none
    assert_eq!(m.read_cstring(0x1005, None), None);
}

#[test]
fn cstring_rejects_single_control_byte() {
    let m = FlatMemory::new(0x1000, vec![b'\n', 0, b'a', 0]);
    assert_eq!(m.read_cstring(0x1000, None), None);
    assert_eq!(m.read_cstring(0x1002, None), Some(vec![b'a']));
}

#[test]
fn cstring_never_longer_than_bound_nor_with_zero() {
    let m = FlatMemory::new(0x1000, vec![b'a'; 2000]);
    let s = m.read_cstring(0x1000, None).unwrap();
    assert_eq!(s.len(), 1000);
    assert!(s.iter().all(|&b| b != 0));
    let long = m.read_cstring(0x1000, Some(1500)).unwrap();
    assert_eq!(long.len(), 1500);
}

#[test]
fn read_util_crosses_chunks() {
    let mut bytes = vec![b'a'; 250];
    bytes.push(0);
    let m = FlatMemory::new(0x1000, bytes);
    let r = m.read_util::<u8, _>(0x1000, |b: &u8| *b == 0, 10_000);
    assert_eq!(r.len(), 250);
}

#[test]
fn read_util_on_wider_values() {
    let m = FlatMemory::new(0x1000, vec![5, 0, 6, 0, 0, 0, 7, 0]);
    let r = m.read_util::<u16, _>(0x1000, |v: &u16| *v == 0, 100);
    assert_eq!(r, vec![5u16, 6]);
}

#[test]
fn utf8_string_must_be_valid() {
    let m = FlatMemory::new(0x1000, vec![0xc3, 0xa9, b't', b'e', 0, 0xff, 0xfe, 0]);
    assert_eq!(m.read_utf8(0x1000, None), Some("éte".to_string()));
    assert_eq!(m.read_utf8(0x1005, None), None);
}

#[test]
fn multilevel_pointer_chase() {
    let mut bytes = vec![0u8; 64];
    // at 0x1008: pointer to 0x1020
    bytes[8..16].copy_from_slice(&0x1020u64.to_le_bytes());
    // at 0x1020 + 4: pointer to 0x1030
    bytes[0x24..0x2c].copy_from_slice(&0x1030u64.to_le_bytes());
    bytes[0x30..0x34].copy_from_slice(&0xdead_beefu32.to_le_bytes());
    let m = FlatMemory::new(0x1000, bytes);
    assert_eq!(m.read_multilevel::<u32>(0x1000, &[8, 4]), Some(0xdead_beef));
    assert_eq!(m.read_multilevel::<u32>(0x1000, &[]), Some(0));
    // a null pointer ends the chase
    assert_eq!(m.read_multilevel::<u32>(0x1000, &[0, 4]), None);
}

#[test]
fn write_value_and_array() {
    let mut m = FlatMemory::new(0x1000, vec![0u8; 16]);
    assert_eq!(m.write_value(0x1000, &0x0102_0304u32), Some(4));
    assert_eq!(m.read_bytes(0x1000, 4), vec![4, 3, 2, 1]);
    assert_eq!(m.write_array(0x1008, &[0x1122u16, 0x3344]), Some(4));
    assert_eq!(m.read_bytes(0x1008, 4), vec![0x22, 0x11, 0x44, 0x33]);
}

#[test]
fn write_cstring_adds_terminator() {
    let mut m = FlatMemory::new(0x1000, vec![0xffu8; 8]);
    assert_eq!(m.write_cstring(0x1000, b"abc"), Some(4));
    assert_eq!(m.read_bytes(0x1000, 5), vec![b'a', b'b', b'c', 0, 0xff]);
    // no room for the terminator
    assert_eq!(m.write_cstring(0x1005, b"xyz"), None);
}

#[test]
fn write_stops_at_locked_byte() {
    let mut m = FlatMemory::new(0x1000, vec![0u8; 8]);
    m.locked[2] = true;
    assert_eq!(m.write_memory(0x1000, &[1, 1, 1, 1]), Some(2));
    assert_eq!(m.read_bytes(0x1000, 4), vec![1, 1, 0, 0]);
    assert_eq!(m.write_memory(0x1002, &[5]), None);
}

#[test]
fn pointers_of_target_width() {
    let mut m = FlatMemory::new(0x1000, vec![0u8; 16]);
    assert_eq!(write_ptr(&mut m, false, 0x1000, 0x1122_3344_5566_7788), Some(8));
    assert_eq!(read_ptr(&m, false, 0x1000), Some(0x1122_3344_5566_7788));
    assert_eq!(read_ptr(&m, true, 0x1000), Some(0x5566_7788));
    assert_eq!(write_ptr(&mut m, true, 0x1008, 0xaabb_ccdd_1234_5678), Some(4));
    assert_eq!(m.read_bytes(0x1008, 5), vec![0x78, 0x56, 0x34, 0x12, 0]);
    assert_eq!(read_ptr(&m, false, 0x100c), None);
}
