use os::elf::{read_u16_le, read_u32_le, read_u64_le, validate_elf, PF_W, PF_X};
use os::memory_set::{MemorySet, PageTableFlags, USER_STACK_SIZE};

fn put_u16(b: &mut [u8], off: usize, v: u16) {
    b[off..off + 2].copy_from_slice(&v.to_le_bytes());
}

fn put_u32(b: &mut [u8], off: usize, v: u32) {
    b[off..off + 4].copy_from_slice(&v.to_le_bytes());
}

fn put_u64(b: &mut [u8], off: usize, v: u64) {
    b[off..off + 8].copy_from_slice(&v.to_le_bytes());
}

/// Builds a minimal statically linked ELF64 image: a header, one program
/// header per segment, and the segment payloads packed behind the table.
fn make_elf(entry: u64, segs: &[(u64, u32, Vec<u8>, u64)]) -> Vec<u8> {
    let ph_off = 64usize;
    let payload_off = ph_off + 56 * segs.len();
    let total = payload_off + segs.iter().map(|s| s.2.len()).sum::<usize>();
    let mut b = vec![0u8; total.max(64)];
    b[0] = 0x7f;
    b[1] = 0x45;
    b[2] = 0x4c;
    b[3] = 0x46;
    put_u64(&mut b, 24, entry);
    put_u64(&mut b, 32, ph_off as u64);
    put_u16(&mut b, 54, 56);
    put_u16(&mut b, 56, segs.len() as u16);
    let mut data_off = payload_off;
    for (i, (vaddr, flags, data, memsz)) in segs.iter().enumerate() {
        let slot = ph_off + 56 * i;
        put_u32(&mut b, slot, 1); // PT_LOAD
        put_u32(&mut b, slot + 4, *flags);
        put_u64(&mut b, slot + 8, data_off as u64);
        put_u64(&mut b, slot + 16, *vaddr);
        put_u64(&mut b, slot + 32, data.len() as u64);
        put_u64(&mut b, slot + 40, *memsz);
        b[data_off..data_off + data.len()].copy_from_slice(data);
        data_off += data.len();
    }
    b
}

#[test]
fn little_endian_readers_decode_exact_values() {
    let b = vec![0x78, 0x56, 0x34, 0x12, 0xaa, 0xbb, 0xcc, 0xdd];
    assert_eq!(read_u16_le(&b, 0), 0x5678);
    assert_eq!(read_u32_le(&b, 0), 0x12345678);
    assert_eq!(read_u64_le(&b, 0), 0xddccbbaa_12345678);
}

#[test]
fn validator_accepts_a_well_formed_image() {
    let elf = make_elf(0x8000100, &[(0x8000000, PF_X, b"code".to_vec(), 0x1000)]);
    assert!(validate_elf(&elf));
}

#[test]
fn validator_refuses_bad_magic_and_overlap() {
    let mut bad = make_elf(0, &[]);
    bad[0] = 0x00;
    assert!(!validate_elf(&bad));
    // two loadable segments on the same page
    let overlap = make_elf(
        0,
        &[
            (0x8000000, PF_X, b"a".to_vec(), 0x10),
            (0x8000008, PF_W, b"b".to_vec(), 0x10),
        ],
    );
    assert!(!validate_elf(&overlap));
}

#[test]
fn from_elf_lays_out_segments_and_stack() {
    let code = b"\x90\x90\x90".to_vec();
    let elf = make_elf(
        0x8000000,
        &[
            (0x8000000, PF_X, code.clone(), 0x100),
            (0x8002000, PF_W, b"data".to_vec(), 0x2000),
        ],
    );
    assert!(validate_elf(&elf));
    let (ms, user_stack_top, entry) = MemorySet::from_elf(&elf, 0x42000);
    assert_eq!(entry, 0x8000000);
    assert_eq!(ms.page_table_address(), 0x42000);
    assert_eq!(ms.areas.len(), 3);

    // code segment: present, user, execute allowed, read-only
    let a0 = &ms.areas[0];
    assert_eq!(a0.start_virt_addr, 0x8000000);
    assert_eq!(a0.end_virt_addr, 0x8000100);
    assert_eq!(
        a0.flags,
        PageTableFlags { present: true, writable: false, user_accessible: true, no_execute: false }
    );
    assert_eq!(&a0.bytes[..3], &code[..]);
    assert!(a0.bytes[3..].iter().all(|&b| b == 0));

    // data segment: writable, no-execute, zero-extended over mem_size
    let a1 = &ms.areas[1];
    assert_eq!(a1.end_virt_addr - a1.start_virt_addr, 0x2000);
    assert_eq!(
        a1.flags,
        PageTableFlags { present: true, writable: true, user_accessible: true, no_execute: true }
    );
    assert_eq!(&a1.bytes[..4], b"data");

    // user stack: one page past the highest segment page, 1 MiB deep
    let a2 = &ms.areas[2];
    assert_eq!(a2.start_virt_addr, 0x8005000);
    assert_eq!(a2.end_virt_addr, 0x8005000 + USER_STACK_SIZE);
    assert_eq!(user_stack_top, 0x8005000 + USER_STACK_SIZE);
    assert_eq!(
        a2.flags,
        PageTableFlags { present: true, writable: true, user_accessible: true, no_execute: false }
    );
}

#[test]
fn clone_copies_bytes_and_isolates_writes() {
    let elf = make_elf(0x8000040, &[(0x8000000, PF_W, b"parent".to_vec(), 0x100)]);
    let (mut parent, _, _) = MemorySet::from_elf(&elf, 0x1000);
    let mut child = MemorySet::from(&parent, 0x1000);
    assert_eq!(child.areas.len(), parent.areas.len());
    for (pa, ca) in parent.areas.iter().zip(child.areas.iter()) {
        assert_eq!(pa.start_virt_addr, ca.start_virt_addr);
        assert_eq!(pa.end_virt_addr, ca.end_virt_addr);
        assert_eq!(pa.flags, ca.flags);
        assert_eq!(pa.bytes, ca.bytes);
    }
    // a write in the child leaves the parent untouched, and the other way
    // round
    assert!(child.write_byte(0x8000000, b'X'));
    assert_eq!(child.read_byte(0x8000000), Some(b'X'));
    assert_eq!(parent.read_byte(0x8000000), Some(b'p'));
    assert!(parent.write_byte(0x8000001, b'Y'));
    assert_eq!(child.read_byte(0x8000001), Some(b'a'));
}

#[test]
fn byte_access_respects_region_bounds() {
    let elf = make_elf(0, &[(0x8000000, PF_W, b"abc".to_vec(), 0x10)]);
    let (mut ms, _, _) = MemorySet::from_elf(&elf, 0);
    assert_eq!(ms.read_byte(0x8000002), Some(b'c'));
    assert_eq!(ms.read_byte(0x7ffffff), None);
    let got = ms.read_bytes(0x8000000, 3).unwrap();
    assert_eq!(&got[..], b"abc");
    assert!(ms.write_u64_le(0x8000000, 0x0102030405060708));
    assert_eq!(ms.read_byte(0x8000000), Some(0x08));
    assert_eq!(ms.read_byte(0x8000007), Some(0x01));
    assert!(!ms.write_u64_le(0x8000009, 1));
}

#[test]
fn remove_areas_unmaps_everything() {
    let elf = make_elf(0, &[(0x8000000, PF_W, b"x".to_vec(), 0x10)]);
    let (mut ms, _, _) = MemorySet::from_elf(&elf, 0);
    assert_eq!(ms.areas.len(), 2);
    ms.remove_all_areas();
    assert_eq!(ms.areas.len(), 0);
    assert_eq!(ms.read_byte(0x8000000), None);
}

#[test]
fn remove_area_with_start_addr_drops_only_that_region() {
    let mut ms = MemorySet::new(0);
    ms.insert(0x1000, 0x2000, PageTableFlags::kernel_rw(), None);
    ms.insert(0x4000, 0x5000, PageTableFlags::kernel_rw(), None);
    ms.remove_area_with_start_addr(0x1000);
    assert_eq!(ms.areas.len(), 1);
    assert_eq!(ms.areas[0].start_virt_addr, 0x4000);
    // a miss leaves the set unchanged
    ms.remove_area_with_start_addr(0x9000);
    assert_eq!(ms.areas.len(), 1);
}
