use process_core::elf::{parse_header, parse_image, ImageError, ET_EXEC, PT_LOAD};
use process_core::process::ProcessTable;
use process_core::thread::{Thread, USER_STACK_OFFSET, USER_STACK_SIZE};
use process_core::arch::Context;

/// A 64-bit little-endian image: header, program-header table, then the
/// segment payloads appended in order.
fn build_elf64(etype: u16, entry: u64, phs: &[(u32, u32, u64, u64, u64, u64)]) -> Vec<u8> {
    let mut v = vec![0u8; 64];
    v[0] = 0x7f;
    v[1] = b'E';
    v[2] = b'L';
    v[3] = b'F';
    v[4] = 2; // 64-bit
    v[5] = 1; // little-endian
    v[6] = 1;
    v[16..18].copy_from_slice(&etype.to_le_bytes());
    v[18..20].copy_from_slice(&62u16.to_le_bytes());
    v[24..32].copy_from_slice(&entry.to_le_bytes());
    v[32..40].copy_from_slice(&64u64.to_le_bytes()); // table right after header
    v[54..56].copy_from_slice(&56u16.to_le_bytes());
    v[56..58].copy_from_slice(&(phs.len() as u16).to_le_bytes());
    for &(ptype, flags, off, vaddr, filesz, memsz) in phs {
        let mut e = [0u8; 56];
        e[0..4].copy_from_slice(&ptype.to_le_bytes());
        e[4..8].copy_from_slice(&flags.to_le_bytes());
        e[8..16].copy_from_slice(&off.to_le_bytes());
        e[16..24].copy_from_slice(&vaddr.to_le_bytes());
        e[32..40].copy_from_slice(&filesz.to_le_bytes());
        e[40..48].copy_from_slice(&memsz.to_le_bytes());
        v.extend_from_slice(&e);
    }
    v
}

/// Two loadable segments: four code bytes and a data segment whose memory
/// size exceeds its three file-backed bytes.
fn two_segment_image() -> Vec<u8> {
    let code_off = 64 + 2 * 56;
    let data_off = code_off + 4;
    let mut img = build_elf64(
        ET_EXEC,
        0x1000,
        &[
            (PT_LOAD, 1, code_off as u64, 0x1000, 4, 4),
            (PT_LOAD, 6, data_off as u64, 0x2000, 3, 0x100),
        ],
    );
    img.extend_from_slice(&[0xde, 0xad, 0xbe, 0xef]); // code
    img.extend_from_slice(&[1, 2, 3]); // data
    img
}

#[test]
fn header_of_a_well_formed_image_parses() {
    let img = two_segment_image();
    let h = parse_header(&img).unwrap();
    assert!(!h.is32);
    assert_eq!(h.etype, ET_EXEC);
    assert_eq!(h.entry, 0x1000);
    assert_eq!(h.ph_count, 2);
    assert_eq!(h.ph_entry_size, 56);
}

#[test]
fn short_input_is_a_bad_header() {
    assert!(matches!(parse_header(&[0x7f, b'E']), Err(ImageError::BadHeader)));
    assert!(matches!(parse_header(&[]), Err(ImageError::BadHeader)));
}

#[test]
fn wrong_magic_is_a_bad_header() {
    let mut img = two_segment_image();
    img[1] = b'X';
    assert!(matches!(parse_image(&img), Err(ImageError::BadHeader)));
}

#[test]
fn big_endian_is_a_bad_header() {
    let mut img = two_segment_image();
    img[5] = 2;
    assert!(matches!(parse_image(&img), Err(ImageError::BadHeader)));
}

#[test]
fn wrong_entry_size_is_a_bad_table() {
    let mut img = two_segment_image();
    img[54] = 55;
    assert!(matches!(parse_image(&img), Err(ImageError::BadProgramHeaders)));
}

#[test]
fn truncated_table_is_a_bad_table() {
    let img = two_segment_image();
    assert!(matches!(parse_image(&img[..100]), Err(ImageError::BadProgramHeaders)));
}

#[test]
fn segments_parse_back_exactly() {
    let img = two_segment_image();
    let f = parse_image(&img).unwrap();
    assert_eq!(f.segments.len(), 2);
    assert_eq!(f.segments[0].ptype, PT_LOAD);
    assert_eq!(f.segments[0].vaddr, 0x1000);
    assert_eq!(f.segments[0].file_size, 4);
    assert!(f.segments[0].flags.is_execute());
    assert_eq!(f.segments[1].vaddr, 0x2000);
    assert_eq!(f.segments[1].mem_size, 0x100);
    assert!(!f.segments[1].flags.is_execute());
}

#[test]
fn relocatable_image_is_refused_without_registering_anything() {
    let img = build_elf64(1, 0x1000, &[]); // type 1: relocatable
    let mut table = ProcessTable::new();
    let r = Thread::new_user(&img, Vec::new(), &mut table);
    assert!(matches!(r, Err(ImageError::NotExecutable)));
    assert_eq!(table.slots.len(), 0);
    assert_eq!(table.registry.len(), 0);
}

#[test]
fn segment_pointing_outside_the_image_is_refused() {
    let img = build_elf64(ET_EXEC, 0x1000, &[(PT_LOAD, 1, 0x10000, 0x1000, 8, 8)]);
    let mut table = ProcessTable::new();
    let r = Thread::new_user(&img, Vec::new(), &mut table);
    assert!(matches!(r, Err(ImageError::BadSegment)));
    assert_eq!(table.slots.len(), 0);
}

#[test]
fn overlapping_segments_are_refused() {
    let img = build_elf64(
        ET_EXEC,
        0x1000,
        &[(PT_LOAD, 1, 0, 0x1000, 0, 0x100), (PT_LOAD, 1, 0, 0x1080, 0, 0x100)],
    );
    let mut table = ProcessTable::new();
    assert!(matches!(Thread::new_user(&img, Vec::new(), &mut table), Err(ImageError::BadSegment)));
}

#[test]
fn user_thread_from_two_segment_image_end_to_end() {
    let img = two_segment_image();
    let mut table = ProcessTable::new();
    let t = Thread::new_user(&img, vec![b"hi".to_vec()], &mut table).unwrap();

    let p = table.slots[t.proc].as_ref().unwrap();
    // exactly three regions: code, data, stack
    assert_eq!(p.memory_set.areas.len(), 3);
    let code = &p.memory_set.areas[0];
    assert_eq!((code.start, code.end), (0x1000, 0x1004));
    assert!(code.attr.execute);
    assert_eq!(code.data, vec![0xde, 0xad, 0xbe, 0xef]);
    // the data region's tail beyond its file size reads as zero
    let data = &p.memory_set.areas[1];
    assert_eq!((data.start, data.end), (0x2000, 0x2100));
    assert_eq!(&data.data[..3], &[1, 2, 3]);
    assert!(data.data[3..].iter().all(|&b| b == 0));
    assert!(!data.attr.execute);
    // the stack region, with the argument block just below its top
    let stack = &p.memory_set.areas[2];
    let top = USER_STACK_OFFSET + USER_STACK_SIZE;
    assert_eq!((stack.start, stack.end), (USER_STACK_OFFSET, top));
    // block: 12 words (argc, 1 arg pointer + zero, envp zero, three aux
    // pairs, zero pair) plus "hi\0" padded to 8 bytes
    let block_len = 12 * 8 + 8;
    match t.context {
        Context::UserEntry { entry_addr, ustack_top, is32, .. } => {
            assert_eq!(entry_addr, 0x1000);
            assert!(!is32);
            assert_eq!(ustack_top, top - block_len);
        }
        _ => panic!("expected a user-entry context"),
    }
    // the stack pointer sits below the top by the size of the pushed block
    let sp_off = USER_STACK_SIZE - block_len;
    let words = &stack.data[sp_off..];
    let w = |i: usize| {
        let mut b = [0u8; 8];
        b.copy_from_slice(&words[i * 8..i * 8 + 8]);
        u64::from_le_bytes(b)
    };
    assert_eq!(w(0), 1); // argc
    assert_eq!(w(1), (top - 3) as u64); // argv[0] -> "hi"
    assert_eq!(w(2), 0);
    assert_eq!(w(3), 0); // envp
    assert_eq!((w(4), w(5)), (4, 56)); // aux: entry size
    assert_eq!((w(6), w(7)), (5, 2)); // aux: entry count
    assert_eq!((w(8), w(9)), (6, 4096)); // aux: page size
    assert_eq!((w(10), w(11)), (0, 0));
    assert_eq!(&stack.data[USER_STACK_SIZE - 3..], b"hi\0");
    // everything between the zeroed stack and the block is untouched
    assert!(stack.data[..sp_off].iter().all(|&b| b == 0));
    // the descriptor table is seeded with 0, 1, 2
    assert_eq!(p.files.len(), 3);
    assert_eq!(p.get_free_fd(), 3);
    // nothing is registered until the thread is scheduled
    assert_eq!(table.registry.len(), 0);
}

/// A 32-bit little-endian image: 52-byte header, then 32-byte entries.
fn build_elf32(etype: u16, entry: u32, phs: &[(u32, u32, u32, u32, u32, u32)]) -> Vec<u8> {
    let mut v = vec![0u8; 52];
    v[0] = 0x7f;
    v[1] = b'E';
    v[2] = b'L';
    v[3] = b'F';
    v[4] = 1; // 32-bit
    v[5] = 1;
    v[6] = 1;
    v[16..18].copy_from_slice(&etype.to_le_bytes());
    v[24..28].copy_from_slice(&entry.to_le_bytes());
    v[28..32].copy_from_slice(&52u32.to_le_bytes());
    v[42..44].copy_from_slice(&32u16.to_le_bytes());
    v[44..46].copy_from_slice(&(phs.len() as u16).to_le_bytes());
    for &(ptype, flags, off, vaddr, filesz, memsz) in phs {
        let mut e = [0u8; 32];
        e[0..4].copy_from_slice(&ptype.to_le_bytes());
        e[4..8].copy_from_slice(&off.to_le_bytes());
        e[8..12].copy_from_slice(&vaddr.to_le_bytes());
        e[16..20].copy_from_slice(&filesz.to_le_bytes());
        e[20..24].copy_from_slice(&memsz.to_le_bytes());
        e[24..28].copy_from_slice(&flags.to_le_bytes());
        v.extend_from_slice(&e);
    }
    v
}

#[test]
fn a_32_bit_image_gets_the_32_bit_stack() {
    let off = 52 + 32;
    let mut img = build_elf32(ET_EXEC, 0x1000, &[(PT_LOAD, 1, off as u32, 0x1000, 2, 4)]);
    img.extend_from_slice(&[0xAB, 0xCD]);
    let mut table = ProcessTable::new();
    let t = Thread::new_user(&img, Vec::new(), &mut table).unwrap();
    let p = table.slots[t.proc].as_ref().unwrap();
    assert_eq!(p.memory_set.areas.len(), 2);
    assert_eq!(&p.memory_set.areas[0].data, &[0xAB, 0xCD, 0, 0]);
    let top: usize = 0xC000_0000;
    assert_eq!(p.memory_set.areas[1].end, top);
    // 11 words: argc, argv zero, envp zero, three aux pairs, zero pair
    let block_len = 11 * 8;
    match t.context {
        Context::UserEntry { ustack_top, is32, entry_addr, .. } => {
            assert!(is32);
            assert_eq!(entry_addr, 0x1000);
            assert_eq!(ustack_top, top - block_len);
        }
        _ => panic!("expected a user-entry context"),
    }
}

#[test]
fn a_shared_object_image_is_accepted_for_a_user_thread() {
    let img = build_elf64(3, 0x2000, &[(PT_LOAD, 1, 0, 0x2000, 0, 8)]);
    let mut table = ProcessTable::new();
    assert!(Thread::new_user(&img, Vec::new(), &mut table).is_ok());
}

#[test]
fn an_explicit_table_entry_fills_the_aux_vector() {
    let img = build_elf64(
        ET_EXEC,
        0x1000,
        &[(6, 0, 0, 0x1038, 0, 0), (PT_LOAD, 1, 0x10, 0x1000, 0, 8)],
    );
    let mut table = ProcessTable::new();
    let t = Thread::new_user(&img, Vec::new(), &mut table).unwrap();
    let p = table.slots[t.proc].as_ref().unwrap();
    let stack = &p.memory_set.areas[1];
    // words: argc, argv zero, envp zero, then four aux pairs and the pair
    // of zeros: 13 words
    let sp_off = USER_STACK_SIZE - 13 * 8;
    let w = |i: usize| {
        let mut b = [0u8; 8];
        b.copy_from_slice(&stack.data[sp_off + i * 8..sp_off + i * 8 + 8]);
        u64::from_le_bytes(b)
    };
    assert_eq!((w(0), w(1), w(2)), (0, 0, 0));
    assert_eq!((w(3), w(4)), (3, 0x1038)); // the table's own address
    assert_eq!((w(5), w(6)), (4, 56));
}

#[test]
fn a_zero_offset_segment_lets_the_table_address_be_inferred() {
    let img = build_elf64(ET_EXEC, 0x10000, &[(PT_LOAD, 1, 0, 0x10000, 64, 64)]);
    let mut table = ProcessTable::new();
    let t = Thread::new_user(&img, Vec::new(), &mut table).unwrap();
    let p = table.slots[t.proc].as_ref().unwrap();
    // the loaded bytes are the image's own first 64 bytes
    assert_eq!(&p.memory_set.areas[0].data[..4], &[0x7f, b'E', b'L', b'F']);
    let stack = &p.memory_set.areas[1];
    let sp_off = USER_STACK_SIZE - 13 * 8;
    let w = |i: usize| {
        let mut b = [0u8; 8];
        b.copy_from_slice(&stack.data[sp_off + i * 8..sp_off + i * 8 + 8]);
        u64::from_le_bytes(b)
    };
    // inferred: segment address plus the header's table offset
    assert_eq!((w(3), w(4)), (3, 0x10000 + 64));
}

#[test]
fn a_dataless_segment_ignores_its_file_offset() {
    // no file-backed bytes: the offset field is irrelevant and the
    // region is pure zero fill
    let img = build_elf64(ET_EXEC, 0x1000, &[(PT_LOAD, 1, 0xdead_beef, 0x1000, 0, 8)]);
    let mut table = ProcessTable::new();
    let t = Thread::new_user(&img, Vec::new(), &mut table).unwrap();
    let p = table.slots[t.proc].as_ref().unwrap();
    assert!(p.memory_set.areas[0].data.iter().all(|&b| b == 0));
    assert_eq!(p.memory_set.areas[0].data.len(), 8);
}
