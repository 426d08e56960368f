use process_core::arch::{Context, TrapFrame};
use process_core::context::{memory_attr_from, ContextImpl};
use process_core::elf::{Flags, ImageError, ET_EXEC, PT_LOAD};
use process_core::file::{FileLike, SocketHandle, SocketType, SocketWrapper, TcpSocketState};
use process_core::process::ProcessTable;
use process_core::thread::{Thread, USER_STACK_OFFSET, USER_STACK_SIZE};

/// A 64-bit little-endian image: header, program-header table, then the
/// segment payloads appended in order.
fn build_elf64(etype: u16, entry: u64, phs: &[(u32, u32, u64, u64, u64, u64)]) -> Vec<u8> {
    let mut v = vec![0u8; 64];
    v[0] = 0x7f;
    v[1] = b'E';
    v[2] = b'L';
    v[3] = b'F';
    v[4] = 2;
    v[5] = 1;
    v[6] = 1;
    v[16..18].copy_from_slice(&etype.to_le_bytes());
    v[18..20].copy_from_slice(&62u16.to_le_bytes());
    v[24..32].copy_from_slice(&entry.to_le_bytes());
    v[32..40].copy_from_slice(&64u64.to_le_bytes());
    v[54..56].copy_from_slice(&56u16.to_le_bytes());
    v[56..58].copy_from_slice(&(phs.len() as u16).to_le_bytes());
    for &(ptype, flags, off, vaddr, filesz, memsz) in phs {
        let mut e = [0u8; 56];
        e[0..4].copy_from_slice(&ptype.to_le_bytes());
        e[4..8].copy_from_slice(&flags.to_le_bytes());
        e[8..16].copy_from_slice(&off.to_le_bytes());
        e[16..24].copy_from_slice(&vaddr.to_le_bytes());
        e[32..40].copy_from_slice(&filesz.to_le_bytes());
        e[40..48].copy_from_slice(&memsz.to_le_bytes());
        v.extend_from_slice(&e);
    }
    v
}

#[test]
fn context_new_user_builds_segments_and_a_zeroed_stack() {
    let off = 64 + 56;
    let mut img = build_elf64(ET_EXEC, 0x1000, &[(PT_LOAD, 1, off as u64, 0x1000, 2, 8)]);
    img.extend_from_slice(&[0x90, 0x90]);
    let mut table = ProcessTable::new();
    let ctx = ContextImpl::new_user(&img, &mut table).unwrap();
    assert_eq!(ctx.memory_set.areas.len(), 2);
    assert_eq!(&ctx.memory_set.areas[0].data, &[0x90, 0x90, 0, 0, 0, 0, 0, 0]);
    let top = USER_STACK_OFFSET + USER_STACK_SIZE;
    match ctx.arch {
        Context::UserEntry { entry_addr, ustack_top, is32, .. } => {
            assert_eq!(entry_addr, 0x1000);
            assert_eq!(ustack_top, top - 8);
            assert!(!is32);
        }
        _ => panic!("expected a user-entry context"),
    }
    assert!(ctx.memory_set.areas[1].data.iter().all(|&b| b == 0));
}

#[test]
fn context_new_user_takes_executables_and_shared_objects() {
    let so = build_elf64(3, 0x1000, &[(PT_LOAD, 1, 0, 0x1000, 0, 8)]); // shared object
    let mut table = ProcessTable::new();
    assert!(ContextImpl::new_user(&so, &mut table).is_ok());
    let rel = build_elf64(1, 0x1000, &[]); // relocatable
    assert!(matches!(ContextImpl::new_user(&rel, &mut table), Err(ImageError::NotExecutable)));
}

#[test]
fn context_fork_copies_the_space() {
    let off = 64 + 56;
    let mut img = build_elf64(ET_EXEC, 0x1000, &[(PT_LOAD, 1, off as u64, 0x1000, 3, 3)]);
    img.extend_from_slice(&[7, 8, 9]);
    let mut table = ProcessTable::new();
    let ctx = ContextImpl::new_user(&img, &mut table).unwrap();
    let tf = TrapFrame { ip: 1, sp: 2 };
    let copy = ctx.fork(&tf, &mut table);
    assert_eq!(copy.memory_set.areas.len(), ctx.memory_set.areas.len());
    assert_eq!(copy.memory_set.areas[0].data, ctx.memory_set.areas[0].data);
    assert_ne!(copy.memory_set.token, ctx.memory_set.token);
    assert!(matches!(copy.arch, Context::Forked { .. }));
}

#[test]
fn context_switch_and_memory_access() {
    let mut table = ProcessTable::new();
    let mut boot = ContextImpl::new_init(&mut table);
    let mut worker = ContextImpl::new_kernel(0x4000, 5, &mut table);
    boot.switch_to(&mut worker);
    assert!(matches!(boot.arch, Context::Saved));
    assert!(matches!(worker.arch, Context::Running));
    let ms = worker.get_memory_set_mut();
    assert_eq!(ms.len(), 0);
}

#[test]
fn oversized_arguments_do_not_fit_the_stack() {
    let img = build_elf64(ET_EXEC, 0x1000, &[(PT_LOAD, 1, 0, 0x1000, 0, 4)]);
    let mut table = ProcessTable::new();
    let big = vec![0u8; USER_STACK_SIZE];
    let r = Thread::new_user(&img, vec![big], &mut table);
    assert!(matches!(r, Err(ImageError::BadInitStack)));
    assert_eq!(table.slots.len(), 0);
    assert_eq!(table.registry.len(), 0);
}

#[test]
fn segment_flags_map_to_region_attributes() {
    let x = memory_attr_from(Flags { bits: 5 }); // read + execute
    assert!(x.user && x.execute);
    let rw = memory_attr_from(Flags { bits: 6 }); // read + write
    assert!(rw.user && !rw.execute);
    let via_method = Flags { bits: 1 }.to_attr();
    assert!(via_method.execute);
}

#[test]
fn descriptor_kinds_have_names() {
    let sock = FileLike::Socket(SocketWrapper {
        handle: SocketHandle { id: 1 },
        socket_type: SocketType::Tcp(TcpSocketState { local_endpoint: None, is_listening: false }),
    });
    assert_eq!(sock.kind_name(), "TcpSocket");
    let raw = FileLike::Socket(SocketWrapper {
        handle: SocketHandle { id: 2 },
        socket_type: SocketType::Raw,
    });
    assert_eq!(raw.kind_name(), "RawSocket");
}
