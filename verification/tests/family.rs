use process_core::arch::{Context, TrapFrame};
use process_core::elf::{ET_EXEC, PT_LOAD};
use process_core::file::{FileHandle, FileLike, OpenOptions, SocketHandle, SocketType,
    SocketWrapper};
use process_core::process::ProcessTable;
use process_core::thread::Thread;

/// A 64-bit little-endian image: header, program-header table, then the
/// segment payloads appended in order.
fn build_elf64(etype: u16, entry: u64, phs: &[(u32, u32, u64, u64, u64, u64)]) -> Vec<u8> {
    let mut v = vec![0u8; 64];
    v[0] = 0x7f;
    v[1] = b'E';
    v[2] = b'L';
    v[3] = b'F';
    v[4] = 2;
    v[5] = 1;
    v[6] = 1;
    v[16..18].copy_from_slice(&etype.to_le_bytes());
    v[18..20].copy_from_slice(&62u16.to_le_bytes());
    v[24..32].copy_from_slice(&entry.to_le_bytes());
    v[32..40].copy_from_slice(&64u64.to_le_bytes());
    v[54..56].copy_from_slice(&56u16.to_le_bytes());
    v[56..58].copy_from_slice(&(phs.len() as u16).to_le_bytes());
    for &(ptype, flags, off, vaddr, filesz, memsz) in phs {
        let mut e = [0u8; 56];
        e[0..4].copy_from_slice(&ptype.to_le_bytes());
        e[4..8].copy_from_slice(&flags.to_le_bytes());
        e[8..16].copy_from_slice(&off.to_le_bytes());
        e[16..24].copy_from_slice(&vaddr.to_le_bytes());
        e[32..40].copy_from_slice(&filesz.to_le_bytes());
        e[40..48].copy_from_slice(&memsz.to_le_bytes());
        v.extend_from_slice(&e);
    }
    v
}

fn small_user_thread(table: &mut ProcessTable) -> Thread {
    let off = 64 + 56;
    let mut img = build_elf64(ET_EXEC, 0x1000, &[(PT_LOAD, 1, off as u64, 0x1000, 4, 4)]);
    img.extend_from_slice(&[10, 20, 30, 40]);
    Thread::new_user(&img, Vec::new(), table).unwrap()
}

#[test]
fn fork_copies_bytes_eagerly_and_isolates_both_sides() {
    let mut table = ProcessTable::new();
    let parent = small_user_thread(&mut table);
    let tf = TrapFrame { ip: 0x1234, sp: 0x5678 };
    let child = parent.fork(&tf, &Vec::new(), &mut table);
    assert_ne!(child.proc, parent.proc);

    // byte-for-byte identical right after creation
    {
        let pp = table.slots[parent.proc].as_ref().unwrap();
        let cp = table.slots[child.proc].as_ref().unwrap();
        assert_eq!(pp.memory_set.areas.len(), cp.memory_set.areas.len());
        for i in 0..pp.memory_set.areas.len() {
            assert_eq!(pp.memory_set.areas[i].data, cp.memory_set.areas[i].data);
        }
        assert_ne!(pp.memory_set.token, cp.memory_set.token);
        assert_eq!(cp.parent, Some(parent.proc));
        assert_eq!(cp.cwd, pp.cwd);
    }

    // a later write to the parent does not reach the child, nor the
    // other way round
    table.slots[parent.proc].as_mut().unwrap().memory_set.write_into_area(0, 0, &[0xAA, 0xBB]);
    {
        let cp = table.slots[child.proc].as_ref().unwrap();
        assert_eq!(&cp.memory_set.areas[0].data[..4], &[10, 20, 30, 40]);
    }
    table.slots[child.proc].as_mut().unwrap().memory_set.write_into_area(0, 2, &[0xCC]);
    {
        let pp = table.slots[parent.proc].as_ref().unwrap();
        assert_eq!(&pp.memory_set.areas[0].data[..4], &[0xAA, 0xBB, 30, 40]);
    }

    // the child resumes at the trap frame
    match child.context {
        Context::Forked { tf: childtf, .. } => assert_eq!((childtf.ip, childtf.sp), (0x1234, 0x5678)),
        _ => panic!("expected a forked context"),
    }
}

#[test]
fn fork_keeps_only_live_sockets() {
    let mut table = ProcessTable::new();
    let parent = small_user_thread(&mut table);
    {
        let pp = table.slots[parent.proc].as_mut().unwrap();
        pp.insert_file(
            3,
            FileLike::Socket(SocketWrapper {
                handle: SocketHandle { id: 11 },
                socket_type: SocketType::Raw,
            }),
        );
        pp.insert_file(
            4,
            FileLike::Socket(SocketWrapper {
                handle: SocketHandle { id: 22 },
                socket_type: SocketType::Icmp,
            }),
        );
    }
    let tf = TrapFrame { ip: 0, sp: 0 };
    let live = vec![SocketHandle { id: 22 }];
    let child = parent.fork(&tf, &live, &mut table);
    let cp = table.slots[child.proc].as_ref().unwrap();
    // stdio survives, socket 11 is gone, socket 22 stays under fd 4
    assert_eq!(cp.files.len(), 4);
    assert!(cp.files.iter().all(|(fd, _)| *fd != 3));
    match cp.files.iter().find(|(fd, _)| *fd == 4).map(|(_, f)| *f) {
        Some(FileLike::Socket(w)) => assert_eq!(w.handle.id, 22),
        _ => panic!("expected the live socket"),
    }
}

#[test]
fn clone_shares_the_same_process() {
    let mut table = ProcessTable::new();
    let first = small_user_thread(&mut table);
    let tf = TrapFrame { ip: 7, sp: 8 };
    let second = first.clone(&tf, 0x7000_0000, 0x600, 0x500, &mut table);
    // the same underlying process control block
    assert_eq!(second.proc, first.proc);
    assert_eq!(second.clear_child_tid, 0x500);
    match second.context {
        Context::Cloned { ustack_top, tls, .. } => {
            assert_eq!(ustack_top, 0x7000_0000);
            assert_eq!(tls, 0x600);
        }
        _ => panic!("expected a cloned context"),
    }
    // state is visibly shared: a descriptor added via one thread is
    // visible via the other, and futexes are the same conditions
    let fd = {
        let p = table.slots[first.proc].as_mut().unwrap();
        let fd = p.get_free_fd();
        p.insert_file(
            fd,
            FileLike::File(FileHandle {
                file: 9,
                options: OpenOptions { read: true, write: true, append: false },
            }),
        );
        fd
    };
    let c1 = table.slots[second.proc].as_mut().unwrap().get_futex(0x40);
    let c2 = table.slots[first.proc].as_mut().unwrap().get_futex(0x40);
    assert_eq!(c1.id, c2.id);
    let p = table.slots[second.proc].as_ref().unwrap();
    assert!(p.files.iter().any(|(d, _)| *d == fd));
}

#[test]
fn set_tid_assigns_pid_once_and_registers() {
    let mut table = ProcessTable::new();
    let t = Thread::new_init(&mut table);
    t.set_tid(0, &mut table);
    {
        let p = table.slots[t.proc].as_ref().unwrap();
        assert!(p.pid.is_init());
        assert_eq!(p.pid.get(), 0);
        assert_eq!(p.threads, vec![0]);
    }
    assert_eq!(table.registry, vec![(0, t.proc)]);

    // a second thread of the same process never changes the pid
    let tf = TrapFrame { ip: 0, sp: 0 };
    let t2 = t.clone(&tf, 0, 0, 0, &mut table);
    t2.set_tid(5, &mut table);
    let p = table.slots[t.proc].as_ref().unwrap();
    assert_eq!(p.pid.get(), 0);
    assert_eq!(p.threads, vec![0, 5]);
    assert_eq!(table.registry, vec![(0, t.proc)]);
}

#[test]
fn leader_registration_links_the_child_to_its_parent() {
    let mut table = ProcessTable::new();
    let parent = small_user_thread(&mut table);
    parent.set_tid(1, &mut table);
    let tf = TrapFrame { ip: 0, sp: 0 };
    let child = parent.fork(&tf, &Vec::new(), &mut table);
    // fork alone does not link the child
    assert!(table.slots[parent.proc].as_ref().unwrap().children.is_empty());
    child.set_tid(2, &mut table);
    let pp = table.slots[parent.proc].as_ref().unwrap();
    assert_eq!(pp.children, vec![child.proc]);
    let cp = table.slots[child.proc].as_ref().unwrap();
    assert_eq!(cp.pid.get(), 2);
    assert_eq!(table.registry, vec![(1, parent.proc), (2, child.proc)]);
}

#[test]
fn switching_passes_the_running_state() {
    let mut table = ProcessTable::new();
    let mut boot = Thread::new_init(&mut table);
    let mut worker = Thread::new_kernel(0x8000, 42, &mut table);
    assert!(matches!(boot.context, Context::Running));
    assert!(matches!(worker.context, Context::KernelEntry { arg: 42, .. }));
    boot.switch_to(&mut worker);
    assert!(matches!(boot.context, Context::Saved));
    assert!(matches!(worker.context, Context::Running));
}
