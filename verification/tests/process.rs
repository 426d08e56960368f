use process_core::file::{FileHandle, FileLike, OpenOptions};
use process_core::memory::MemorySet;
use process_core::process::Process;

fn plain_file(id: usize) -> FileLike {
    FileLike::File(FileHandle {
        file: id,
        options: OpenOptions { read: true, write: false, append: false },
    })
}

fn empty_process() -> Process {
    Process::new(MemorySet::new(1), Vec::new(), String::from("/"), None)
}

#[test]
fn free_fd_on_empty_table_is_zero() {
    let p = empty_process();
    assert_eq!(p.get_free_fd(), 0);
}

#[test]
fn free_fd_after_012_is_3_and_after_closing_1_is_1() {
    let mut p = empty_process();
    p.insert_file(0, plain_file(10));
    p.insert_file(1, plain_file(11));
    p.insert_file(2, plain_file(12));
    assert_eq!(p.get_free_fd(), 3);
    p.remove_file(1);
    assert_eq!(p.get_free_fd(), 1);
}

#[test]
fn free_fd_skips_only_used_descriptors() {
    let mut p = empty_process();
    p.insert_file(0, plain_file(1));
    p.insert_file(2, plain_file(2));
    assert_eq!(p.get_free_fd(), 1);
}

#[test]
fn same_futex_address_yields_same_condition() {
    let mut p = empty_process();
    let a = p.get_futex(0x1000);
    let b = p.get_futex(0x1000);
    assert_eq!(a.id, b.id);
}

#[test]
fn distinct_futex_addresses_yield_distinct_conditions() {
    let mut p = empty_process();
    let a = p.get_futex(0x1000);
    let b = p.get_futex(0x2000);
    let c = p.get_futex(0x3000);
    assert_ne!(a.id, b.id);
    assert_ne!(a.id, c.id);
    assert_ne!(b.id, c.id);
    // and asking again still returns the original conditions
    assert_eq!(p.get_futex(0x2000).id, b.id);
}

#[test]
fn insert_file_replaces_existing_descriptor() {
    let mut p = empty_process();
    p.insert_file(4, plain_file(1));
    p.insert_file(4, plain_file(2));
    assert_eq!(p.files.len(), 1);
    match p.files[0].1 {
        FileLike::File(h) => assert_eq!(h.file, 2),
        _ => panic!("expected a file"),
    }
}
