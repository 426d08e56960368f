use process_core::arch::Context;
use process_core::context::{memory_set_map_swappable, ContextImpl};
use process_core::memory::{KernelStack, MemoryArea, MemoryAttr, MemorySet};

fn space_with_three_pages() -> MemorySet {
    let mut ms = MemorySet::new(7);
    let attr = MemoryAttr::default().user();
    ms.push(MemoryArea::new(0x1000, 0x3000, attr, "a")); // two pages
    ms.push(MemoryArea::new(0x5000, 0x5001, attr, "b")); // one byte, one page
    ms
}

#[test]
fn map_swappable_lists_every_page_once() {
    let ms = space_with_three_pages();
    let ops = memory_set_map_swappable(&ms);
    assert_eq!(ops, vec![0x1000, 0x2000, 0x5000]);
}

#[test]
fn teardown_unswaps_exactly_n_pages() {
    let ms = space_with_three_pages();
    let ctx = ContextImpl { arch: Context::null(), memory_set: ms, kstack: KernelStack::new(0) };
    let ops = ctx.teardown();
    assert_eq!(ops.len(), 3);
    assert_eq!(ops, vec![0x1000, 0x2000, 0x5000]);
}

#[test]
fn empty_space_has_no_swap_work() {
    let ms = MemorySet::new(1);
    assert_eq!(memory_set_map_swappable(&ms).len(), 0);
}

#[test]
fn unaligned_region_covers_its_straddled_pages() {
    let mut ms = MemorySet::new(1);
    let attr = MemoryAttr::default().user();
    // from mid-page to mid-page: pages 0x1000 and 0x2000
    ms.push(MemoryArea::new(0x1800, 0x2800, attr, ""));
    assert_eq!(memory_set_map_swappable(&ms), vec![0x1000, 0x2000]);
}

#[test]
fn fresh_region_reads_as_zero() {
    let a = MemoryArea::new(0x1000, 0x1010, MemoryAttr::default().user(), "");
    assert!(a.as_slice().iter().all(|&b| b == 0));
    assert_eq!(a.as_slice().len(), 0x10);
}

#[test]
fn write_into_area_changes_only_the_written_range() {
    let mut ms = MemorySet::new(1);
    ms.push(MemoryArea::new(0x1000, 0x1010, MemoryAttr::default().user(), ""));
    ms.write_into_area(0, 4, &[1, 2, 3]);
    let bytes = ms.area(0).as_slice();
    assert_eq!(bytes, &[0, 0, 0, 0, 1, 2, 3, 0, 0, 0, 0, 0, 0, 0, 0, 0]);
}

#[test]
fn duplicate_copies_layout_and_bytes() {
    let mut ms = MemorySet::new(1);
    ms.push(MemoryArea::new(0x1000, 0x1004, MemoryAttr::default().user(), ""));
    ms.write_into_area(0, 0, &[9, 8, 7, 6]);
    let copy = ms.duplicate(2);
    assert_eq!(copy.token(), 2);
    assert_eq!(copy.area(0).as_slice(), ms.area(0).as_slice());
    assert_eq!(copy.area(0).start, 0x1000);
    assert_eq!(copy.area(0).end, 0x1004);
}
