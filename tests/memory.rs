use rustos::memory::{
    allocate_pages, deallocate_pages, init, init_heap, BootInfoFrameAllocator, MemoryError, MemoryRegion,
    MemoryRegionType, HEAP_START, PAGE_SIZE, USER_SPACE_START,
};

fn usable(start: u64, end: u64) -> MemoryRegion {
    MemoryRegion { start, end, region_type: MemoryRegionType::Usable }
}

fn reserved(start: u64, end: u64) -> MemoryRegion {
    MemoryRegion { start, end, region_type: MemoryRegionType::Reserved }
}

#[test]
fn boot_map_with_one_region_brings_up_heap_and_user_pages() {
    let mut slot = Some(init(vec![usable(0x100000, 0x800000)]));
    let heap = init_heap(&mut slot).unwrap();
    assert_eq!(heap.len(), 25);
    for (j, m) in heap.iter().enumerate() {
        assert_eq!(m.page, HEAP_START + j as u64 * PAGE_SIZE);
        assert_eq!(m.frame, 0x100000 + j as u64 * PAGE_SIZE);
    }
    let a = allocate_pages(&mut slot, 4).unwrap();
    assert_ne!(a.base, 0);
    assert_eq!(a.base, USER_SPACE_START);
    assert_eq!(a.frames, vec![0x119000, 0x11a000, 0x11b000, 0x11c000]);
}

#[test]
fn frames_skip_reserved_regions_and_ascend() {
    let mut fa = BootInfoFrameAllocator::init(vec![
        reserved(0, 0x1000),
        usable(0x1000, 0x3000),
        reserved(0x3000, 0x8000),
        usable(0x8000, 0x9000),
    ]);
    assert_eq!(fa.allocate_frame(), Some(0x1000));
    assert_eq!(fa.allocate_frame(), Some(0x2000));
    assert_eq!(fa.allocate_frame(), Some(0x8000));
    assert_eq!(fa.allocate_frame(), None);
    assert_eq!(fa.allocate_frame(), None);
}

#[test]
fn frames_of_an_unaligned_region_are_rounded_down() {
    let fa = BootInfoFrameAllocator::init(vec![usable(0x1234, 0x3001)]);
    assert_eq!(fa.usable_frame(0), Some(0x1000));
    assert_eq!(fa.usable_frame(1), Some(0x2000));
    assert_eq!(fa.usable_frame(2), None);
}

#[test]
fn heap_needs_enough_frames() {
    let mut slot = Some(init(vec![usable(0x100000, 0x100000 + 24 * 4096)]));
    assert_eq!(init_heap(&mut slot).err(), Some(MemoryError::OutOfMemory));
    let mut none = None;
    assert_eq!(init_heap(&mut none).err(), Some(MemoryError::NotInitialized));
    assert_eq!(MemoryError::OutOfMemory.message(), "out of memory");
}

#[test]
fn user_mappings_do_not_alias_and_are_reused_after_release() {
    let mut slot = Some(init(vec![usable(0x100000, 0x800000)]));
    let a = allocate_pages(&mut slot, 2).unwrap();
    let b = allocate_pages(&mut slot, 3).unwrap();
    assert_eq!(a.base, USER_SPACE_START);
    assert_eq!(b.base, USER_SPACE_START + 2 * PAGE_SIZE);
    let freed = deallocate_pages(&mut slot, a.base + 5, 2);
    assert_eq!(freed, vec![USER_SPACE_START, USER_SPACE_START + PAGE_SIZE]);
    let c = allocate_pages(&mut slot, 1).unwrap();
    assert_eq!(c.base, USER_SPACE_START);
    let d = allocate_pages(&mut slot, 2).unwrap();
    assert_eq!(d.base, USER_SPACE_START + 5 * PAGE_SIZE);
    assert!(allocate_pages(&mut slot, 0).is_none());
}

#[test]
fn allocation_fails_without_frames_and_takes_none() {
    let mut slot = Some(init(vec![usable(0x100000, 0x102000)]));
    assert!(allocate_pages(&mut slot, 3).is_none());
    let a = allocate_pages(&mut slot, 2).unwrap();
    assert_eq!(a.frames, vec![0x100000, 0x101000]);
    assert!(allocate_pages(&mut None, 1).is_none());
}

#[test]
fn unmapping_stops_at_non_canonical_pages() {
    let mut slot = Some(init(vec![]));
    assert!(deallocate_pages(&mut slot, 0x8000_0000_0000, 1).is_empty());
    let pages = deallocate_pages(&mut slot, 0x7fff_ffff_e123, 5);
    assert_eq!(pages, vec![0x7fff_ffff_e000, 0x7fff_ffff_f000]);
    let top = deallocate_pages(&mut slot, 0xffff_ffff_ffff_f000, 3);
    assert_eq!(top, vec![0xffff_ffff_ffff_f000]);
}
