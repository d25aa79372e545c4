//! Behaviour of the memory-management half of the core: the bitmap frame
//! allocator, the page-table mapper, heap bootstrap, and the combined boot
//! initialization.

use kernel_core::frame_allocator::{KernelFrameAllocator, MemoryRegion};
use kernel_core::heap::{init_heap, HEAP_INITIAL_SIZE, HEAP_PAGE_COUNT, HEAP_START};
use kernel_core::mem::{init, phys_to_virt, virt_to_phys, InitError, InitOnce};
use kernel_core::paging::{MapError, Mapper, PAGE_PRESENT, PAGE_WRITABLE};
use kernel_core::PHYSICAL_MEMORY_OFFSET;

/// One usable megabyte of physical memory at the one-megabyte mark.
fn one_megabyte_map() -> Vec<MemoryRegion> {
    vec![MemoryRegion { base: 0x10_0000, length: 0x10_0000, usable: true }]
}

#[test]
fn single_region_yields_its_frames() {
    let map = one_megabyte_map();
    let mut fa = KernelFrameAllocator::new(&map);
    assert_eq!(fa.max_frames(), 0x200);
    // the bitmap store occupies the first frame of the chosen region
    assert!(fa.frame_is_used(0x10_0000));
    assert!(!fa.frame_is_used(0x10_1000));
    // everything below the usable region is used from the start
    assert!(fa.frame_is_used(0));
    assert!(fa.frame_is_used(0x0F_F000));

    let mut allocated = Vec::new();
    while let Some(addr) = fa.allocate_frame() {
        allocated.push(addr);
    }
    // 256 frames in the region, one taken by the bitmap store
    assert_eq!(allocated.len(), 255);
    assert_eq!(allocated[0], 0x10_1000);
    assert_eq!(allocated[254], 0x1F_F000);
    assert!(fa.allocate_frame().is_none());

    // freeing one frame makes exactly that frame obtainable again
    fa.deallocate_frame(0x15_0000);
    assert_eq!(fa.allocate_frame(), Some(0x15_0000));
    assert!(fa.allocate_frame().is_none());
}

#[test]
fn live_allocations_never_alias() {
    let map = one_megabyte_map();
    let mut fa = KernelFrameAllocator::new(&map);
    let mut seen = Vec::new();
    while let Some(addr) = fa.allocate_frame() {
        assert!(!seen.contains(&addr));
        seen.push(addr);
    }
    // interleave frees and re-allocations: a freed frame comes back, but
    // never a frame that is still live
    fa.deallocate_frame(seen[10]);
    fa.deallocate_frame(seen[200]);
    let a = fa.allocate_frame().unwrap();
    let b = fa.allocate_frame().unwrap();
    assert_ne!(a, b);
    assert!(a == seen[10] || a == seen[200]);
    assert!(b == seen[10] || b == seen[200]);
    assert!(fa.allocate_frame().is_none());
}

#[test]
fn bitmap_round_trip_restores_the_bitmap() {
    let map = one_megabyte_map();
    let mut fa = KernelFrameAllocator::new(&map);
    // a range of used frames below the usable region
    let probes = [0u64, 0x8000, 0xF000, 0x10000, 0x11000, 0x10_1000];
    let before: Vec<bool> = probes.iter().map(|a| fa.frame_is_used(*a)).collect();

    fa.mark_range_as_free(0, 0x10000);
    assert!(!fa.frame_is_used(0));
    assert!(!fa.frame_is_used(0xF000));
    assert!(fa.frame_is_used(0x10000));
    fa.mark_range_as_used(0, 0x10000);

    let after: Vec<bool> = probes.iter().map(|a| fa.frame_is_used(*a)).collect();
    assert_eq!(before, after);

    // and the other direction, over frames that start out free
    fa.mark_range_as_used(0x10_8000, 0x10_A000);
    assert!(fa.frame_is_used(0x10_8000));
    assert!(fa.frame_is_used(0x10_9000));
    fa.mark_range_as_free(0x10_8000, 0x10_A000);
    let restored: Vec<bool> = probes.iter().map(|a| fa.frame_is_used(*a)).collect();
    assert_eq!(before, restored);
    assert!(!fa.frame_is_used(0x10_8000));
}

#[test]
fn mapper_installs_and_translates() {
    let map = one_megabyte_map();
    let mut fa = KernelFrameAllocator::new(&map);
    let mut m = Mapper::new(PHYSICAL_MEMORY_OFFSET);
    let va = 0x1234_5000u64;
    assert!(m.translate(va).is_none());

    let frame = fa.allocate_frame().unwrap();
    let flush = m.map(va, frame, PAGE_PRESENT | PAGE_WRITABLE, &mut fa).unwrap();
    // flush-on-map is mandatory: the token names the page to invalidate
    assert_eq!(flush.page(), va);

    assert_eq!(m.translate(va), Some(frame));
    assert_eq!(m.translate(va + 0x123), Some(frame + 0x123));
    assert!(m.translate(0x9999_0000).is_none());
    assert!(virt_to_phys(&m, va + 0x42) == Some(frame + 0x42));
}

#[test]
fn remapping_a_mapped_page_is_reported() {
    let map = one_megabyte_map();
    let mut fa = KernelFrameAllocator::new(&map);
    let mut m = Mapper::new(PHYSICAL_MEMORY_OFFSET);
    let va = 0x1234_5000u64;
    let frame = fa.allocate_frame().unwrap();
    let _ = m.map(va, frame, PAGE_PRESENT, &mut fa).unwrap();
    let other = fa.allocate_frame().unwrap();
    assert_eq!(
        m.map(va, other, PAGE_PRESENT, &mut fa),
        Err(MapError::PageAlreadyMapped(frame))
    );
    // the ignorable outcome left the original mapping in place
    assert_eq!(m.translate(va), Some(frame));
}

#[test]
fn map_reports_frame_exhaustion() {
    let map = one_megabyte_map();
    let mut fa = KernelFrameAllocator::new(&map);
    while fa.allocate_frame().is_some() {}
    let mut m = Mapper::new(PHYSICAL_MEMORY_OFFSET);
    assert_eq!(
        m.map(0x1234_5000, 0x10_1000, PAGE_PRESENT, &mut fa),
        Err(MapError::FrameAllocationFailed)
    );
    assert!(m.translate(0x1234_5000).is_none());
}

#[test]
fn huge_mapping_covers_its_span_and_blocks_finer_maps() {
    let map = one_megabyte_map();
    let mut fa = KernelFrameAllocator::new(&map);
    let mut m = Mapper::new(PHYSICAL_MEMORY_OFFSET);
    let span_base = 0x4000_0000u64;
    let huge_frame = 0x20_0000u64;
    let flush = m.map_huge_2mib(span_base, huge_frame, PAGE_PRESENT, &mut fa).unwrap();
    assert_eq!(flush.page(), span_base);

    // every address of the 2 MiB span resolves inside the huge frame
    assert_eq!(m.translate(span_base), Some(huge_frame));
    assert_eq!(m.translate(span_base + 0x12_3456), Some(huge_frame + 0x12_3456));
    assert_eq!(m.translate(span_base + 0x1F_FFFF), Some(huge_frame + 0x1F_FFFF));
    assert!(m.translate(span_base + 0x20_0000).is_none());

    // a 4 KiB mapping attempt under the huge page reports the huge parent
    let small = fa.allocate_frame().unwrap();
    assert_eq!(
        m.map(span_base + 0x10_0000, small, PAGE_PRESENT, &mut fa),
        Err(MapError::ParentEntryHugePage)
    );
    assert_eq!(m.translate(span_base + 0x10_0000), Some(huge_frame + 0x10_0000));
}

#[test]
fn heap_bootstrap_maps_the_whole_window() {
    let map = one_megabyte_map();
    let mut fa = KernelFrameAllocator::new(&map);
    let mut m = Mapper::new(PHYSICAL_MEMORY_OFFSET);
    let (span, flushes) = init_heap(&mut m, &mut fa).unwrap();
    assert_eq!(span.start, HEAP_START);
    assert_eq!(span.size, HEAP_INITIAL_SIZE);
    assert_eq!(HEAP_PAGE_COUNT, 25);
    // one flush obligation per page, in window order
    assert_eq!(flushes.len() as u64, HEAP_PAGE_COUNT);
    let mut backing = Vec::new();
    for p in 0..HEAP_PAGE_COUNT {
        assert_eq!(flushes[p as usize].page(), HEAP_START + p * 4096);
        let phys = m.translate(HEAP_START + p * 4096).unwrap();
        // each page has a page-aligned frame of its own
        assert_eq!(phys % 4096, 0);
        assert!(!backing.contains(&phys));
        backing.push(phys);
    }
    assert!(m.translate(HEAP_START + HEAP_PAGE_COUNT * 4096).is_none());
}

#[test]
fn heap_bootstrap_fails_whole_when_memory_runs_out() {
    // sixteen usable frames: far too few for the 25-page window
    let map = vec![MemoryRegion { base: 0x10_0000, length: 0x1_0000, usable: true }];
    let mut fa = KernelFrameAllocator::new(&map);
    let mut m = Mapper::new(PHYSICAL_MEMORY_OFFSET);
    let result = init_heap(&mut m, &mut fa);
    // no span exists, so nothing can be claimed over the partial window
    assert_eq!(result, Err(MapError::FrameAllocationFailed));
    assert!(fa.allocate_frame().is_none());
}

#[test]
fn memory_init_runs_exactly_once() {
    let map = one_megabyte_map();
    let mut guard = InitOnce::new();
    let mi = init(&map, PHYSICAL_MEMORY_OFFSET, &mut guard).unwrap();
    assert_eq!(mi.heap.start, HEAP_START);
    assert_eq!(mi.heap.size, HEAP_INITIAL_SIZE);
    assert_eq!(mi.tlb_flushes.len() as u64, HEAP_PAGE_COUNT);
    assert!(virt_to_phys(&mi.mapper, HEAP_START).is_some());
    assert!(matches!(
        init(&map, PHYSICAL_MEMORY_OFFSET, &mut guard),
        Err(InitError::AlreadyInitialized)
    ));
}

#[test]
fn translation_round_trips_through_the_direct_map() {
    // a small direct map built by hand: virtual = physical + offset
    let offset = 0x8000_0000u64;
    let map = one_megabyte_map();
    let mut fa = KernelFrameAllocator::new(&map);
    let mut m = Mapper::new(offset);
    let phys_frame = 0x10_0000u64;
    let va_page = phys_frame + offset;
    let _ = m.map(va_page, phys_frame, PAGE_PRESENT, &mut fa).unwrap();

    // a mapped address resolves inside its frame's range
    let va = va_page + 0x42;
    let phys = virt_to_phys(&m, va).unwrap();
    assert!(phys_frame <= phys && phys < phys_frame + 4096);
    assert_eq!(phys, phys_frame + 0x42);
    // and mapping the physical result back through the offset returns the
    // original virtual address
    assert_eq!(phys_to_virt(offset, phys), va);
}

#[test]
fn phys_to_virt_is_the_fixed_offset() {
    assert_eq!(
        phys_to_virt(PHYSICAL_MEMORY_OFFSET, 0x1000),
        0xFFFF_8000_0000_1000
    );
    assert_eq!(phys_to_virt(0, 0x42), 0x42);
}
