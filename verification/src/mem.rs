//! Memory-management front.
//!
//! Wires the frame allocator, the mapper and the heap bootstrap together in
//! boot order, behind a checked one-shot initialization guard, and exposes
//! the two address-translation entry points. The boot path hands in the
//! memory map and the direct-map offset as plain values; both are trusted,
//! unvalidated boot-loader inputs.

use vstd::prelude::*;

use crate::frame_allocator::{
    init_scan_ok, lemma_init_free_frames, memory_map_ok, spec_init_free_frames, KernelFrameAllocator,
    MemoryRegion,
};
use crate::heap::{heap_page, init_heap, HeapSpan, HEAP_INITIAL_SIZE, HEAP_PAGE_COUNT, HEAP_START};
use crate::paging::{spec_page_size, Mapper, TlbFlush, PAGE_PRESENT, PAGE_WRITABLE};

verus! {

/// One-shot initialization guard: memory initialization must run exactly
/// once, and a second attempt is reported instead of silently rebuilding
/// the memory state.
pub struct InitOnce {
    initialized: bool,
}

impl InitOnce {
    /// Whether initialization has already run through this guard.
    pub closed spec fn spec_initialized(self) -> bool {
        self.initialized
    }

    /// A fresh guard through which initialization has not yet run.
    pub fn new() -> (g: InitOnce)
        ensures
            !g.spec_initialized(),
    {
        InitOnce { initialized: false }
    }
}

/// Why memory initialization was refused.
#[derive(Debug, Clone, Copy, PartialEq, Eq, Structural)]
pub enum InitError {
    AlreadyInitialized,
}

/// The fully initialized memory core: the frame allocator over the boot
/// memory map, the mapper with the heap window mapped, the heap span ready
/// to be claimed by the external dynamic allocator, and the translation
/// flushes the boot path still owes the hardware, one per heap page.
pub struct MemoryInit {
    pub mapper: Mapper,
    pub frame_allocator: KernelFrameAllocator,
    pub heap: HeapSpan,
    pub tlb_flushes: Vec<TlbFlush>,
}

/// Initializes the memory core in boot order: frame allocator from the
/// memory map, mapper over the direct-map offset, then the heap window,
/// fully mapped. Runs at most once per guard; a second call is refused.
pub fn init(memory_map: &Vec<MemoryRegion>, phys_offset: u64, guard: &mut InitOnce) -> (r: Result<
    MemoryInit,
    InitError,
>)
    requires
        memory_map_ok(memory_map@),
        init_scan_ok(memory_map@),
        spec_init_free_frames(memory_map@) >= 4 * HEAP_PAGE_COUNT,
    ensures
        r is Err <==> old(guard).spec_initialized(),
        final(guard).spec_initialized(),
        match r {
            Ok(mi) => {
                &&& mi.mapper.wf()
                &&& mi.mapper.spec_phys_offset() == phys_offset
                &&& mi.frame_allocator.wf()
                &&& mi.frame_allocator.scan_bound_ok()
                &&& mi.heap.start == HEAP_START
                &&& mi.heap.size == HEAP_INITIAL_SIZE
                &&& forall|p: int|
                    0 <= p < HEAP_PAGE_COUNT ==> ((#[trigger] mi.mapper.spec_resolve(
                        heap_page(p),
                    )) matches Some((b, f, l)) && f == (PAGE_PRESENT | PAGE_WRITABLE) && l == 1)
                &&& mi.tlb_flushes@.len() == HEAP_PAGE_COUNT
                &&& forall|k: int|
                    0 <= k < HEAP_PAGE_COUNT ==> (#[trigger] mi.tlb_flushes@[k]).page
                        == heap_page(k)
            },
            Err(e) => e == InitError::AlreadyInitialized && *final(guard) == *old(guard),
        },
{
    if guard.initialized {
        return Err(InitError::AlreadyInitialized);
    }
    guard.initialized = true;

    let mut frame_allocator = KernelFrameAllocator::new(memory_map);
    proof {
        crate::frame_allocator::lemma_wf_bounds(frame_allocator);
        assert forall|i: int|
            0 <= i < frame_allocator.spec_scan_bound() implies frame_allocator.frame_used(i) by {
            assert(crate::frame_allocator::spec_init_used(memory_map@, i));
        }
        lemma_init_free_frames(frame_allocator, memory_map@);
    }
    let mut mapper = Mapper::new(phys_offset);
    let (heap, tlb_flushes) = match init_heap(&mut mapper, &mut frame_allocator) {
        Ok(mapped) => mapped,
        Err(_) => {
            // with the free frames the precondition promises, the heap
            // bootstrap cannot fail
            proof {
                assert(false);
            }
            return Err(InitError::AlreadyInitialized);
        },
    };
    Ok(MemoryInit { mapper, frame_allocator, heap, tlb_flushes })
}

/// Converts a physical address to the virtual address at which the direct
/// map exposes it: pure arithmetic with the boot-supplied offset, a total
/// function on the addresses the direct map covers.
pub fn phys_to_virt(phys_offset: u64, phys: u64) -> (r: u64)
    requires
        phys + phys_offset <= u64::MAX,
    ensures
        r == phys + phys_offset,
{
    phys + phys_offset
}

/// Walks the active page-table hierarchy to resolve a virtual address to
/// its mapped physical address; `None` when no translation exists.
///
/// In the kernel proper the mapper sits behind an exclusive lock that must
/// be held with interrupts disabled — the hazard is a reentrant acquisition
/// from an interrupt handler on the same core. Here exclusive access is
/// what the reference already grants.
pub fn virt_to_phys(mapper: &Mapper, virt: u64) -> (r: Option<u64>)
    requires
        mapper.wf(),
    ensures
        match mapper.spec_resolve(virt) {
            None => r is None,
            Some((base, flags, level)) => r == Some(
                (((base as int) + (virt as int) % spec_page_size(level))
                    % 0x1_0000_0000_0000_0000) as u64,
            ),
        },
{
    mapper.translate(virt)
}

/// Address-translation round trip, first half: a virtual address backed by
/// a 4 KiB frame translates to a physical address inside that frame's
/// range.
pub proof fn lemma_translation_in_frame(m: Mapper, va: u64, frame: u64)
    requires
        m.wf(),
        m.spec_resolve(va) matches Some((b, f, l)) && b == frame && l == 1,
        frame % 4096 == 0,
    ensures
        frame + va % 4096 <= u64::MAX,
        ((frame as int) + (va as int) % spec_page_size(1)) % 0x1_0000_0000_0000_0000 == frame + va
            % 4096,
        frame <= frame + va % 4096 < frame + 4096,
{
    assert(frame <= u64::MAX - 4095) by (nonlinear_arith)
        requires
            frame % 4096 == 0,
            frame <= u64::MAX,
    ;
}

/// Address-translation round trip, second half: for an address in the
/// direct-mapped region — one whose page is mapped to its own address minus
/// the direct-map offset — translating and then adding the offset back
/// yields exactly the original virtual address.
pub proof fn lemma_direct_map_round_trip(m: Mapper, va: u64, phys_offset: u64)
    requires
        m.wf(),
        phys_offset <= va - va % 4096,
        m.spec_resolve(va) matches Some((b, f, l)) && b == ((va - va % 4096) - phys_offset) as u64
            && l == 1,
    ensures
        ({
            let frame = ((va - va % 4096) - phys_offset) as u64;
            frame + va % 4096 + phys_offset == va
        }),
{
}

} // verus!
