//! Heap bootstrap.
//!
//! The kernel heap lives in a fixed virtual window chosen at build time. At
//! initialization every page of the window is eagerly mapped to a fresh
//! physical frame; only when the whole window is backed is the resulting
//! span handed to the external dynamic-allocation algorithm. If any single
//! page cannot be backed, the whole operation fails and no span is claimed:
//! a partially mapped heap is never a supported end state.

use vstd::prelude::*;

use crate::frame_allocator::{
    lemma_alloc_decrements_free, lemma_free_count_positive_allocates, spec_free_frames,
    KernelFrameAllocator,
};
use crate::paging::{MapError, Mapper, TlbFlush, MAX_PAGE_TABLES, PAGE_PRESENT, PAGE_WRITABLE};

verus! {

/// First virtual address of the heap window. The window must not overlap
/// the direct map or any boot structure.
pub const HEAP_START: u64 = 0x4444_4444_0000;

/// Initial (and, for this core, final) heap size in bytes: 100 KiB.
pub const HEAP_INITIAL_SIZE: u64 = 100 * 1024;

/// Number of pages that back the heap window.
pub const HEAP_PAGE_COUNT: u64 = (HEAP_INITIAL_SIZE + 4095) / 4096;

/// A fully mapped virtual span, ready to be claimed as the allocation arena
/// by the external dynamic allocator. A value of this type exists only for
/// spans whose every page is backed.
#[derive(Debug, Clone, Copy, PartialEq, Eq, Structural)]
pub struct HeapSpan {
    pub start: u64,
    pub size: u64,
}

/// The virtual address of heap page `p`.
pub open spec fn heap_page(p: int) -> u64 {
    (HEAP_START + p * 4096) as u64
}

/// Two distinct page-aligned addresses below the 48-bit canonical boundary
/// differ in at least one page-table walk index.
proof fn lemma_distinct_pages_distinct_walk(va1: u64, va2: u64)
    by (bit_vector)
    requires
        va1 % 4096 == 0,
        va2 % 4096 == 0,
        va1 < 0x1_0000_0000_0000,
        va2 < 0x1_0000_0000_0000,
        va1 != va2,
    ensures
        ((va1 >> 39) & 0x1ff) != ((va2 >> 39) & 0x1ff) || ((va1 >> 30) & 0x1ff) != ((va2 >> 30)
            & 0x1ff) || ((va1 >> 21) & 0x1ff) != ((va2 >> 21) & 0x1ff) || ((va1 >> 12) & 0x1ff)
            != ((va2 >> 12) & 0x1ff),
{
}

/// Maps every page of the heap window, present and writable, to a freshly
/// allocated frame of its own and, only when all of them are backed,
/// returns the span to hand to the external allocator, together with the
/// flush obligation for each new mapping (one token per page, for the
/// caller that drives the hardware to invalidate stale translations).
///
/// Failing to back any single page fails the whole operation with
/// `FrameAllocationFailed` and returns no span, so nothing is ever claimed
/// over a partially mapped window. Mappings installed before the failing
/// page remain installed, exactly as the underlying mapper left them, but
/// the absence of a `HeapSpan` keeps the downstream allocator away from the
/// window.
pub fn init_heap(mapper: &mut Mapper, frame_allocator: &mut KernelFrameAllocator) -> (r: Result<
    (HeapSpan, Vec<TlbFlush>),
    MapError,
>)
    requires
        old(mapper).wf(),
        old(frame_allocator).wf(),
        old(frame_allocator).scan_bound_ok(),
        old(mapper).spec_table_count() + 3 * HEAP_PAGE_COUNT <= MAX_PAGE_TABLES,
        forall|p: int|
            0 <= p < HEAP_PAGE_COUNT ==> old(mapper).spec_resolve(#[trigger] heap_page(p)) is None,
    ensures
        final(mapper).wf(),
        final(frame_allocator).wf(),
        final(frame_allocator).scan_bound_ok(),
        final(mapper).spec_phys_offset() == old(mapper).spec_phys_offset(),
        final(frame_allocator).spec_max_frames() == old(frame_allocator).spec_max_frames(),
        match r {
            Ok(result) => {
                &&& result.0.start == HEAP_START
                &&& result.0.size == HEAP_INITIAL_SIZE
                // every page of the window is mapped present and writable,
                // at the 4 KiB level
                &&& forall|p: int|
                    0 <= p < HEAP_PAGE_COUNT ==> ((#[trigger] final(mapper).spec_resolve(
                        heap_page(p),
                    )) matches Some((b, f, l)) && f == (PAGE_PRESENT | PAGE_WRITABLE) && l == 1)
                // each backing frame is page-aligned, was free before the
                // call, and is consumed by it: freshly allocated
                &&& forall|p: int|
                    0 <= p < HEAP_PAGE_COUNT ==> {
                        let b = (#[trigger] final(mapper).spec_resolve(heap_page(p))).unwrap().0;
                        &&& b % 4096 == 0
                        &&& b / 4096 < old(frame_allocator).spec_max_frames()
                        &&& !old(frame_allocator).frame_used(b as int / 4096)
                        &&& final(frame_allocator).frame_used(b as int / 4096)
                    }
                // no two pages share a backing frame
                &&& forall|p1: int, p2: int|
                    0 <= p1 < p2 < HEAP_PAGE_COUNT ==> (#[trigger] final(mapper).spec_resolve(
                        heap_page(p1),
                    )).unwrap().0 != (#[trigger] final(mapper).spec_resolve(
                        heap_page(p2),
                    )).unwrap().0
                // one flush obligation per page, in window order
                &&& result.1@.len() == HEAP_PAGE_COUNT
                &&& forall|k: int|
                    0 <= k < HEAP_PAGE_COUNT ==> (#[trigger] result.1@[k]).page == heap_page(k)
            },
            Err(e) => {
                &&& e == MapError::FrameAllocationFailed
                &&& spec_free_frames(*final(frame_allocator)) == 0
            },
        },
        spec_free_frames(*old(frame_allocator)) >= 4 * HEAP_PAGE_COUNT ==> r is Ok,
{
    let ghost fa0 = *frame_allocator;
    let ghost m0 = *mapper;
    let flags: u64 = PAGE_PRESENT | PAGE_WRITABLE;
    let mut flushes: Vec<TlbFlush> = Vec::new();
    let mut p: u64 = 0;
    while p < HEAP_PAGE_COUNT
        invariant
            m0 == *old(mapper),
            fa0 == *old(frame_allocator),
            mapper.wf(),
            frame_allocator.wf(),
            frame_allocator.scan_bound_ok(),
            0 <= p <= HEAP_PAGE_COUNT,
            flags == PAGE_PRESENT | PAGE_WRITABLE,
            mapper.spec_phys_offset() == m0.spec_phys_offset(),
            frame_allocator.spec_max_frames() == fa0.spec_max_frames(),
            mapper.spec_table_count() <= m0.spec_table_count() + 3 * p,
            m0.spec_table_count() + 3 * HEAP_PAGE_COUNT <= MAX_PAGE_TABLES,
            spec_free_frames(*frame_allocator) + 4 * p >= spec_free_frames(fa0),
            // used frames only accumulate, so a frame free now was free at
            // the start
            forall|i: int|
                0 <= i < fa0.spec_max_frames() && fa0.frame_used(i)
                    ==> frame_allocator.frame_used(i),
            forall|q: int|
                p <= q < HEAP_PAGE_COUNT ==> mapper.spec_resolve(#[trigger] heap_page(q)) is None,
            forall|q: int|
                0 <= q < p ==> ((#[trigger] mapper.spec_resolve(heap_page(q))) matches Some(
                    (b, f, l),
                ) && f == (PAGE_PRESENT | PAGE_WRITABLE) && l == 1),
            forall|q: int|
                0 <= q < p ==> {
                    let b = (#[trigger] mapper.spec_resolve(heap_page(q))).unwrap().0;
                    &&& b % 4096 == 0
                    &&& b / 4096 < fa0.spec_max_frames()
                    &&& !fa0.frame_used(b as int / 4096)
                    &&& frame_allocator.frame_used(b as int / 4096)
                },
            forall|q1: int, q2: int|
                0 <= q1 < q2 < p ==> (#[trigger] mapper.spec_resolve(
                    heap_page(q1),
                )).unwrap().0 != (#[trigger] mapper.spec_resolve(heap_page(q2))).unwrap().0,
            flushes@.len() == p,
            forall|k: int| 0 <= k < p ==> (#[trigger] flushes@[k]).page == heap_page(k),
        decreases HEAP_PAGE_COUNT - p,
    {
        let page = HEAP_START + p * 4096;
        let ghost fa_before = *frame_allocator;
        let frame = match frame_allocator.allocate_frame() {
            Some(f) => f,
            None => {
                proof {
                    crate::frame_allocator::lemma_no_free_frames(*frame_allocator);
                    if spec_free_frames(fa0) >= 4 * HEAP_PAGE_COUNT {
                        lemma_free_count_positive_allocates(
                            fa_before,
                            *frame_allocator,
                            None::<u64>,
                        );
                    }
                }
                return Err(MapError::FrameAllocationFailed);
            },
        };
        proof {
            lemma_alloc_decrements_free(fa_before, *frame_allocator, frame);
        }
        let ghost m_before = *mapper;
        let ghost fa_mid = *frame_allocator;
        match mapper.map(page, frame, flags, frame_allocator) {
            Ok(fl) => {
                flushes.push(fl);
            },
            Err(e) => {
                proof {
                    assert(m_before.spec_resolve(heap_page(p as int)) is None);
                    assert(e == MapError::FrameAllocationFailed);
                    if spec_free_frames(fa0) >= 4 * HEAP_PAGE_COUNT {
                        assert(spec_free_frames(fa_mid) >= 3);
                        assert(false);
                    }
                }
                return Err(e);
            },
        }
        proof {
            assert forall|q: int|
                p + 1 <= q < HEAP_PAGE_COUNT implies mapper.spec_resolve(
                #[trigger] heap_page(q),
            ) is None by {
                lemma_distinct_pages_distinct_walk(heap_page(p as int), heap_page(q));
                assert(!Mapper::same_walk(heap_page(q), heap_page(p as int)));
            }
            assert forall|q: int|
                0 <= q < p + 1 implies (#[trigger] mapper.spec_resolve(heap_page(q))) matches Some(
                (b, f, l),
            ) && f == (PAGE_PRESENT | PAGE_WRITABLE) && l == 1 by {
                if q < p {
                    lemma_distinct_pages_distinct_walk(heap_page(p as int), heap_page(q));
                    assert(!Mapper::same_walk(heap_page(q), heap_page(p as int)));
                    assert(mapper.spec_resolve(heap_page(q)) == m_before.spec_resolve(
                        heap_page(q),
                    ));
                }
            }
            // the fresh frame: free at its allocation, hence free at the
            // start; used from here on
            assert(!fa_before.frame_used(frame as int / 4096));
            assert(!fa0.frame_used(frame as int / 4096));
            assert(frame_allocator.frame_used(frame as int / 4096));
            assert forall|q: int|
                0 <= q < p + 1 implies {
                let b = (#[trigger] mapper.spec_resolve(heap_page(q))).unwrap().0;
                &&& b % 4096 == 0
                &&& b / 4096 < fa0.spec_max_frames()
                &&& !fa0.frame_used(b as int / 4096)
                &&& frame_allocator.frame_used(b as int / 4096)
            } by {
                if q < p {
                    lemma_distinct_pages_distinct_walk(heap_page(p as int), heap_page(q));
                    assert(!Mapper::same_walk(heap_page(q), heap_page(p as int)));
                    assert(mapper.spec_resolve(heap_page(q)) == m_before.spec_resolve(
                        heap_page(q),
                    ));
                }
            }
            // the fresh frame was free while every earlier backing frame
            // was already used, so no two pages alias
            assert forall|q1: int, q2: int|
                0 <= q1 < q2 < p + 1 implies (#[trigger] mapper.spec_resolve(
                heap_page(q1),
            )).unwrap().0 != (#[trigger] mapper.spec_resolve(heap_page(q2))).unwrap().0 by {
                lemma_distinct_pages_distinct_walk(heap_page(p as int), heap_page(q1));
                assert(!Mapper::same_walk(heap_page(q1), heap_page(p as int)));
                assert(mapper.spec_resolve(heap_page(q1)) == m_before.spec_resolve(
                    heap_page(q1),
                ));
                if q2 == p {
                    let b1 = mapper.spec_resolve(heap_page(q1)).unwrap().0;
                    assert(fa_before.frame_used(b1 as int / 4096));
                    assert(b1 / 4096 != frame / 4096);
                } else {
                    lemma_distinct_pages_distinct_walk(heap_page(p as int), heap_page(q2));
                    assert(!Mapper::same_walk(heap_page(q2), heap_page(p as int)));
                    assert(mapper.spec_resolve(heap_page(q2)) == m_before.spec_resolve(
                        heap_page(q2),
                    ));
                }
            }
        }
        p = p + 1;
    }
    Ok((HeapSpan { start: HEAP_START, size: HEAP_INITIAL_SIZE }, flushes))
}

} // verus!
