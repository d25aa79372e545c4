//! Bitmap-based physical frame allocator.
//!
//! One bit per 4096-byte frame over the whole addressable physical range:
//! `1` means used, `0` means free. The allocator starts from an "all used"
//! bitmap, frees the usable regions of the boot memory map, re-marks the
//! bitmap's own backing region as used, and then serves allocations by a
//! linear scan from a lower-bound hint (`next_free_frame`). The hint is a
//! lower bound on the lowest frame that might still be free, never a precise
//! cursor; deallocation lowers it so that no freed frame is ever lost.

use vstd::prelude::*;

verus! {

/// Largest frame count the bitmap may cover: `u64::MAX / 4096` frames, so
/// that every byte address below `max_frames * 4096` fits in a `u64`.
pub const MAX_FRAME_COUNT: u64 = 0x000F_FFFF_FFFF_FFFF;

/// One region of the boot memory map, already reduced to plain values:
/// start address, byte length, and whether the boot loader tagged it usable.
#[derive(Debug, Clone, Copy, PartialEq, Eq, Structural)]
pub struct MemoryRegion {
    pub base: u64,
    pub length: u64,
    pub usable: bool,
}

/// Whether bit `b` of word `w` is set.
pub open spec fn nth_bit(w: u64, b: u64) -> bool {
    w & (1u64 << b) != 0u64
}

pub struct KernelFrameAllocator {
    bitmap: Vec<u64>,
    max_frames: u64,
    // lower bound on the lowest frame that might still be free
    next_free_frame: u64,
}

impl KernelFrameAllocator {
    /// Number of frames the allocator tracks.
    pub closed spec fn spec_max_frames(self) -> u64 {
        self.max_frames
    }

    /// The free-scan lower bound hint.
    pub closed spec fn spec_scan_bound(self) -> u64 {
        self.next_free_frame
    }

    /// Whether frame `i` is marked used in the bitmap.
    pub closed spec fn frame_used(self, i: int) -> bool {
        nth_bit(self.bitmap@[i / 64], (i % 64) as u64)
    }

    /// Structural well-formedness: the bitmap covers every tracked frame and
    /// the scan bound and frame count stay within machine limits.
    pub closed spec fn wf(self) -> bool {
        &&& self.bitmap@.len() * 64 >= self.max_frames
        &&& self.max_frames <= MAX_FRAME_COUNT
        &&& self.next_free_frame <= self.max_frames
    }

    /// The scan-bound invariant: every frame below the hint is used, so the
    /// linear scan starting at the hint can never miss a free frame.
    pub open spec fn scan_bound_ok(self) -> bool {
        forall|i: int| 0 <= i < self.spec_scan_bound() ==> self.frame_used(i)
    }
}

/// Index of the first frame marked by a byte range `[start, end)`
/// (`start` frame-aligned).
pub open spec fn spec_first_frame(start: u64) -> int {
    start as int / 4096
}

/// One past the index of the last frame marked by a byte range `[start, end)`
/// (`start` frame-aligned): the range covers `ceil((end - start) / 4096)`
/// frames, none when the range is empty.
pub open spec fn spec_end_frame(start: u64, end: u64) -> int {
    if start < end {
        start as int / 4096 + (end - start + 4095) / 4096
    } else {
        start as int / 4096
    }
}

/// Total number of frames covered by a boot memory map: the end of its last
/// region, in frames.
pub open spec fn spec_total_frames(regions: Seq<MemoryRegion>) -> int {
    (regions.last().base + regions.last().length) / 4096
}

/// Size in bytes of the frame bitmap for a boot memory map: one bit per
/// frame, rounded up to whole bytes.
pub open spec fn spec_bitmap_bytes(regions: Seq<MemoryRegion>) -> int {
    (spec_total_frames(regions) + 7) / 8
}

/// Whether region `r` can hold the frame bitmap.
pub open spec fn region_fits_bitmap(regions: Seq<MemoryRegion>, j: int) -> bool {
    regions[j].usable && regions[j].length >= spec_bitmap_bytes(regions)
}

/// First index at or after `k` of a region that can hold the bitmap,
/// `-1` when there is none.
pub open spec fn spec_first_fit_from(regions: Seq<MemoryRegion>, k: int) -> int
    decreases regions.len() - k,
{
    if k < 0 || k >= regions.len() {
        -1
    } else if region_fits_bitmap(regions, k) {
        k
    } else {
        spec_first_fit_from(regions, k + 1)
    }
}

/// Index of the region chosen to hold the bitmap: the first usable region
/// large enough, `-1` when none fits.
pub open spec fn spec_bitmap_region(regions: Seq<MemoryRegion>) -> int {
    spec_first_fit_from(regions, 0)
}

/// Whether frame `i` lies in some usable region of the memory map.
pub open spec fn frame_in_usable(regions: Seq<MemoryRegion>, i: int) -> bool {
    exists|j: int|
        0 <= j < regions.len() && regions[j].usable && regions[j].base / 4096 <= i < (
        regions[j].base + regions[j].length) / 4096
}

/// Whether frame `i` backs the bitmap itself (the store carved out of the
/// chosen region).
pub open spec fn frame_in_bitmap_store(regions: Seq<MemoryRegion>, i: int) -> bool {
    let r = regions[spec_bitmap_region(regions)];
    r.base / 4096 <= i < r.base / 4096 + (spec_bitmap_bytes(regions) + 4095) / 4096
}

/// The bitmap state `new` establishes: a frame is used unless it lies in a
/// usable region, except that the frames backing the bitmap itself are used.
pub open spec fn spec_init_used(regions: Seq<MemoryRegion>, i: int) -> bool {
    !frame_in_usable(regions, i) || frame_in_bitmap_store(regions, i)
}

/// The memory maps `new` accepts: at least one region, addresses that fit in
/// a `u64`, a bitmap small enough to index, frame-aligned usable regions that
/// lie below the addressable limit, and some usable region that can hold the
/// bitmap. A malformed memory map is a trusted-input violation, not a checked
/// error.
pub open spec fn memory_map_ok(regions: Seq<MemoryRegion>) -> bool {
    &&& regions.len() > 0
    &&& regions.last().base + regions.last().length <= u64::MAX
    &&& 1 <= spec_total_frames(regions)
    &&& (spec_total_frames(regions) + 63) / 64 <= usize::MAX
    &&& forall|j: int|
        0 <= j < regions.len() && regions[j].usable ==> regions[j].base % 4096 == 0
            && regions[j].length % 4096 == 0
            && regions[j].base + regions[j].length <= spec_total_frames(regions) * 4096
    &&& spec_bitmap_region(regions) >= 0
}

/// Exactly what `allocate_frame` does. On `Some(addr)`: `addr` is the start
/// of a frame that was free, every frame the scan passed was used, the frame
/// is now used with all other bits untouched, and the scan bound advances by
/// one. On `None`: no frame at or above the scan bound was free and nothing
/// changed.
pub open spec fn alloc_transition(
    pre: KernelFrameAllocator,
    post: KernelFrameAllocator,
    r: Option<u64>,
) -> bool {
    &&& pre.wf()
    &&& post.wf()
    &&& post.spec_max_frames() == pre.spec_max_frames()
    &&& match r {
        Some(addr) => {
            let f = addr / 4096;
            &&& addr % 4096 == 0
            &&& pre.spec_scan_bound() <= f < pre.spec_max_frames()
            &&& !pre.frame_used(f as int)
            &&& post.frame_used(f as int)
            &&& forall|i: int| pre.spec_scan_bound() <= i < f ==> pre.frame_used(i)
            &&& forall|i: int|
                0 <= i < pre.spec_max_frames() && i != f ==> post.frame_used(i) == pre.frame_used(
                    i,
                )
            &&& post.spec_scan_bound() == pre.spec_scan_bound() + 1
        },
        None => {
            &&& post == pre
            &&& forall|i: int|
                pre.spec_scan_bound() <= i < pre.spec_max_frames() ==> pre.frame_used(i)
        },
    }
}

/// Exactly what `deallocate_frame` does: the frame's bit is cleared, every
/// other bit is untouched, and the scan bound is lowered to the freed frame
/// when that frame lies below it.
pub open spec fn dealloc_transition(
    pre: KernelFrameAllocator,
    post: KernelFrameAllocator,
    addr: u64,
) -> bool {
    let f = addr / 4096;
    &&& pre.wf()
    &&& addr % 4096 == 0
    &&& f < pre.spec_max_frames()
    &&& pre.frame_used(f as int)
    &&& post.wf()
    &&& post.spec_max_frames() == pre.spec_max_frames()
    &&& !post.frame_used(f as int)
    &&& forall|i: int|
        0 <= i < pre.spec_max_frames() && i != f ==> post.frame_used(i) == pre.frame_used(i)
    &&& post.spec_scan_bound() == if f < pre.spec_scan_bound() {
        f as int
    } else {
        pre.spec_scan_bound() as int
    }
}

/// Exactly what `mark_range_as_free` does: the frames covered by
/// `[start, end)` become free, every other frame keeps its bit, and the
/// frame count and scan bound do not move.
pub open spec fn mark_free_transition(
    pre: KernelFrameAllocator,
    post: KernelFrameAllocator,
    start: u64,
    end: u64,
) -> bool {
    &&& post.wf()
    &&& post.spec_max_frames() == pre.spec_max_frames()
    &&& post.spec_scan_bound() == pre.spec_scan_bound()
    &&& forall|i: int|
        spec_first_frame(start) <= i < spec_end_frame(start, end) ==> !post.frame_used(i)
    &&& forall|i: int|
        0 <= i < pre.spec_max_frames() && !(spec_first_frame(start) <= i < spec_end_frame(
            start,
            end,
        )) ==> post.frame_used(i) == pre.frame_used(i)
}

/// Exactly what `mark_range_as_used` does, mirroring `mark_free_transition`.
pub open spec fn mark_used_transition(
    pre: KernelFrameAllocator,
    post: KernelFrameAllocator,
    start: u64,
    end: u64,
) -> bool {
    &&& post.wf()
    &&& post.spec_max_frames() == pre.spec_max_frames()
    &&& post.spec_scan_bound() == pre.spec_scan_bound()
    &&& forall|i: int|
        spec_first_frame(start) <= i < spec_end_frame(start, end) ==> post.frame_used(i)
    &&& forall|i: int|
        0 <= i < pre.spec_max_frames() && !(spec_first_frame(start) <= i < spec_end_frame(
            start,
            end,
        )) ==> post.frame_used(i) == pre.frame_used(i)
}

/// Bit `b` of `w | (1 << b)` is set and every other bit keeps its value.
proof fn lemma_bit_set(w: u64, b: u64, c: u64)
    by (bit_vector)
    requires
        b < 64,
        c < 64,
    ensures
        nth_bit(w | (1u64 << b), b),
        c != b ==> nth_bit(w | (1u64 << b), c) == nth_bit(w, c),
{
}

/// Bit `b` of `w & !(1 << b)` is clear and every other bit keeps its value.
proof fn lemma_bit_clear(w: u64, b: u64, c: u64)
    by (bit_vector)
    requires
        b < 64,
        c < 64,
    ensures
        !nth_bit(w & !(1u64 << b), b),
        c != b ==> nth_bit(w & !(1u64 << b), c) == nth_bit(w, c),
{
}

/// A frame index below `words * 64` selects a word index below `words`.
proof fn lemma_word_index_bound(f: u64, words: int)
    by (nonlinear_arith)
    requires
        0 <= words,
        f < words * 64,
    ensures
        f / 64 < words,
{
}

impl KernelFrameAllocator {
    /// Clears the used bit of one frame, leaving everything else unchanged.
    fn clear_frame_bit(&mut self, frame_idx: u64)
        requires
            old(self).wf(),
            frame_idx < old(self).spec_max_frames(),
        ensures
            final(self).wf(),
            final(self).spec_max_frames() == old(self).spec_max_frames(),
            final(self).spec_scan_bound() == old(self).spec_scan_bound(),
            !final(self).frame_used(frame_idx as int),
            forall|i: int|
                0 <= i < old(self).spec_max_frames() && i != frame_idx ==> final(self).frame_used(
                    i,
                ) == old(self).frame_used(i),
    {
        let words = self.bitmap.len();
        proof {
            lemma_word_index_bound(frame_idx, words as int);
        }
        let word_idx = (frame_idx / 64) as usize;
        let bit_idx = frame_idx % 64;
        assert(word_idx == frame_idx as int / 64 && word_idx < self.bitmap@.len());
        let word = self.bitmap[word_idx];
        self.bitmap.set(word_idx, word & !(1u64 << bit_idx));
        proof {
            assert forall|i: int|
                0 <= i < old(self).spec_max_frames() && i != frame_idx
                implies final(self).frame_used(i) == old(self).frame_used(i) by {
                if i / 64 == word_idx {
                    assert(i % 64 != frame_idx % 64 || i == frame_idx);
                    lemma_bit_clear(word, bit_idx, (i % 64) as u64);
                }
            }
            lemma_bit_clear(word, bit_idx, bit_idx);
        }
    }

    /// Sets the used bit of one frame, leaving everything else unchanged.
    fn set_frame_bit(&mut self, frame_idx: u64)
        requires
            old(self).wf(),
            frame_idx < old(self).spec_max_frames(),
        ensures
            final(self).wf(),
            final(self).spec_max_frames() == old(self).spec_max_frames(),
            final(self).spec_scan_bound() == old(self).spec_scan_bound(),
            final(self).frame_used(frame_idx as int),
            forall|i: int|
                0 <= i < old(self).spec_max_frames() && i != frame_idx ==> final(self).frame_used(
                    i,
                ) == old(self).frame_used(i),
    {
        let words = self.bitmap.len();
        proof {
            lemma_word_index_bound(frame_idx, words as int);
        }
        let word_idx = (frame_idx / 64) as usize;
        let bit_idx = frame_idx % 64;
        assert(word_idx == frame_idx as int / 64 && word_idx < self.bitmap@.len());
        let word = self.bitmap[word_idx];
        self.bitmap.set(word_idx, word | (1u64 << bit_idx));
        proof {
            assert forall|i: int|
                0 <= i < old(self).spec_max_frames() && i != frame_idx
                implies final(self).frame_used(i) == old(self).frame_used(i) by {
                if i / 64 == word_idx {
                    assert(i % 64 != frame_idx % 64 || i == frame_idx);
                    lemma_bit_set(word, bit_idx, (i % 64) as u64);
                }
            }
            lemma_bit_set(word, bit_idx, bit_idx);
        }
    }

    /// Marks every frame covered by the byte range `[start, end)` as free.
    pub fn mark_range_as_free(&mut self, start: u64, end: u64)
        requires
            old(self).wf(),
            start % 4096 == 0,
            end <= old(self).spec_max_frames() * 4096,
        ensures
            mark_free_transition(*old(self), *final(self), start, end),
            old(self).scan_bound_ok() && spec_first_frame(start) >= old(self).spec_scan_bound()
                ==> final(self).scan_bound_ok(),
    {
        let mut addr = start;
        while addr < end
            invariant
                self.wf(),
                self.spec_max_frames() == old(self).spec_max_frames(),
                self.spec_scan_bound() == old(self).spec_scan_bound(),
                start % 4096 == 0,
                end <= self.spec_max_frames() * 4096,
                start <= addr,
                (addr - start) % 4096 == 0,
                addr == start || addr <= end + 4095,
                forall|i: int|
                    spec_first_frame(start) <= i < spec_first_frame(start) + (addr - start) / 4096
                        ==> !self.frame_used(i),
                forall|i: int|
                    0 <= i < self.spec_max_frames() && !(spec_first_frame(start) <= i
                        < spec_first_frame(start) + (addr - start) / 4096) ==> self.frame_used(i)
                        == old(self).frame_used(i),
            decreases (end + 4095 - addr) / 4096,
        {
            let frame_idx = addr / 4096;
            assert(frame_idx < self.spec_max_frames());
            self.clear_frame_bit(frame_idx);
            assert(frame_idx == spec_first_frame(start) + (addr - start) / 4096);
            addr = addr + 4096;
        }
        proof {
            if start < end {
                assert((addr - start) / 4096 == (end - start + 4095) / 4096);
            }
        }
    }

    /// Marks every frame covered by the byte range `[start, end)` as used.
    pub fn mark_range_as_used(&mut self, start: u64, end: u64)
        requires
            old(self).wf(),
            start % 4096 == 0,
            end <= old(self).spec_max_frames() * 4096,
        ensures
            mark_used_transition(*old(self), *final(self), start, end),
            old(self).scan_bound_ok() ==> final(self).scan_bound_ok(),
    {
        let mut addr = start;
        while addr < end
            invariant
                self.wf(),
                self.spec_max_frames() == old(self).spec_max_frames(),
                self.spec_scan_bound() == old(self).spec_scan_bound(),
                start % 4096 == 0,
                end <= self.spec_max_frames() * 4096,
                start <= addr,
                (addr - start) % 4096 == 0,
                addr == start || addr <= end + 4095,
                forall|i: int|
                    spec_first_frame(start) <= i < spec_first_frame(start) + (addr - start) / 4096
                        ==> self.frame_used(i),
                forall|i: int|
                    0 <= i < self.spec_max_frames() && !(spec_first_frame(start) <= i
                        < spec_first_frame(start) + (addr - start) / 4096) ==> self.frame_used(i)
                        == old(self).frame_used(i),
            decreases (end + 4095 - addr) / 4096,
        {
            let frame_idx = addr / 4096;
            assert(frame_idx < self.spec_max_frames());
            self.set_frame_bit(frame_idx);
            assert(frame_idx == spec_first_frame(start) + (addr - start) / 4096);
            addr = addr + 4096;
        }
        proof {
            if start < end {
                assert((addr - start) / 4096 == (end - start + 4095) / 4096);
            }
        }
    }
}

/// Unfolds `spec_first_fit_from` into its characterization: the result is
/// the first fitting region at or after `k`, or `-1` when none exists there.
proof fn lemma_first_fit_props(regions: Seq<MemoryRegion>, k: int)
    requires
        0 <= k <= regions.len(),
    ensures
        spec_first_fit_from(regions, k) == -1 ==> forall|j: int|
            k <= j < regions.len() ==> !region_fits_bitmap(regions, j),
        spec_first_fit_from(regions, k) != -1 ==> {
            let c = spec_first_fit_from(regions, k);
            &&& k <= c < regions.len()
            &&& region_fits_bitmap(regions, c)
            &&& forall|j: int| k <= j < c ==> !region_fits_bitmap(regions, j)
        },
    decreases regions.len() - k,
{
    if k < regions.len() && !region_fits_bitmap(regions, k) {
        lemma_first_fit_props(regions, k + 1);
    }
}

impl KernelFrameAllocator {
    /// Builds the allocator from the boot memory map: places the bitmap in
    /// the first usable region large enough to hold it, starts from "all
    /// used", frees every usable region, re-marks the bitmap's own store as
    /// used, and sets the free-scan bound just past that store.
    ///
    /// The caller must guarantee that the usable regions are genuinely
    /// unused; the map itself is a trusted boot-loader input.
    pub fn new(memory_map: &Vec<MemoryRegion>) -> (alloc: Self)
        requires
            memory_map_ok(memory_map@),
        ensures
            alloc.wf(),
            alloc.spec_max_frames() == spec_total_frames(memory_map@),
            alloc.spec_scan_bound() == (memory_map@[spec_bitmap_region(memory_map@)].base
                + spec_bitmap_bytes(memory_map@)) / 4096,
            forall|i: int|
                0 <= i < alloc.spec_max_frames() ==> alloc.frame_used(i) == spec_init_used(
                    memory_map@,
                    i,
                ),
    {
        let ghost regions = memory_map@;
        let n = memory_map.len();
        let last = memory_map[n - 1];
        let total_frames = (last.base + last.length) / 4096;
        let bitmap_bytes = (total_frames + 7) / 8;
        let word_count = ((total_frames + 63) / 64) as usize;

        // start from the safe state: everything is used
        let bitmap: Vec<u64> = vec![u64::MAX; word_count];
        let mut alloc = KernelFrameAllocator { bitmap, max_frames: total_frames, next_free_frame: 0 };
        proof {
            assert(alloc.wf());
            assert forall|i: int| 0 <= i < total_frames implies alloc.frame_used(i) by {
                let b = (i % 64) as u64;
                assert(alloc.bitmap@[i / 64] == u64::MAX);
                assert(nth_bit(u64::MAX, b)) by (bit_vector)
                    requires
                        b < 64,
                ;
            }
        }

        // locate the region that will hold the bitmap
        proof {
            lemma_first_fit_props(regions, 0);
        }
        let ghost chosen = spec_bitmap_region(regions);
        let mut k: usize = 0;
        while !(memory_map[k].usable && memory_map[k].length >= bitmap_bytes)
            invariant
                memory_map_ok(regions),
                regions == memory_map@,
                bitmap_bytes == spec_bitmap_bytes(regions),
                chosen == spec_bitmap_region(regions),
                n == regions.len(),
                0 <= chosen < regions.len(),
                region_fits_bitmap(regions, chosen),
                forall|j: int| 0 <= j < chosen ==> !region_fits_bitmap(regions, j),
                0 <= k <= chosen,
            decreases chosen - k,
        {
            assert(!region_fits_bitmap(regions, k as int));
            assert(k < chosen);
            k = k + 1;
        }
        assert(region_fits_bitmap(regions, k as int));
        assert(k == chosen);
        let bitmap_start = memory_map[k].base;

        // free every usable region
        let mut r: usize = 0;
        while r < n
            invariant
                memory_map_ok(regions),
                regions == memory_map@,
                n == regions.len(),
                total_frames == spec_total_frames(regions),
                alloc.wf(),
                alloc.spec_max_frames() == total_frames,
                alloc.spec_scan_bound() == 0,
                0 <= r <= n,
                forall|i: int|
                    0 <= i < total_frames ==> alloc.frame_used(i) == !(exists|j: int|
                        0 <= j < r && regions[j].usable && regions[j].base / 4096 <= i < (
                        regions[j].base + regions[j].length) / 4096),
            decreases n - r,
        {
            let region = memory_map[r];
            let ghost before = alloc;
            if region.usable {
                alloc.mark_range_as_free(region.base, region.base + region.length);
            }
            proof {
                assert forall|i: int|
                    0 <= i < total_frames implies alloc.frame_used(i) == !(exists|j: int|
                        0 <= j < r + 1 && regions[j].usable && regions[j].base / 4096 <= i < (
                        regions[j].base + regions[j].length) / 4096) by {
                    let base = regions[r as int].base;
                    let len = regions[r as int].length;
                    if regions[r as int].usable {
                        assert(spec_first_frame(base) == base / 4096);
                        assert(spec_end_frame(base, (base + len) as u64) == (base + len) / 4096);
                        if base / 4096 <= i < (base + len) / 4096 {
                            assert(!alloc.frame_used(i));
                        } else {
                            assert(alloc.frame_used(i) == before.frame_used(i));
                        }
                    }
                }
            }
            r = r + 1;
        }

        // carve the bitmap's own store back out, and scan just past it
        let ghost freed = alloc;
        alloc.mark_range_as_used(bitmap_start, bitmap_start + bitmap_bytes);
        let ghost marked = alloc;
        alloc.next_free_frame = (bitmap_start + bitmap_bytes) / 4096;
        proof {
            let rg = regions[chosen];
            assert(rg.base + spec_bitmap_bytes(regions) <= rg.base + rg.length);
            assert((rg.base + spec_bitmap_bytes(regions)) / 4096 <= total_frames);
            let first = spec_first_frame(bitmap_start);
            let past = spec_end_frame(bitmap_start, (bitmap_start + bitmap_bytes) as u64);
            assert(first == rg.base / 4096);
            assert(past == rg.base / 4096 + (spec_bitmap_bytes(regions) + 4095) / 4096);
            assert forall|i: int|
                0 <= i < total_frames implies alloc.frame_used(i) == spec_init_used(regions, i) by {
                assert(alloc.frame_used(i) == marked.frame_used(i));
                if first <= i < past {
                    assert(marked.frame_used(i));
                    assert(frame_in_bitmap_store(regions, i));
                } else {
                    assert(marked.frame_used(i) == freed.frame_used(i));
                    assert(freed.frame_used(i) == !frame_in_usable(regions, i));
                    assert(!frame_in_bitmap_store(regions, i));
                }
            }
        }
        alloc
    }

    /// Scans from the lower-bound hint for the first free frame; marks it
    /// used, advances the hint by one step, and returns the frame's start
    /// address. Returns `None` when the scan reaches the addressable limit,
    /// a recoverable out-of-memory result.
    pub fn allocate_frame(&mut self) -> (r: Option<u64>)
        requires
            old(self).wf(),
        ensures
            alloc_transition(*old(self), *final(self), r),
            old(self).scan_bound_ok() ==> final(self).scan_bound_ok(),
            old(self).scan_bound_ok() && r is None ==> forall|i: int|
                0 <= i < old(self).spec_max_frames() ==> old(self).frame_used(i),
    {
        let mut frame_idx = self.next_free_frame;
        while frame_idx < self.max_frames
            invariant
                self.wf(),
                self == old(self),
                old(self).spec_scan_bound() <= frame_idx <= self.max_frames,
                forall|i: int| old(self).spec_scan_bound() <= i < frame_idx ==> self.frame_used(i),
            decreases self.max_frames - frame_idx,
        {
            let words = self.bitmap.len();
            proof {
                lemma_word_index_bound(frame_idx, words as int);
            }
            assert((frame_idx / 64) as usize == frame_idx as int / 64);
            let word = self.bitmap[(frame_idx / 64) as usize];
            let bit_idx = frame_idx % 64;
            if word & (1u64 << bit_idx) == 0 {
                assert(!self.frame_used(frame_idx as int));
                self.set_frame_bit(frame_idx);
                self.next_free_frame = self.next_free_frame + 1;
                proof {
                    if old(self).scan_bound_ok() {
                        assert forall|i: int|
                            0 <= i < self.spec_scan_bound() implies self.frame_used(i) by {
                            if i != frame_idx {
                                assert(old(self).frame_used(i));
                                assert(self.frame_used(i) == old(self).frame_used(i));
                            }
                        }
                    }
                }
                return Some(frame_idx * 4096);
            }
            assert(self.frame_used(frame_idx as int));
            frame_idx = frame_idx + 1;
        }
        None
    }

    /// Number of frames the allocator tracks: the addressable physical
    /// range, in frames.
    pub fn max_frames(&self) -> (n: u64)
        ensures
            n == self.spec_max_frames(),
    {
        self.max_frames
    }

    /// Whether the frame holding `frame_addr` is currently marked used.
    pub fn frame_is_used(&self, frame_addr: u64) -> (r: bool)
        requires
            self.wf(),
            frame_addr / 4096 < self.spec_max_frames(),
        ensures
            r == self.frame_used(frame_addr as int / 4096),
    {
        let frame_idx = frame_addr / 4096;
        let words = self.bitmap.len();
        proof {
            lemma_word_index_bound(frame_idx, words as int);
        }
        let word = self.bitmap[(frame_idx / 64) as usize];
        word & (1u64 << (frame_idx % 64)) != 0
    }

    /// Clears the frame's used bit; when the freed frame lies below the
    /// scan bound, lowers the bound to it so the frame stays obtainable.
    ///
    /// The caller must guarantee the frame came from this allocator and is
    /// no longer referenced anywhere: a double free is a precondition
    /// violation, not a checked error.
    pub fn deallocate_frame(&mut self, frame_addr: u64)
        requires
            old(self).wf(),
            frame_addr % 4096 == 0,
            frame_addr / 4096 < old(self).spec_max_frames(),
            old(self).frame_used(frame_addr as int / 4096),
        ensures
            dealloc_transition(*old(self), *final(self), frame_addr),
            old(self).scan_bound_ok() ==> final(self).scan_bound_ok(),
    {
        let frame_idx = frame_addr / 4096;
        self.clear_frame_bit(frame_idx);
        if frame_idx < self.next_free_frame {
            self.next_free_frame = frame_idx;
        }
        proof {
            if old(self).scan_bound_ok() {
                assert forall|i: int| 0 <= i < self.spec_scan_bound() implies self.frame_used(
                    i,
                ) by {
                    assert(old(self).frame_used(i));
                }
            }
        }
    }
}

/// Number of free frames with index below `n`.
pub open spec fn free_frames_below(a: KernelFrameAllocator, n: int) -> nat
    decreases n,
{
    if n <= 0 {
        0
    } else {
        free_frames_below(a, n - 1) + if a.frame_used(n - 1) {
            0nat
        } else {
            1nat
        }
    }
}

/// Number of free frames the allocator still has.
pub open spec fn spec_free_frames(a: KernelFrameAllocator) -> nat {
    free_frames_below(a, a.spec_max_frames() as int)
}

/// Flipping one frame from free to used lowers the count below `n` by one
/// when the frame lies below `n`, and leaves it alone otherwise.
proof fn lemma_free_below_set(
    pre: KernelFrameAllocator,
    post: KernelFrameAllocator,
    f: int,
    n: int,
)
    requires
        0 <= f,
        !pre.frame_used(f),
        post.frame_used(f),
        forall|i: int| 0 <= i < n && i != f ==> post.frame_used(i) == pre.frame_used(i),
    ensures
        f < n ==> free_frames_below(post, n) + 1 == free_frames_below(pre, n),
        n <= f ==> free_frames_below(post, n) == free_frames_below(pre, n),
    decreases n,
{
    if n > 0 {
        lemma_free_below_set(pre, post, f, n - 1);
    }
}

/// A successful allocation consumes exactly one free frame.
pub proof fn lemma_alloc_decrements_free(
    pre: KernelFrameAllocator,
    post: KernelFrameAllocator,
    addr: u64,
)
    requires
        alloc_transition(pre, post, Some(addr)),
    ensures
        spec_free_frames(post) + 1 == spec_free_frames(pre),
{
    lemma_free_below_set(pre, post, addr as int / 4096, pre.spec_max_frames() as int);
}

/// A deallocation returns exactly one frame to the free count.
pub proof fn lemma_dealloc_increments_free(
    pre: KernelFrameAllocator,
    post: KernelFrameAllocator,
    addr: u64,
)
    requires
        dealloc_transition(pre, post, addr),
    ensures
        spec_free_frames(post) == spec_free_frames(pre) + 1,
{
    lemma_free_below_set(post, pre, addr as int / 4096, pre.spec_max_frames() as int);
}

/// When every frame below `n` is used, no free frame is counted there.
proof fn lemma_all_used_zero_free(a: KernelFrameAllocator, n: int)
    requires
        forall|i: int| 0 <= i < n ==> a.frame_used(i),
    ensures
        free_frames_below(a, n) == 0,
    decreases n,
{
    if n > 0 {
        lemma_all_used_zero_free(a, n - 1);
    }
}

/// An allocator whose every frame is used has no free frames to count.
pub proof fn lemma_no_free_frames(a: KernelFrameAllocator)
    requires
        forall|i: int| 0 <= i < a.spec_max_frames() ==> a.frame_used(i),
    ensures
        spec_free_frames(a) == 0,
{
    lemma_all_used_zero_free(a, a.spec_max_frames() as int);
}

/// With the scan-bound invariant and at least one free frame counted,
/// allocation cannot fail.
pub proof fn lemma_free_count_positive_allocates(
    pre: KernelFrameAllocator,
    post: KernelFrameAllocator,
    r: Option<u64>,
)
    requires
        pre.scan_bound_ok(),
        spec_free_frames(pre) > 0,
        alloc_transition(pre, post, r),
    ensures
        r is Some,
{
    if r is None {
        lemma_all_used_zero_free(pre, pre.spec_max_frames() as int);
    }
}

/// Bounds that well-formedness guarantees, for callers outside this
/// module: the scan bound never exceeds the frame count, which itself
/// stays within the machine limit.
pub proof fn lemma_wf_bounds(a: KernelFrameAllocator)
    requires
        a.wf(),
    ensures
        a.spec_scan_bound() <= a.spec_max_frames(),
        a.spec_max_frames() <= MAX_FRAME_COUNT,
{
}

/// Number of frames below `n` left free by initialization from `regions`.
pub open spec fn init_free_below(regions: Seq<MemoryRegion>, n: int) -> nat
    decreases n,
{
    if n <= 0 {
        0
    } else {
        init_free_below(regions, n - 1) + if spec_init_used(regions, n - 1) {
            0nat
        } else {
            1nat
        }
    }
}

/// Number of free frames right after initialization from `regions`.
pub open spec fn spec_init_free_frames(regions: Seq<MemoryRegion>) -> nat {
    init_free_below(regions, spec_total_frames(regions))
}

/// Whether the scan bound that `new` sets — just past the bitmap's own
/// store — satisfies the scan-bound invariant for this memory map: no
/// usable frame lies below it.
pub open spec fn init_scan_ok(regions: Seq<MemoryRegion>) -> bool {
    forall|i: int|
        0 <= i < (regions[spec_bitmap_region(regions)].base + spec_bitmap_bytes(regions)) / 4096
            ==> spec_init_used(regions, i)
}

/// Two bitmaps that agree pointwise count the same number of free frames.
proof fn lemma_counts_agree(a: KernelFrameAllocator, regions: Seq<MemoryRegion>, n: int)
    requires
        forall|i: int| 0 <= i < n ==> a.frame_used(i) == spec_init_used(regions, i),
    ensures
        free_frames_below(a, n) == init_free_below(regions, n),
    decreases n,
{
    if n > 0 {
        lemma_counts_agree(a, regions, n - 1);
    }
}

/// An allocator freshly built from `regions` has exactly the free frames
/// the memory map promises.
pub proof fn lemma_init_free_frames(a: KernelFrameAllocator, regions: Seq<MemoryRegion>)
    requires
        a.spec_max_frames() == spec_total_frames(regions),
        forall|i: int|
            0 <= i < a.spec_max_frames() ==> a.frame_used(i) == spec_init_used(regions, i),
    ensures
        spec_free_frames(a) == spec_init_free_frames(regions),
{
    lemma_counts_agree(a, regions, a.spec_max_frames() as int);
}

/// One step of the allocator's mutating interface, with its observed result.
#[derive(PartialEq, Eq, Structural)]
pub enum FrameOp {
    Allocate(Option<u64>),
    Deallocate(u64),
}

/// Whether `op` steps the allocator from `pre` to `post`.
pub open spec fn op_transition(
    pre: KernelFrameAllocator,
    post: KernelFrameAllocator,
    op: FrameOp,
) -> bool {
    match op {
        FrameOp::Allocate(r) => alloc_transition(pre, post, r),
        FrameOp::Deallocate(a) => dealloc_transition(pre, post, a),
    }
}

/// Whether `states` is a run of the allocator: `states[k]` steps to
/// `states[k + 1]` by `ops[k]`.
pub open spec fn frame_trace_ok(states: Seq<KernelFrameAllocator>, ops: Seq<FrameOp>) -> bool {
    &&& states.len() == ops.len() + 1
    &&& forall|k: int|
        0 <= k < ops.len() ==> op_transition(states[k], states[k + 1], #[trigger] ops[k])
}

/// A used frame stays used across every step that does not deallocate it:
/// allocations only set bits, and a deallocation clears only its own frame.
proof fn lemma_frame_stays_used(
    states: Seq<KernelFrameAllocator>,
    ops: Seq<FrameOp>,
    i: int,
    j: int,
    fi: int,
)
    requires
        frame_trace_ok(states, ops),
        0 <= i <= j < states.len(),
        0 <= fi < states[i].spec_max_frames(),
        states[i].frame_used(fi),
        forall|k: int|
            i <= k < j ==> (#[trigger] ops[k] matches FrameOp::Deallocate(a) ==> a / 4096 != fi),
    ensures
        states[j].frame_used(fi),
        states[j].spec_max_frames() == states[i].spec_max_frames(),
    decreases j - i,
{
    if i < j {
        lemma_frame_stays_used(states, ops, i, j - 1, fi);
        assert(op_transition(states[j - 1], states[j], ops[j - 1]));
        match ops[j - 1] {
            FrameOp::Allocate(r) => {
                if r matches Some(addr) && addr / 4096 == fi {
                    assert(!states[j - 1].frame_used(fi));
                    assert(false);
                }
            },
            FrameOp::Deallocate(a) => {
                assert(a / 4096 != fi);
            },
        }
    }
}

/// Frame-allocator correctness, uniqueness half: as long as an allocated
/// frame has not been handed back with `deallocate_frame`, no later
/// allocation in the run returns the same frame. Two live allocations can
/// therefore never alias.
pub proof fn lemma_no_double_allocation(
    states: Seq<KernelFrameAllocator>,
    ops: Seq<FrameOp>,
    i: int,
    j: int,
    addr: u64,
)
    requires
        frame_trace_ok(states, ops),
        0 <= i < j < ops.len(),
        ops[i] == FrameOp::Allocate(Some(addr)),
        forall|k: int| i < k < j ==> ops[k] != FrameOp::Deallocate(addr),
    ensures
        ops[j] != FrameOp::Allocate(Some(addr)),
{
    let fi = addr as int / 4096;
    assert(op_transition(states[i], states[i + 1], ops[i]));
    assert(states[i + 1].frame_used(fi));
    assert forall|k: int|
        i + 1 <= k < j implies (#[trigger] ops[k] matches FrameOp::Deallocate(a) ==> a / 4096
            != fi) by {
        match ops[k] {
            FrameOp::Deallocate(a) => {
                if a / 4096 == fi {
                    assert(op_transition(states[k], states[k + 1], ops[k]));
                    assert(a % 4096 == 0 && addr % 4096 == 0);
                    assert(a == addr);
                }
            },
            FrameOp::Allocate(_) => {},
        }
    }
    lemma_frame_stays_used(states, ops, i + 1, j, fi);
    if ops[j] == FrameOp::Allocate(Some(addr)) {
        assert(op_transition(states[j], states[j + 1], ops[j]));
        assert(!states[j].frame_used(fi));
        assert(false);
    }
}

/// Frame-allocator correctness, completeness half: whenever some frame
/// `fi` is free and the scan-bound invariant holds, `allocate_frame`
/// cannot report out of memory, and what it returns lies no higher than
/// `fi`. Each allocation thus fills the lowest free frame first, so a
/// frame once freed is never skipped over and stays obtainable, no matter
/// how far the scan bound has drifted.
pub proof fn lemma_free_frame_obtainable(
    pre: KernelFrameAllocator,
    post: KernelFrameAllocator,
    r: Option<u64>,
    fi: int,
)
    requires
        pre.scan_bound_ok(),
        0 <= fi < pre.spec_max_frames(),
        !pre.frame_used(fi),
        alloc_transition(pre, post, r),
    ensures
        r is Some,
        r matches Some(addr) ==> addr / 4096 <= fi,
{
    if r is None {
        assert(pre.frame_used(fi));
    }
    if r matches Some(addr) && addr / 4096 > fi {
        assert(fi >= pre.spec_scan_bound());
        assert(pre.frame_used(fi));
    }
}

/// With the scan-bound invariant, a successful allocation returns exactly
/// the lowest free frame: nothing below it was free.
pub proof fn lemma_allocation_returns_lowest_free(
    pre: KernelFrameAllocator,
    post: KernelFrameAllocator,
    addr: u64,
)
    requires
        pre.scan_bound_ok(),
        alloc_transition(pre, post, Some(addr)),
    ensures
        !pre.frame_used(addr as int / 4096),
        forall|i: int| 0 <= i < addr as int / 4096 ==> pre.frame_used(i),
{
    assert forall|i: int| 0 <= i < addr as int / 4096 implies pre.frame_used(i) by {
        if i < pre.spec_scan_bound() {
            assert(pre.frame_used(i));
        }
    }
}

/// Bitmap round-trip, one direction: over a range of used frames, marking
/// the range free and then immediately used again leaves every frame bit,
/// the frame count, and the scan bound exactly as if the bitmap had never
/// been touched. Frames outside the range are untouched throughout.
pub proof fn lemma_bitmap_round_trip_free_then_used(
    s0: KernelFrameAllocator,
    s1: KernelFrameAllocator,
    s2: KernelFrameAllocator,
    start: u64,
    end: u64,
)
    requires
        mark_free_transition(s0, s1, start, end),
        mark_used_transition(s1, s2, start, end),
        forall|i: int|
            spec_first_frame(start) <= i < spec_end_frame(start, end) ==> s0.frame_used(i),
    ensures
        s2.spec_max_frames() == s0.spec_max_frames(),
        s2.spec_scan_bound() == s0.spec_scan_bound(),
        forall|i: int| 0 <= i < s0.spec_max_frames() ==> s2.frame_used(i) == s0.frame_used(i),
{
}

/// Bitmap round-trip, the other direction: over a range of free frames,
/// marking the range used and then immediately free again restores every
/// frame bit, the frame count, and the scan bound.
pub proof fn lemma_bitmap_round_trip_used_then_free(
    s0: KernelFrameAllocator,
    s1: KernelFrameAllocator,
    s2: KernelFrameAllocator,
    start: u64,
    end: u64,
)
    requires
        mark_used_transition(s0, s1, start, end),
        mark_free_transition(s1, s2, start, end),
        forall|i: int|
            spec_first_frame(start) <= i < spec_end_frame(start, end) ==> !s0.frame_used(i),
    ensures
        s2.spec_max_frames() == s0.spec_max_frames(),
        s2.spec_scan_bound() == s0.spec_scan_bound(),
        forall|i: int| 0 <= i < s0.spec_max_frames() ==> s2.frame_used(i) == s0.frame_used(i),
{
}

} // verus!
