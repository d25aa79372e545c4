//! Hierarchical page-table mapper.
//!
//! The mapper owns a four-level page-table structure, held as an arena of
//! 512-entry tables (table 0 is the top level), plus the fixed direct-map
//! offset discovered at boot. It resolves virtual addresses by walking the
//! hierarchy and installs new virtual-to-physical mappings, allocating any
//! missing intermediate tables from the frame allocator. A mapping entry at
//! a level above the last is a huge-page mapping covering the whole span of
//! that level.

use vstd::prelude::*;

use crate::frame_allocator::{alloc_transition, spec_free_frames, KernelFrameAllocator};

verus! {

/// Entries per page table.
pub const PAGE_TABLE_ENTRIES: usize = 512;

/// Flag bit marking a mapping as present.
pub const PAGE_PRESENT: u64 = 1;

/// Flag bit marking a mapping as writable.
pub const PAGE_WRITABLE: u64 = 2;

/// Upper bound on the number of tables the arena may hold, so that flat
/// indexing stays within `usize` on every platform.
pub const MAX_PAGE_TABLES: usize = 0x10_0000;

/// One page-table entry: empty, a pointer to a child table in the arena, or
/// a mapping to a physical frame with its flags.
#[derive(Debug, Clone, Copy, PartialEq, Eq, Structural)]
pub enum PageEntry {
    Unused,
    Table(usize),
    Frame(u64, u64),
}

/// Evidence of a successful `map` call: the caller must flush the CPU's
/// cached translation for this page as part of the same operation.
#[must_use]
#[derive(Debug, Clone, Copy, PartialEq, Eq, Structural)]
pub struct TlbFlush {
    pub page: u64,
}

impl TlbFlush {
    /// The page whose stale translation must be invalidated.
    pub fn page(self) -> (p: u64)
        ensures
            p == self.page,
    {
        self.page
    }
}

/// Why a `map` call could not install a mapping. The first is genuine
/// resource exhaustion; the other two report an existing overlapping mapping
/// and are ignorable for idempotent re-mapping attempts.
#[derive(Debug, Clone, Copy, PartialEq, Eq, Structural)]
pub enum MapError {
    FrameAllocationFailed,
    PageAlreadyMapped(u64),
    ParentEntryHugePage,
}

pub struct Mapper {
    // arena of page tables: table `t` occupies entries `[512 t, 512 t + 512)`
    entries: Vec<PageEntry>,
    phys_offset: u64,
}

/// Table index of the page-table walk at `level` (4 is the top level) for a
/// virtual address: nine bits of the address, so always below 512.
pub open spec fn idx_at(va: u64, level: int) -> int {
    if level == 4 {
        ((va >> 39) & 0x1ff) as int
    } else if level == 3 {
        ((va >> 30) & 0x1ff) as int
    } else if level == 2 {
        ((va >> 21) & 0x1ff) as int
    } else {
        ((va >> 12) & 0x1ff) as int
    }
}

/// The nine-bit walk indices are below 512.
pub proof fn lemma_idx_at_bounds(va: u64)
    by (bit_vector)
    ensures
        0 <= ((va >> 39) & 0x1ff) < 512,
        0 <= ((va >> 30) & 0x1ff) < 512,
        0 <= ((va >> 21) & 0x1ff) < 512,
        0 <= ((va >> 12) & 0x1ff) < 512,
{
}

/// Bytes covered by one entry at `level`: 4 KiB pages at the last level,
/// then 2 MiB, 1 GiB and 512 GiB spans above it.
pub open spec fn spec_page_size(level: int) -> int {
    if level == 4 {
        0x80_0000_0000
    } else if level == 3 {
        0x4000_0000
    } else if level == 2 {
        0x20_0000
    } else {
        0x1000
    }
}

impl Mapper {
    /// Number of tables in the arena.
    pub closed spec fn spec_table_count(self) -> int {
        self.entries@.len() as int / 512
    }

    /// The direct-map offset this mapper was created with.
    pub closed spec fn spec_phys_offset(self) -> u64 {
        self.phys_offset
    }

    /// Entry `e` of table `t`.
    pub closed spec fn entry(self, t: int, e: int) -> PageEntry {
        self.entries@[t * 512 + e]
    }

    /// The child table referenced by entry `e` of table `t`, if that entry
    /// is a table pointer.
    pub open spec fn child(self, t: int, e: int) -> Option<int> {
        match self.entry(t, e) {
            PageEntry::Table(i) => Some(i as int),
            _ => None,
        }
    }

    /// The table reached after `d` steps of the walk for `va`: the top table
    /// at depth 0, down to the last-level table at depth 3.
    pub open spec fn reach(self, va: u64, d: int) -> Option<int> {
        if d == 0 {
            Some(0)
        } else if d == 1 {
            self.child(0, idx_at(va, 4))
        } else if d == 2 {
            match self.child(0, idx_at(va, 4)) {
                Some(t3) => self.child(t3, idx_at(va, 3)),
                None => None,
            }
        } else {
            match self.child(0, idx_at(va, 4)) {
                Some(t3) => match self.child(t3, idx_at(va, 3)) {
                    Some(t2) => self.child(t2, idx_at(va, 2)),
                    None => None,
                },
                None => None,
            }
        }
    }

    /// Structural invariant of the arena: whole tables, at least the top
    /// one, a bounded count, every table pointer in range and not pointing
    /// at the top table, no two entries pointing at the same table, and no
    /// table pointers inside last-level tables.
    pub closed spec fn wf(self) -> bool {
        &&& self.spec_table_count() * 512 == self.entries@.len()
        &&& 1 <= self.spec_table_count() <= MAX_PAGE_TABLES
        &&& forall|t: int, e: int|
            0 <= t < self.spec_table_count() && 0 <= e < 512 ==> (#[trigger] self.entry(t, e)
                matches PageEntry::Table(i) ==> 1 <= i < self.spec_table_count())
        &&& forall|t1: int, e1: int, t2: int, e2: int|
            0 <= t1 < self.spec_table_count() && 0 <= e1 < 512 && 0 <= t2
                < self.spec_table_count() && 0 <= e2 < 512 && !(t1 == t2 && e1 == e2) ==> !(
            #[trigger] self.entry(t1, e1) matches PageEntry::Table(i1) && #[trigger] self.entry(
                t2,
                e2,
            ) matches PageEntry::Table(i2) && i1 == i2)
        &&& forall|va: u64, e: int|
            0 <= e < 512 && (#[trigger] self.reach(va, 3) matches Some(t1)) ==> !(#[trigger] self
                .entry(self.reach(va, 3).unwrap(), e) matches PageEntry::Table(x))
    }

    /// What the walk resolves `va` to: the mapped base address, the
    /// mapping's flags, and the level at which the mapping entry sits
    /// (1 for a 4 KiB page, higher for huge pages), or nothing when the
    /// address is unmapped.
    pub open spec fn spec_resolve(self, va: u64) -> Option<(u64, u64, int)> {
        match self.entry(0, idx_at(va, 4)) {
            PageEntry::Unused => None,
            PageEntry::Frame(b, f) => Some((b, f, 4)),
            PageEntry::Table(t3) => match self.entry(t3 as int, idx_at(va, 3)) {
                PageEntry::Unused => None,
                PageEntry::Frame(b, f) => Some((b, f, 3)),
                PageEntry::Table(t2) => match self.entry(t2 as int, idx_at(va, 2)) {
                    PageEntry::Unused => None,
                    PageEntry::Frame(b, f) => Some((b, f, 2)),
                    PageEntry::Table(t1) => match self.entry(t1 as int, idx_at(va, 1)) {
                        PageEntry::Frame(b, f) => Some((b, f, 1)),
                        _ => None,
                    },
                },
            },
        }
    }

    /// Whether two virtual addresses take the same walk: equal indices at
    /// every level, so they fall on the same 4 KiB page table slot.
    pub open spec fn same_walk(va1: u64, va2: u64) -> bool {
        &&& idx_at(va1, 4) == idx_at(va2, 4)
        &&& idx_at(va1, 3) == idx_at(va2, 3)
        &&& idx_at(va1, 2) == idx_at(va2, 2)
        &&& idx_at(va1, 1) == idx_at(va2, 1)
    }

    /// Whether two virtual addresses share the walk down to the 2 MiB
    /// level: equal indices above the last level, so they fall under the
    /// same level-2 slot and the same huge page.
    pub open spec fn same_huge_walk(va1: u64, va2: u64) -> bool {
        &&& idx_at(va1, 4) == idx_at(va2, 4)
        &&& idx_at(va1, 3) == idx_at(va2, 3)
        &&& idx_at(va1, 2) == idx_at(va2, 2)
    }

    /// A fresh mapper over an empty top-level table, remembering the
    /// direct-map offset.
    pub fn new(phys_offset: u64) -> (m: Mapper)
        ensures
            m.wf(),
            m.spec_phys_offset() == phys_offset,
            m.spec_table_count() == 1,
            forall|va: u64| m.spec_resolve(va) is None,
    {
        let entries: Vec<PageEntry> = vec![PageEntry::Unused; PAGE_TABLE_ENTRIES];
        let m = Mapper { entries, phys_offset };
        proof {
            assert(m.spec_table_count() == 1);
            assert forall|va: u64| m.spec_resolve(va) is None by {
                lemma_idx_at_bounds(va);
                assert(m.entry(0, idx_at(va, 4)) == PageEntry::Unused);
            }
            assert forall|va: u64, e: int|
                0 <= e < 512 && (#[trigger] m.reach(va, 3) matches Some(t1)) implies !(
            #[trigger] m.entry(m.reach(va, 3).unwrap(), e) matches PageEntry::Table(x)) by {
                lemma_idx_at_bounds(va);
            }
        }
        m
    }

    /// Reads one entry of one table.
    fn get_entry(&self, t: usize, e: usize) -> (r: PageEntry)
        requires
            self.wf(),
            t < self.spec_table_count(),
            e < 512,
        ensures
            r == self.entry(t as int, e as int),
    {
        proof {
            assert(t * 512 + e < self.entries@.len()) by (nonlinear_arith)
                requires
                    t < self.spec_table_count(),
                    e < 512,
                    self.spec_table_count() * 512 == self.entries@.len(),
            ;
        }
        self.entries[t * 512 + e]
    }

    /// Every table the walk reaches is a real, non-top table of the arena.
    proof fn lemma_reach_in_range(self, va: u64, d: int)
        requires
            self.wf(),
            1 <= d <= 3,
            self.reach(va, d) is Some,
        ensures
            1 <= self.reach(va, d).unwrap() < self.spec_table_count(),
            d > 1 ==> self.reach(va, d - 1) is Some,
        decreases d,
    {
        lemma_idx_at_bounds(va);
        if d > 1 {
            self.lemma_reach_in_range(va, d - 1);
        }
    }

    /// A table reached at one depth is never also reached at a deeper depth:
    /// each table has a unique parent entry, so its depth is unique.
    proof fn lemma_reach_depth_disjoint(self, va1: u64, d1: int, va2: u64, d2: int)
        requires
            self.wf(),
            0 <= d1 < d2 <= 3,
            self.reach(va1, d1) is Some,
            self.reach(va2, d2) is Some,
        ensures
            self.reach(va1, d1).unwrap() != self.reach(va2, d2).unwrap(),
        decreases d1,
    {
        lemma_idx_at_bounds(va1);
        lemma_idx_at_bounds(va2);
        self.lemma_reach_in_range(va2, d2);
        if d1 == 0 {
            // the top table is never the target of a table pointer
        } else {
            self.lemma_reach_in_range(va1, d1);
            if self.reach(va1, d1).unwrap() == self.reach(va2, d2).unwrap() {
                // both parent entries point at the same table, so by
                // uniqueness they are the same slot, and the parents
                // coincide one level up
                self.lemma_reach_in_range(va2, d2 - 1);
                if d1 > 1 {
                    self.lemma_reach_in_range(va1, d1 - 1);
                }
                self.lemma_reach_depth_disjoint(va1, d1 - 1, va2, d2 - 1);
            }
        }
    }

    /// Two walks that arrive at the same level-2 table agree on the two
    /// indices above it: parent entries are unique.
    proof fn lemma_same_l2_same_path(self, va1: u64, va2: u64)
        requires
            self.wf(),
            self.reach(va1, 2) is Some,
            self.reach(va1, 2) == self.reach(va2, 2),
        ensures
            idx_at(va1, 4) == idx_at(va2, 4),
            idx_at(va1, 3) == idx_at(va2, 3),
            self.reach(va1, 1) == self.reach(va2, 1),
    {
        lemma_idx_at_bounds(va1);
        lemma_idx_at_bounds(va2);
        self.lemma_reach_in_range(va1, 2);
        self.lemma_reach_in_range(va2, 2);
        self.lemma_reach_in_range(va1, 1);
        self.lemma_reach_in_range(va2, 1);
    }

    /// Two walks that arrive at the same last-level table agree on every
    /// index above the last level: parent entries are unique.
    proof fn lemma_same_l1_same_path(self, va1: u64, va2: u64)
        requires
            self.wf(),
            self.reach(va1, 3) is Some,
            self.reach(va1, 3) == self.reach(va2, 3),
        ensures
            idx_at(va1, 4) == idx_at(va2, 4),
            idx_at(va1, 3) == idx_at(va2, 3),
            idx_at(va1, 2) == idx_at(va2, 2),
            self.reach(va1, 2) == self.reach(va2, 2),
            self.reach(va1, 1) == self.reach(va2, 1),
    {
        lemma_idx_at_bounds(va1);
        lemma_idx_at_bounds(va2);
        self.lemma_reach_in_range(va1, 3);
        self.lemma_reach_in_range(va2, 3);
        self.lemma_reach_in_range(va1, 2);
        self.lemma_reach_in_range(va2, 2);
        self.lemma_reach_in_range(va1, 1);
        self.lemma_reach_in_range(va2, 1);
    }

    /// Overwrites one entry of one table, touching nothing else.
    fn set_entry(&mut self, t: usize, e: usize, v: PageEntry)
        requires
            old(self).wf(),
            t < old(self).spec_table_count(),
            e < 512,
        ensures
            final(self).spec_table_count() == old(self).spec_table_count(),
            final(self).spec_table_count() * 512 == final(self).entries@.len(),
            final(self).spec_phys_offset() == old(self).spec_phys_offset(),
            final(self).entry(t as int, e as int) == v,
            forall|t2: int, e2: int|
                0 <= t2 < old(self).spec_table_count() && 0 <= e2 < 512 && !(t2 == t && e2 == e)
                    ==> final(self).entry(t2, e2) == old(self).entry(t2, e2),
    {
        proof {
            assert(t * 512 + e < self.entries@.len()) by (nonlinear_arith)
                requires
                    t < self.spec_table_count(),
                    e < 512,
                    self.spec_table_count() * 512 == self.entries@.len(),
            ;
        }
        self.entries.set(t * 512 + e, v);
        proof {
            assert forall|t2: int, e2: int|
                0 <= t2 < old(self).spec_table_count() && 0 <= e2 < 512 && !(t2 == t && e2
                    == e) implies final(self).entry(t2, e2) == old(self).entry(t2, e2) by {
                assert(t2 * 512 + e2 != t * 512 + e) by (nonlinear_arith)
                    requires
                        0 <= e2 < 512,
                        0 <= e < 512,
                        !(t2 == t && e2 == e),
                ;
            }
        }
    }

    /// Appends one fresh, empty table to the arena.
    fn push_table(&mut self)
        requires
            old(self).wf(),
            old(self).spec_table_count() < MAX_PAGE_TABLES,
        ensures
            final(self).wf(),
            final(self).spec_table_count() == old(self).spec_table_count() + 1,
            final(self).spec_phys_offset() == old(self).spec_phys_offset(),
            forall|t2: int, e2: int|
                0 <= t2 < old(self).spec_table_count() && 0 <= e2 < 512 ==> final(self).entry(
                    t2,
                    e2,
                ) == old(self).entry(t2, e2),
            forall|e2: int|
                0 <= e2 < 512 ==> final(self).entry(old(self).spec_table_count(), e2)
                    == PageEntry::Unused,
            forall|va: u64, d: int| final(self).reach(va, d) == old(self).reach(va, d),
            forall|va: u64| final(self).spec_resolve(va) == old(self).spec_resolve(va),
    {
        let mut k: usize = 0;
        while k < PAGE_TABLE_ENTRIES
            invariant
                0 <= k <= 512,
                self.entries@.len() == old(self).entries@.len() + k,
                old(self).wf(),
                old(self).spec_table_count() < MAX_PAGE_TABLES,
                forall|j: int|
                    0 <= j < old(self).entries@.len() ==> self.entries@[j] == old(
                        self,
                    ).entries@[j],
                forall|j: int|
                    old(self).entries@.len() <= j < self.entries@.len() ==> self.entries@[j]
                        == PageEntry::Unused,
                self.phys_offset == old(self).phys_offset,
            decreases 512 - k,
        {
            self.entries.push(PageEntry::Unused);
            k = k + 1;
        }
        proof {
            let pre = *old(self);
            let post = *final(self);
            let c = pre.spec_table_count();
            assert(post.entries@.len() == (c + 1) * 512) by (nonlinear_arith)
                requires
                    post.entries@.len() == pre.entries@.len() + 512,
                    pre.spec_table_count() * 512 == pre.entries@.len(),
                    c == pre.spec_table_count(),
            ;
            assert(post.spec_table_count() == c + 1) by (nonlinear_arith)
                requires
                    post.entries@.len() == (c + 1) * 512,
                    post.spec_table_count() == post.entries@.len() as int / 512,
                    c >= 0,
            ;
            assert forall|t2: int, e2: int|
                0 <= t2 < c + 1 && 0 <= e2 < 512 implies (if t2 < c {
                post.entry(t2, e2) == pre.entry(t2, e2)
            } else {
                post.entry(t2, e2) == PageEntry::Unused
            }) by {
                assert(0 <= t2 * 512 + e2 < (c + 1) * 512 && (t2 < c ==> t2 * 512 + e2 < c * 512)
                    && (t2 == c ==> t2 * 512 + e2 >= c * 512)) by (nonlinear_arith)
                    requires
                        0 <= t2 < c + 1,
                        0 <= e2 < 512,
                ;
            }
            assert forall|va: u64, d: int| post.reach(va, d) == pre.reach(va, d) by {
                lemma_idx_at_bounds(va);
            }
            assert forall|va: u64| post.spec_resolve(va) == pre.spec_resolve(va) by {
                lemma_idx_at_bounds(va);
            }
            assert forall|va: u64, e: int|
                0 <= e < 512 && (#[trigger] post.reach(va, 3) matches Some(t1)) implies !(
            #[trigger] post.entry(post.reach(va, 3).unwrap(), e) matches PageEntry::Table(x)) by {
                lemma_idx_at_bounds(va);
                assert(pre.reach(va, 3) == post.reach(va, 3));
            }
        }
    }

    /// Number of tables in the arena.
    fn table_count(&self) -> (c: usize)
        requires
            self.wf(),
        ensures
            c == self.spec_table_count(),
    {
        self.entries.len() / PAGE_TABLE_ENTRIES
    }

    /// One step of the walk for `va` while installing a mapping: from table
    /// `t`, reached at depth `d`, follow or create the child table for the
    /// walk index `e`. A mapping entry found here means the address is
    /// covered by a huge page; a missing child is backed by a frame from the
    /// allocator and appended to the arena as an empty table.
    fn descend(
        &mut self,
        t: usize,
        e: usize,
        fa: &mut KernelFrameAllocator,
        Ghost(va): Ghost<u64>,
        Ghost(d): Ghost<int>,
    ) -> (r: Result<usize, MapError>)
        requires
            old(self).wf(),
            old(fa).wf(),
            0 <= d <= 2,
            old(self).reach(va, d) == Some(t as int),
            t < old(self).spec_table_count(),
            e == idx_at(va, 4 - d),
            old(self).spec_table_count() < MAX_PAGE_TABLES,
        ensures
            final(self).wf(),
            final(fa).wf(),
            final(self).spec_phys_offset() == old(self).spec_phys_offset(),
            old(self).spec_table_count() <= final(self).spec_table_count() <= old(
                self,
            ).spec_table_count() + 1,
            final(fa).spec_max_frames() == old(fa).spec_max_frames(),
            old(fa).scan_bound_ok() ==> final(fa).scan_bound_ok(),
            forall|i: int|
                0 <= i < old(fa).spec_max_frames() && old(fa).frame_used(i)
                    ==> final(fa).frame_used(i),
            forall|va2: u64| final(self).spec_resolve(va2) == old(self).spec_resolve(va2),
            match r {
                Ok(t_next) => {
                    &&& t_next < final(self).spec_table_count()
                    &&& final(self).reach(va, d + 1) == Some(t_next as int)
                    &&& final(self).child(t as int, e as int) == Some(t_next as int)
                    &&& spec_free_frames(*final(fa)) + 1 >= spec_free_frames(*old(fa))
                    &&& (old(self).entry(t as int, e as int) matches PageEntry::Table(i)
                        ==> *final(self) == *old(self) && *final(fa) == *old(fa))
                    &&& (old(self).entry(t as int, e as int) is Unused
                        ==> final(self).spec_table_count() == old(self).spec_table_count() + 1
                        && (forall|e2: int|
                        0 <= e2 < 512 ==> final(self).entry(t_next as int, e2)
                            == PageEntry::Unused))
                },
                Err(MapError::ParentEntryHugePage) => {
                    &&& *final(self) == *old(self)
                    &&& *final(fa) == *old(fa)
                    &&& old(self).spec_resolve(va) is Some
                    &&& old(self).spec_resolve(va).unwrap().2 == 4 - d
                },
                Err(MapError::FrameAllocationFailed) => {
                    &&& *final(self) == *old(self)
                    &&& alloc_transition(*old(fa), *final(fa), None)
                    &&& old(self).entry(t as int, e as int) is Unused
                },
                Err(MapError::PageAlreadyMapped(_)) => false,
            },
    {
        proof {
            lemma_idx_at_bounds(va);
        }
        match self.get_entry(t, e) {
            PageEntry::Frame(_, _) => Err(MapError::ParentEntryHugePage),
            PageEntry::Table(i) => {
                proof {
                    assert(self.entry(t as int, e as int) matches PageEntry::Table(x) && 1 <= x
                        < self.spec_table_count());
                }
                Ok(i)
            },
            PageEntry::Unused => {
                match fa.allocate_frame() {
                    None => Err(MapError::FrameAllocationFailed),
                    Some(paddr) => {
                        proof {
                            crate::frame_allocator::lemma_alloc_decrements_free(
                                *old(fa),
                                *fa,
                                paddr,
                            );
                        }
                        let nt = self.table_count();
                        self.push_table();
                        let ghost grown = *self;
                        self.set_entry(t, e, PageEntry::Table(nt));
                        proof {
                            self.lemma_after_link(grown, t as int, e as int, nt as int, va, d);
                        }
                        Ok(nt)
                    },
                }
            },
        }
    }

    /// After linking a fresh, empty table `nt` at slot `(t, e)` — the walk
    /// slot of `va` at depth `d` — the arena is still well formed, nothing
    /// resolves differently, and the walk for `va` now reaches `nt`.
    proof fn lemma_after_link(self, grown: Mapper, t: int, e: int, nt: int, va: u64, d: int)
        requires
            grown.wf(),
            0 <= d <= 2,
            0 <= t < grown.spec_table_count(),
            0 <= e < 512,
            e == idx_at(va, 4 - d),
            nt == grown.spec_table_count() - 1,
            nt >= 1,
            grown.reach(va, d) == Some(t),
            grown.entry(t, e) == PageEntry::Unused,
            // the freshly appended table is empty
            forall|e2: int| 0 <= e2 < 512 ==> grown.entry(nt, e2) == PageEntry::Unused,
            // the fresh table is not the target of any pointer
            forall|t2: int, e2: int|
                0 <= t2 < grown.spec_table_count() && 0 <= e2 < 512 ==> !(#[trigger] grown.entry(
                    t2,
                    e2,
                ) matches PageEntry::Table(i) && i == nt),
            // `self` is `grown` with the single slot overwritten
            self.spec_table_count() == grown.spec_table_count(),
            self.spec_phys_offset() == grown.spec_phys_offset(),
            self.entry(t, e) == PageEntry::Table(nt as usize),
            forall|t2: int, e2: int|
                0 <= t2 < grown.spec_table_count() && 0 <= e2 < 512 && !(t2 == t && e2 == e)
                    ==> self.entry(t2, e2) == grown.entry(t2, e2),
            // structural parts of `wf` that do not mention entries
            self.spec_table_count() * 512 == self.entries@.len(),
            1 <= self.spec_table_count() <= MAX_PAGE_TABLES,
        ensures
            self.wf(),
            self.reach(va, d + 1) == Some(nt),
            forall|va2: u64| self.spec_resolve(va2) == grown.spec_resolve(va2),
    {
        lemma_idx_at_bounds(va);
        let c = grown.spec_table_count();
        // pointer bounds and uniqueness
        assert forall|t2: int, e2: int|
            0 <= t2 < c && 0 <= e2 < 512 implies (#[trigger] self.entry(t2, e2)
            matches PageEntry::Table(i) ==> 1 <= i < c) by {
            if !(t2 == t && e2 == e) {
                assert(self.entry(t2, e2) == grown.entry(t2, e2));
            }
        }
        assert forall|t1: int, e1: int, t2: int, e2: int|
            0 <= t1 < c && 0 <= e1 < 512 && 0 <= t2 < c && 0 <= e2 < 512 && !(t1 == t2 && e1
                == e2) implies !(#[trigger] self.entry(t1, e1) matches PageEntry::Table(i1)
            && #[trigger] self.entry(t2, e2) matches PageEntry::Table(i2) && i1 == i2) by {
            if t1 == t && e1 == e {
                assert(self.entry(t2, e2) == grown.entry(t2, e2));
            } else if t2 == t && e2 == e {
                assert(self.entry(t1, e1) == grown.entry(t1, e1));
            } else {
                assert(self.entry(t1, e1) == grown.entry(t1, e1));
                assert(self.entry(t2, e2) == grown.entry(t2, e2));
            }
        }
        // the walk prefix of `va` is unaffected by the new link, so the walk
        // now reaches the fresh table at depth `d + 1`
        if d >= 1 {
            grown.lemma_reach_depth_disjoint(va, 0, va, d);
        }
        if d == 2 {
            grown.lemma_reach_depth_disjoint(va, 1, va, 2);
        }
        assert(self.reach(va, d + 1) == Some(nt));
        // nothing resolves differently: a walk either avoids the changed
        // slot entirely, or runs into the fresh table and still resolves to
        // nothing
        assert forall|va2: u64| self.spec_resolve(va2) == grown.spec_resolve(va2) by {
            lemma_idx_at_bounds(va2);
        }
        // no last-level table holds a table pointer: a walk that newly ends
        // in the fresh table finds it empty, and one that already ended in
        // an old table cannot end in `t`, whose depth is at most 2
        assert forall|va2: u64, e2: int|
            0 <= e2 < 512 && (#[trigger] self.reach(va2, 3) matches Some(t1)) implies !(
        #[trigger] self.entry(self.reach(va2, 3).unwrap(), e2) matches PageEntry::Table(x)) by {
            lemma_idx_at_bounds(va2);
            let t1 = self.reach(va2, 3).unwrap();
            if t1 == nt {
                assert(self.entry(nt, e2) == grown.entry(nt, e2));
            } else {
                assert(grown.reach(va2, 3) == self.reach(va2, 3));
                if t1 == t {
                    grown.lemma_reach_depth_disjoint(va, d, va2, 3);
                } else {
                    assert(self.entry(t1, e2) == grown.entry(t1, e2));
                }
            }
        }
    }

    /// Walks the hierarchy to resolve a virtual address to the physical
    /// address it is mapped to, through 4 KiB and huge-page mappings alike;
    /// `None` when no translation exists.
    pub fn translate(&self, virt: u64) -> (r: Option<u64>)
        requires
            self.wf(),
        ensures
            match self.spec_resolve(virt) {
                None => r is None,
                Some((base, flags, level)) => r == Some(
                    (((base as int) + (virt as int) % spec_page_size(level)) % 0x1_0000_0000_0000_0000) as u64,
                ),
            },
    {
        proof {
            lemma_idx_at_bounds(virt);
        }
        let i4 = ((virt >> 39) & 0x1ff) as usize;
        let i3 = ((virt >> 30) & 0x1ff) as usize;
        let i2 = ((virt >> 21) & 0x1ff) as usize;
        let i1 = ((virt >> 12) & 0x1ff) as usize;
        let t3 = match self.get_entry(0, i4) {
            PageEntry::Unused => {
                return None;
            },
            PageEntry::Frame(b, _) => {
                return Some(b.wrapping_add(virt % 0x80_0000_0000));
            },
            PageEntry::Table(t) => t,
        };
        let t2 = match self.get_entry(t3, i3) {
            PageEntry::Unused => {
                return None;
            },
            PageEntry::Frame(b, _) => {
                return Some(b.wrapping_add(virt % 0x4000_0000));
            },
            PageEntry::Table(t) => t,
        };
        let t1 = match self.get_entry(t2, i2) {
            PageEntry::Unused => {
                return None;
            },
            PageEntry::Frame(b, _) => {
                return Some(b.wrapping_add(virt % 0x20_0000));
            },
            PageEntry::Table(t) => t,
        };
        match self.get_entry(t1, i1) {
            PageEntry::Frame(b, _) => Some(b.wrapping_add(virt % 0x1000)),
            _ => None,
        }
    }
}

impl Mapper {
    /// Resolution reads nothing but the four walk indices, so two addresses
    /// on the same walk resolve identically.
    pub proof fn lemma_resolve_depends_on_walk(self, va1: u64, va2: u64)
        requires
            Self::same_walk(va1, va2),
        ensures
            self.spec_resolve(va1) == self.spec_resolve(va2),
    {
    }

    /// After storing the mapping entry for `va` into slot `(t1, e)` of its
    /// last-level table, the arena is still well formed, `va` resolves to
    /// the new mapping, and every address on a different walk resolves as
    /// before.
    proof fn lemma_after_leaf(
        self,
        walked: Mapper,
        t1: int,
        e: int,
        va: u64,
        frame: u64,
        flags: u64,
    )
        requires
            walked.wf(),
            walked.reach(va, 3) == Some(t1),
            e == idx_at(va, 1),
            0 <= e < 512,
            // `self` is `walked` with the one leaf slot overwritten
            self.spec_table_count() == walked.spec_table_count(),
            self.spec_phys_offset() == walked.spec_phys_offset(),
            self.spec_table_count() * 512 == self.entries@.len(),
            self.entry(t1, e) == PageEntry::Frame(frame, flags),
            forall|t2: int, e2: int|
                0 <= t2 < walked.spec_table_count() && 0 <= e2 < 512 && !(t2 == t1 && e2 == e)
                    ==> self.entry(t2, e2) == walked.entry(t2, e2),
        ensures
            self.wf(),
            self.spec_resolve(va) == Some((frame, flags, 1int)),
            forall|va2: u64|
                !Self::same_walk(va2, va) ==> self.spec_resolve(va2) == walked.spec_resolve(va2),
            forall|va2: u64, d: int| self.reach(va2, d) == walked.reach(va2, d),
    {
        lemma_idx_at_bounds(va);
        walked.lemma_reach_in_range(va, 3);
        walked.lemma_reach_in_range(va, 2);
        walked.lemma_reach_in_range(va, 1);
        let c = walked.spec_table_count();
        // a mapping entry is not a table pointer, so the link structure and
        // with it every walk is untouched
        assert forall|va2: u64, d: int| self.reach(va2, d) == walked.reach(va2, d) by {
            lemma_idx_at_bounds(va2);
        }
        assert forall|t2: int, e2: int|
            0 <= t2 < c && 0 <= e2 < 512 implies (#[trigger] self.entry(t2, e2)
            matches PageEntry::Table(i) ==> 1 <= i < c) by {
            if !(t2 == t1 && e2 == e) {
                assert(self.entry(t2, e2) == walked.entry(t2, e2));
            }
        }
        assert forall|ta: int, ea: int, tb: int, eb: int|
            0 <= ta < c && 0 <= ea < 512 && 0 <= tb < c && 0 <= eb < 512 && !(ta == tb && ea
                == eb) implies !(#[trigger] self.entry(ta, ea) matches PageEntry::Table(i1)
            && #[trigger] self.entry(tb, eb) matches PageEntry::Table(i2) && i1 == i2) by {
            if ta == t1 && ea == e {
            } else if tb == t1 && eb == e {
            } else {
                assert(self.entry(ta, ea) == walked.entry(ta, ea));
                assert(self.entry(tb, eb) == walked.entry(tb, eb));
            }
        }
        assert forall|va2: u64, e2: int|
            0 <= e2 < 512 && (#[trigger] self.reach(va2, 3) matches Some(tx)) implies !(
        #[trigger] self.entry(self.reach(va2, 3).unwrap(), e2) matches PageEntry::Table(x)) by {
            lemma_idx_at_bounds(va2);
            let tx = self.reach(va2, 3).unwrap();
            if !(tx == t1 && e2 == e) {
                assert(walked.reach(va2, 3) == Some(tx));
                assert(self.entry(tx, e2) == walked.entry(tx, e2));
            }
        }
        assert(self.spec_resolve(va) == Some((frame, flags, 1int)));
        // a walk that differs anywhere never reads the overwritten slot
        assert forall|va2: u64|
            !Self::same_walk(va2, va) implies self.spec_resolve(va2) == walked.spec_resolve(
            va2,
        ) by {
            lemma_idx_at_bounds(va2);
            if walked.reach(va2, 1) is Some {
                walked.lemma_reach_depth_disjoint(va2, 1, va, 3);
            }
            if walked.reach(va2, 2) is Some {
                walked.lemma_reach_depth_disjoint(va2, 2, va, 3);
            }
            if walked.reach(va2, 3) == Some(t1) {
                walked.lemma_same_l1_same_path(va2, va);
            }
        }
    }

    /// After storing a huge-page mapping for `va` into slot `(t2, e)` of
    /// its level-2 table, the arena is still well formed, every address
    /// under the same 2 MiB walk prefix resolves to the mapping, and every
    /// other address resolves as before.
    proof fn lemma_after_huge_leaf(
        self,
        walked: Mapper,
        t2: int,
        e: int,
        va: u64,
        frame: u64,
        flags: u64,
    )
        requires
            walked.wf(),
            walked.reach(va, 2) == Some(t2),
            e == idx_at(va, 2),
            0 <= e < 512,
            // `self` is `walked` with the one level-2 slot overwritten
            self.spec_table_count() == walked.spec_table_count(),
            self.spec_phys_offset() == walked.spec_phys_offset(),
            self.spec_table_count() * 512 == self.entries@.len(),
            walked.entry(t2, e) == PageEntry::Unused,
            self.entry(t2, e) == PageEntry::Frame(frame, flags),
            forall|ta: int, ea: int|
                0 <= ta < walked.spec_table_count() && 0 <= ea < 512 && !(ta == t2 && ea == e)
                    ==> self.entry(ta, ea) == walked.entry(ta, ea),
        ensures
            self.wf(),
            forall|va2: u64|
                Self::same_huge_walk(va2, va) ==> self.spec_resolve(va2) == Some(
                    (frame, flags, 2int),
                ),
            forall|va2: u64|
                !Self::same_huge_walk(va2, va) ==> self.spec_resolve(va2) == walked.spec_resolve(
                    va2,
                ),
    {
        lemma_idx_at_bounds(va);
        walked.lemma_reach_in_range(va, 2);
        walked.lemma_reach_in_range(va, 1);
        let c = walked.spec_table_count();
        // a mapping entry is not a table pointer, so the link structure and
        // with it every walk is untouched
        assert forall|va2: u64, d: int| self.reach(va2, d) == walked.reach(va2, d) by {
            lemma_idx_at_bounds(va2);
        }
        assert forall|ta: int, ea: int|
            0 <= ta < c && 0 <= ea < 512 implies (#[trigger] self.entry(ta, ea)
            matches PageEntry::Table(i) ==> 1 <= i < c) by {
            if !(ta == t2 && ea == e) {
                assert(self.entry(ta, ea) == walked.entry(ta, ea));
            }
        }
        assert forall|ta: int, ea: int, tb: int, eb: int|
            0 <= ta < c && 0 <= ea < 512 && 0 <= tb < c && 0 <= eb < 512 && !(ta == tb && ea
                == eb) implies !(#[trigger] self.entry(ta, ea) matches PageEntry::Table(i1)
            && #[trigger] self.entry(tb, eb) matches PageEntry::Table(i2) && i1 == i2) by {
            if ta == t2 && ea == e {
            } else if tb == t2 && eb == e {
            } else {
                assert(self.entry(ta, ea) == walked.entry(ta, ea));
                assert(self.entry(tb, eb) == walked.entry(tb, eb));
            }
        }
        assert forall|va2: u64, e2: int|
            0 <= e2 < 512 && (#[trigger] self.reach(va2, 3) matches Some(tx)) implies !(
        #[trigger] self.entry(self.reach(va2, 3).unwrap(), e2) matches PageEntry::Table(x)) by {
            lemma_idx_at_bounds(va2);
            let tx = self.reach(va2, 3).unwrap();
            assert(walked.reach(va2, 3) == Some(tx));
            if tx == t2 {
                walked.lemma_reach_depth_disjoint(va, 2, va2, 3);
            } else {
                assert(self.entry(tx, e2) == walked.entry(tx, e2));
            }
        }
        // every address under the slot's 2 MiB prefix takes the same walk
        // down to the overwritten slot and now finds the mapping there
        assert forall|va2: u64|
            Self::same_huge_walk(va2, va) implies self.spec_resolve(va2) == Some(
            (frame, flags, 2int),
        ) by {
            lemma_idx_at_bounds(va2);
        }
        // an address whose prefix differs never reads the overwritten slot
        assert forall|va2: u64|
            !Self::same_huge_walk(va2, va) implies self.spec_resolve(va2)
            == walked.spec_resolve(va2) by {
            lemma_idx_at_bounds(va2);
            if walked.reach(va2, 1) is Some {
                walked.lemma_reach_depth_disjoint(va2, 1, va, 2);
            }
            if walked.reach(va2, 3) is Some {
                walked.lemma_reach_depth_disjoint(va, 2, va2, 3);
            }
            if walked.reach(va2, 2) == Some(t2) {
                walked.lemma_same_l2_same_path(va2, va);
            }
        }
    }

    /// Installs a 2 MiB huge-page mapping: one level-2 entry covering the
    /// whole 2 MiB span of `virt_page`, the mapping the boot path uses for
    /// the direct map. The span must be entirely untouched — no mapping and
    /// no last-level table under its slot — which the boot layout
    /// guarantees; only running out of frames for intermediate tables can
    /// fail.
    pub fn map_huge_2mib(
        &mut self,
        virt_page: u64,
        frame: u64,
        flags: u64,
        fa: &mut KernelFrameAllocator,
    ) -> (r: Result<TlbFlush, MapError>)
        requires
            old(self).wf(),
            old(fa).wf(),
            virt_page % 0x20_0000 == 0,
            frame % 0x20_0000 == 0,
            old(self).spec_table_count() + 2 <= MAX_PAGE_TABLES,
            old(self).spec_resolve(virt_page) is None,
            old(self).reach(virt_page, 3) is None,
        ensures
            final(self).wf(),
            final(fa).wf(),
            final(self).spec_phys_offset() == old(self).spec_phys_offset(),
            final(fa).spec_max_frames() == old(fa).spec_max_frames(),
            old(fa).scan_bound_ok() ==> final(fa).scan_bound_ok(),
            old(self).spec_table_count() <= final(self).spec_table_count() <= old(
                self,
            ).spec_table_count() + 2,
            spec_free_frames(*final(fa)) + 2 >= spec_free_frames(*old(fa)),
            forall|i: int|
                0 <= i < old(fa).spec_max_frames() && old(fa).frame_used(i)
                    ==> final(fa).frame_used(i),
            match r {
                Ok(fl) => {
                    &&& fl.page == virt_page
                    &&& forall|va2: u64|
                        Self::same_huge_walk(va2, virt_page) ==> final(self).spec_resolve(va2)
                            == Some((frame, flags, 2int))
                    &&& forall|va2: u64|
                        !Self::same_huge_walk(va2, virt_page) ==> final(self).spec_resolve(va2)
                            == old(self).spec_resolve(va2)
                },
                Err(e) => {
                    &&& e == MapError::FrameAllocationFailed
                    &&& forall|va2: u64|
                        final(self).spec_resolve(va2) == old(self).spec_resolve(va2)
                    &&& (old(fa).scan_bound_ok() ==> spec_free_frames(*final(fa)) == 0)
                },
            },
            old(fa).scan_bound_ok() && spec_free_frames(*old(fa)) >= 2 ==> r is Ok,
    {
        proof {
            lemma_idx_at_bounds(virt_page);
        }
        let i4 = ((virt_page >> 39) & 0x1ff) as usize;
        let i3 = ((virt_page >> 30) & 0x1ff) as usize;
        let i2 = ((virt_page >> 21) & 0x1ff) as usize;
        let ghost fa0 = *fa;

        let t3 = match self.descend(0, i4, fa, Ghost(virt_page), Ghost(0int)) {
            Ok(t) => t,
            Err(err) => {
                proof {
                    if err == MapError::FrameAllocationFailed {
                        if old(fa).scan_bound_ok() && spec_free_frames(fa0) > 0 {
                            crate::frame_allocator::lemma_free_count_positive_allocates(
                                fa0,
                                *fa,
                                None,
                            );
                        }
                    } else {
                        assert(false);
                    }
                }
                return Err(MapError::FrameAllocationFailed);
            },
        };
        let ghost m1 = *self;
        let ghost fa1 = *fa;
        let t2 = match self.descend(t3, i3, fa, Ghost(virt_page), Ghost(1int)) {
            Ok(t) => t,
            Err(err) => {
                proof {
                    if err == MapError::FrameAllocationFailed {
                        if old(fa).scan_bound_ok() && spec_free_frames(fa1) > 0 {
                            crate::frame_allocator::lemma_free_count_positive_allocates(
                                fa1,
                                *fa,
                                None,
                            );
                        }
                    } else {
                        assert(m1.spec_resolve(virt_page) is Some);
                        assert(false);
                    }
                }
                return Err(MapError::FrameAllocationFailed);
            },
        };
        let ghost m2 = *self;
        match self.get_entry(t2, i2) {
            PageEntry::Unused => {
                self.set_entry(t2, i2, PageEntry::Frame(frame, flags));
                proof {
                    self.lemma_after_huge_leaf(m2, t2 as int, i2 as int, virt_page, frame, flags);
                }
                Ok(TlbFlush { page: virt_page })
            },
            PageEntry::Frame(b, fl) => {
                // the span resolves to an existing huge mapping, excluded
                // by the precondition
                proof {
                    assert(m2.spec_resolve(virt_page) == Some((b, fl, 2int)));
                    assert(false);
                }
                Err(MapError::ParentEntryHugePage)
            },
            PageEntry::Table(t1) => {
                // a last-level table under the slot, excluded by the
                // precondition: descents never create one here, and an old
                // one would have been reachable before the call
                proof {
                    assert(m2.entry(t2 as int, i2 as int) matches PageEntry::Table(x) && x
                        == t1 as int);
                    if m1.entry(t3 as int, i3 as int) is Unused {
                        assert(m2.entry(t2 as int, i2 as int) == PageEntry::Unused);
                    }
                    assert(m2 == m1);
                    if old(self).entry(0, i4 as int) is Unused {
                        assert(m1.entry(t3 as int, i3 as int) == PageEntry::Unused);
                    }
                    assert(m1 == *old(self));
                    assert(old(self).reach(virt_page, 3) == Some(t1 as int));
                    assert(false);
                }
                Err(MapError::ParentEntryHugePage)
            },
        }
    }

    /// Installs a 4 KiB mapping from `virt_page` to the physical frame at
    /// `frame`, allocating any missing intermediate tables from the frame
    /// allocator. On success the caller receives a flush token and must
    /// invalidate the CPU's cached translation for the page. "Already
    /// mapped" and "covered by a huge page" are reported as non-fatal,
    /// ignorable outcomes; a failed intermediate allocation means the
    /// allocator has genuinely run out of frames.
    #[verifier::rlimit(100)]
    #[verifier::spinoff_prover]
    pub fn map(
        &mut self,
        virt_page: u64,
        frame: u64,
        flags: u64,
        fa: &mut KernelFrameAllocator,
    ) -> (r: Result<TlbFlush, MapError>)
        requires
            old(self).wf(),
            old(fa).wf(),
            virt_page % 4096 == 0,
            frame % 4096 == 0,
            old(self).spec_table_count() + 3 <= MAX_PAGE_TABLES,
        ensures
            final(self).wf(),
            final(fa).wf(),
            final(self).spec_phys_offset() == old(self).spec_phys_offset(),
            final(fa).spec_max_frames() == old(fa).spec_max_frames(),
            old(fa).scan_bound_ok() ==> final(fa).scan_bound_ok(),
            old(self).spec_table_count() <= final(self).spec_table_count() <= old(
                self,
            ).spec_table_count() + 3,
            spec_free_frames(*final(fa)) + 3 >= spec_free_frames(*old(fa)),
            forall|i: int|
                0 <= i < old(fa).spec_max_frames() && old(fa).frame_used(i)
                    ==> final(fa).frame_used(i),
            match r {
                Ok(fl) => {
                    &&& fl.page == virt_page
                    &&& old(self).spec_resolve(virt_page) is None
                    &&& final(self).spec_resolve(virt_page) == Some((frame, flags, 1int))
                    &&& forall|va2: u64|
                        !Self::same_walk(va2, virt_page) ==> final(self).spec_resolve(va2) == old(
                            self,
                        ).spec_resolve(va2)
                },
                Err(MapError::PageAlreadyMapped(b)) => {
                    &&& (old(self).spec_resolve(virt_page) matches Some((b2, f2, l2)) && b2 == b
                        && l2 == 1)
                    &&& *final(self) == *old(self)
                    &&& *final(fa) == *old(fa)
                },
                Err(MapError::ParentEntryHugePage) => {
                    &&& old(self).spec_resolve(virt_page) is Some
                    &&& old(self).spec_resolve(virt_page).unwrap().2 >= 2
                    &&& *final(self) == *old(self)
                    &&& *final(fa) == *old(fa)
                },
                Err(MapError::FrameAllocationFailed) => {
                    &&& old(self).spec_resolve(virt_page) is None
                    &&& forall|va2: u64|
                        final(self).spec_resolve(va2) == old(self).spec_resolve(va2)
                    &&& (old(fa).scan_bound_ok() ==> spec_free_frames(*final(fa)) == 0)
                },
            },
            old(self).spec_resolve(virt_page) is None && old(fa).scan_bound_ok()
                && spec_free_frames(*old(fa)) >= 3 ==> r is Ok,
    {
        proof {
            lemma_idx_at_bounds(virt_page);
        }
        let i4 = ((virt_page >> 39) & 0x1ff) as usize;
        let i3 = ((virt_page >> 30) & 0x1ff) as usize;
        let i2 = ((virt_page >> 21) & 0x1ff) as usize;
        let i1 = ((virt_page >> 12) & 0x1ff) as usize;
        let ghost fa0 = *fa;

        let t3 = match self.descend(0, i4, fa, Ghost(virt_page), Ghost(0int)) {
            Ok(t) => t,
            Err(err) => {
                proof {
                    if old(fa).scan_bound_ok() && spec_free_frames(fa0) > 0 {
                        if err == MapError::FrameAllocationFailed {
                            crate::frame_allocator::lemma_free_count_positive_allocates(
                                fa0,
                                *fa,
                                None,
                            );
                        }
                    }
                }
                return Err(err);
            },
        };
        let ghost m1 = *self;
        let ghost fa1 = *fa;
        let t2 = match self.descend(t3, i3, fa, Ghost(virt_page), Ghost(1int)) {
            Ok(t) => t,
            Err(err) => {
                proof {
                    if old(fa).scan_bound_ok() && spec_free_frames(fa1) > 0 {
                        if err == MapError::FrameAllocationFailed {
                            crate::frame_allocator::lemma_free_count_positive_allocates(
                                fa1,
                                *fa,
                                None,
                            );
                        }
                    }
                    if err == MapError::FrameAllocationFailed {
                        assert(m1.spec_resolve(virt_page) is None);
                    }
                }
                return Err(err);
            },
        };
        let ghost m2 = *self;
        let ghost fa2 = *fa;
        let t1 = match self.descend(t2, i2, fa, Ghost(virt_page), Ghost(2int)) {
            Ok(t) => t,
            Err(err) => {
                proof {
                    if old(fa).scan_bound_ok() && spec_free_frames(fa2) > 0 {
                        if err == MapError::FrameAllocationFailed {
                            crate::frame_allocator::lemma_free_count_positive_allocates(
                                fa2,
                                *fa,
                                None,
                            );
                        }
                    }
                    if err == MapError::FrameAllocationFailed {
                        assert(m2.spec_resolve(virt_page) is None);
                    }
                }
                return Err(err);
            },
        };
        let ghost m3 = *self;
        match self.get_entry(t1, i1) {
            PageEntry::Frame(b, fl) => {
                proof {
                    assert(m3.spec_resolve(virt_page) == Some((b, fl, 1int)));
                    // had any walk step created a table, the walk would have
                    // ended in an empty table and found no mapping entry
                    assert(m2.entry(t2 as int, i2 as int) matches PageEntry::Table(x) && x
                        == t1 as int) by {
                        if m2.entry(t2 as int, i2 as int) is Unused {
                            assert(m3.entry(t1 as int, i1 as int) == PageEntry::Unused);
                        }
                    }
                    assert(m3 == m2);
                    assert(m1.entry(t3 as int, i3 as int) matches PageEntry::Table(x) && x
                        == t2 as int) by {
                        if m1.entry(t3 as int, i3 as int) is Unused {
                            assert(m2.entry(t2 as int, i2 as int) == PageEntry::Unused);
                        }
                    }
                    assert(m2 == m1 && fa2 == fa1);
                    assert(old(self).entry(0, i4 as int) matches PageEntry::Table(x) && x
                        == t3 as int) by {
                        if old(self).entry(0, i4 as int) is Unused {
                            assert(m1.entry(t3 as int, i3 as int) == PageEntry::Unused);
                        }
                    }
                    assert(m1 == *old(self) && fa1 == fa0);
                }
                Err(MapError::PageAlreadyMapped(b))
            },
            PageEntry::Table(_) => {
                // a last-level table never holds a table pointer
                proof {
                    assert(self.reach(virt_page, 3) == Some(t1 as int));
                    assert(self.entry(self.reach(virt_page, 3).unwrap(), i1 as int)
                        matches PageEntry::Table(x));
                    assert(false);
                }
                Err(MapError::ParentEntryHugePage)
            },
            PageEntry::Unused => {
                self.set_entry(t1, i1, PageEntry::Frame(frame, flags));
                proof {
                    self.lemma_after_leaf(m3, t1 as int, i1 as int, virt_page, frame, flags);
                    assert(m3.spec_resolve(virt_page) is None);
                }
                Ok(TlbFlush { page: virt_page })
            },
        }
    }
}

} // verus!
