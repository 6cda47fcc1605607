//! Per-process address spaces: a page table plus an ordered list of mapped
//! regions.
//!
//! The model keeps, for every region, its virtual range, its protection
//! flags and the bytes backing it; the page-table root is the physical
//! address loaded into CR3 when the owning process runs.  Regions never
//! overlap, and a virtual page translates exactly when some region covers
//! it.

use vstd::prelude::*;

use crate::elf;
use crate::elf::ProgramHeader;

verus! {

pub const KERNEL_START: u64 = 0x0;

pub const USER_START: u64 = 0x8000000;

/// 1 MiB of user stack.
pub const USER_STACK_SIZE: u64 = 1024 * 1024;

/// Exclusive upper bound on modelled virtual addresses: the user range plus
/// room for the user stack placed after the highest segment.
pub const VA_CEILING: u64 = 0x4000_0020_0000;

/// Page protection bits of a mapped region.
#[derive(Debug, Clone, Copy, PartialEq, Eq, Structural)]
pub struct PageTableFlags {
    pub present: bool,
    pub writable: bool,
    pub user_accessible: bool,
    pub no_execute: bool,
}

impl PageTableFlags {
    /// present + writable: the kernel-only mapping used for kernel stacks
    /// and the heap.
    pub fn kernel_rw() -> (r: Self)
        ensures
            r == (PageTableFlags {
                present: true,
                writable: true,
                user_accessible: false,
                no_execute: false,
            }),
    {
        PageTableFlags { present: true, writable: true, user_accessible: false, no_execute: false }
    }

    /// present + writable + user-accessible: the user stack mapping.
    pub fn user_rw() -> (r: Self)
        ensures
            r == (PageTableFlags {
                present: true,
                writable: true,
                user_accessible: true,
                no_execute: false,
            }),
    {
        PageTableFlags { present: true, writable: true, user_accessible: true, no_execute: false }
    }
}

/// Flags of a loadable ELF segment: always present and user-accessible,
/// writable when the segment is, no-execute when it is not executable.
pub open spec fn spec_segment_flags(ph: ProgramHeader) -> PageTableFlags {
    PageTableFlags {
        present: true,
        writable: ph.p_flags & elf::PF_W != 0,
        user_accessible: true,
        no_execute: ph.p_flags & elf::PF_X == 0,
    }
}

pub fn segment_flags(ph: &ProgramHeader) -> (r: PageTableFlags)
    ensures
        r == spec_segment_flags(*ph),
{
    PageTableFlags {
        present: true,
        writable: ph.p_flags & elf::PF_W != 0,
        user_accessible: true,
        no_execute: ph.p_flags & elf::PF_X == 0,
    }
}

/// A contiguous virtual region with one set of protection flags.  `bytes`
/// holds the contents of `[start_virt_addr, end_virt_addr)`; the pages the
/// region occupies run from the page holding the start address up to, and
/// not including, the first page wholly past the end address.  A guard page
/// placed after a page-aligned region therefore stays unmapped.
pub struct MapArea {
    pub start_virt_addr: u64,
    pub end_virt_addr: u64,
    pub flags: PageTableFlags,
    pub bytes: Vec<u8>,
}

impl MapArea {
    pub open spec fn wf(self) -> bool {
        &&& self.start_virt_addr < self.end_virt_addr
        &&& self.end_virt_addr < VA_CEILING
        &&& self.bytes@.len() == self.end_virt_addr - self.start_virt_addr
    }

    pub open spec fn start_page(self) -> u64 {
        self.start_virt_addr / 4096
    }

    /// First page past the region: the page ranges of regions are
    /// end-exclusive, so a page-aligned end leaves the next page free.
    pub open spec fn pages_end(self) -> u64 {
        ((self.end_virt_addr + 4095) / 4096) as u64
    }

    pub open spec fn contains_page(self, page: u64) -> bool {
        self.start_page() <= page < self.pages_end()
    }

    pub open spec fn overlaps(self, other: MapArea) -> bool {
        self.start_page() < other.pages_end() && other.start_page() < self.pages_end()
    }

    /// Whether this region's pages meet those of the range `[start, end)`.
    pub open spec fn overlaps_range(self, start: u64, end: u64) -> bool {
        self.start_page() < (end + 4095) / 4096 && start / 4096 < self.pages_end()
    }

    pub open spec fn contains_byte(self, va: u64) -> bool {
        self.start_virt_addr <= va < self.end_virt_addr
    }

    pub open spec fn byte_at(self, va: u64) -> u8 {
        self.bytes@[va - self.start_virt_addr]
    }

    /// The contents a fresh region gets: the given data, zero-filled to the
    /// region's length.
    pub open spec fn spec_fill(len: nat, data: Seq<u8>) -> Seq<u8> {
        Seq::new(len, |k: int| if k < data.len() { data[k] } else { 0u8 })
    }

    /// A fresh region over `[start, end)`; its pages are backed by newly
    /// allocated frames, so its contents start out as zeroes.
    pub fn new(start_virt_addr: u64, end_virt_addr: u64, flags: PageTableFlags) -> (r: Self)
        requires
            start_virt_addr < end_virt_addr,
            end_virt_addr < VA_CEILING,
            end_virt_addr - start_virt_addr <= usize::MAX,
        ensures
            r.wf(),
            r.start_virt_addr == start_virt_addr,
            r.end_virt_addr == end_virt_addr,
            r.flags == flags,
            r.bytes@ =~= Seq::new((end_virt_addr - start_virt_addr) as nat, |k: int| 0u8),
    {
        let len: usize = (end_virt_addr - start_virt_addr) as usize;
        let mut bytes: Vec<u8> = Vec::new();
        let mut k: usize = 0;
        while k < len
            invariant
                k <= len,
                bytes@.len() == k,
                forall|j: int| 0 <= j < k ==> bytes@[j] == 0u8,
            decreases len - k,
        {
            bytes.push(0);
            k = k + 1;
        }
        MapArea { start_virt_addr, end_virt_addr, flags, bytes }
    }

    /// A copy of another region's range and flags; the backing is fresh, so
    /// the contents are copied separately.
    pub fn from(other: &MapArea) -> (r: Self)
        requires
            other.wf(),
        ensures
            r.wf(),
            r.start_virt_addr == other.start_virt_addr,
            r.end_virt_addr == other.end_virt_addr,
            r.flags == other.flags,
            r.bytes@ =~= Seq::new(other.bytes@.len(), |k: int| 0u8),
    {
        let n = other.bytes.len();
        proof {
            assert(other.bytes@.len() == n);
        }
        MapArea::new(other.start_virt_addr, other.end_virt_addr, other.flags)
    }

    /// Copies `data` to the front of the region, as the loader does when it
    /// fills freshly mapped pages through the physical direct map.
    pub fn copy_data(&mut self, data: &Vec<u8>)
        requires
            old(self).wf(),
            data@.len() <= old(self).bytes@.len(),
        ensures
            final(self).wf(),
            final(self).start_virt_addr == old(self).start_virt_addr,
            final(self).end_virt_addr == old(self).end_virt_addr,
            final(self).flags == old(self).flags,
            final(self).bytes@ =~= data@ + old(self).bytes@.skip(data@.len() as int),
    {
        let mut k: usize = 0;
        let len = data.len();
        while k < len
            invariant
                k <= len,
                len == data@.len() <= self.bytes@.len(),
                self.bytes@.len() == old(self).bytes@.len(),
                self.start_virt_addr == old(self).start_virt_addr,
                self.end_virt_addr == old(self).end_virt_addr,
                self.flags == old(self).flags,
                forall|j: int| 0 <= j < k ==> self.bytes@[j] == data@[j],
                forall|j: int| k <= j < self.bytes@.len() ==> self.bytes@[j] == old(self).bytes@[j],
            decreases len - k,
        {
            let b = data[k];
            self.bytes.set(k, b);
            k = k + 1;
        }
    }
}

/// The region a loadable segment maps to: its virtual range, the flags
/// derived from the segment's permission bits, and the segment's file bytes
/// zero-extended over its memory size.
pub open spec fn area_matches_segment(a: MapArea, ph: ProgramHeader, b: Seq<u8>) -> bool {
    &&& a.start_virt_addr == ph.vaddr
    &&& a.end_virt_addr == ph.vaddr + ph.mem_size
    &&& a.flags == spec_segment_flags(ph)
    &&& a.bytes@ =~= MapArea::spec_fill(
        ph.mem_size as nat,
        b.subrange(ph.offset as int, ph.offset + ph.file_size),
    )
}

/// Bottom of the user stack: one unmapped guard page past the highest page
/// any loadable segment reaches.
pub open spec fn spec_user_stack_bottom(b: Seq<u8>) -> u64 {
    ((elf::spec_max_pages_end(b, elf::spec_ph_count(b) as int) + 1) * 4096) as u64
}

pub open spec fn spec_user_stack_top(b: Seq<u8>) -> u64 {
    (spec_user_stack_bottom(b) + USER_STACK_SIZE) as u64
}

/// The areas `from_elf` builds: one region per loadable segment, in table
/// order, then the user stack one page past the highest segment page.
pub open spec fn spec_is_elf_layout(ms: MemorySet, b: Seq<u8>) -> bool {
    let segs = elf::spec_load_segments(b, elf::spec_ph_count(b) as int);
    &&& ms.areas@.len() == segs.len() + 1
    &&& forall|k: int|
        0 <= k < segs.len() ==> area_matches_segment(#[trigger] ms.areas@[k], segs[k], b)
    &&& ms.areas@.last().start_virt_addr == spec_user_stack_bottom(b)
    &&& ms.areas@.last().end_virt_addr == spec_user_stack_top(b)
    &&& ms.areas@.last().flags == (PageTableFlags {
        present: true,
        writable: true,
        user_accessible: true,
        no_execute: false,
    })
    &&& ms.areas@.last().bytes@ == MapArea::spec_fill(USER_STACK_SIZE as nat, Seq::empty())
}

/// `child` rebuilds every region of `parent`: same ranges, same flags, and
/// byte-for-byte the same contents, on backing of its own.
pub open spec fn spec_clones_areas(child: Seq<MapArea>, parent: Seq<MapArea>) -> bool {
    &&& child.len() == parent.len()
    &&& forall|i: int|
        0 <= i < parent.len() ==> {
            &&& (#[trigger] child[i]).start_virt_addr == parent[i].start_virt_addr
            &&& child[i].end_virt_addr == parent[i].end_virt_addr
            &&& child[i].flags == parent[i].flags
            &&& child[i].bytes@ == parent[i].bytes@
        }
}

/// An address space: the page-table root the dispatcher loads into CR3 and
/// the ordered list of mapped regions.
pub struct MemorySet {
    pub page_table_root: u64,
    pub areas: Vec<MapArea>,
}

impl MemorySet {
    pub open spec fn wf(self) -> bool {
        &&& forall|i: int| 0 <= i < self.areas@.len() ==> (#[trigger] self.areas@[i]).wf()
        &&& forall|i: int, j: int|
            0 <= i < j < self.areas@.len() ==> !self.areas@[i].overlaps(self.areas@[j])
    }

    /// Some region covers the page of `va`.
    pub open spec fn is_mapped(self, va: u64) -> bool {
        exists|i: int| 0 <= i < self.areas@.len() && (#[trigger] self.areas@[i]).contains_page(va / 4096)
    }

    /// Index of the region covering the page of `va`.
    pub open spec fn area_index_of(self, va: u64) -> int {
        choose|i: int| 0 <= i < self.areas@.len() && (#[trigger] self.areas@[i]).contains_page(va / 4096)
    }

    /// Flags under which `va` translates, if it does: the page-table entry
    /// the covering region wrote.
    pub open spec fn translate(self, va: u64) -> Option<PageTableFlags> {
        if self.is_mapped(va) {
            Some(self.areas@[self.area_index_of(va)].flags)
        } else {
            None
        }
    }

    /// Some region holds the byte at `va`.
    pub open spec fn has_byte(self, va: u64) -> bool {
        exists|i: int| 0 <= i < self.areas@.len() && (#[trigger] self.areas@[i]).contains_byte(va)
    }

    pub open spec fn byte_index_of(self, va: u64) -> int {
        choose|i: int| 0 <= i < self.areas@.len() && (#[trigger] self.areas@[i]).contains_byte(va)
    }

    /// The byte the address space holds at `va`.
    pub open spec fn byte_at(self, va: u64) -> u8 {
        self.areas@[self.byte_index_of(va)].byte_at(va)
    }

    /// A fresh address space over the given level-4 table; the kernel half
    /// of that table is shared and never appears in `areas`.
    pub fn new(page_table_root: u64) -> (r: Self)
        ensures
            r.wf(),
            r.page_table_root == page_table_root,
            r.areas@.len() == 0,
    {
        MemorySet { page_table_root, areas: Vec::new() }
    }

    /// Physical address of this set's level-4 table, the value the
    /// dispatcher writes into CR3.
    pub fn page_table_address(&self) -> (r: u64)
        ensures
            r == self.page_table_root,
    {
        self.page_table_root
    }

    /// Maps `[start, end)` with `flags`, backing it with fresh frames, and
    /// copies `data` (if given) to its front.
    pub fn insert(
        &mut self,
        start_virt_addr: u64,
        end_virt_addr: u64,
        flags: PageTableFlags,
        data: Option<&Vec<u8>>,
    )
        requires
            old(self).wf(),
            start_virt_addr < end_virt_addr,
            end_virt_addr < VA_CEILING,
            end_virt_addr - start_virt_addr <= usize::MAX,
            data is Some ==> data.unwrap()@.len() <= end_virt_addr - start_virt_addr,
            forall|i: int|
                0 <= i < old(self).areas@.len() ==> !(#[trigger] old(self).areas@[i]).overlaps_range(
                    start_virt_addr,
                    end_virt_addr,
                ),
        ensures
            final(self).wf(),
            final(self).page_table_root == old(self).page_table_root,
            final(self).areas@.len() == old(self).areas@.len() + 1,
            forall|i: int|
                0 <= i < old(self).areas@.len() ==> final(self).areas@[i] == old(self).areas@[i],
            final(self).areas@.last().start_virt_addr == start_virt_addr,
            final(self).areas@.last().end_virt_addr == end_virt_addr,
            final(self).areas@.last().flags == flags,
            final(self).areas@.last().bytes@ =~= MapArea::spec_fill(
                (end_virt_addr - start_virt_addr) as nat,
                if data is Some {
                    data.unwrap()@
                } else {
                    Seq::empty()
                },
            ),
    {
        let mut map_area = MapArea::new(start_virt_addr, end_virt_addr, flags);
        if let Some(data) = data {
            map_area.copy_data(data);
        }
        self.areas.push(map_area);
    }

    /// Unmaps every region, in reverse insertion order, and clears the
    /// list; nothing translates afterwards.
    pub fn remove_all_areas(&mut self)
        requires
            old(self).wf(),
        ensures
            final(self).wf(),
            final(self).page_table_root == old(self).page_table_root,
            final(self).areas@.len() == 0,
            forall|va: u64| final(self).translate(va) is None,
    {
        self.areas.clear();
    }

    /// First region whose first page starts at `start_addr`.
    pub open spec fn spec_area_with_start(self, start_addr: u64) -> Option<int> {
        if exists|i: int|
            0 <= i < self.areas@.len() && (#[trigger] self.areas@[i]).start_page() * 4096
                == start_addr {
            Some(
                choose|i: int|
                    0 <= i < self.areas@.len() && (#[trigger] self.areas@[i]).start_page() * 4096
                        == start_addr,
            )
        } else {
            None
        }
    }

    /// Two regions cannot hold the same byte: byte containment implies page
    /// containment, and pages never overlap.
    pub proof fn lemma_byte_area_unique(self, va: u64, i: int, j: int)
        requires
            self.wf(),
            0 <= i < self.areas@.len(),
            0 <= j < self.areas@.len(),
            self.areas@[i].contains_byte(va),
            self.areas@[j].contains_byte(va),
        ensures
            i == j,
    {
        if i != j {
            assert(self.areas@[i].contains_page(va / 4096));
            assert(self.areas@[j].contains_page(va / 4096));
            if i < j {
                assert(self.areas@[i].overlaps(self.areas@[j]));
            } else {
                assert(self.areas@[j].overlaps(self.areas@[i]));
            }
        }
    }

    /// Whole range `[va, va + len)` of bytes lies inside one region.
    pub open spec fn can_access_bytes(self, va: u64, len: u64) -> bool {
        exists|i: int|
            0 <= i < self.areas@.len() && ((#[trigger] self.areas@[i]).start_virt_addr <= va && va
                + len <= self.areas@[i].end_virt_addr)
    }

    /// Index of the region that holds `[va, va + len)`.
    pub open spec fn access_index_of(self, va: u64, len: u64) -> int {
        choose|i: int|
            0 <= i < self.areas@.len() && ((#[trigger] self.areas@[i]).start_virt_addr <= va && va
                + len <= self.areas@[i].end_virt_addr)
    }

    fn find_access_area(&self, va: u64, len: u64) -> (r: Option<usize>)
        requires
            self.wf(),
        ensures
            r is Some <==> self.can_access_bytes(va, len),
            r is Some ==> 0 <= r.unwrap() < self.areas@.len()
                && self.areas@[r.unwrap() as int].start_virt_addr <= va && va + len
                <= self.areas@[r.unwrap() as int].end_virt_addr,
    {
        let n = self.areas.len();
        let mut i: usize = 0;
        while i < n
            invariant
                self.wf(),
                n == self.areas@.len(),
                i <= n,
                forall|j: int|
                    0 <= j < i ==> !((#[trigger] self.areas@[j]).start_virt_addr <= va && va + len
                        <= self.areas@[j].end_virt_addr),
            decreases n - i,
        {
            let a = &self.areas[i];
            if a.start_virt_addr <= va && len <= a.end_virt_addr - a.start_virt_addr && va - a.start_virt_addr
                <= (a.end_virt_addr - a.start_virt_addr) - len {
                return Some(i);
            }
            i = i + 1;
        }
        None
    }

    /// Reads `len` bytes at `va`, if one mapped region holds them all; the
    /// kernel dereferences user buffers this way.
    pub fn read_bytes(&self, va: u64, len: u64) -> (r: Option<Vec<u8>>)
        requires
            self.wf(),
        ensures
            r is Some <==> self.can_access_bytes(va, len),
            r is Some ==> r.unwrap()@.len() == len,
            r is Some ==> forall|k: int|
                0 <= k < len ==> r.unwrap()@[k] == self.byte_at((va + k) as u64)
                    && self.has_byte((va + k) as u64),
    {
        let found = self.find_access_area(va, len);
        match found {
            None => None,
            Some(i) => {
                let a = &self.areas[i];
                let off = va - a.start_virt_addr;
                let r = elf::copy_range(&a.bytes, off, len);
                proof {
                    assert forall|k: int| 0 <= k < len implies r@[k] == self.byte_at((va + k) as u64)
                        && self.has_byte((va + k) as u64) by {
                        let w: u64 = (va + k) as u64;
                        assert(self.areas@[i as int].contains_byte(w));
                        assert(self.has_byte(w));
                        let j = self.byte_index_of(w);
                        assert(self.areas@[j].contains_byte(w));
                        self.lemma_byte_area_unique(w, i as int, j);
                        assert(r@[k] == a.bytes@[off + k]);
                    }
                }
                Some(r)
            },
        }
    }

    /// Reads the byte at `va`, if a region holds that address.
    pub fn read_byte(&self, va: u64) -> (r: Option<u8>)
        requires
            self.wf(),
        ensures
            r is Some <==> self.has_byte(va),
            r is Some ==> r == Some(self.byte_at(va)),
    {
        let found = self.find_access_area(va, 1);
        match found {
            None => {
                proof {
                    if self.has_byte(va) {
                        let i = self.byte_index_of(va);
                        assert(self.areas@[i].contains_byte(va));
                        assert(self.can_access_bytes(va, 1));
                    }
                }
                None
            },
            Some(i) => {
                let a = &self.areas[i];
                let blen = a.bytes.len();
                proof {
                    assert(self.areas@[i as int].wf());
                    assert(a.bytes@.len() == blen);
                    assert(self.areas@[i as int].contains_byte(va));
                    let j = self.byte_index_of(va);
                    assert(self.areas@[j].contains_byte(va));
                    self.lemma_byte_area_unique(va, i as int, j);
                }
                let off: usize = (va - a.start_virt_addr) as usize;
                Some(a.bytes[off])
            },
        }
    }

    /// Writes the eight little-endian bytes of `value` at `va`, if one
    /// region holds them all; the kernel writes a reaped child's exit code
    /// through the caller's pointer this way.
    pub fn write_u64_le(&mut self, va: u64, value: u64) -> (ok: bool)
        requires
            old(self).wf(),
        ensures
            final(self).wf(),
            final(self).page_table_root == old(self).page_table_root,
            ok == old(self).can_access_bytes(va, 8),
            !ok ==> *final(self) == *old(self),
            final(self).areas@.len() == old(self).areas@.len(),
            forall|j: int|
                0 <= j < old(self).areas@.len() ==> {
                    &&& (#[trigger] final(self).areas@[j]).start_virt_addr
                        == old(self).areas@[j].start_virt_addr
                    &&& final(self).areas@[j].end_virt_addr == old(self).areas@[j].end_virt_addr
                    &&& final(self).areas@[j].flags == old(self).areas@[j].flags
                },
            ok ==> forall|b: int|
                0 <= b < 8 ==> final(self).byte_at((va + b) as u64) == crate::elf::u64_le_byte(
                    value,
                    b,
                ),
            forall|w: u64|
                !(va <= w < va + 8) && old(self).has_byte(w) ==> final(self).byte_at(w) == old(
                    self,
                ).byte_at(w),
            forall|w: u64| old(self).has_byte(w) ==> final(self).has_byte(w),
    {
        let found = self.find_access_area(va, 8);
        match found {
            None => {
                proof {
                    if old(self).can_access_bytes(va, 8) {
                        let i = old(self).access_index_of(va, 8);
                        assert(old(self).areas@[i].start_virt_addr <= va && va + 8 <= old(
                            self,
                        ).areas@[i].end_virt_addr);
                    }
                }
                false
            },
            Some(i) => {
                let ghost pre = *self;
                let mut b: u64 = 0;
                while b < 8
                    invariant
                        pre.wf(),
                        self.wf(),
                        b <= 8,
                        0 <= i < pre.areas@.len(),
                        pre.areas@[i as int].start_virt_addr <= va,
                        va + 8 <= pre.areas@[i as int].end_virt_addr,
                        self.page_table_root == pre.page_table_root,
                        self.areas@.len() == pre.areas@.len(),
                        forall|j: int|
                            0 <= j < pre.areas@.len() ==> {
                                &&& (#[trigger] self.areas@[j]).start_virt_addr
                                    == pre.areas@[j].start_virt_addr
                                &&& self.areas@[j].end_virt_addr == pre.areas@[j].end_virt_addr
                                &&& self.areas@[j].flags == pre.areas@[j].flags
                            },
                        forall|w: u64| pre.has_byte(w) ==> self.has_byte(w),
                        forall|bb: int|
                            0 <= bb < b ==> self.byte_at((va + bb) as u64)
                                == crate::elf::u64_le_byte(value, bb),
                        forall|w: u64|
                            !(va <= w < va + 8) && pre.has_byte(w) ==> self.byte_at(w)
                                == pre.byte_at(w),
                    decreases 8 - b,
                {
                    proof {
                        assert(self.areas@[i as int].contains_byte((va + b) as u64));
                        assert(self.can_access_bytes((va + b) as u64, 1)) by {
                            assert(self.areas@[i as int].start_virt_addr <= (va + b) as u64);
                            assert((va + b) as u64 + 1 <= self.areas@[i as int].end_virt_addr);
                        }
                    }
                    let byte = elf::byte_of_u64(value, b);
                    let ok1 = self.write_byte(va + b, byte);
                    proof {
                        assert(ok1);
                        assert forall|bb: int|
                            0 <= bb < b + 1 implies self.byte_at((va + bb) as u64)
                            == crate::elf::u64_le_byte(value, bb) by {
                            if bb < b {
                                assert((va + bb) as u64 != (va + b) as u64);
                            }
                        }
                    }
                    b = b + 1;
                }
                true
            },
        }
    }

    /// Writes one byte at `va`, if a region holds that address; reports
    /// whether it did.  Only that one byte of this address space changes.
    pub fn write_byte(&mut self, va: u64, value: u8) -> (ok: bool)
        requires
            old(self).wf(),
        ensures
            final(self).wf(),
            final(self).page_table_root == old(self).page_table_root,
            ok == old(self).can_access_bytes(va, 1),
            !ok ==> *final(self) == *old(self),
            final(self).areas@.len() == old(self).areas@.len(),
            forall|j: int|
                0 <= j < old(self).areas@.len() ==> {
                    &&& (#[trigger] final(self).areas@[j]).start_virt_addr
                        == old(self).areas@[j].start_virt_addr
                    &&& final(self).areas@[j].end_virt_addr == old(self).areas@[j].end_virt_addr
                    &&& final(self).areas@[j].flags == old(self).areas@[j].flags
                },
            ok ==> final(self).byte_at(va) == value,
            forall|w: u64|
                w != va && old(self).has_byte(w) ==> final(self).byte_at(w) == old(self).byte_at(w),
            forall|w: u64| #[trigger] final(self).has_byte(w) == old(self).has_byte(w),
    {
        let found = self.find_access_area(va, 1);
        match found {
            None => {
                proof {
                    if old(self).can_access_bytes(va, 1) {
                        let i = old(self).access_index_of(va, 1);
                        assert(old(self).areas@[i].start_virt_addr <= va && va + 1 <= old(
                            self,
                        ).areas@[i].end_virt_addr);
                    }
                }
                false
            },
            Some(i) => {
                let ghost pre = *self;
                let off_u64 = va - self.areas[i].start_virt_addr;
                let blen = self.areas[i].bytes.len();
                proof {
                    assert(pre.areas@[i as int].wf());
                    assert(pre.areas@[i as int].bytes@.len() == blen);
                }
                let off: usize = off_u64 as usize;
                let area = &mut self.areas[i];
                area.bytes.set(off, value);
                proof {
                    assert(self.areas@ =~= pre.areas@.update(
                        i as int,
                        MapArea {
                            bytes: self.areas@[i as int].bytes,
                            ..pre.areas@[i as int]
                        },
                    ));
                    assert(self.areas@[i as int].bytes@ =~= pre.areas@[i as int].bytes@.update(
                        off as int,
                        value,
                    ));
                    assert(self.areas@[i as int].wf());
                    assert forall|a: int, b: int|
                        0 <= a < b < self.areas@.len() implies !self.areas@[a].overlaps(
                        self.areas@[b],
                    ) by {
                        assert(!pre.areas@[a].overlaps(pre.areas@[b]));
                    }
                    assert(self.wf());
                    assert(self.areas@[i as int].contains_byte(va));
                    let j = self.byte_index_of(va);
                    assert(self.areas@[j].contains_byte(va));
                    self.lemma_byte_area_unique(va, i as int, j);
                    assert(self.byte_at(va) == value);
                    assert forall|w: u64| w != va && pre.has_byte(w) implies self.byte_at(w)
                        == pre.byte_at(w) by {
                        let jw = pre.byte_index_of(w);
                        assert(pre.areas@[jw].contains_byte(w));
                        assert(self.areas@[jw].contains_byte(w));
                        assert(self.has_byte(w));
                        let jw2 = self.byte_index_of(w);
                        assert(self.areas@[jw2].contains_byte(w));
                        assert(pre.areas@[jw2].contains_byte(w));
                        pre.lemma_byte_area_unique(w, jw, jw2);
                        if jw == i {
                            assert(self.byte_at(w) == pre.byte_at(w));
                        } else {
                            assert(self.areas@[jw] == pre.areas@[jw]);
                        }
                    }
                    assert forall|w: u64| #[trigger] self.has_byte(w) == pre.has_byte(w) by {
                        if pre.has_byte(w) {
                            let jw = pre.byte_index_of(w);
                            assert(pre.areas@[jw].contains_byte(w));
                            assert(self.areas@[jw].contains_byte(w));
                        }
                        if self.has_byte(w) {
                            let jw = self.byte_index_of(w);
                            assert(self.areas@[jw].contains_byte(w));
                            assert(pre.areas@[jw].contains_byte(w));
                        }
                    }
                }
                true
            },
        }
    }

    /// Unmaps the region whose first page starts at `start_addr` and drops
    /// it from the list; without such a region nothing changes.
    pub fn remove_area_with_start_addr(&mut self, start_addr: u64)
        requires
            old(self).wf(),
        ensures
            final(self).wf(),
            final(self).page_table_root == old(self).page_table_root,
            match old(self).spec_area_with_start(start_addr) {
                Some(i) => final(self).areas@ =~= old(self).areas@.remove(i),
                None => final(self).areas@ =~= old(self).areas@,
            },
    {
        let n = self.areas.len();
        let mut i: usize = 0;
        while i < n
            invariant
                n == self.areas@.len(),
                i <= n,
                *self == *old(self),
                old(self).wf(),
                forall|j: int|
                    0 <= j < i ==> (#[trigger] self.areas@[j]).start_page() * 4096 != start_addr,
            decreases n - i,
        {
            let page_start = (self.areas[i].start_virt_addr / 4096) * 4096;
            if page_start == start_addr {
                proof {
                    assert(self.wf());
                    let w = self.spec_area_with_start(start_addr);
                    assert(w is Some);
                    let k = w.unwrap();
                    assert(self.areas@[k].start_page() * 4096 == start_addr);
                    assert(k == i) by {
                        if k < i {
                            assert(self.areas@[k].start_page() * 4096 != start_addr);
                        }
                        if k > i {
                            // uniqueness: two areas cannot share a start page
                            assert(self.areas@[i as int].wf());
                            assert(self.areas@[k].wf());
                            assert(self.areas@[i as int].start_page() == self.areas@[k].start_page());
                            assert(self.areas@[i as int].contains_page(
                                self.areas@[i as int].start_page(),
                            ));
                            assert(self.areas@[k].contains_page(self.areas@[k].start_page()));
                            assert(self.areas@[i as int].overlaps(self.areas@[k]));
                        }
                    }
                }
                self.areas.remove(i);
                proof {
                    assert forall|a: int, b: int|
                        0 <= a < b < self.areas@.len() implies !self.areas@[a].overlaps(
                        self.areas@[b],
                    ) by {
                        let oa = if a < i {
                            a
                        } else {
                            a + 1
                        };
                        let ob = if b < i {
                            b
                        } else {
                            b + 1
                        };
                        assert(!old(self).areas@[oa].overlaps(old(self).areas@[ob]));
                    }
                }
                return ;
            }
            i = i + 1;
        }
        proof {
            if old(self).spec_area_with_start(start_addr) is Some {
                let k = old(self).spec_area_with_start(start_addr).unwrap();
                assert(old(self).areas@[k].start_page() * 4096 != start_addr);
            }
        }
    }
}

impl MemorySet {
    /// Clone for `fork`: every region of `user_space` is rebuilt with the
    /// same range and flags, backed by fresh frames, and its contents are
    /// byte-copied.  The copy shares no backing with the source, so later
    /// writes to either space leave the other's bytes unchanged.
    pub fn from(user_space: &MemorySet, page_table_root: u64) -> (r: Self)
        requires
            user_space.wf(),
        ensures
            r.wf(),
            r.page_table_root == page_table_root,
            spec_clones_areas(r.areas@, user_space.areas@),
    {
        let mut memory_set = MemorySet::new(page_table_root);
        let n = user_space.areas.len();
        let mut i: usize = 0;
        while i < n
            invariant
                user_space.wf(),
                n == user_space.areas@.len(),
                i <= n,
                memory_set.wf(),
                memory_set.page_table_root == page_table_root,
                memory_set.areas@.len() == i,
                forall|k: int|
                    0 <= k < i ==> {
                        &&& (#[trigger] memory_set.areas@[k]).start_virt_addr
                            == user_space.areas@[k].start_virt_addr
                        &&& memory_set.areas@[k].end_virt_addr
                            == user_space.areas@[k].end_virt_addr
                        &&& memory_set.areas@[k].flags == user_space.areas@[k].flags
                        &&& memory_set.areas@[k].bytes@ =~= user_space.areas@[k].bytes@
                    },
            decreases n - i,
        {
            let area = &user_space.areas[i];
            let blen = area.bytes.len();
            proof {
                assert(user_space.areas@[i as int].wf());
                assert(area.bytes@.len() == blen);
                assert forall|k: int| 0 <= k < i implies !(
                #[trigger] memory_set.areas@[k]).overlaps_range(
                    area.start_virt_addr,
                    area.end_virt_addr,
                ) by {
                    assert(!user_space.areas@[k].overlaps(user_space.areas@[i as int]));
                }
            }
            memory_set.insert(area.start_virt_addr, area.end_virt_addr, area.flags, Some(&area.bytes));
            proof {
                assert(memory_set.areas@[i as int].bytes@ =~= user_space.areas@[i as int].bytes@);
            }
            i = i + 1;
        }
        proof {
            assert forall|k: int| 0 <= k < user_space.areas@.len() implies (
            #[trigger] memory_set.areas@[k]).bytes@ == user_space.areas@[k].bytes@ by {
                assert(memory_set.areas@[k].bytes@ =~= user_space.areas@[k].bytes@);
            }
        }
        memory_set
    }

    /// Builds an address space from an ELF image: one region per loadable
    /// segment with the segment's file bytes copied in, then the 1 MiB user
    /// stack one page past the highest segment page.  Returns the set, the
    /// user stack top and the image's entry point.
    pub fn from_elf(elf_data: &Vec<u8>, page_table_root: u64) -> (r: (Self, u64, u64))
        requires
            elf::valid_elf(elf_data@),
        ensures
            r.0.wf(),
            r.0.page_table_root == page_table_root,
            spec_is_elf_layout(r.0, elf_data@),
            // one unmapped guard page lies below the user stack
            !r.0.is_mapped((spec_user_stack_bottom(elf_data@) - 1) as u64),
            r.1 == spec_user_stack_top(elf_data@),
            r.2 == elf::spec_entry_point(elf_data@),
    {
        let ghost b = elf_data@;
        let mut memory_set = MemorySet::new(page_table_root);
        let ph_count = elf::read_u16_le(elf_data, 56);
        let mut max_pages_end: u64 = 0;
        let mut i: usize = 0;
        while i < ph_count as usize
            invariant
                elf::valid_elf(b),
                b == elf_data@,
                ph_count == elf::spec_ph_count(b),
                i <= ph_count,
                memory_set.wf(),
                memory_set.page_table_root == page_table_root,
                max_pages_end == elf::spec_max_pages_end(b, i as int),
                memory_set.areas@.len() == elf::spec_load_segments(b, i as int).len(),
                forall|k: int|
                    0 <= k < memory_set.areas@.len() ==> area_matches_segment(
                        #[trigger] memory_set.areas@[k],
                        elf::spec_load_segments(b, i as int)[k],
                        b,
                    ),
                forall|k: int|
                    0 <= k < memory_set.areas@.len() ==> segment_in_table(
                        b,
                        elf::spec_load_segments(b, i as int)[k],
                        i as int,
                    ),
            decreases ph_count - i,
        {
            let ph = elf::read_program_header(elf_data, i);
            proof {
                assert(elf::spec_load_segments(b, i as int + 1) == elf::spec_load_segments(
                    b,
                    i as int,
                ) + if elf::is_load(b, i as int) {
                    seq![elf::spec_program_header(b, i as int)]
                } else {
                    Seq::<ProgramHeader>::empty()
                });
            }
            if ph.p_type == elf::PT_LOAD {
                proof {
                    assert(elf::is_load(b, i as int));
                    assert(elf::load_segment_wf(b, i as int));
                    assert forall|k: int| 0 <= k < memory_set.areas@.len() implies !(
                    #[trigger] memory_set.areas@[k]).overlaps_range(
                        ph.vaddr,
                        (ph.vaddr + ph.mem_size) as u64,
                    ) by {
                        let seg = elf::spec_load_segments(b, i as int)[k];
                        assert(segment_in_table(b, seg, i as int));
                        let j = choose|j: int|
                            0 <= j < i && elf::is_load(b, j) && seg
                                == elf::spec_program_header(b, j);
                        assert(elf::load_segments_disjoint(b, j, i as int));
                        assert(elf::load_segment_wf(b, j));
                    }
                }
                let flags = segment_flags(&ph);
                let data = elf::copy_range(elf_data, ph.offset, ph.file_size);
                memory_set.insert(ph.vaddr, ph.vaddr + ph.mem_size, flags, Some(&data));
                let pages_end = (ph.vaddr + ph.mem_size + 4095) / 4096;
                if pages_end > max_pages_end {
                    max_pages_end = pages_end;
                }
                proof {
                    let segs = elf::spec_load_segments(b, i as int + 1);
                    assert(memory_set.areas@.len() == segs.len());
                    assert(area_matches_segment(
                        memory_set.areas@.last(),
                        segs[segs.len() - 1],
                        b,
                    ));
                    assert forall|k: int| 0 <= k < memory_set.areas@.len() implies segment_in_table(
                        b,
                        segs[k],
                        i as int + 1,
                    ) by {
                        if k < segs.len() - 1 {
                            assert(segment_in_table(b, segs[k], i as int));
                            let j = choose|j: int|
                                0 <= j < i && elf::is_load(b, j) && segs[k]
                                    == elf::spec_program_header(b, j);
                            assert(0 <= j < i + 1 && elf::is_load(b, j) && segs[k]
                                == elf::spec_program_header(b, j));
                        } else {
                            let j = i as int;
                            assert(0 <= j < i + 1 && elf::is_load(b, j) && segs[k]
                                == elf::spec_program_header(b, j));
                        }
                    }
                }
            }
            i = i + 1;
        }
        proof {
            elf::lemma_max_pages_end_limit(b, ph_count as int);
            assert forall|k: int| 0 <= k < memory_set.areas@.len() implies (
            #[trigger] memory_set.areas@[k]).pages_end() <= max_pages_end by {
                let seg = elf::spec_load_segments(b, i as int)[k];
                assert(segment_in_table(b, seg, i as int));
                let j = choose|j: int|
                    0 <= j < i && elf::is_load(b, j) && seg == elf::spec_program_header(b, j);
                elf::lemma_max_pages_end_bounds(b, j, i as int);
            }
        }
        let user_stack_bottom = (max_pages_end + 1) * 4096;
        let user_stack_top = user_stack_bottom + USER_STACK_SIZE;
        proof {
            assert(user_stack_bottom / 4096 == max_pages_end + 1);
            assert forall|k: int| 0 <= k < memory_set.areas@.len() implies !(
            #[trigger] memory_set.areas@[k]).overlaps_range(user_stack_bottom, user_stack_top) by {
                assert(memory_set.areas@[k].pages_end() <= max_pages_end);
            }
        }
        memory_set.insert(user_stack_bottom, user_stack_top, PageTableFlags::user_rw(), None);
        let entry = elf::read_u64_le(elf_data, 24);
        proof {
            assert(memory_set.areas@.last().bytes@ =~= MapArea::spec_fill(
                USER_STACK_SIZE as nat,
                Seq::empty(),
            ));
            assert(spec_is_elf_layout(memory_set, b));
            let guard_page = (user_stack_bottom - 1) as u64 / 4096;
            assert(guard_page == max_pages_end);
            assert(!memory_set.is_mapped((user_stack_bottom - 1) as u64)) by {
                if memory_set.is_mapped((user_stack_bottom - 1) as u64) {
                    let i = memory_set.area_index_of((user_stack_bottom - 1) as u64);
                    assert(memory_set.areas@[i].contains_page(guard_page));
                    if i < memory_set.areas@.len() - 1 {
                        assert(memory_set.areas@[i].pages_end() <= max_pages_end);
                    } else {
                        assert(memory_set.areas@[i].start_page() == max_pages_end + 1);
                    }
                }
            }
        }
        (memory_set, user_stack_top, entry)
    }
}

impl MemorySet {
    /// Two regions cannot cover the same page: pages never overlap.
    pub proof fn lemma_page_area_unique(self, page: u64, i: int, j: int)
        requires
            self.wf(),
            0 <= i < self.areas@.len(),
            0 <= j < self.areas@.len(),
            self.areas@[i].contains_page(page),
            self.areas@[j].contains_page(page),
        ensures
            i == j,
    {
        if i < j {
            assert(self.areas@[i].overlaps(self.areas@[j]));
        }
        if j < i {
            assert(self.areas@[j].overlaps(self.areas@[i]));
        }
    }
}

/// Address-space cloning: for every virtual address, the clone translates
/// exactly when the source does, under the same flags, and holds the same
/// byte.  The clone's regions stand on backing of their own, so writes to
/// either space afterwards leave the other's bytes unchanged.
pub proof fn lemma_address_space_cloning(parent: MemorySet, child: MemorySet, va: u64)
    requires
        parent.wf(),
        child.wf(),
        spec_clones_areas(child.areas@, parent.areas@),
    ensures
        child.translate(va) == parent.translate(va),
        child.has_byte(va) == parent.has_byte(va),
        parent.has_byte(va) ==> child.byte_at(va) == parent.byte_at(va),
{
    let page = va / 4096;
    assert forall|i: int| 0 <= i < parent.areas@.len() implies {
        &&& child.areas@[i].contains_page(page) == parent.areas@[i].contains_page(page)
        &&& child.areas@[i].contains_byte(va) == parent.areas@[i].contains_byte(va)
    } by {
        assert(child.areas@[i].start_virt_addr == parent.areas@[i].start_virt_addr);
    }
    if parent.is_mapped(va) {
        let ip = parent.area_index_of(va);
        assert(child.areas@[ip].contains_page(page));
        assert(child.is_mapped(va));
        let ic = child.area_index_of(va);
        assert(parent.areas@[ic].contains_page(page));
        parent.lemma_page_area_unique(page, ip, ic);
    } else {
        if child.is_mapped(va) {
            let ic = child.area_index_of(va);
            assert(parent.areas@[ic].contains_page(page));
        }
    }
    if parent.has_byte(va) {
        let ip = parent.byte_index_of(va);
        assert(child.areas@[ip].contains_byte(va));
        assert(child.has_byte(va));
        let ic = child.byte_index_of(va);
        assert(parent.areas@[ic].contains_byte(va));
        parent.lemma_byte_area_unique(va, ip, ic);
        assert(child.byte_at(va) == parent.byte_at(va));
    } else {
        if child.has_byte(va) {
            let ic = child.byte_index_of(va);
            assert(parent.areas@[ic].contains_byte(va));
        }
    }
}

/// After a program replacement, nothing of the previous address space
/// remains: every page that still translates belongs to the new image, a
/// loadable segment of it or its fresh user stack.
pub proof fn lemma_exec_replaces_completely(ms: MemorySet, b: Seq<u8>, va: u64)
    requires
        ms.wf(),
        spec_is_elf_layout(ms, b),
        ms.is_mapped(va),
    ensures
        ({
            let segs = elf::spec_load_segments(b, elf::spec_ph_count(b) as int);
            let page = va / 4096;
            (exists|k: int|
                0 <= k < segs.len() && elf::ph_start_page(#[trigger] segs[k]) <= page
                    < elf::ph_pages_end(segs[k])) || (spec_user_stack_bottom(b) / 4096 <= page
                < (spec_user_stack_top(b) + 4095) / 4096)
        }),
{
    let segs = elf::spec_load_segments(b, elf::spec_ph_count(b) as int);
    let page = va / 4096;
    let i = ms.area_index_of(va);
    assert(ms.areas@[i].contains_page(page));
    if i < segs.len() {
        assert(area_matches_segment(ms.areas@[i], segs[i], b));
        assert(elf::ph_start_page(segs[i]) <= page < elf::ph_pages_end(segs[i]));
    } else {
        assert(ms.areas@[i] == ms.areas@.last());
    }
}

/// `seg` is one of the loadable program headers among the first `n` of the
/// table.
pub open spec fn segment_in_table(b: Seq<u8>, seg: ProgramHeader, n: int) -> bool {
    exists|j: int|
        0 <= j < n && elf::is_load(b, j) && seg == #[trigger] elf::spec_program_header(b, j)
}

} // verus!
