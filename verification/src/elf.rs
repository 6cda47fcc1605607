//! ELF64 executable images: the fields the loader reads.
//!
//! Only statically linked ELF64 images are honoured, and of their program
//! headers only the LOAD entries.  The parser works on the raw bytes; every
//! field is a fixed-offset little-endian integer.

use vstd::prelude::*;

verus! {

/// Size of an ELF64 program-header table entry.
pub const PH_ENTRY_SIZE: u64 = 56;

/// Program-header type tag of a loadable segment.
pub const PT_LOAD: u32 = 1;

/// Segment permission bits of the `p_flags` field.
pub const PF_X: u32 = 1;

pub const PF_W: u32 = 2;

/// Highest virtual address a user segment may reach in this design.
pub const MAX_USER_VA: u64 = 0x4000_0000_0000;

/// Little-endian u16 at `off`.
pub open spec fn le_u16(b: Seq<u8>, off: int) -> u16 {
    (b[off] + 0x100 * b[off + 1]) as u16
}

/// Little-endian u32 at `off`.
pub open spec fn le_u32(b: Seq<u8>, off: int) -> u32 {
    (b[off] + 0x100 * b[off + 1] + 0x1_0000 * b[off + 2] + 0x100_0000 * b[off + 3]) as u32
}

/// Little-endian u64 at `off`.
pub open spec fn le_u64(b: Seq<u8>, off: int) -> u64 {
    (b[off] + 0x100 * b[off + 1] + 0x1_0000 * b[off + 2] + 0x100_0000 * b[off + 3] + 0x1_0000_0000
        * b[off + 4] + 0x100_0000_0000 * b[off + 5] + 0x1_0000_0000_0000 * b[off + 6]
        + 0x100_0000_0000_0000 * b[off + 7]) as u64
}

pub fn read_u16_le(b: &Vec<u8>, off: usize) -> (r: u16)
    requires
        off + 2 <= b@.len(),
    ensures
        r == le_u16(b@, off as int),
{
    let blen = b.len();
    proof {
        assert(b@.len() == blen);
    }
    (b[off] as u16) + 0x100 * (b[off + 1] as u16)
}

pub fn read_u32_le(b: &Vec<u8>, off: usize) -> (r: u32)
    requires
        off + 4 <= b@.len(),
    ensures
        r == le_u32(b@, off as int),
{
    let blen = b.len();
    proof {
        assert(b@.len() == blen);
    }
    (b[off] as u32) + 0x100 * (b[off + 1] as u32) + 0x1_0000 * (b[off + 2] as u32) + 0x100_0000 * (
    b[off + 3] as u32)
}

pub fn read_u64_le(b: &Vec<u8>, off: usize) -> (r: u64)
    requires
        off + 8 <= b@.len(),
    ensures
        r == le_u64(b@, off as int),
{
    let blen = b.len();
    proof {
        assert(b@.len() == blen);
    }
    (b[off] as u64) + 0x100 * (b[off + 1] as u64) + 0x1_0000 * (b[off + 2] as u64) + 0x100_0000 * (
    b[off + 3] as u64) + 0x1_0000_0000 * (b[off + 4] as u64) + 0x100_0000_0000 * (b[off + 5] as u64)
        + 0x1_0000_0000_0000 * (b[off + 6] as u64) + 0x100_0000_0000_0000 * (b[off + 7] as u64)
}

/// The bytes open with the ELF magic `7F 45 4C 46`.
pub open spec fn has_elf_magic(b: Seq<u8>) -> bool {
    &&& b.len() >= 64
    &&& b[0] == 0x7f
    &&& b[1] == 0x45
    &&& b[2] == 0x4c
    &&& b[3] == 0x46
}

pub open spec fn spec_entry_point(b: Seq<u8>) -> u64 {
    le_u64(b, 24)
}

pub open spec fn spec_ph_offset(b: Seq<u8>) -> u64 {
    le_u64(b, 32)
}

pub open spec fn spec_ph_entry_size(b: Seq<u8>) -> u16 {
    le_u16(b, 54)
}

pub open spec fn spec_ph_count(b: Seq<u8>) -> u16 {
    le_u16(b, 56)
}

/// Byte offset of the `i`-th program header.
pub open spec fn ph_slot(b: Seq<u8>, i: int) -> int {
    spec_ph_offset(b) + i * (PH_ENTRY_SIZE as int)
}

/// One program header, reduced to the fields the loader honours.
#[derive(Debug, Clone, Copy, PartialEq, Eq, Structural)]
pub struct ProgramHeader {
    pub p_type: u32,
    pub p_flags: u32,
    pub offset: u64,
    pub vaddr: u64,
    pub file_size: u64,
    pub mem_size: u64,
}

pub open spec fn spec_program_header(b: Seq<u8>, i: int) -> ProgramHeader {
    ProgramHeader {
        p_type: le_u32(b, ph_slot(b, i)),
        p_flags: le_u32(b, ph_slot(b, i) + 4),
        offset: le_u64(b, ph_slot(b, i) + 8),
        vaddr: le_u64(b, ph_slot(b, i) + 16),
        file_size: le_u64(b, ph_slot(b, i) + 32),
        mem_size: le_u64(b, ph_slot(b, i) + 40),
    }
}

pub open spec fn is_load(b: Seq<u8>, i: int) -> bool {
    spec_program_header(b, i).p_type == PT_LOAD
}

/// First page of the segment's virtual range.
pub open spec fn ph_start_page(ph: ProgramHeader) -> u64 {
    ph.vaddr / 4096
}

/// First page past the segment's virtual range; the page range is
/// end-exclusive, as in the regions the loader builds from it.
pub open spec fn ph_pages_end(ph: ProgramHeader) -> u64 {
    ((ph.vaddr + ph.mem_size + 4095) / 4096) as u64
}

/// A loadable segment occupies memory and stays inside the file and the
/// user address range.
pub open spec fn load_segment_wf(b: Seq<u8>, i: int) -> bool {
    let ph = spec_program_header(b, i);
    &&& ph.offset + ph.file_size <= b.len()
    &&& ph.file_size <= ph.mem_size
    &&& 0 < ph.mem_size <= usize::MAX
    &&& ph.vaddr + ph.mem_size < MAX_USER_VA
}

/// The page ranges of two loadable segments are disjoint.
pub open spec fn load_segments_disjoint(b: Seq<u8>, i: int, j: int) -> bool {
    let p = spec_program_header(b, i);
    let q = spec_program_header(b, j);
    ph_pages_end(p) <= ph_start_page(q) || ph_pages_end(q) <= ph_start_page(p)
}

/// An image the loader accepts: correct magic, a standard-size program
/// header table that lies inside the file, and loadable segments that are
/// in bounds and pairwise page-disjoint.  Loading anything else is a
/// fatal kernel error, so such images are left out by `requires` clauses.
pub open spec fn valid_elf(b: Seq<u8>) -> bool {
    &&& has_elf_magic(b)
    &&& spec_ph_entry_size(b) == PH_ENTRY_SIZE
    &&& spec_ph_offset(b) + (spec_ph_count(b) as int) * (PH_ENTRY_SIZE as int) <= b.len()
    &&& forall|i: int| 0 <= i < spec_ph_count(b) && is_load(b, i) ==> load_segment_wf(b, i)
    &&& forall|i: int, j: int|
        0 <= i < j < spec_ph_count(b) && is_load(b, i) && is_load(b, j)
            ==> load_segments_disjoint(b, i, j)
}

/// The loadable segments among the first `n` program headers, in table
/// order.
pub open spec fn spec_load_segments(b: Seq<u8>, n: int) -> Seq<ProgramHeader>
    decreases n,
{
    if n <= 0 {
        Seq::empty()
    } else {
        spec_load_segments(b, n - 1) + if is_load(b, n - 1) {
            seq![spec_program_header(b, n - 1)]
        } else {
            Seq::empty()
        }
    }
}

/// First page past the highest-reaching loadable segment among the first
/// `n` program headers; zero if none is loadable.
pub open spec fn spec_max_pages_end(b: Seq<u8>, n: int) -> u64
    decreases n,
{
    if n <= 0 {
        0
    } else {
        let m = spec_max_pages_end(b, n - 1);
        if is_load(b, n - 1) && ph_pages_end(spec_program_header(b, n - 1)) > m {
            ph_pages_end(spec_program_header(b, n - 1))
        } else {
            m
        }
    }
}

/// Every loadable segment among the first `n` headers stays at or below the
/// running maximum.
pub proof fn lemma_max_pages_end_bounds(b: Seq<u8>, j: int, n: int)
    requires
        0 <= j < n,
        is_load(b, j),
    ensures
        ph_pages_end(spec_program_header(b, j)) <= spec_max_pages_end(b, n),
    decreases n,
{
    if j < n - 1 {
        lemma_max_pages_end_bounds(b, j, n - 1);
    }
}

/// On a valid image the running maximum stays inside the user range.
pub proof fn lemma_max_pages_end_limit(b: Seq<u8>, n: int)
    requires
        forall|j: int| 0 <= j < n && is_load(b, j) ==> load_segment_wf(b, j),
    ensures
        spec_max_pages_end(b, n) <= MAX_USER_VA / 4096 + 1,
    decreases n,
{
    if n > 0 {
        lemma_max_pages_end_limit(b, n - 1);
    }
}

/// Checks the ELF magic.
pub fn check_elf_magic(b: &Vec<u8>) -> (r: bool)
    ensures
        r == has_elf_magic(b@),
{
    b.len() >= 64 && b[0] == 0x7f && b[1] == 0x45 && b[2] == 0x4c && b[3] == 0x46
}

/// Checks the whole image against `valid_elf`, so that callers at the
/// boundary can refuse an image instead of relying on a precondition.
#[verifier::rlimit(100)]
pub fn validate_elf(b: &Vec<u8>) -> (r: bool)
    ensures
        r == valid_elf(b@),
{
    let blen = b.len();
    proof {
        assert(b@.len() == blen);
    }
    if !check_elf_magic(b) {
        return false;
    }
    if read_u16_le(b, 54) != PH_ENTRY_SIZE as u16 {
        return false;
    }
    let ph_off = read_u64_le(b, 32);
    let ph_count = read_u16_le(b, 56);
    if ph_off > blen as u64 || (ph_count as u64) * PH_ENTRY_SIZE > blen as u64 - ph_off {
        return false;
    }
    let mut i: usize = 0;
    while i < ph_count as usize
        invariant
            blen == b@.len(),
            has_elf_magic(b@),
            spec_ph_entry_size(b@) == PH_ENTRY_SIZE,
            ph_off == spec_ph_offset(b@),
            ph_count == spec_ph_count(b@),
            spec_ph_offset(b@) + (spec_ph_count(b@) as int) * (PH_ENTRY_SIZE as int) <= b@.len(),
            i <= ph_count,
            forall|k: int| 0 <= k < i && is_load(b@, k) ==> load_segment_wf(b@, k),
            forall|k: int, l: int|
                0 <= k < l < i && is_load(b@, k) && is_load(b@, l) ==> load_segments_disjoint(
                    b@,
                    k,
                    l,
                ),
        decreases ph_count - i,
    {
        let ph = read_program_header(b, i);
        if ph.p_type == PT_LOAD {
            if ph.offset > blen as u64 || ph.file_size > blen as u64 - ph.offset {
                proof {
                    assert(!load_segment_wf(b@, i as int));
                }
                return false;
            }
            if ph.mem_size == 0 || ph.file_size > ph.mem_size || ph.mem_size > usize::MAX as u64 {
                proof {
                    assert(!load_segment_wf(b@, i as int));
                }
                return false;
            }
            if ph.vaddr >= MAX_USER_VA || ph.mem_size >= MAX_USER_VA - ph.vaddr {
                proof {
                    assert(!load_segment_wf(b@, i as int));
                }
                return false;
            }
            let mut j: usize = 0;
            while j < i
                invariant
                    blen == b@.len(),
                    has_elf_magic(b@),
                    spec_ph_entry_size(b@) == PH_ENTRY_SIZE,
                    ph_off == spec_ph_offset(b@),
                    ph_count == spec_ph_count(b@),
                    spec_ph_offset(b@) + (spec_ph_count(b@) as int) * (PH_ENTRY_SIZE as int)
                        <= b@.len(),
                    j <= i < ph_count,
                    ph == spec_program_header(b@, i as int),
                    is_load(b@, i as int),
                    load_segment_wf(b@, i as int),
                    forall|k: int| 0 <= k < i && is_load(b@, k) ==> load_segment_wf(b@, k),
                    forall|k: int|
                        0 <= k < j && is_load(b@, k) ==> load_segments_disjoint(b@, k, i as int),
                decreases i - j,
            {
                let other = read_program_header(b, j);
                if other.p_type == PT_LOAD {
                    proof {
                        assert(is_load(b@, j as int));
                        assert(load_segment_wf(b@, j as int));
                    }
                    let ph_start = ph.vaddr / 4096;
                    let ph_end = (ph.vaddr + ph.mem_size + 4095) / 4096;
                    let other_start = other.vaddr / 4096;
                    let other_end = (other.vaddr + other.mem_size + 4095) / 4096;
                    if !(ph_end <= other_start || other_end <= ph_start) {
                        proof {
                            assert(!load_segments_disjoint(b@, j as int, i as int));
                        }
                        return false;
                    }
                }
                j = j + 1;
            }
        }
        i = i + 1;
    }
    true
}

/// Copies `len` bytes of the image, starting at `off`.
pub fn copy_range(b: &Vec<u8>, off: u64, len: u64) -> (r: Vec<u8>)
    requires
        off + len <= b@.len(),
    ensures
        r@ =~= b@.subrange(off as int, off as int + len as int),
{
    let blen = b.len();
    proof {
        assert(b@.len() == blen);
    }
    let mut r: Vec<u8> = Vec::new();
    let mut k: usize = 0;
    let len: usize = len as usize;
    let off: usize = off as usize;
    while k < len
        invariant
            k <= len,
            off + len <= b@.len(),
            b@.len() == blen,
            r@.len() == k,
            forall|j: int| 0 <= j < k ==> r@[j] == b@[off + j],
        decreases len - k,
    {
        let byte = b[off + k];
        r.push(byte);
        k = k + 1;
    }
    r
}

/// Reads the `i`-th program header.
pub fn read_program_header(b: &Vec<u8>, i: usize) -> (ph: ProgramHeader)
    requires
        b@.len() >= 64,
        i < spec_ph_count(b@),
        spec_ph_offset(b@) + (spec_ph_count(b@) as int) * (PH_ENTRY_SIZE as int) <= b@.len(),
    ensures
        ph == spec_program_header(b@, i as int),
{
    let ph_off = read_u64_le(b, 32);
    let blen = b.len();
    proof {
        assert(b@.len() == blen);
        assert((i as int) * (PH_ENTRY_SIZE as int) + (PH_ENTRY_SIZE as int) <= (spec_ph_count(b@)
            as int) * (PH_ENTRY_SIZE as int)) by (nonlinear_arith)
            requires
                0 <= i < spec_ph_count(b@),
                PH_ENTRY_SIZE == 56,
        ;
    }
    let slot: usize = ph_off as usize + i * (PH_ENTRY_SIZE as usize);
    ProgramHeader {
        p_type: read_u32_le(b, slot),
        p_flags: read_u32_le(b, slot + 4),
        offset: read_u64_le(b, slot + 8),
        vaddr: read_u64_le(b, slot + 16),
        file_size: read_u64_le(b, slot + 32),
        mem_size: read_u64_le(b, slot + 40),
    }
}

} // verus!

verus! {

/// The `k`-th little-endian byte of a 64-bit value.
pub open spec fn u64_le_byte(v: u64, k: int) -> u8 {
    if k == 0 {
        (v % 0x100) as u8
    } else if k == 1 {
        ((v / 0x100) % 0x100) as u8
    } else if k == 2 {
        ((v / 0x1_0000) % 0x100) as u8
    } else if k == 3 {
        ((v / 0x100_0000) % 0x100) as u8
    } else if k == 4 {
        ((v / 0x1_0000_0000) % 0x100) as u8
    } else if k == 5 {
        ((v / 0x100_0000_0000) % 0x100) as u8
    } else if k == 6 {
        ((v / 0x1_0000_0000_0000) % 0x100) as u8
    } else {
        ((v / 0x100_0000_0000_0000) % 0x100) as u8
    }
}

pub fn byte_of_u64(v: u64, k: u64) -> (r: u8)
    requires
        k < 8,
    ensures
        r == u64_le_byte(v, k as int),
{
    if k == 0 {
        (v % 0x100) as u8
    } else if k == 1 {
        ((v / 0x100) % 0x100) as u8
    } else if k == 2 {
        ((v / 0x1_0000) % 0x100) as u8
    } else if k == 3 {
        ((v / 0x100_0000) % 0x100) as u8
    } else if k == 4 {
        ((v / 0x1_0000_0000) % 0x100) as u8
    } else if k == 5 {
        ((v / 0x100_0000_0000) % 0x100) as u8
    } else if k == 6 {
        ((v / 0x1_0000_0000_0000) % 0x100) as u8
    } else {
        ((v / 0x100_0000_0000_0000) % 0x100) as u8
    }
}

} // verus!
