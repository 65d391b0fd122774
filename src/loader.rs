//! Mapping the loadable segments of an ELF image into a page table.
use vstd::prelude::*;

use crate::addr::{spec_round_up, Addr, PageSize, PhysAddr, VirtAddr, VirtSize};
use crate::paging::{map_range_spec, MapError, PageTable};
use crate::phys::{MemState, PhysMem};
use crate::pte::PteAttrs;
use crate::span::Span;

verus! {

/// Segment type of a loadable segment.
pub const PT_LOAD: u32 = 1;

/// Segment flag: executable.
pub const PF_X: u32 = 1;

/// Segment flag: writable.
pub const PF_W: u32 = 2;

/// Segment flag: readable.
pub const PF_R: u32 = 4;

/// The fields of an ELF64 program header.
#[derive(Clone, Copy, Debug, PartialEq, Eq, Structural)]
pub struct ProgramHeader {
    pub p_type: u32,
    pub p_flags: u32,
    pub p_offset: u64,
    pub p_vaddr: u64,
    pub p_paddr: u64,
    pub p_filesz: u64,
    pub p_memsz: u64,
    pub p_align: u64,
}

/// Page-table attributes for segment flags: Read for `PF_R`, Write for
/// `PF_W`, Execute for `PF_X`.
pub open spec fn elf_attrs(p_flags: u32) -> u8 {
    ((if p_flags & PF_R != 0 {
        2u8
    } else {
        0u8
    }) | (if p_flags & PF_W != 0 {
        4u8
    } else {
        0u8
    }) | (if p_flags & PF_X != 0 {
        8u8
    } else {
        0u8
    })) as u8
}

/// Converts the flags of a program header to page-table attributes.
pub fn flags_to_riscv(p_flags: u32) -> (r: PteAttrs)
    ensures
        r.0 == elf_attrs(p_flags),
{
    let r: u8 = if p_flags & PF_R != 0 {
        2
    } else {
        0
    };
    let w: u8 = if p_flags & PF_W != 0 {
        4
    } else {
        0
    };
    let x: u8 = if p_flags & PF_X != 0 {
        8
    } else {
        0
    };
    PteAttrs(r | w | x)
}

/// Memory size of a segment, rounded up to whole 4 KiB pages.
pub open spec fn seg_pages(h: ProgramHeader) -> int {
    spec_round_up(h.p_memsz as usize, PageSize::Page4k)->0 as int
}

/// Can the memory size of every segment be rounded up within a `usize`?
pub open spec fn sizes_round(hs: Seq<ProgramHeader>) -> bool {
    forall|i: int|
        0 <= i < hs.len() ==> (#[trigger] hs[i]).p_memsz <= usize::MAX && spec_round_up(
            hs[i].p_memsz as usize,
            PageSize::Page4k,
        ) is Some
}

/// Sum of the rounded memory sizes of the first `i` segments.
pub open spec fn total_size(hs: Seq<ProgramHeader>, i: int) -> int
    decreases i,
{
    if i <= 0 {
        0
    } else {
        total_size(hs, i - 1) + seg_pages(hs[i - 1])
    }
}

/// The memory taken by all the segments, each rounded up to whole pages.
pub fn get_total_size(headers: &[ProgramHeader]) -> (r: usize)
    requires
        sizes_round(headers@),
        total_size(headers@, headers@.len() as int) <= usize::MAX,
    ensures
        r == total_size(headers@, headers@.len() as int),
{
    let mut total: usize = 0;
    let mut i: usize = 0;
    while i < headers.len()
        invariant
            i <= headers@.len(),
            sizes_round(headers@),
            total_size(headers@, headers@.len() as int) <= usize::MAX,
            total == total_size(headers@, i as int),
        decreases headers@.len() - i,
    {
        let h = headers[i];
        assert(sizes_round(headers@) ==> h.p_memsz <= usize::MAX);
        let r = VirtSize(h.p_memsz as usize).round_up(PageSize::Page4k);
        proof {
            lemma_total_mono(headers@, i + 1, headers@.len() as int);
        }
        total = total + r.unwrap().0;
        i = i + 1;
    }
    total
}

proof fn lemma_total_mono(hs: Seq<ProgramHeader>, i: int, j: int)
    requires
        0 <= i <= j <= hs.len(),
    ensures
        total_size(hs, i) <= total_size(hs, j),
    decreases j - i,
{
    if i < j {
        lemma_total_mono(hs, i, j - 1);
    }
}

/// The physical address that the segment at virtual address `vaddr` is
/// loaded at, when the image spanning `virt` sits at `phys`.
pub open spec fn seg_phys(vaddr: u64, phys: Span, virt: Span) -> int {
    vaddr - virt.lo() + phys.lo()
}

/// Can each loadable segment be placed: its address within the usize range,
/// at or after the start of the image, its physical address and rounded
/// size computable?
pub open spec fn segments_placeable(hs: Seq<ProgramHeader>, phys: Span, virt: Span) -> bool {
    forall|i: int|
        0 <= i < hs.len() && (#[trigger] hs[i]).p_type == PT_LOAD ==> {
            &&& virt.lo() <= hs[i].p_vaddr <= usize::MAX
            &&& seg_phys(hs[i].p_vaddr, phys, virt) <= usize::MAX
            &&& hs[i].p_memsz <= usize::MAX
            &&& spec_round_up(hs[i].p_memsz as usize, PageSize::Page4k) is Some
        }
}

/// Mapping the loadable segments among the first `n` headers in turn,
/// stopping at the first failure.
pub open spec fn map_segments(
    m: MemState,
    root: int,
    hs: Seq<ProgramHeader>,
    phys: Span,
    virt: Span,
    extra: u8,
    n: int,
) -> (Result<(), MapError>, MemState)
    decreases n,
{
    if n <= 0 {
        (Ok(()), m)
    } else {
        let (r, m1) = map_segments(m, root, hs, phys, virt, extra, n - 1);
        let h = hs[n - 1];
        if r is Err || h.p_type != PT_LOAD {
            (r, m1)
        } else {
            map_range_spec(
                m1,
                root,
                seg_phys(h.p_vaddr, phys, virt) as usize,
                h.p_vaddr as usize,
                seg_pages(h) as usize,
                elf_attrs(h.p_flags) | extra,
            )
        }
    }
}

proof fn lemma_segments_stop(
    m: MemState,
    root: int,
    hs: Seq<ProgramHeader>,
    phys: Span,
    virt: Span,
    extra: u8,
    k: int,
    n: int,
)
    requires
        0 <= k <= n,
        map_segments(m, root, hs, phys, virt, extra, k).0 is Err,
    ensures
        map_segments(m, root, hs, phys, virt, extra, n) == map_segments(m, root, hs, phys, virt, extra, k),
    decreases n - k,
{
    if k < n {
        lemma_segments_stop(m, root, hs, phys, virt, extra, k, n - 1);
    }
}

/// Maps every loadable segment of an image whose virtual range `virt_range`
/// was loaded at `phys_range`, with the segment's attributes and
/// `extra_flags`. Stops at the first segment that fails to map.
pub fn map_executable(
    pt: &PageTable,
    mem: &mut PhysMem,
    phys_range: Span,
    virt_range: Span,
    headers: &[ProgramHeader],
    extra_flags: PteAttrs,
) -> (r: Result<(), MapError>)
    requires
        old(mem).inv(),
        segments_placeable(headers@, phys_range, virt_range),
    ensures
        final(mem).inv(),
        (r, final(mem)@) == map_segments(
            old(mem)@,
            pt.root(),
            headers@,
            phys_range,
            virt_range,
            extra_flags.0,
            headers@.len() as int,
        ),
{
    let mut i: usize = 0;
    while i < headers.len()
        invariant
            i <= headers@.len(),
            mem.inv(),
            segments_placeable(headers@, phys_range, virt_range),
            map_segments(old(mem)@, pt.root(), headers@, phys_range, virt_range, extra_flags.0, i as int)
                == (Ok::<(), MapError>(()), mem@),
        decreases headers@.len() - i,
    {
        let header = headers[i];
        assert(headers@[i as int] == header);
        if header.p_type == PT_LOAD {
            let pa = header.p_vaddr as usize - virt_range.begin() + phys_range.begin();
            let va = VirtAddr(header.p_vaddr as usize);
            let len = VirtSize(header.p_memsz as usize).round_up(PageSize::Page4k).unwrap().get();
            let flags = flags_to_riscv(header.p_flags).union(extra_flags);
            let ghost before = mem@;
            let r = pt.virt_map(mem, PhysAddr::new(pa), va, len, flags);
            proof {
                assert(pa == seg_phys(header.p_vaddr, phys_range, virt_range));
                assert(len == seg_pages(header));
                assert((r, mem@) == map_range_spec(before, pt.root(), pa, va.0, len, flags.0));
                assert(map_segments(old(mem)@, pt.root(), headers@, phys_range, virt_range, extra_flags.0, i + 1)
                    == (r, mem@));
            }
            match r {
                Err(e) => {
                    proof {
                        lemma_segments_stop(
                            old(mem)@,
                            pt.root(),
                            headers@,
                            phys_range,
                            virt_range,
                            extra_flags.0,
                            i + 1,
                            headers@.len() as int,
                        );
                    }
                    return Err(e);
                },
                Ok(()) => {},
            }
            assert(r->Ok_0 == ());
        }
        i = i + 1;
    }
    Ok(())
}

} // verus!
