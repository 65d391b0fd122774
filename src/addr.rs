//! Typed physical and virtual addresses, page sizes and page rounding.
use vstd::prelude::*;

use crate::paging::MapError;

verus! {

/// Number of bytes in the smallest page.
pub const PAGE_SIZE: u64 = 4096;

/// Number of entries in one page table.
pub const PT_ENTRIES: usize = 512;

/// Mask giving the offset of an address inside a 4 KiB page.
pub const PAGE_MASK: usize = 4095;

/// Number of significant bits of an Sv39 virtual address.
pub const VA_BITS: usize = 39;

/// The size of a page.
#[derive(Clone, Copy, Debug, PartialEq, Eq, Structural)]
pub enum PageSize {
    Page4k,
    Page2m,
    Page1g,
}

impl PageSize {
    pub open spec fn spec_size(self) -> int {
        match self {
            PageSize::Page4k => 0x1000,
            PageSize::Page2m => 0x20_0000,
            PageSize::Page1g => 0x4000_0000,
        }
    }

    pub open spec fn spec_mask(self) -> usize {
        (self.spec_size() - 1) as usize
    }

    /// The page-table level at which a leaf of this size is installed.
    pub open spec fn spec_level(self) -> nat {
        match self {
            PageSize::Page4k => 0,
            PageSize::Page2m => 1,
            PageSize::Page1g => 2,
        }
    }

    /// Returns the numeric size of the page.
    pub fn size(&self) -> (r: usize)
        ensures
            r == self.spec_size(),
    {
        match self {
            PageSize::Page4k => 0x1000,
            PageSize::Page2m => 0x20_0000,
            PageSize::Page1g => 0x4000_0000,
        }
    }

    /// Gets the mask giving the offset of an address inside a page of this size.
    pub fn offs_mask(&self) -> (r: usize)
        ensures
            r == self.spec_mask(),
            r + 1 == self.spec_size(),
    {
        self.size() - 1
    }

    /// The page-table level at which a leaf of this size is installed.
    pub fn level(&self) -> (r: usize)
        ensures
            r == self.spec_level(),
    {
        match self {
            PageSize::Page4k => 0,
            PageSize::Page2m => 1,
            PageSize::Page1g => 2,
        }
    }
}

/// Rounding facts for the mask of a 4 KiB page.
pub proof fn lemma_mask_4k(x: usize)
    by (bit_vector)
    ensures
        (x & 0xfff == 0) == (x % 0x1000 == 0),
        (x & !0xfffusize) % 0x1000 == 0,
        (x & !0xfffusize) <= x,
        (x & !0xfffusize) == x - x % 0x1000,
        x - (x & !0xfffusize) < 0x1000,
        x % 0x1000 == 0 ==> (x & !0xfffusize) == x,
{
}

/// Rounding facts for the mask of a 2 MiB page.
pub proof fn lemma_mask_2m(x: usize)
    by (bit_vector)
    ensures
        (x & 0x1f_ffff == 0) == (x % 0x20_0000 == 0),
        (x & !0x1f_ffffusize) % 0x20_0000 == 0,
        (x & !0x1f_ffffusize) <= x,
        (x & !0x1f_ffffusize) == x - x % 0x20_0000,
        x - (x & !0x1f_ffffusize) < 0x20_0000,
        x % 0x20_0000 == 0 ==> (x & !0x1f_ffffusize) == x,
{
}

/// Rounding facts for the mask of a 1 GiB page.
pub proof fn lemma_mask_1g(x: usize)
    by (bit_vector)
    ensures
        (x & 0x3fff_ffff == 0) == (x % 0x4000_0000 == 0),
        (x & !0x3fff_ffffusize) % 0x4000_0000 == 0,
        (x & !0x3fff_ffffusize) <= x,
        (x & !0x3fff_ffffusize) == x - x % 0x4000_0000,
        x - (x & !0x3fff_ffffusize) < 0x4000_0000,
        x % 0x4000_0000 == 0 ==> (x & !0x3fff_ffffusize) == x,
{
}

/// Clearing the offset bits of `x` gives the largest multiple of the page
/// size that is at most `x`.
pub proof fn lemma_mask(x: usize, size: PageSize)
    ensures
        (x & size.spec_mask() == 0) == (x as int % size.spec_size() == 0),
        (x & !size.spec_mask()) as int % size.spec_size() == 0,
        (x & !size.spec_mask()) <= x,
        (x & !size.spec_mask()) == x - (x as int % size.spec_size()),
        x - (x & !size.spec_mask()) < size.spec_size(),
        x as int % size.spec_size() == 0 ==> (x & !size.spec_mask()) == x,
{
    match size {
        PageSize::Page4k => lemma_mask_4k(x),
        PageSize::Page2m => lemma_mask_2m(x),
        PageSize::Page1g => lemma_mask_1g(x),
    }
}

/// The smallest multiple of `size` that is at least `a`, if it fits in a `usize`.
pub open spec fn spec_round_up(a: usize, size: PageSize) -> Option<usize> {
    if a + size.spec_mask() > usize::MAX {
        None
    } else {
        Some((a + size.spec_mask() - (a + size.spec_mask()) % size.spec_size()) as usize)
    }
}

/// The largest multiple of `size` that is at most `a`.
pub open spec fn spec_round_down(a: usize, size: PageSize) -> usize {
    (a - (a as int % size.spec_size())) as usize
}

/// Operations that can be performed on a memory address.
pub trait Addr: Sized + Copy {
    spec fn value(self) -> usize;

    /// Returns the numeric value of the address.
    fn get(self) -> (r: usize)
        ensures
            r == self.value(),
    ;

    /// Makes an address from its numeric value.
    fn new(addr: usize) -> (r: Self)
        ensures
            r.value() == addr,
    ;

    /// Is the address aligned to a page of the given size?
    fn is_page_aligned(self, size: PageSize) -> (r: bool)
        ensures
            r == (self.value() as int % size.spec_size() == 0),
    {
        proof {
            lemma_mask(self.value(), size);
        }
        self.get() & size.offs_mask() == 0
    }

    /// Applies `f` to the numeric value of the address, keeping its kind.
    fn map<F: FnOnce(usize) -> usize>(self, f: F) -> (r: Self)
        requires
            call_requires(f, (self.value(),)),
        ensures
            call_ensures(f, (self.value(),), r.value()),
    {
        Self::new(f(self.get()))
    }

    /// Applies the fallible `f` to the numeric value of the address, keeping
    /// its kind; an error of `f` is passed on.
    fn map_r<F: FnOnce(usize) -> Result<usize, MapError>>(self, f: F) -> (r: Result<Self, MapError>)
        requires
            call_requires(f, (self.value(),)),
        ensures
            exists|out: Result<usize, MapError>|
                call_ensures(f, (self.value(),), out) && match out {
                    Ok(v) => r is Ok && r->Ok_0.value() == v,
                    Err(e) => r == Err::<Self, MapError>(e),
                },
    {
        match f(self.get()) {
            Ok(v) => Ok(Self::new(v)),
            Err(e) => Err(e),
        }
    }

    /// Rounds the address up to the page size given; `None` when the result
    /// does not fit in the address space.
    fn round_up(self, size: PageSize) -> (r: Option<Self>)
        ensures
            r is None <==> spec_round_up(self.value(), size) is None,
            r is Some ==> Some(r->0.value()) == spec_round_up(self.value(), size),
    {
        let a = self.get();
        let m = size.offs_mask();
        match a.checked_add(m) {
            None => None,
            Some(b) => {
                proof {
                    lemma_mask(b, size);
                }
                Some(Self::new(b & !m))
            },
        }
    }

    /// Rounds the address down to the page size given.
    fn round_down(self, size: PageSize) -> (r: Option<Self>)
        ensures
            r is Some,
            r->0.value() == spec_round_down(self.value(), size),
    {
        proof {
            lemma_mask(self.value(), size);
        }
        Some(Self::new(self.get() & !size.offs_mask()))
    }
}

/// A physical address.
#[derive(Clone, Copy, Debug, PartialEq, Eq, Structural)]
pub struct PhysAddr(pub usize);

/// A virtual address.
#[derive(Clone, Copy, Debug, PartialEq, Eq, Structural)]
pub struct VirtAddr(pub usize);

/// The size of a region of virtual memory.
#[derive(Clone, Copy, Debug, PartialEq, Eq, Structural)]
pub struct VirtSize(pub usize);

impl PhysAddr {
    /// Makes a physical address from its numeric value.
    pub fn new(addr: usize) -> (r: PhysAddr)
        ensures
            r.0 == addr,
    {
        PhysAddr(addr)
    }
}

impl Addr for PhysAddr {
    open spec fn value(self) -> usize {
        self.0
    }

    fn get(self) -> (r: usize) {
        self.0
    }

    fn new(addr: usize) -> (r: Self) {
        PhysAddr(addr)
    }
}

impl Addr for VirtAddr {
    open spec fn value(self) -> usize {
        self.0
    }

    fn get(self) -> (r: usize) {
        self.0
    }

    fn new(addr: usize) -> (r: Self) {
        VirtAddr(addr)
    }
}

impl Addr for VirtSize {
    open spec fn value(self) -> usize {
        self.0
    }

    fn get(self) -> (r: usize) {
        self.0
    }

    fn new(addr: usize) -> (r: Self) {
        VirtSize(addr)
    }
}

/// The low 39 bits of a virtual address, the only ones Sv39 translates.
pub open spec fn spec_canonical(va: usize) -> usize {
    (va as int % 0x80_0000_0000) as usize
}

/// The index into the page table of the given level (0, 1 or 2) that
/// translates `va`.
pub open spec fn vpn(va: usize, level: int) -> usize {
    if level == 0 {
        (va >> 12usize) & 0x1ff
    } else if level == 1 {
        (va >> 21usize) & 0x1ff
    } else {
        (va >> 30usize) & 0x1ff
    }
}

/// The offset of `va` inside its 4 KiB page.
pub open spec fn page_offset(va: usize) -> usize {
    va & 0xfff
}

proof fn lemma_canonical_bits(x: usize)
    by (bit_vector)
    ensures
        ((x as u64) & 0x7f_ffff_ffffu64) as usize == (x as int % 0x80_0000_0000) as usize,
{
}

proof fn lemma_vpn_bits(x: usize)
    by (bit_vector)
    ensures
        ((x >> 12usize) & 0x1ff) < 512,
        ((x >> 21usize) & 0x1ff) < 512,
        ((x >> 30usize) & 0x1ff) < 512,
{
}

/// Truncating to 39 bits keeps every page-table index of an address.
pub proof fn lemma_canonical_vpn(x: usize)
    ensures
        forall|l: int| 0 <= l <= 2 ==> #[trigger] vpn(spec_canonical(x), l) == vpn(x, l),
        spec_canonical(x) < 0x80_0000_0000,
{
    lemma_canonical_bits(x);
    assert(vpn(spec_canonical(x), 0) == vpn(x, 0) && vpn(spec_canonical(x), 1) == vpn(x, 1)
        && vpn(spec_canonical(x), 2) == vpn(x, 2)) by (bit_vector)
        requires
            spec_canonical(x) == ((x as u64) & 0x7f_ffff_ffffu64) as usize,
    ;
}

/// Every page-table index is below the number of entries of a table.
pub proof fn lemma_vpn_bound(x: usize)
    ensures
        forall|l: int| 0 <= l <= 2 ==> #[trigger] vpn(x, l) < 512,
{
    lemma_vpn_bits(x);
}

impl VirtAddr {
    /// Only considers the lower 39 bits, chopping off the top bits.
    pub fn canonicalize(self) -> (r: VirtAddr)
        ensures
            r.0 == spec_canonical(self.0),
    {
        proof {
            lemma_canonical_bits(self.0);
        }
        VirtAddr(((self.0 as u64) & 0x7f_ffff_ffffu64) as usize)
    }

    /// The index into the page table of level `level` that translates this address.
    pub fn index(self, level: usize) -> (r: usize)
        requires
            level <= 2,
        ensures
            r == vpn(self.0, level as int),
            r < 512,
    {
        proof {
            lemma_vpn_bits(self.0);
        }
        if level == 0 {
            (self.0 >> 12usize) & 0x1ff
        } else if level == 1 {
            (self.0 >> 21usize) & 0x1ff
        } else {
            (self.0 >> 30usize) & 0x1ff
        }
    }

    /// Decomposes the address into the array `VPN[0]`, `VPN[1]`, `VPN[2]`.
    pub fn parts(self) -> (r: [u16; 3])
        ensures
            forall|l: int| 0 <= l <= 2 ==> #[trigger] r@[l] == vpn(self.0, l),
    {
        proof {
            lemma_vpn_bits(self.0);
        }
        let v0 = ((self.0 >> 12usize) & 0x1ff) as u16;
        let v1 = ((self.0 >> 21usize) & 0x1ff) as u16;
        let v2 = ((self.0 >> 30usize) & 0x1ff) as u16;
        let r = [v0, v1, v2];
        assert(r@[0] == vpn(self.0, 0));
        r
    }
}

} // verus!
