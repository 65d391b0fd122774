//! Encoding and decoding of Sv39 page-table entries.
use vstd::prelude::*;

use crate::addr::PhysAddr;

verus! {

/// Attributes that can be set on a page-table entry (bits 0 to 7 of it).
#[derive(Clone, Copy, Debug, PartialEq, Eq, Structural)]
pub struct PteAttrs(pub u8);

/// Valid entry.
pub const ATTR_V: u8 = 1;
/// Page readable.
pub const ATTR_R: u8 = 2;
/// Page writable.
pub const ATTR_W: u8 = 4;
/// Page executable.
pub const ATTR_X: u8 = 8;
/// Page accessible from user mode.
pub const ATTR_USER: u8 = 16;
/// Page mapped in all address spaces.
pub const ATTR_GLOBAL: u8 = 32;
/// Page has been accessed.
pub const ATTR_ACCESSED: u8 = 64;
/// Page has been written.
pub const ATTR_DIRTY: u8 = 128;

impl PteAttrs {
    /// The empty set of attributes.
    pub fn empty() -> (r: PteAttrs)
        ensures
            r.0 == 0,
    {
        PteAttrs(0)
    }

    /// The attributes as raw bits.
    pub fn bits(self) -> (r: u8)
        ensures
            r == self.0,
    {
        self.0
    }

    /// Makes a set of attributes from raw bits; every bit of a `u8` is an attribute.
    pub fn from_bits_truncate(bits: u8) -> (r: PteAttrs)
        ensures
            r.0 == bits,
    {
        PteAttrs(bits)
    }

    /// The attributes of both sets.
    pub fn union(self, other: PteAttrs) -> (r: PteAttrs)
        ensures
            r.0 == self.0 | other.0,
    {
        PteAttrs(self.0 | other.0)
    }

    /// Does this set hold every attribute of `other`?
    pub fn contains(self, other: PteAttrs) -> (r: bool)
        ensures
            r == (self.0 & other.0 == other.0),
    {
        self.0 & other.0 == other.0
    }

    /// Do the two sets share an attribute?
    pub fn intersects(self, other: PteAttrs) -> (r: bool)
        ensures
            r == (self.0 & other.0 != 0),
    {
        self.0 & other.0 != 0
    }
}

/// Bit 0: the entry is usable.
pub open spec fn pte_valid(e: u64) -> bool {
    e & 1 == 1
}

/// A valid entry with Read or Execute set ends translation at a frame.
pub open spec fn pte_leaf(e: u64) -> bool {
    pte_valid(e) && e & 0xa != 0
}

/// A valid entry with neither Read nor Execute points to the table below.
pub open spec fn pte_pointer(e: u64) -> bool {
    pte_valid(e) && e & 0xa == 0
}

/// Bits 10 to 53: the physical frame number.
pub open spec fn pte_ppn(e: u64) -> u64 {
    (e >> 10u64) & 0xfff_ffff_ffff
}

/// Bits 0 to 7: the attributes.
pub open spec fn pte_flags(e: u64) -> u8 {
    (e & 0xff) as u8
}

/// The entry for the frame at physical address `pa` with attributes `flags`.
pub open spec fn pte_encode(pa: int, flags: u8) -> u64 {
    ((pa / 4096) * 1024 + flags) as u64
}

/// Largest physical address (exclusive) whose frame number fits an entry.
pub open spec fn pa_limit() -> int {
    0x100_0000_0000_0000
}

/// A page-table entry: one 64-bit word of a page table.
///
/// ```text
///  63  54  53  28   27  19   18  10   9 8   7      0
/// | ZERO | PPN[2] | PPN[1] | PPN[0] | RSW | DAGUXWRV |
/// ```
#[derive(Clone, Copy, Debug, PartialEq, Eq, Structural)]
pub struct Pte(pub u64);

proof fn lemma_encode_bits(x: u64, a: u8)
    by (bit_vector)
    requires
        x < 0x100_0000_0000_0000,
    ensures
        (((x >> 12u64) & 0xfff_ffff_ffff) << 10u64) | (a as u64) == (x / 4096) * 1024 + a,
        (x / 4096) * 1024 + a < 0x40_0000_0000_0000,
{
}

proof fn lemma_decode_bits(p: u64, a: u8)
    by (bit_vector)
    requires
        p < 0x1000_0000_0000,
    ensures
        (((p * 1024 + a) as u64) >> 10u64) & 0xfff_ffff_ffff == p,
        (((p * 1024 + a) as u64) & 0xff) as u8 == a,
        (((p * 1024 + a) as u64) & 1 == 1) == (a & 1 == 1),
        (((p * 1024 + a) as u64) & 0xa) == (a & 0xa) as u64,
{
}

/// The zero entry is invalid: it maps nothing and points nowhere.
pub proof fn lemma_unmapped_invalid()
    ensures
        !pte_valid(0),
        !pte_leaf(0),
        !pte_pointer(0),
{
    assert(0u64 & 1 != 1) by (bit_vector);
}

/// Decoding an encoded entry gives back its frame number and attributes.
pub proof fn lemma_pte_roundtrip(pa: int, flags: u8)
    requires
        0 <= pa < pa_limit(),
    ensures
        pte_ppn(pte_encode(pa, flags)) == pa / 4096,
        pte_flags(pte_encode(pa, flags)) == flags,
        pte_valid(pte_encode(pa, flags)) == (flags & 1 == 1),
        pte_leaf(pte_encode(pa, flags)) == (flags & 1 == 1 && flags & 0xa != 0),
        pte_pointer(pte_encode(pa, flags)) == (flags & 1 == 1 && flags & 0xa == 0),
{
    let p = (pa / 4096) as u64;
    lemma_decode_bits(p, flags);
    assert(pte_encode(pa, flags) == p * 1024 + flags);
}

impl Pte {
    /// The entry that maps nothing.
    pub fn unmapped() -> (r: Pte)
        ensures
            r.0 == 0,
    {
        Pte(0)
    }

    /// Makes a page-table entry for the frame at `pa` with the given attributes.
    pub fn new(pa: PhysAddr, attrs: PteAttrs) -> (r: Pte)
        requires
            pa.0 < pa_limit(),
        ensures
            r.0 == pte_encode(pa.0 as int, attrs.0),
    {
        let x = pa.0 as u64;
        proof {
            lemma_encode_bits(x, attrs.0);
        }
        Pte((((x >> 12u64) & 0xfff_ffff_ffff) << 10u64) | (attrs.0 as u64))
    }

    /// Decomposes a page-table entry into the next frame number and the attributes.
    pub fn decompose(self) -> (r: (u64, PteAttrs))
        ensures
            r.0 == pte_ppn(self.0),
            r.1.0 == pte_flags(self.0),
    {
        (((self.0 >> 10u64) & 0xfff_ffff_ffff), PteAttrs((self.0 & 0xff) as u8))
    }

    /// Is the entry usable?
    pub fn is_valid(self) -> (r: bool)
        ensures
            r == pte_valid(self.0),
    {
        self.0 & 1 == 1
    }

    /// Does the entry end translation at a frame?
    pub fn is_leaf(self) -> (r: bool)
        ensures
            r == pte_leaf(self.0),
    {
        self.0 & 1 == 1 && self.0 & 0xa != 0
    }
}

} // verus!
