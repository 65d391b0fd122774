//! The root-table-pointer register value: root frame number, address-space
//! id and translation mode.
use vstd::prelude::*;

use crate::addr::PhysAddr;
use crate::paging::PageTable;

verus! {

/// How addresses are translated.
#[derive(Clone, Copy, Debug, PartialEq, Eq, Structural)]
pub enum TranslationMode {
    /// No translation or protection.
    Bare,
    /// Three-level translation of 39-bit addresses.
    Sv39,
    /// Any other mode number (only its low 4 bits are kept).
    Other(u8),
}

/// The number that a mode is stored as in bits 60 to 63.
pub open spec fn mode_bits(mode: TranslationMode) -> u64 {
    match mode {
        TranslationMode::Bare => 0,
        TranslationMode::Sv39 => 8,
        TranslationMode::Other(o) => (o & 0xf) as u64,
    }
}

/// The mode named by a 4-bit mode number.
pub open spec fn mode_of(bits: u64) -> TranslationMode {
    if bits == 0 {
        TranslationMode::Bare
    } else if bits == 8 {
        TranslationMode::Sv39
    } else {
        TranslationMode::Other(bits as u8)
    }
}

/// The register value: bits 0 to 43 hold the root frame number, bits 44 to
/// 59 the address-space id, bits 60 to 63 the mode.
#[derive(Clone, Copy, Debug, PartialEq, Eq, Structural)]
pub struct Satp(pub u64);

proof fn lemma_satp_fields(ppn: u64, asid: u16, mode: u64)
    by (bit_vector)
    requires
        ppn < 0x1000_0000_0000,
        mode < 16,
    ensures
        ((ppn | ((asid as u64) << 44u64) | (mode << 60u64)) & 0xfff_ffff_ffff) == ppn,
        ((ppn | ((asid as u64) << 44u64) | (mode << 60u64)) >> 44u64) & 0xffff == asid as u64,
        (ppn | ((asid as u64) << 44u64) | (mode << 60u64)) >> 60u64 == mode,
{
}

proof fn lemma_set_mode_bits(v: u64, mode: u64)
    by (bit_vector)
    requires
        mode < 16,
    ensures
        ((v & 0x0fff_ffff_ffff_ffff) | (mode << 60u64)) >> 60u64 == mode,
        ((v & 0x0fff_ffff_ffff_ffff) | (mode << 60u64)) & 0x0fff_ffff_ffff_ffff == v & 0x0fff_ffff_ffff_ffff,
{
}

impl Satp {
    /// The register value that turns translation off.
    pub fn disabled() -> (r: Satp)
        ensures
            r.0 == 0,
    {
        Satp(0)
    }

    pub open spec fn spec_ppn(self) -> u64 {
        self.0 & 0xfff_ffff_ffff
    }

    pub open spec fn spec_asid(self) -> u64 {
        (self.0 >> 44u64) & 0xffff
    }

    pub open spec fn spec_mode(self) -> TranslationMode {
        mode_of(self.0 >> 60u64)
    }

    /// The register value that makes `pt` the root table of address space
    /// `asid` with the given mode.
    pub fn new(pt: &PageTable, asid: u16, mode: TranslationMode) -> (r: Satp)
        requires
            pt.root() < 0x1000_0000_0000,
        ensures
            r.spec_ppn() == pt.root(),
            r.spec_asid() == asid,
            r.0 >> 60u64 == mode_bits(mode),
    {
        let ppn = (pt.get_base().0 / 4096) as u64;
        let mut satp = Satp(ppn | ((asid as u64) << 44u64));
        proof {
            lemma_satp_fields(ppn, asid, 0);
        }
        satp.set_mode(mode);
        proof {
            if let TranslationMode::Other(o) = mode {
                assert(o & 0xf < 16) by (bit_vector);
            }
            lemma_set_mode_bits(ppn | ((asid as u64) << 44u64), mode_bits(mode));
            lemma_satp_fields(ppn, asid, mode_bits(mode));
            let f = satp.0;
            assert(f & 0xfff_ffff_ffff == ppn && (f >> 44u64) & 0xffff == asid as u64) by (bit_vector)
                requires
                    ppn < 0x1000_0000_0000,
                    f & 0x0fff_ffff_ffff_ffff == (ppn | ((asid as u64) << 44u64)) & 0x0fff_ffff_ffff_ffff,
            ;
        }
        satp
    }

    /// Gets the root frame number.
    pub fn ppn(&self) -> (r: u64)
        ensures
            r == self.spec_ppn(),
    {
        self.0 & 0xfff_ffff_ffff
    }

    /// Gets the translation mode.
    pub fn mode(&self) -> (r: TranslationMode)
        ensures
            r == self.spec_mode(),
    {
        let raw = self.0 >> 60u64;
        proof {
            let v = self.0;
            assert(v >> 60u64 < 16) by (bit_vector);
        }
        if raw == 0 {
            TranslationMode::Bare
        } else if raw == 8 {
            TranslationMode::Sv39
        } else {
            TranslationMode::Other(raw as u8)
        }
    }

    /// Sets the translation mode, keeping the other fields.
    pub fn set_mode(&mut self, new: TranslationMode)
        ensures
            final(self).0 >> 60u64 == mode_bits(new),
            final(self).0 & 0x0fff_ffff_ffff_ffff == old(self).0 & 0x0fff_ffff_ffff_ffff,
    {
        let bits: u64 = match new {
            TranslationMode::Bare => 0,
            TranslationMode::Sv39 => 8,
            TranslationMode::Other(o) => (o & 0xf) as u64,
        };
        proof {
            if let TranslationMode::Other(o) = new {
                assert(o & 0xf < 16) by (bit_vector);
            }
            lemma_set_mode_bits(self.0, bits);
        }
        self.0 = (self.0 & 0x0fff_ffff_ffff_ffff) | (bits << 60u64);
    }

    /// Is translation on?
    pub fn paging_enabled(&self) -> (r: bool)
        ensures
            r == (self.spec_mode() != TranslationMode::Bare),
    {
        !matches!(self.mode(), TranslationMode::Bare)
    }

    /// The root table named by the register, when the mode is Sv39.
    pub fn as_pagetable(&self) -> (r: Option<PageTable>)
        ensures
            r is Some <==> self.spec_mode() == TranslationMode::Sv39 && self.spec_ppn() * 4096 <= usize::MAX,
            r is Some ==> r->0.root() == self.spec_ppn(),
    {
        let ppn = self.ppn();
        if matches!(self.mode(), TranslationMode::Sv39) && ppn <= (usize::MAX / 4096) as u64 {
            proof {
                let v = self.0;
                assert(v & 0xfff_ffff_ffff < 0x1000_0000_0000) by (bit_vector);
            }
            Some(PageTable::from_raw(PhysAddr((ppn * 4096) as usize)))
        } else {
            None
        }
    }
}

} // verus!
