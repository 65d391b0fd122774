//! Machine status bits and trap causes.
use vstd::prelude::*;

verus! {

/// Bit of `mstatus` that enables machine interrupts.
pub const MSTATUS_MIE: u64 = 3;

/// Lowest bit of the two-bit machine previous privilege field of `mstatus`.
pub const MSTATUS_MPP: u64 = 11;

/// Bit of `mstatus` that lets supervisor mode touch user pages.
pub const MSTATUS_SUM: u64 = 18;

/// Bit of `sstatus` that enables supervisor interrupts.
pub const SSTATUS_SIE: u64 = 1;

/// A privilege level.
#[derive(Clone, Copy, Debug, PartialEq, Eq, Structural)]
pub enum ArchPrivilegeLevel {
    User,
    Supervisor,
    Reserved,
    Machine,
}

/// The two-bit number of a privilege level.
pub open spec fn level_bits(l: ArchPrivilegeLevel) -> u64 {
    match l {
        ArchPrivilegeLevel::User => 0,
        ArchPrivilegeLevel::Supervisor => 1,
        ArchPrivilegeLevel::Reserved => 2,
        ArchPrivilegeLevel::Machine => 3,
    }
}

/// Bit `i` of `v`.
pub open spec fn bit(v: u64, i: u64) -> bool {
    (v >> i) & 1 == 1
}

/// `v` with bit `i` set to `b`.
pub open spec fn with_bit(v: u64, i: u64, b: bool) -> u64 {
    if b {
        v | (1u64 << i)
    } else {
        v & !(1u64 << i)
    }
}

/// The status register; some fields have no meaning in some modes.
#[derive(Clone, Copy, Debug, PartialEq, Eq, Structural)]
pub struct StatusReg(pub u64);

impl StatusReg {
    /// Gets the machine previous privilege level (mstatus.MPP).
    pub fn m_prev_pl(&self) -> (r: ArchPrivilegeLevel)
        ensures
            level_bits(r) == (self.0 >> 11u64) & 3,
    {
        let v = self.0;
        let bits = (v >> 11u64) & 3;
        assert(bits < 4) by (bit_vector)
            requires
                bits == (v >> 11u64) & 3,
        ;
        if bits == 0 {
            ArchPrivilegeLevel::User
        } else if bits == 1 {
            ArchPrivilegeLevel::Supervisor
        } else if bits == 2 {
            ArchPrivilegeLevel::Reserved
        } else {
            ArchPrivilegeLevel::Machine
        }
    }

    /// Sets the machine previous privilege level (mstatus.MPP).
    pub fn set_m_prev_pl(&mut self, new: ArchPrivilegeLevel)
        ensures
            (final(self).0 >> 11u64) & 3 == level_bits(new),
            final(self).0 & !0x1800u64 == old(self).0 & !0x1800u64,
    {
        let b: u64 = match new {
            ArchPrivilegeLevel::User => 0,
            ArchPrivilegeLevel::Supervisor => 1,
            ArchPrivilegeLevel::Reserved => 2,
            ArchPrivilegeLevel::Machine => 3,
        };
        let v = self.0;
        let n = (v & !0x1800u64) | (b << 11u64);
        assert((n >> 11u64) & 3 == b && n & !0x1800u64 == v & !0x1800u64) by (bit_vector)
            requires
                b < 4,
                n == (v & !0x1800u64) | (b << 11u64),
        ;
        self.0 = n;
    }

    /// Sets whether supervisor mode may touch user pages (mstatus.SUM).
    pub fn set_sum(&mut self, new: bool)
        ensures
            final(self).0 == with_bit(old(self).0, MSTATUS_SUM, new),
    {
        self.0 = if new {
            self.0 | (1u64 << 18u64)
        } else {
            self.0 & !(1u64 << 18u64)
        };
    }

    /// Are machine interrupts enabled (mstatus.MIE)?
    pub fn m_ints(&self) -> (r: bool)
        ensures
            r == bit(self.0, MSTATUS_MIE),
    {
        (self.0 >> 3u64) & 1 == 1
    }

    /// Sets whether machine interrupts are enabled (mstatus.MIE).
    pub fn set_m_ints(&mut self, new: bool)
        ensures
            final(self).0 == with_bit(old(self).0, MSTATUS_MIE, new),
    {
        self.0 = if new {
            self.0 | (1u64 << 3u64)
        } else {
            self.0 & !(1u64 << 3u64)
        };
    }

    /// Sets whether supervisor mode receives interrupts (sstatus.SIE).
    pub fn set_s_ints(&mut self, new: bool)
        ensures
            final(self).0 == with_bit(old(self).0, SSTATUS_SIE, new),
    {
        self.0 = if new {
            self.0 | (1u64 << 1u64)
        } else {
            self.0 & !(1u64 << 1u64)
        };
    }
}

/// Kinds of synchronous exception, by cause number; `Other` for the rest.
#[derive(Clone, Copy, Debug, PartialEq, Eq, Structural)]
pub enum ExceptionType {
    InsnAddressMisaligned,
    InsnAccessFault,
    IllegalInsn,
    Breakpoint,
    LoadAddressMisaligned,
    LoadAccessFault,
    StoreAmoAddressMisaligned,
    StoreAmoAccessFault,
    EnvCallU,
    EnvCallS,
    InsnPageFault,
    LoadPageFault,
    StoreAmoPageFault,
    Other(usize),
}

/// The cause number of an exception kind.
pub open spec fn exception_code(e: ExceptionType) -> usize {
    match e {
        ExceptionType::InsnAddressMisaligned => 0,
        ExceptionType::InsnAccessFault => 1,
        ExceptionType::IllegalInsn => 2,
        ExceptionType::Breakpoint => 3,
        ExceptionType::LoadAddressMisaligned => 4,
        ExceptionType::LoadAccessFault => 5,
        ExceptionType::StoreAmoAddressMisaligned => 6,
        ExceptionType::StoreAmoAccessFault => 7,
        ExceptionType::EnvCallU => 8,
        ExceptionType::EnvCallS => 9,
        ExceptionType::InsnPageFault => 12,
        ExceptionType::LoadPageFault => 13,
        ExceptionType::StoreAmoPageFault => 15,
        ExceptionType::Other(v) => v,
    }
}

/// Is `v` the cause number of a named exception kind?
pub open spec fn known_exception(v: usize) -> bool {
    v <= 9 || v == 12 || v == 13 || v == 15
}

impl ExceptionType {
    /// The exception kind with cause number `v`.
    pub fn from_code(v: usize) -> (r: ExceptionType)
        ensures
            exception_code(r) == v,
            r is Other <==> !known_exception(v),
    {
        match v {
            0 => ExceptionType::InsnAddressMisaligned,
            1 => ExceptionType::InsnAccessFault,
            2 => ExceptionType::IllegalInsn,
            3 => ExceptionType::Breakpoint,
            4 => ExceptionType::LoadAddressMisaligned,
            5 => ExceptionType::LoadAccessFault,
            6 => ExceptionType::StoreAmoAddressMisaligned,
            7 => ExceptionType::StoreAmoAccessFault,
            8 => ExceptionType::EnvCallU,
            9 => ExceptionType::EnvCallS,
            12 => ExceptionType::InsnPageFault,
            13 => ExceptionType::LoadPageFault,
            15 => ExceptionType::StoreAmoPageFault,
            o => ExceptionType::Other(o),
        }
    }

    /// The cause number of the exception kind.
    pub fn code(&self) -> (r: usize)
        ensures
            r == exception_code(*self),
    {
        match self {
            ExceptionType::InsnAddressMisaligned => 0,
            ExceptionType::InsnAccessFault => 1,
            ExceptionType::IllegalInsn => 2,
            ExceptionType::Breakpoint => 3,
            ExceptionType::LoadAddressMisaligned => 4,
            ExceptionType::LoadAccessFault => 5,
            ExceptionType::StoreAmoAddressMisaligned => 6,
            ExceptionType::StoreAmoAccessFault => 7,
            ExceptionType::EnvCallU => 8,
            ExceptionType::EnvCallS => 9,
            ExceptionType::InsnPageFault => 12,
            ExceptionType::LoadPageFault => 13,
            ExceptionType::StoreAmoPageFault => 15,
            ExceptionType::Other(v) => *v,
        }
    }
}

/// Kinds of interrupt, by cause number; `Other` for the rest.
#[derive(Clone, Copy, Debug, PartialEq, Eq, Structural)]
pub enum InterruptType {
    SSoftware,
    MSoftware,
    STimer,
    MTimer,
    SExternal,
    MExternal,
    Other(usize),
}

/// The cause number of an interrupt kind.
pub open spec fn interrupt_code(i: InterruptType) -> usize {
    match i {
        InterruptType::SSoftware => 1,
        InterruptType::MSoftware => 3,
        InterruptType::STimer => 5,
        InterruptType::MTimer => 7,
        InterruptType::SExternal => 9,
        InterruptType::MExternal => 11,
        InterruptType::Other(v) => v,
    }
}

/// Is `v` the cause number of a named interrupt kind?
pub open spec fn known_interrupt(v: usize) -> bool {
    v == 1 || v == 3 || v == 5 || v == 7 || v == 9 || v == 11
}

impl InterruptType {
    /// The interrupt kind with cause number `v`.
    pub fn from_code(v: usize) -> (r: InterruptType)
        ensures
            interrupt_code(r) == v,
            r is Other <==> !known_interrupt(v),
    {
        match v {
            1 => InterruptType::SSoftware,
            3 => InterruptType::MSoftware,
            5 => InterruptType::STimer,
            7 => InterruptType::MTimer,
            9 => InterruptType::SExternal,
            11 => InterruptType::MExternal,
            o => InterruptType::Other(o),
        }
    }
}

/// The cause of a trap.
#[derive(Clone, Copy, Debug, PartialEq, Eq, Structural)]
pub enum SCause {
    Exception(ExceptionType),
    Interrupt(InterruptType),
}

impl SCause {
    /// Decodes a cause register value: the top bit tells an interrupt from
    /// an exception, the other bits give the cause number.
    pub fn from_bits(v: usize) -> (r: SCause)
        ensures
            v > isize::MAX ==> r is Interrupt && interrupt_code(r->Interrupt_0) == v - isize::MAX - 1,
            v <= isize::MAX ==> r is Exception && exception_code(r->Exception_0) == v,
    {
        if v > isize::MAX as usize {
            SCause::Interrupt(InterruptType::from_code(v - (isize::MAX as usize) - 1))
        } else {
            SCause::Exception(ExceptionType::from_code(v))
        }
    }
}

} // verus!
