use riscv_paging::addr::PhysAddr;
use riscv_paging::paging::PageTable;
use riscv_paging::satp::{Satp, TranslationMode};

#[test]
fn satp_fields() {
    let pt = PageTable::from_raw(PhysAddr(0x8020_0000));
    let s = Satp::new(&pt, 7, TranslationMode::Sv39);
    assert_eq!(s.0, (8u64 << 60) | (7u64 << 44) | 0x80200);
    assert_eq!(s.ppn(), 0x80200);
    assert_eq!(s.mode(), TranslationMode::Sv39);
    assert!(s.paging_enabled());
    assert_eq!(s.as_pagetable().unwrap().get_base(), PhysAddr(0x8020_0000));
}

#[test]
fn satp_modes() {
    let pt = PageTable::from_raw(PhysAddr(0x1000));
    let mut s = Satp::new(&pt, 0, TranslationMode::Bare);
    assert_eq!(s.mode(), TranslationMode::Bare);
    assert!(!s.paging_enabled());
    assert!(s.as_pagetable().is_none());
    s.set_mode(TranslationMode::Other(9));
    assert_eq!(s.mode(), TranslationMode::Other(9));
    assert_eq!(s.ppn(), 1);
    assert_eq!(Satp::disabled().mode(), TranslationMode::Bare);
}

#[test]
fn satp_takes_a_44_bit_frame_number() {
    let pt = PageTable::from_raw(PhysAddr(0xfff_ffff_ffff << 12));
    let s = Satp::new(&pt, 0xffff, TranslationMode::Sv39);
    assert_eq!(s.ppn(), 0xfff_ffff_ffff);
    assert_eq!(s.0 >> 44, 0x8_ffff);
}
