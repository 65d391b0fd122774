use riscv_paging::addr::PhysAddr;
use riscv_paging::pte::{Pte, PteAttrs, ATTR_R, ATTR_V, ATTR_W, ATTR_X};

#[test]
fn encode_places_frame_and_flags() {
    let attrs = PteAttrs::from_bits_truncate(ATTR_R | ATTR_W | ATTR_V);
    let pte = Pte::new(PhysAddr(0x8020_3000), attrs);
    assert_eq!(pte.0, (0x80203 << 10) | 0b111);
    let (ppn, a) = pte.decompose();
    assert_eq!(ppn, 0x80203);
    assert_eq!(a, attrs);
    assert!(pte.is_valid());
    assert!(pte.is_leaf());
}

#[test]
fn decode_of_garbage_does_not_trap() {
    let (ppn, a) = Pte(u64::MAX).decompose();
    assert_eq!(ppn, (1u64 << 44) - 1);
    assert_eq!(a.bits(), 0xff);
    assert!(!Pte::unmapped().is_valid());
}

#[test]
fn pointer_entries_are_not_leaves() {
    let p = Pte::new(PhysAddr(0x1000), PteAttrs::from_bits_truncate(ATTR_V));
    assert!(p.is_valid());
    assert!(!p.is_leaf());
    let x = Pte::new(PhysAddr(0x1000), PteAttrs::from_bits_truncate(ATTR_V | ATTR_X));
    assert!(x.is_leaf());
}

#[test]
fn attribute_set_operations() {
    let rw = PteAttrs::from_bits_truncate(ATTR_R).union(PteAttrs::from_bits_truncate(ATTR_W));
    assert_eq!(rw.bits(), 0b110);
    assert!(rw.contains(PteAttrs::from_bits_truncate(ATTR_R)));
    assert!(!rw.contains(PteAttrs::from_bits_truncate(ATTR_R | ATTR_X)));
    assert!(rw.intersects(PteAttrs::from_bits_truncate(ATTR_R | ATTR_X)));
    assert!(!rw.intersects(PteAttrs::from_bits_truncate(ATTR_X)));
    assert_eq!(PteAttrs::empty().bits(), 0);
}
