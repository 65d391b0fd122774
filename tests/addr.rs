use riscv_paging::addr::{Addr, PageSize, PhysAddr, VirtAddr, VirtSize};

#[test]
fn test_canonicalize() {
    let addr = 0xff00_0010_1234_5789;
    assert_eq!(VirtAddr(addr).canonicalize().0, 0x0000_0010_1234_5789);
}

#[test]
fn test_rounding() {
    for a in 1..=4096 {
        let va = VirtAddr(a);
        assert_eq!(VirtAddr(4096), va.round_up(PageSize::Page4k).unwrap());
    }

    for a in 1..=2 * 1024 * 1024 {
        let va = VirtAddr(a);
        assert_eq!(
            VirtAddr(2 * 1024 * 1024),
            va.round_up(PageSize::Page2m).unwrap()
        );
    }
}

#[test]
fn round_up_is_idempotent_aligned_and_not_below() {
    let sizes = [PageSize::Page4k, PageSize::Page2m, PageSize::Page1g];
    let addrs = [0usize, 1, 4095, 4096, 4097, 0x1234_5678, 0x20_0001, 0x4000_0000];
    for s in sizes {
        for a in addrs {
            let r = VirtAddr(a).round_up(s).unwrap();
            assert_eq!(r.round_up(s).unwrap(), r);
            assert_eq!(r.0 % s.size(), 0);
            assert!(r.0 >= a);
            assert!(r.0 - a < s.size());
        }
    }
}

#[test]
fn round_up_overflow_is_none() {
    assert_eq!(VirtAddr(usize::MAX).round_up(PageSize::Page4k), None);
    assert_eq!(VirtSize(usize::MAX - 10).round_up(PageSize::Page4k), None);
    assert_eq!(
        VirtAddr(usize::MAX - 4095).round_up(PageSize::Page4k),
        Some(VirtAddr(usize::MAX - 4095))
    );
}

#[test]
fn round_down_and_alignment() {
    assert_eq!(PhysAddr(0x1234_5678).round_down(PageSize::Page4k), Some(PhysAddr(0x1234_5000)));
    assert_eq!(VirtAddr(0x1234_5678).round_down(PageSize::Page2m), Some(VirtAddr(0x1220_0000)));
    assert_eq!(VirtAddr(0x7fff_ffff).round_down(PageSize::Page1g), Some(VirtAddr(0x4000_0000)));
    assert!(VirtAddr(0x20_0000).is_page_aligned(PageSize::Page2m));
    assert!(!VirtAddr(0x20_1000).is_page_aligned(PageSize::Page2m));
    assert!(VirtAddr(0x20_1000).is_page_aligned(PageSize::Page4k));
    assert!(!VirtAddr(0x20_1001).is_page_aligned(PageSize::Page4k));
}

#[test]
fn page_sizes() {
    assert_eq!(PageSize::Page4k.size(), 4096);
    assert_eq!(PageSize::Page2m.size(), 2 * 1024 * 1024);
    assert_eq!(PageSize::Page1g.size(), 1024 * 1024 * 1024);
    assert_eq!(PageSize::Page2m.offs_mask(), 0x1f_ffff);
    assert_eq!(PageSize::Page1g.level(), 2);
}

#[test]
fn parts_reassemble_to_low_39_bits() {
    let v: usize = 0xff00_0010_1234_5789;
    let p = VirtAddr(v).parts();
    assert_eq!(p, [0x145, 0x091, 0x040]);
    let back = ((p[2] as usize) << 30) | ((p[1] as usize) << 21) | ((p[0] as usize) << 12) | (v & 0xfff);
    assert_eq!(back, VirtAddr(v).canonicalize().0);
    assert_eq!(VirtAddr(v).index(2), 0x040);
    assert_eq!(VirtAddr(v).index(0), 0x145);
}

#[test]
fn map_keeps_the_kind_of_address() {
    let pa = PhysAddr(0x1000).map(|a| a + 0x2000);
    assert_eq!(pa, PhysAddr(0x3000));
    let ok: Result<VirtAddr, riscv_paging::paging::MapError> = VirtAddr(8).map_r(|a| Ok(a * 2));
    assert_eq!(ok, Ok(VirtAddr(16)));
    let err = VirtAddr(usize::MAX).map_r(|a| a.checked_add(1).ok_or(riscv_paging::paging::MapError::NoneError));
    assert_eq!(err, Err(riscv_paging::paging::MapError::NoneError));
}
