use riscv_paging::addr::PhysAddr;
use riscv_paging::phys::PhysMem;
use riscv_paging::span::Span;

const BASE: usize = 0x8000_0000;

#[test]
fn allocator_is_lifo() {
    let mut mem = PhysMem::new(PhysAddr(BASE), 4);
    let a = PhysAddr(BASE + 0x1000);
    let b = PhysAddr(BASE + 0x3000);
    mem.free(a);
    mem.free(b);
    assert_eq!(mem.alloc_frame(), Some(b));
    assert_eq!(mem.alloc_frame(), Some(a));
    assert_eq!(mem.alloc_frame(), None);
}

#[test]
fn allocations_never_repeat_and_stop_at_pool_size() {
    let mut mem = PhysMem::new(PhysAddr(BASE), 8);
    for k in 0..8 {
        mem.free(PhysAddr(BASE + k * 0x1000));
    }
    let mut got = vec![];
    for _ in 0..20 {
        if let Some(f) = mem.alloc_frame() {
            assert!(!got.contains(&f));
            got.push(f);
        }
    }
    assert_eq!(got.len(), 8);
    assert_eq!(mem.free_count(), 0);
}

#[test]
fn fresh_memory_is_zeroed() {
    let mut mem = PhysMem::new(PhysAddr(BASE), 2);
    assert_eq!(mem.frame_count(), 2);
    assert_eq!(mem.read_entry((BASE >> 12) as u64 + 1, 511), 0);
    mem.write_entry((BASE >> 12) as u64 + 1, 511, 77);
    assert_eq!(mem.read_entry((BASE >> 12) as u64 + 1, 511), 77);
    mem.zero_frame((BASE >> 12) as u64 + 1);
    assert_eq!(mem.read_entry((BASE >> 12) as u64 + 1, 511), 0);
    // outside the store every word reads as zero and writes are dropped
    mem.write_entry(1, 0, 5);
    assert_eq!(mem.read_entry(1, 0), 0);
}


#[test]
fn pool_setup_skips_reserved_spans() {
    let mut mem = PhysMem::new(PhysAddr(BASE), 8);
    let image = Span::new(BASE + 0x2000, BASE + 0x3001);
    let ramdisk = Span::new(BASE + 0x6800, BASE + 0x6900);
    mem.free_unreserved(PhysAddr(BASE + 0x1000), &[image, ramdisk]);
    let mut got = vec![];
    while let Some(f) = mem.alloc_frame() {
        got.push(f.0 - BASE);
    }
    assert_eq!(got, vec![0x7000, 0x5000, 0x4000, 0x1000]);
}
