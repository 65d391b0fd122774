use riscv_paging::addr::{PageSize, PhysAddr, VirtAddr};
use riscv_paging::paging::{MapError, PageTable, UnmapError};
use riscv_paging::phys::PhysMem;
use riscv_paging::pte::{PteAttrs, ATTR_R, ATTR_V, ATTR_W, ATTR_X};

const BASE: usize = 0x8000_0000;

fn setup(frames: usize) -> (PhysMem, PageTable) {
    let mut mem = PhysMem::new(PhysAddr(BASE), frames);
    for k in (0..frames).rev() {
        mem.free(PhysAddr(BASE + k * 0x1000));
    }
    let root = PageTable::alloc_table(&mut mem).unwrap();
    (mem, root)
}

fn rw() -> PteAttrs {
    PteAttrs::from_bits_truncate(ATTR_R | ATTR_W)
}

#[test]
fn map_then_resolve_gives_the_frame_and_attributes() {
    let (mut mem, root) = setup(16);
    assert_eq!(root.get_base(), PhysAddr(BASE));
    let pa = PhysAddr(0x9000_0000);
    let va = VirtAddr(0x4000_1000);
    assert_eq!(root.virt_map_one(&mut mem, pa, va, PageSize::Page4k, rw()), Ok(()));
    let walk = root.resolve(&mem, va).unwrap();
    let leaf = walk.last_level.unwrap();
    let (ppn, attrs) = leaf.decompose();
    assert_eq!(ppn, 0x9000_0000 >> 12);
    assert_eq!(attrs.bits(), ATTR_R | ATTR_W | ATTR_V);
    assert_eq!(walk.parts[0], Some(leaf));
    assert!(walk.parts[1].unwrap().is_valid());
    assert!(!walk.parts[1].unwrap().is_leaf());
    assert!(walk.parts[2].unwrap().is_valid());
}

#[test]
fn resolve_of_unmapped_address_reports_no_leaf() {
    let (mem, root) = setup(4);
    let walk = root.resolve(&mem, VirtAddr(0x1234_5000)).unwrap();
    assert_eq!(walk.last_level, None);
    assert_eq!(walk.parts[2].unwrap().0, 0);
    assert_eq!(walk.parts[1], None);
    assert_eq!(walk.parts[0], None);
}

#[test]
fn mapping_twice_is_refused_and_keeps_the_first_mapping() {
    let (mut mem, root) = setup(16);
    let va = VirtAddr(0x4000_1000);
    root.virt_map_one(&mut mem, PhysAddr(0x9000_0000), va, PageSize::Page4k, rw()).unwrap();
    let before = root.resolve(&mem, va).unwrap();
    let free_before = mem.free_count();
    assert_eq!(
        root.virt_map_one(&mut mem, PhysAddr(0x9100_0000), va, PageSize::Page4k, rw()),
        Err(MapError::AlreadyMapped)
    );
    let after = root.resolve(&mem, va).unwrap();
    assert_eq!(after.last_level, before.last_level);
    assert_eq!(after.parts, before.parts);
    assert_eq!(mem.free_count(), free_before);
}

#[test]
fn unmap_removes_the_leaf_and_second_unmap_fails() {
    let (mut mem, root) = setup(16);
    let va = VirtAddr(0x4000_1000);
    root.virt_map_one(&mut mem, PhysAddr(0x9000_0000), va, PageSize::Page4k, rw()).unwrap();
    assert_eq!(root.virt_unmap_one(&mut mem, va), Ok(()));
    assert_eq!(root.resolve(&mem, va).unwrap().last_level, None);
    assert_eq!(root.virt_unmap_one(&mut mem, va), Err(UnmapError::NotMapped));
}

#[test]
fn unmap_of_never_mapped_address_fails() {
    let (mut mem, root) = setup(4);
    assert_eq!(root.virt_unmap_one(&mut mem, VirtAddr(0x1000)), Err(UnmapError::NotMapped));
}

#[test]
fn one_gib_page_writes_one_root_entry_and_no_table() {
    let (mut mem, root) = setup(8);
    let free_before = mem.free_count();
    let va = VirtAddr(0x4000_0000);
    let pa = PhysAddr(0xc000_0000);
    assert_eq!(root.virt_map_one(&mut mem, pa, va, PageSize::Page1g, rw()), Ok(()));
    assert_eq!(mem.free_count(), free_before);
    let e = root.entry(&mem, 1);
    assert_eq!(e.decompose().0, 0xc000_0000 >> 12);
    assert!(e.is_leaf());
    for k in 0..512u16 {
        if k != 1 {
            assert_eq!(root.entry(&mem, k).0, 0);
        }
    }
    let walk = root.resolve(&mem, VirtAddr(0x4123_4567)).unwrap();
    assert_eq!(walk.last_level, Some(e));
    assert_eq!(walk.parts[1], None);
}

#[test]
fn four_kib_page_in_empty_table_takes_two_tables() {
    let (mut mem, root) = setup(8);
    let free_before = mem.free_count();
    root.virt_map_one(&mut mem, PhysAddr(0x9000_0000), VirtAddr(0x4000_1000), PageSize::Page4k, rw())
        .unwrap();
    assert_eq!(mem.free_count(), free_before - 2);
    // a neighbour in the same last-level table needs no new table
    root.virt_map_one(&mut mem, PhysAddr(0x9000_1000), VirtAddr(0x4000_2000), PageSize::Page4k, rw())
        .unwrap();
    assert_eq!(mem.free_count(), free_before - 2);
}

#[test]
fn two_mib_page_and_conflict_below_it() {
    let (mut mem, root) = setup(8);
    let x = PteAttrs::from_bits_truncate(ATTR_R | ATTR_X);
    root.virt_map_one(&mut mem, PhysAddr(0x8040_0000), VirtAddr(0x20_0000), PageSize::Page2m, x).unwrap();
    let walk = root.resolve(&mem, VirtAddr(0x20_5000)).unwrap();
    assert_eq!(walk.last_level.unwrap().decompose().0, 0x8040_0000 >> 12);
    assert_eq!(walk.parts[0], None);
    assert_eq!(
        root.virt_map_one(&mut mem, PhysAddr(0x9000_0000), VirtAddr(0x20_5000), PageSize::Page4k, x),
        Err(MapError::AlreadyMapped)
    );
}

#[test]
fn out_of_memory_while_adding_tables() {
    let (mut mem, root) = setup(2);
    assert_eq!(mem.free_count(), 1);
    assert_eq!(
        root.virt_map_one(&mut mem, PhysAddr(0x9000_0000), VirtAddr(0x1000), PageSize::Page4k, rw()),
        Err(MapError::OOM)
    );
    assert_eq!(mem.free_count(), 0);
    // the table linked before the pool ran dry stays linked
    let walk = root.resolve(&mem, VirtAddr(0x1000)).unwrap();
    assert!(walk.parts[2].unwrap().is_valid());
    assert_eq!(walk.last_level, None);
}

#[test]
fn alloc_one_maps_a_frame_from_the_pool() {
    let (mut mem, root) = setup(4);
    assert_eq!(mem.free_count(), 3);
    assert_eq!(root.virt_alloc_one(&mut mem, VirtAddr(0x7000), rw()), Ok(()));
    assert_eq!(mem.free_count(), 0);
    let leaf = root.resolve(&mem, VirtAddr(0x7000)).unwrap().last_level.unwrap();
    assert_eq!(leaf.decompose().0, ((BASE + 0x1000) >> 12) as u64);
    assert_eq!(root.virt_alloc_one(&mut mem, VirtAddr(0x8000), rw()), Err(MapError::OOM));
}

#[test]
fn range_map_covers_every_page() {
    let (mut mem, root) = setup(8);
    assert_eq!(root.virt_map(&mut mem, PhysAddr(0x9000_0000), VirtAddr(0x10_0000), 0x2001, rw()), Ok(()));
    for k in 0..3usize {
        let leaf = root.resolve(&mem, VirtAddr(0x10_0000 + k * 0x1000)).unwrap().last_level.unwrap();
        assert_eq!(leaf.decompose().0, ((0x9000_0000 + k * 0x1000) >> 12) as u64);
    }
    assert_eq!(root.resolve(&mem, VirtAddr(0x10_3000)).unwrap().last_level, None);
}

#[test]
fn range_map_stops_at_first_failure_without_rollback() {
    let (mut mem, root) = setup(8);
    root.virt_map_one(&mut mem, PhysAddr(0xa000_0000), VirtAddr(0x10_1000), PageSize::Page4k, rw()).unwrap();
    assert_eq!(
        root.virt_map(&mut mem, PhysAddr(0x9000_0000), VirtAddr(0x10_0000), 0x3000, rw()),
        Err(MapError::AlreadyMapped)
    );
    let first = root.resolve(&mem, VirtAddr(0x10_0000)).unwrap().last_level.unwrap();
    assert_eq!(first.decompose().0, 0x9000_0000 >> 12);
    assert_eq!(root.resolve(&mem, VirtAddr(0x10_2000)).unwrap().last_level, None);
}

#[test]
fn range_overflowing_the_address_space_is_refused() {
    let (mut mem, root) = setup(8);
    let free_before = mem.free_count();
    let va = VirtAddr(usize::MAX - 0xfff);
    assert_eq!(root.virt_map(&mut mem, PhysAddr(0x9000_0000), va, 0x2000, rw()), Err(MapError::NoneError));
    assert_eq!(root.virt_map(&mut mem, PhysAddr(0x9000_0000), VirtAddr(0), usize::MAX, rw()), Err(MapError::NoneError));
    assert_eq!(mem.free_count(), free_before);
    assert_eq!(root.resolve(&mem, va).unwrap().last_level, None);
}

#[test]
fn range_with_unaligned_address_is_refused() {
    let (mut mem, root) = setup(8);
    assert_eq!(root.virt_map(&mut mem, PhysAddr(0x9000_0010), VirtAddr(0x1000), 0x1000, rw()), Err(MapError::Unaligned));
    assert_eq!(root.virt_map(&mut mem, PhysAddr(0x9000_0000), VirtAddr(0x1001), 0x1000, rw()), Err(MapError::Unaligned));
}

#[test]
fn high_address_bits_are_ignored_by_the_walk() {
    let (mut mem, root) = setup(8);
    let va = VirtAddr(0xffff_ffc0_0000_1000);
    root.virt_map_one(&mut mem, PhysAddr(0x9000_0000), va, PageSize::Page4k, rw()).unwrap();
    let low = VirtAddr(0x0000_0040_0000_1000);
    assert_eq!(root.resolve(&mem, low).unwrap().last_level, root.resolve(&mem, va).unwrap().last_level);
}

#[test]
fn cleared_table_maps_nothing() {
    let (mut mem, root) = setup(8);
    root.virt_map_one(&mut mem, PhysAddr(0xc000_0000), VirtAddr(0x4000_0000), PageSize::Page1g, rw()).unwrap();
    root.clear(&mut mem);
    assert_eq!(root.resolve(&mem, VirtAddr(0x4000_0000)).unwrap().last_level, None);
    assert_eq!(PageTable::from_raw(PhysAddr(BASE)).get_base(), root.get_base());
}

#[test]
fn last_level_entry_without_read_or_execute_can_be_unmapped() {
    let (mut mem, root) = setup(8);
    let va = VirtAddr(0x4000_1000);
    let w = PteAttrs::from_bits_truncate(ATTR_W);
    assert_eq!(root.virt_map_one(&mut mem, PhysAddr(0x9000_0000), va, PageSize::Page4k, w), Ok(()));
    assert_eq!(root.resolve(&mem, va).unwrap().last_level, None);
    assert_eq!(root.virt_unmap_one(&mut mem, va), Ok(()));
    assert_eq!(root.resolve(&mem, va).unwrap().parts[0].unwrap().0, 0);
    assert_eq!(root.virt_unmap_one(&mut mem, va), Err(UnmapError::NotMapped));
    assert_eq!(root.virt_map_one(&mut mem, PhysAddr(0x9000_0000), va, PageSize::Page4k, rw()), Ok(()));
}
