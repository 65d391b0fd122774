use riscv_paging::addr::{PhysAddr, VirtAddr};
use riscv_paging::loader::{flags_to_riscv, get_total_size, map_executable, ProgramHeader, PF_R, PF_W, PF_X, PT_LOAD};
use riscv_paging::paging::{MapError, PageTable};
use riscv_paging::phys::PhysMem;
use riscv_paging::pte::{PteAttrs, ATTR_R, ATTR_USER, ATTR_V, ATTR_W, ATTR_X};
use riscv_paging::span::Span;

fn seg(p_type: u32, p_flags: u32, p_vaddr: u64, p_memsz: u64) -> ProgramHeader {
    ProgramHeader { p_type, p_flags, p_offset: 0, p_vaddr, p_paddr: 0, p_filesz: 0, p_memsz, p_align: 0x1000 }
}

#[test]
fn elf_flags_become_attributes() {
    assert_eq!(flags_to_riscv(PF_R | PF_X).bits(), ATTR_R | ATTR_X);
    assert_eq!(flags_to_riscv(PF_R | PF_W).bits(), ATTR_R | ATTR_W);
    assert_eq!(flags_to_riscv(0).bits(), 0);
}

#[test]
fn total_size_rounds_each_segment() {
    let hs = [seg(PT_LOAD, PF_R, 0, 1), seg(PT_LOAD, PF_R, 0, 0x1000), seg(PT_LOAD, PF_R, 0, 0x1001)];
    assert_eq!(get_total_size(&hs), 0x4000);
    assert_eq!(get_total_size(&[]), 0);
}

#[test]
fn map_executable_maps_loadable_segments() {
    let base = 0x8000_0000usize;
    let mut mem = PhysMem::new(PhysAddr(base), 16);
    for k in (0..16).rev() {
        mem.free(PhysAddr(base + k * 0x1000));
    }
    let root = PageTable::alloc_table(&mut mem).unwrap();
    let hs = [
        seg(PT_LOAD, PF_R | PF_X, 0x40_0000, 0x1800),
        seg(6, PF_R, 0x50_0000, 0x1000),
        seg(PT_LOAD, PF_R | PF_W, 0x40_2000, 0x10),
    ];
    let virt = Span::new(0x40_0000, 0x40_3000);
    let phys = Span::new(0x9000_0000, 0x9000_3000);
    let user = PteAttrs::from_bits_truncate(ATTR_USER);
    assert_eq!(map_executable(&root, &mut mem, phys, virt, &hs, user), Ok(()));
    let text = root.resolve(&mem, VirtAddr(0x40_1000)).unwrap().last_level.unwrap();
    assert_eq!(text.decompose().0, 0x9000_1000 >> 12);
    assert_eq!(text.decompose().1.bits(), ATTR_R | ATTR_X | ATTR_USER | ATTR_V);
    let data = root.resolve(&mem, VirtAddr(0x40_2000)).unwrap().last_level.unwrap();
    assert_eq!(data.decompose().0, 0x9000_2000 >> 12);
    assert_eq!(data.decompose().1.bits(), ATTR_R | ATTR_W | ATTR_USER | ATTR_V);
    assert_eq!(root.resolve(&mem, VirtAddr(0x50_0000)).unwrap().last_level, None);
    // mapping the same image again stops at its first segment
    assert_eq!(map_executable(&root, &mut mem, phys, virt, &hs, user), Err(MapError::AlreadyMapped));
}
