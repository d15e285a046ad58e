use os_kernel::config::PAGE_SIZE;
use os_kernel::elf::ElfHeaderInfo;
use os_kernel::memory_set::{remap_test, KernelLayout, MemorySet, MAP_R, MAP_W, MAP_X};
use os_kernel::frame_allocator::FrameAllocator;

fn layout() -> KernelLayout {
    KernelLayout {
        stext: 0x8020_0000,
        etext: 0x8020_2000,
        srodata: 0x8020_2000,
        erodata: 0x8020_3000,
        sdata: 0x8020_3000,
        edata: 0x8020_4000,
        sbss_with_stack: 0x8020_4000,
        ebss: 0x8020_5000,
        ekernel: 0x8020_5000,
        strampoline: 0x8020_1000,
        memory_end: 0x8030_0000,
        mmio: vec![(0x1000_1000, 0x1000)],
    }
}

#[test]
fn kernel_map_has_sections_and_passes_remap_test() {
    let mut fa = FrameAllocator::new(0x80400, 0x80400 + 256);
    let ks = MemorySet::new_kernel(&layout(), &mut fa).expect("kernel map");
    assert_eq!(ks.areas.len(), 6);
    assert!(remap_test(&ks, &layout()));
    let text = ks.translate(0x80200).unwrap();
    assert_eq!(text.ppn(), 0x80200);
    assert!(text.readable() && text.executable() && !text.writable());
    let tr = ks.translate(os_kernel::config::TRAMPOLINE_VPN).unwrap();
    assert_eq!(tr.ppn(), 0x80201);
    assert_eq!(tr.flags(), MAP_R | MAP_X | 1);
    let data = ks.translate(0x80203).unwrap();
    assert_eq!(data.flags(), MAP_R | MAP_W | 1);
    let _ = PAGE_SIZE;
}

#[test]
fn elf_header_info_is_plain_data() {
    let h = ElfHeaderInfo { is64: true, entry: 1, ph_offset: 64, ph_entry_size: 56, ph_count: 1 };
    assert_eq!(h, h.clone());
}
