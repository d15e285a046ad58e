use os_kernel::address::{page_offset, va_ceil, va_floor, vpn_indices};
use os_kernel::console::{print, Stdin, Stdout, UPSafeCell};
use os_kernel::fs::{open_action, OpenAction, OpenFlags, Pipe, CREATE, RDWR, TRUNC, WRONLY};
use os_kernel::frame_allocator::FrameAllocator;
use os_kernel::log::{color_code, Level};
use os_kernel::memory_set::{MapArea, MapType, MAP_R, MAP_W};
use os_kernel::page_table::{translated_byte_buffer, FrameSlice, PageTable, PageTableEntry, PTE_V};
use os_kernel::syscall::{check_sigaction_error, sys_get_time, sys_shutdown};
use os_kernel::task::{
    action_from_bytes, action_to_bytes, check_error, kernel_stack_position, PidAllocator, SignalAction, TaskContext,
    TrapContext, SIGINT, SIGKILL, SIGSEGV, SIGSTOP,
};
use os_kernel::timer::{close_timer, get_time_ms, get_time_us, set_next_trigger};
use os_kernel::virtio::VirtioHal;

#[test]
fn frames_are_recycled_last_in_first_out_and_zeroed() {
    let mut fa = FrameAllocator::new(100, 103);
    assert_eq!(fa.alloc_frame(), Some(100));
    assert_eq!(fa.alloc_frame(), Some(101));
    fa.write_byte(101, 5, 9);
    assert_eq!(fa.read_byte(101, 5), 9);
    assert!(fa.free_frame(100));
    assert!(fa.free_frame(101));
    assert!(!fa.free_frame(101));
    assert_eq!(fa.alloc_frame(), Some(101));
    assert_eq!(fa.read_byte(101, 5), 0);
    assert_eq!(fa.alloc_frame(), Some(100));
    assert_eq!(fa.alloc_frame(), Some(102));
    assert_eq!(fa.alloc_frame(), None);
}

#[test]
fn pids_are_recycled_and_never_live_twice() {
    let mut p = PidAllocator::new();
    assert_eq!(p.alloc_pid(), Some(0));
    assert_eq!(p.alloc_pid(), Some(1));
    assert_eq!(p.alloc_pid(), Some(2));
    p.dealloc(1);
    assert_eq!(p.recycled, vec![1]);
    assert_eq!(p.alloc_pid(), Some(1));
    assert!(p.recycled.is_empty());
    assert_eq!(p.alloc_pid(), Some(3));
    assert_eq!(p.current, 4);
}

#[test]
fn map_then_translate_then_unmap() {
    let mut fa = FrameAllocator::new(0x1000, 0x1100);
    let mut pt = PageTable::new(&mut fa).unwrap();
    assert_eq!(pt.frames.len(), 1);
    assert!(pt.translate(0x42).is_none());
    assert!(pt.map(0x42, 0x777, MAP_R | MAP_W, &mut fa));
    let e = pt.translate(0x42).unwrap();
    assert_eq!(e.ppn(), 0x777);
    assert_eq!(e.flags(), MAP_R | MAP_W | PTE_V);
    assert!(e.is_valid() && e.readable() && e.writable() && !e.executable());
    assert_eq!(pt.frames.len(), 3);
    assert_eq!(pt.tranlate_va(0x42 * 4096 + 0x10), Some(0x777 * 4096 + 0x10));
    assert!(pt.map(0x43, 0x778, MAP_R, &mut fa));
    assert_eq!(pt.frames.len(), 3);
    pt.unmap(0x42);
    assert!(pt.translate(0x42).is_none());
    assert_eq!(pt.token(), (8u64 << 60) | pt.root_ppn);
}

#[test]
fn page_table_entry_fields() {
    let e = PageTableEntry::new(0xabc, 0b1011);
    assert_eq!(e.bits, (0xabc << 10) | 0b1011);
    assert_eq!(e.ppn(), 0xabc);
    assert_eq!(e.flags(), 0b1011);
    assert!(e.executable() && e.readable() && !e.writable());
    assert!(!PageTableEntry::empty().is_valid());
}

#[test]
fn addresses_and_areas_round_to_pages() {
    assert_eq!(va_floor(0x1fff), 1);
    assert_eq!(va_ceil(0x1001), 2);
    assert_eq!(va_ceil(0x1000), 1);
    assert_eq!(page_offset(0x1234), 0x234);
    assert_eq!(va_floor(0xffff_ffff_ffff_f000), 0x7ff_ffff);
    assert_eq!(vpn_indices(0x7ff_ffff), (511, 511, 511));
    let a = MapArea::new(0x1800, 0x3001, MapType::Framed, MAP_R);
    assert_eq!((a.start, a.end), (1, 4));
    let b = MapArea::new(0x5000, 0x2000, MapType::Identical, MAP_R);
    assert_eq!((b.start, b.end), (5, 5));
}

#[test]
fn byte_buffer_splits_at_page_boundaries() {
    let mut fa = FrameAllocator::new(0x2000, 0x2100);
    let mut pt = PageTable::new(&mut fa).unwrap();
    assert!(pt.map(1, 0x500, MAP_R, &mut fa));
    assert!(pt.map(2, 0x600, MAP_R, &mut fa));
    let v = translated_byte_buffer(&pt, 0x1ff0, 0x20).unwrap();
    assert_eq!(
        v,
        vec![FrameSlice { ppn: 0x500, start: 0xff0, end: 0x1000 }, FrameSlice { ppn: 0x600, start: 0, end: 0x10 }]
    );
    assert!(translated_byte_buffer(&pt, 0x2ff0, 0x20).is_none());
    assert_eq!(translated_byte_buffer(&pt, 0x1000, 0).unwrap(), vec![]);
}

#[test]
fn log_levels() {
    assert_eq!(Level::from_str("error"), Level::Error);
    assert_eq!(Level::from_str("warn"), Level::Warn);
    assert_eq!(Level::from_str("debug"), Level::Debug);
    assert_eq!(Level::from_str("trace"), Level::Trace);
    assert_eq!(Level::from_str("verbose"), Level::Info);
    assert_eq!(Level::Warn.to_str(), "WARN");
    assert_eq!(Level::Trace.to_i32(), 5);
    assert_eq!(Level::Error.to_i32(), 1);
    assert!(Level::Error.enabled_under(&Level::Info));
    assert!(!Level::Debug.enabled_under(&Level::Info));
    assert_eq!(color_code(&Level::Info), 34);
}

#[test]
fn timer_conversions() {
    assert_eq!(get_time_ms(12_500_000), 1000);
    assert_eq!(get_time_us(125), 10);
    assert_eq!(set_next_trigger(10), 125_010);
    assert_eq!(close_timer(), u64::MAX);
    assert_eq!(sys_get_time(25_000), 2);
}

#[test]
fn open_flags_access() {
    assert_eq!(OpenFlags::from_bits(0).unwrap().read_write(), (true, false));
    assert_eq!(OpenFlags::from_bits(WRONLY).unwrap().read_write(), (false, true));
    assert_eq!(OpenFlags::from_bits(RDWR | CREATE).unwrap().read_write(), (true, true));
    assert_eq!(OpenFlags::from_bits(TRUNC).unwrap().read_write(), (true, true));
    assert!(OpenFlags::from_bits(0x8).is_none());
}

#[test]
fn fatal_signals_and_sigaction_checks() {
    assert_eq!(check_error(0), None);
    assert_eq!(check_error(1 << SIGSEGV).unwrap().0, -11);
    assert_eq!(check_error((1 << SIGSEGV) | (1 << SIGINT)).unwrap().0, -2);
    assert_eq!(check_error(1 << SIGKILL).unwrap().0, -9);
    assert!(check_sigaction_error(SIGKILL, 1, 1));
    assert!(check_sigaction_error(SIGSTOP, 1, 1));
    assert!(check_sigaction_error(10, 0, 1));
    assert!(check_sigaction_error(10, 1, 0));
    assert!(!check_sigaction_error(10, 1, 1));
    assert!(!sys_shutdown(0));
    assert!(sys_shutdown(3));
}

#[test]
fn signal_action_bytes_round_trip() {
    let a = SignalAction { handler: 0x1122_3344_5566_7788, mask: 0xdead_beef };
    let b = action_to_bytes(a);
    assert_eq!(b.len(), 16);
    assert_eq!(b[0], 0x88);
    assert_eq!(b[8], 0xef);
    assert_eq!(action_from_bytes(&b), a);
}

#[test]
fn contexts_start_where_they_should() {
    let t = TaskContext::zero_init();
    assert_eq!((t.ra, t.sp), (0, 0));
    let g = TaskContext::goto_trap_return(0x9000, 0x8020_0200);
    assert_eq!((g.ra, g.sp, g.s), (0x8020_0200, 0x9000, [0u64; 12]));
    let cx = TrapContext::app_init_context(0x10000, 0x7000, 0x8000_0000_0000_1234, 0x9000, 0x8020_0100, 0x122);
    assert_eq!(cx.sepc, 0x10000);
    assert_eq!(cx.x[2], 0x7000);
    assert_eq!(cx.sstatus, 0x22);
    assert_eq!(cx.kernel_sp, 0x9000);
    assert_eq!(kernel_stack_position(0), (0xffff_ffff_ffff_d000, 0xffff_ffff_ffff_f000));
    assert_eq!(kernel_stack_position(2), (0xffff_ffff_ffff_7000, 0xffff_ffff_ffff_9000));
}

#[test]
fn pipe_ring_holds_thirty_two_bytes() {
    let mut p = Pipe { buffer: Vec::new(), read_ends: 1, write_ends: 1 };
    assert_eq!(p.write_bytes(&[7u8; 40]), 32);
    assert_eq!(p.available_write(), 0);
    assert_eq!(p.read_bytes(5), vec![7u8; 5]);
    assert_eq!(p.available_read(), 27);
    assert!(!p.all_write_ends_closed());
}

#[test]
fn dma_frames_are_consecutive_and_returned() {
    let mut fa = FrameAllocator::new(0x300, 0x310);
    let mut hal = VirtioHal::new();
    assert_eq!(hal.dma_alloc(&mut fa, 2), Some(0x300 * 4096));
    assert_eq!(hal.queue_frames, vec![0x300, 0x301]);
    assert_eq!(hal.dma_dealloc(&mut fa, 0x300 * 4096, 2), 0);
    assert_eq!(fa.recycled, vec![0x300, 0x301]);
    assert!(hal.queue_frames.is_empty());
    assert_eq!(hal.dma_dealloc(&mut fa, 0x300 * 4096, 2), 0);
    assert_eq!(fa.recycled, vec![0x300, 0x301]);
}

#[test]
fn console_cell_and_std_files() {
    let mut out = Vec::new();
    print(&mut out, b"[kernel] ");
    print(&mut out, b"hi");
    assert_eq!(out, b"[kernel] hi".to_vec());
    let mut c = UPSafeCell::new(5u32);
    *c.exclusive_access() += 1;
    assert_eq!(*c.exclusive_access(), 6);
    assert!(Stdin.readable() && !Stdin.writable());
    assert!(Stdout.writable() && !Stdout.readable());
}

#[test]
fn overlapping_areas_are_refused() {
    let mut fa = FrameAllocator::new(0x4000, 0x4100);
    let mut ms = os_kernel::memory_set::MemorySet::new_bare(&mut fa).unwrap();
    assert!(ms.insert_framed_area(0x10000, 0x13000, MAP_R | MAP_W, &mut fa));
    assert!(!ms.insert_framed_area(0x12000, 0x14000, MAP_R, &mut fa));
    assert!(ms.insert_framed_area(0x13000, 0x14000, MAP_R, &mut fa));
    assert_eq!(ms.areas.len(), 2);
    assert!(ms.remove_area_with_start_vpn(0x10, &mut fa));
    assert!(ms.translate(0x10).is_none());
    assert!(ms.translate(0x13).is_some());
    assert!(!ms.remove_area_with_start_vpn(0x10, &mut fa));
}

#[test]
fn open_actions_follow_the_flags() {
    assert_eq!(open_action(CREATE, false), OpenAction::CreateOrClear);
    assert_eq!(open_action(CREATE | WRONLY, true), OpenAction::CreateOrClear);
    assert_eq!(open_action(0, false), OpenAction::Fail);
    assert_eq!(open_action(TRUNC, true), OpenAction::Truncate);
    assert_eq!(open_action(RDWR, true), OpenAction::Keep);
    assert_eq!(open_action(0x8, true), OpenAction::Fail);
}
