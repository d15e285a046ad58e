use os_kernel::config::{TRAMPOLINE_VPN, TRAP_CONTEXT_VPN};
use os_kernel::elf::{parse_elf_header, parse_program_header};
use os_kernel::fs::FileObj;
use os_kernel::kernel::{ExitOutcome, Kernel};
use os_kernel::memory_set::KernelLayout;
use os_kernel::page_table::{read_user_bytes, write_user_bytes};
use os_kernel::syscall_io::IoOutcome;
use os_kernel::task::{SignalAction, TaskStatus, SIGKILL, SIGUSR1};
use os_kernel::trap::{TrapCause, TrapOutcome};

fn layout() -> KernelLayout {
    KernelLayout {
        stext: 0x8020_0000,
        etext: 0x8020_2000,
        srodata: 0x8020_2000,
        erodata: 0x8020_3000,
        sdata: 0x8020_3000,
        edata: 0x8020_4000,
        sbss_with_stack: 0x8020_4000,
        ebss: 0x8020_5000,
        ekernel: 0x8020_5000,
        strampoline: 0x8020_1000,
        memory_end: 0x8030_0000,
        mmio: vec![(0x1000_1000, 0x1000)],
    }
}

fn put16(v: &mut Vec<u8>, x: u16) {
    v.extend_from_slice(&x.to_le_bytes());
}
fn put32(v: &mut Vec<u8>, x: u32) {
    v.extend_from_slice(&x.to_le_bytes());
}
fn put64(v: &mut Vec<u8>, x: u64) {
    v.extend_from_slice(&x.to_le_bytes());
}

/// A 64-bit RISC-V executable with one loadable segment holding `code` at
/// 0x10000, entry at its start.
fn elf_image(code: &[u8]) -> Vec<u8> {
    let mut v = vec![0x7f, b'E', b'L', b'F', 2, 1, 1, 0, 0, 0, 0, 0, 0, 0, 0, 0];
    put16(&mut v, 2);
    put16(&mut v, 0xf3);
    put32(&mut v, 1);
    put64(&mut v, 0x10000);
    put64(&mut v, 64);
    put64(&mut v, 0);
    put32(&mut v, 0);
    put16(&mut v, 64);
    put16(&mut v, 56);
    put16(&mut v, 1);
    put16(&mut v, 64);
    put16(&mut v, 0);
    put16(&mut v, 0);
    assert_eq!(v.len(), 64);
    put32(&mut v, 1);
    put32(&mut v, 5);
    put64(&mut v, 120);
    put64(&mut v, 0x10000);
    put64(&mut v, 0x10000);
    put64(&mut v, code.len() as u64);
    put64(&mut v, code.len() as u64);
    put64(&mut v, 0x1000);
    assert_eq!(v.len(), 120);
    v.extend_from_slice(code);
    v
}

fn boot() -> Kernel {
    let mut k = Kernel::new(&layout(), 0x80400, 0x80400 + 1024, 0x8020_0100, 0x8020_0200, 0x22).expect("boot");
    assert!(k.add_initproc(&elf_image(&[0x13, 0, 0, 0])));
    k
}

/// Stores `data` in the user memory of task `pid` at `va`.
fn poke(k: &mut Kernel, pid: usize, va: u64, data: &[u8]) {
    let pt = &k.tasks[pid].as_ref().unwrap().memory_set.page_table;
    assert!(write_user_bytes(pt, &mut k.frames, va, data));
}

/// Reads `len` bytes of the user memory of task `pid` at `va`.
fn peek(k: &Kernel, pid: usize, va: u64, len: u64) -> Vec<u8> {
    let pt = &k.tasks[pid].as_ref().unwrap().memory_set.page_table;
    read_user_bytes(pt, &k.frames, va, len).unwrap()
}

fn stack_buf(k: &Kernel, pid: usize) -> u64 {
    k.tasks[pid].as_ref().unwrap().base_size - 256
}

fn status(k: &Kernel, pid: usize) -> TaskStatus {
    k.tasks[pid].as_ref().unwrap().task_status
}

#[test]
fn new_task_maps_trap_context_and_trampoline() {
    let mut k = boot();
    let init = k.initproc;
    let t = k.tasks[init].as_ref().unwrap();
    let trap = t.memory_set.translate(TRAP_CONTEXT_VPN).unwrap();
    assert_eq!(trap.ppn(), t.trap_cx_ppn);
    assert!(trap.readable() && trap.writable());
    assert_eq!(trap.flags() & os_kernel::page_table::PTE_U, 0);
    let tr_user = t.memory_set.translate(TRAMPOLINE_VPN).unwrap();
    let tr_kernel = k.kernel_space.translate(TRAMPOLINE_VPN).unwrap();
    assert_eq!(tr_user, tr_kernel);
    assert_eq!(tr_user.ppn(), 0x80201);
    assert_eq!(t.trap_cx.sepc, 0x10000);
    assert_eq!(t.trap_cx.x[2], t.base_size);
    assert_eq!(t.trap_cx.sstatus & 0x100, 0);
    assert_eq!(t.fd_table, vec![Some(FileObj::Stdin), Some(FileObj::Stdout), Some(FileObj::Stdout)]);
    assert_eq!(peek(&k, init, 0x10000, 4), vec![0x13, 0, 0, 0]);
    assert_eq!(k.run_next(), Some(init));
    assert_eq!(status(&k, init), TaskStatus::Running);
    let second = k.new_task(&elf_image(&[1, 2, 3])).unwrap();
    let t2 = k.tasks[second].as_ref().unwrap();
    assert_eq!(t2.memory_set.translate(TRAMPOLINE_VPN).unwrap(), tr_kernel);
    assert_ne!(t2.trap_cx_ppn, k.tasks[init].as_ref().unwrap().trap_cx_ppn);
}

#[test]
fn hello_world_child_is_reaped_by_initproc() {
    let mut k = boot();
    let init = k.initproc;
    assert_eq!(k.run_next(), Some(init));
    let child = k.sys_fork();
    assert!(child > 0);
    let child = child as usize;
    k.suspend_and_run_next();
    assert_eq!(k.run_next(), Some(child));
    let buf = stack_buf(&k, child);
    poke(&mut k, child, buf, b"Hello\n");
    match k.sys_write(1, buf, 6) {
        IoOutcome::Done(n) => assert_eq!(n, 6),
        other => panic!("unexpected {:?}", other),
    }
    assert_eq!(k.console_out, b"Hello\n".to_vec());
    assert_eq!(k.sys_exit(0), ExitOutcome::Switched);
    assert_eq!(status(&k, child), TaskStatus::Zombie);
    assert_eq!(k.run_next(), Some(init));
    let code_at = stack_buf(&k, init);
    assert_eq!(k.sys_waitpid(-1, code_at), child as i64);
    assert_eq!(peek(&k, init, code_at, 4), 0i32.to_le_bytes().to_vec());
    assert!(k.tasks[child].is_none());
    assert_eq!(k.sys_waitpid(-1, code_at), -1);
}

#[test]
fn pipe_between_parent_and_child() {
    let mut k = boot();
    let init = k.initproc;
    k.run_next();
    let at = stack_buf(&k, init);
    assert_eq!(k.sys_pipe(at), 0);
    let words = peek(&k, init, at, 16);
    let r = u64::from_le_bytes(words[0..8].try_into().unwrap()) as usize;
    let w = u64::from_le_bytes(words[8..16].try_into().unwrap()) as usize;
    assert_eq!((r, w), (3, 4));
    let child = k.sys_fork() as usize;
    k.suspend_and_run_next();
    assert_eq!(k.run_next(), Some(child));
    assert_eq!(k.sys_close(r), 0);
    let buf = stack_buf(&k, child);
    poke(&mut k, child, buf, b"ping");
    assert!(matches!(k.sys_write(w, buf, 4), IoOutcome::Done(4)));
    assert_eq!(k.sys_exit(0), ExitOutcome::Switched);
    assert_eq!(k.run_next(), Some(init));
    assert_eq!(k.sys_close(w), 0);
    let dst = stack_buf(&k, init) + 64;
    assert!(matches!(k.sys_read(r, dst, 4), IoOutcome::Done(4)));
    assert_eq!(peek(&k, init, dst, 4), b"ping".to_vec());
    assert!(matches!(k.sys_read(r, dst, 4), IoOutcome::Done(0)));
}

#[test]
fn pipe_read_blocks_while_a_writer_lives() {
    let mut k = boot();
    let init = k.initproc;
    k.run_next();
    let at = stack_buf(&k, init);
    assert_eq!(k.sys_pipe(at), 0);
    assert!(matches!(k.sys_read(3, at, 4), IoOutcome::Blocked));
    assert_eq!(k.sys_close(4), 0);
    assert!(matches!(k.sys_read(3, at, 4), IoOutcome::Done(0)));
}

#[test]
fn waitpid_reports_running_then_exit_code() {
    let mut k = boot();
    let init = k.initproc;
    k.run_next();
    let child = k.sys_fork() as usize;
    let at = stack_buf(&k, init);
    assert_eq!(k.sys_waitpid(-1, at), -2);
    assert_eq!(k.sys_waitpid(child as i64 + 7, at), -1);
    k.suspend_and_run_next();
    assert_eq!(k.run_next(), Some(child));
    k.sys_exit(42);
    assert_eq!(k.run_next(), Some(init));
    assert_eq!(k.sys_waitpid(-1, at), child as i64);
    assert_eq!(peek(&k, init, at, 4), 42i32.to_le_bytes().to_vec());
}

#[test]
fn illegal_instruction_kills_only_the_offender() {
    let mut k = boot();
    let init = k.initproc;
    k.run_next();
    let child = k.sys_fork() as usize;
    k.suspend_and_run_next();
    assert_eq!(k.run_next(), Some(child));
    let out = k.trap_handler(TrapCause::IllegalInstruction, 0);
    assert!(matches!(out, TrapOutcome::Switch));
    assert_eq!(status(&k, child), TaskStatus::Zombie);
    assert_eq!(k.tasks[child].as_ref().unwrap().exit_code, -3);
    assert_eq!(k.current, None);
    assert_eq!(k.run_next(), Some(init));
    assert_eq!(status(&k, init), TaskStatus::Running);
}

#[test]
fn memory_fault_exits_with_minus_two() {
    let mut k = boot();
    k.run_next();
    let child = k.sys_fork() as usize;
    k.suspend_and_run_next();
    k.run_next();
    k.trap_handler(TrapCause::LoadPageFault, 0);
    assert_eq!(k.tasks[child].as_ref().unwrap().exit_code, -2);
}

#[test]
fn sigkill_ends_the_target_at_its_next_check() {
    let mut k = boot();
    let init = k.initproc;
    k.run_next();
    let b = k.sys_fork() as usize;
    assert_eq!(k.sys_kill(b, SIGKILL as i32), 0);
    assert_eq!(k.sys_kill(b, SIGKILL as i32), -1);
    k.suspend_and_run_next();
    assert_eq!(k.run_next(), Some(b));
    k.after_trap();
    assert_eq!(status(&k, b), TaskStatus::Zombie);
    assert_eq!(k.run_next(), Some(init));
    let at = stack_buf(&k, init);
    assert_eq!(k.sys_waitpid(-1, at), b as i64);
}

#[test]
fn timer_slices_alternate_between_two_tasks() {
    let mut k = boot();
    let a = k.initproc;
    let b = k.new_task(&elf_image(&[0x13, 0, 0, 0])).unwrap();
    k.add_task(b);
    let mut seen = Vec::new();
    for tick in 0..20u64 {
        let p = k.run_next().unwrap();
        seen.push(p);
        match k.trap_handler(TrapCause::SupervisorTimer, tick * 1000) {
            TrapOutcome::SetTimer(d) => assert_eq!(d, tick * 1000 + 125_000),
            other => panic!("unexpected {:?}", other),
        }
    }
    assert_eq!(seen[0], a);
    assert_eq!(seen[1], b);
    k.run_next();
    let running = [a, b].iter().filter(|p| status(&k, **p) == TaskStatus::Running).count();
    assert_eq!(running, 1);
    for w in seen.windows(2) {
        assert_ne!(w[0], w[1]);
    }
}

#[test]
fn sigaction_twice_restores_the_action() {
    let mut k = boot();
    let init = k.initproc;
    k.run_next();
    let new_at = stack_buf(&k, init);
    let old_at = new_at + 32;
    let spare = new_at + 64;
    let mut act = Vec::new();
    act.extend_from_slice(&0x1234u64.to_le_bytes());
    act.extend_from_slice(&0x8u32.to_le_bytes());
    act.extend_from_slice(&[0, 0, 0, 0]);
    poke(&mut k, init, new_at, &act);
    let before = k.tasks[init].as_ref().unwrap().signal_actions.clone();
    assert_eq!(k.sys_sigaction(SIGUSR1 as i32, new_at, old_at), 0);
    assert_eq!(k.tasks[init].as_ref().unwrap().signal_actions[SIGUSR1 as usize], SignalAction { handler: 0x1234, mask: 8 });
    assert_eq!(k.sys_sigaction(SIGUSR1 as i32, old_at, spare), 0);
    assert_eq!(k.tasks[init].as_ref().unwrap().signal_actions, before);
    assert_eq!(k.sys_sigaction(SIGKILL as i32, new_at, old_at), -1);
    assert_eq!(k.sys_sigaction(SIGUSR1 as i32, 0, old_at), -1);
    assert_eq!(k.sys_sigaction(40, new_at, old_at), -1);
}

#[test]
fn user_signal_enters_handler_and_sigreturn_restores() {
    let mut k = boot();
    let init = k.initproc;
    k.run_next();
    let at = stack_buf(&k, init);
    let mut act = Vec::new();
    act.extend_from_slice(&0x2000u64.to_le_bytes());
    act.extend_from_slice(&[0u8; 8]);
    poke(&mut k, init, at, &act);
    assert_eq!(k.sys_sigaction(SIGUSR1 as i32, at, at + 32), 0);
    let saved = k.tasks[init].as_ref().unwrap().trap_cx;
    assert_eq!(k.sys_kill(init, SIGUSR1 as i32), 0);
    k.check_pending_signals();
    let t = k.tasks[init].as_ref().unwrap();
    assert_eq!(t.trap_cx.sepc, 0x2000);
    assert_eq!(t.trap_cx.x[10], SIGUSR1 as u64);
    assert_eq!(t.handling_sig, SIGUSR1 as i64);
    assert_eq!(t.signals, 0);
    assert_eq!(k.sys_sigreturn(), saved.x[10] as i64);
    let t = k.tasks[init].as_ref().unwrap();
    assert_eq!(t.trap_cx.sepc, saved.sepc);
    assert_eq!(t.handling_sig, -1);
}

#[test]
fn fork_copies_memory_without_sharing_it() {
    let mut k = boot();
    let init = k.initproc;
    k.run_next();
    let at = stack_buf(&k, init);
    poke(&mut k, init, at, b"same");
    let child = k.sys_fork() as usize;
    assert_eq!(peek(&k, child, at, 4), b"same".to_vec());
    assert_eq!(peek(&k, child, 0x10000, 4), peek(&k, init, 0x10000, 4));
    poke(&mut k, child, at, b"diff");
    assert_eq!(peek(&k, init, at, 4), b"same".to_vec());
    let pt = k.tasks[init].as_ref().unwrap();
    let ct = k.tasks[child].as_ref().unwrap();
    assert_eq!(ct.trap_cx.x[10], 0);
    assert_eq!(ct.parent, Some(init));
    assert_eq!(pt.children, vec![child]);
    assert_ne!(
        pt.memory_set.translate(0x10).unwrap().ppn(),
        ct.memory_set.translate(0x10).unwrap().ppn()
    );
}

#[test]
fn exec_lays_out_arguments() {
    let mut k = boot();
    let init = k.initproc;
    k.run_next();
    let args = vec![b"ab".to_vec(), b"c".to_vec()];
    assert_eq!(k.exec_current(&elf_image(&[7, 7, 7, 7]), &args), 2);
    let t = k.tasks[init].as_ref().unwrap();
    let argv = t.trap_cx.x[11];
    assert_eq!(t.trap_cx.x[10], 2);
    assert_eq!(argv, t.base_size - 24);
    assert_eq!(t.trap_cx.x[2] % 8, 0);
    let words = peek(&k, init, argv, 24);
    let first = u64::from_le_bytes(words[0..8].try_into().unwrap());
    let second = u64::from_le_bytes(words[8..16].try_into().unwrap());
    let last = u64::from_le_bytes(words[16..24].try_into().unwrap());
    assert_eq!(last, 0);
    assert_eq!(peek(&k, init, first, 3), b"ab\0".to_vec());
    assert_eq!(peek(&k, init, second, 2), b"c\0".to_vec());
    assert_eq!(peek(&k, init, 0x10000, 4), vec![7, 7, 7, 7]);
    assert_eq!(k.exec_current(&[1, 2, 3], &args), -1);
    let old_frames: Vec<u64> = {
        let ms = &k.tasks[init].as_ref().unwrap().memory_set;
        let mut v = ms.page_table.frames.clone();
        for a in ms.areas.iter() {
            v.extend_from_slice(&a.frames);
        }
        v
    };
    assert_eq!(k.exec_current(&elf_image(&[9, 9, 9, 9]), &vec![]), 0);
    for f in old_frames {
        assert!(!k.frames.is_out(f));
    }
}

#[test]
fn exit_of_first_task_shuts_down() {
    let mut k = boot();
    k.run_next();
    assert_eq!(k.sys_exit(3), ExitOutcome::Shutdown(true));
    let mut k = boot();
    k.run_next();
    assert_eq!(k.sys_exit(0), ExitOutcome::Shutdown(false));
}

#[test]
fn descriptors_open_close_dup() {
    let mut k = boot();
    let init = k.initproc;
    k.run_next();
    assert_eq!(k.sys_close(0), 0);
    assert_eq!(k.sys_close(0), -1);
    assert_eq!(k.sys_close(99), -1);
    assert_eq!(k.sys_dup(1), 0);
    assert_eq!(k.tasks[init].as_ref().unwrap().fd_table[0], Some(FileObj::Stdout));
    assert_eq!(k.sys_dup(7), -1);
    assert_eq!(k.sys_open(Some(5), 0x1 | 0x200), 3);
    assert_eq!(k.tasks[init].as_ref().unwrap().fd_table[3], Some(FileObj::Inode(0)));
    assert!(!k.files[0].readable && k.files[0].writable);
    assert_eq!(k.sys_open(Some(5), 0x8), -1);
    assert_eq!(k.sys_open(None, 0), -1);
    let at = stack_buf(&k, init);
    poke(&mut k, init, at, b"xy");
    match k.sys_write(3, at, 2) {
        IoOutcome::FileWrite { file, inode, offset, data } => {
            assert_eq!((file, inode, offset), (0, 5, 0));
            assert_eq!(data, b"xy".to_vec());
        }
        other => panic!("unexpected {:?}", other),
    }
    assert_eq!(k.complete_file_write(0, 2), 2);
    assert_eq!(k.files[0].offset, 2);
    assert!(matches!(k.sys_read(3, at, 2), IoOutcome::Done(-1)));
    assert!(matches!(k.sys_read(1, at, 1), IoOutcome::Done(-1)));
}

#[test]
fn console_read_waits_for_input_and_rejects_wide_reads() {
    let mut k = boot();
    let init = k.initproc;
    k.run_next();
    let at = stack_buf(&k, init);
    assert!(matches!(k.sys_read(0, at, 1), IoOutcome::Blocked));
    k.console_in.push(b'q');
    assert!(matches!(k.sys_read(0, at, 1), IoOutcome::Done(1)));
    assert_eq!(peek(&k, init, at, 1), vec![b'q']);
    assert!(k.console_in.is_empty());
    let child = k.sys_fork() as usize;
    k.suspend_and_run_next();
    k.run_next();
    assert!(matches!(k.sys_read(0, at, 2), IoOutcome::Killed));
    assert_eq!(k.tasks[child].as_ref().unwrap().exit_code, -9);
}

#[test]
fn syscall_dispatch_through_trap_handler() {
    let mut k = boot();
    let init = k.initproc;
    k.run_next();
    {
        let t = k.tasks[init].as_mut().unwrap();
        t.trap_cx.x[17] = 172;
    }
    let sepc = k.tasks[init].as_ref().unwrap().trap_cx.sepc;
    assert!(matches!(k.trap_handler(TrapCause::UserEnvCall, 0), TrapOutcome::Resume));
    let t = k.tasks[init].as_ref().unwrap();
    assert_eq!(t.trap_cx.x[10], init as u64);
    assert_eq!(t.trap_cx.sepc, sepc + 4);
    {
        let t = k.tasks[init].as_mut().unwrap();
        t.trap_cx.x[17] = 169;
    }
    k.trap_handler(TrapCause::UserEnvCall, 250_000);
    assert_eq!(k.tasks[init].as_ref().unwrap().trap_cx.x[10], 20);
    {
        let t = k.tasks[init].as_mut().unwrap();
        t.trap_cx.x[17] = 9999;
    }
    k.trap_handler(TrapCause::UserEnvCall, 0);
    assert_eq!(k.tasks[init].as_ref().unwrap().trap_cx.x[10], u64::MAX);
}

#[test]
fn sigprocmask_returns_old_mask() {
    let mut k = boot();
    let init = k.initproc;
    assert_eq!(k.sys_sigprocmask(3), -1);
    k.run_next();
    assert_eq!(k.sys_sigprocmask(0b1010), 0);
    assert_eq!(k.sys_sigprocmask(0), 0b1010);
    assert_eq!(k.sys_getpid(), init as i64);
}

#[test]
fn stop_freezes_until_continue() {
    let mut k = boot();
    let init = k.initproc;
    k.run_next();
    assert_eq!(k.sys_kill(init, os_kernel::task::SIGSTOP as i32), 0);
    assert!(k.handle_signals());
    assert_eq!(k.current, None);
    assert_eq!(k.run_next(), Some(init));
    assert_eq!(k.sys_kill(init, os_kernel::task::SIGCONT as i32), 0);
    assert!(!k.handle_signals());
    assert!(!k.tasks[init].as_ref().unwrap().frozen);
}

#[test]
fn elf_reading_matches_xmas_elf_and_ignores_alignment() {
    let img = elf_image(&[1, 2, 3, 4, 5]);
    let h = parse_elf_header(&img).unwrap();
    let x = xmas_elf::ElfFile::new(&img).unwrap();
    assert_eq!(h.entry, x.header.pt2.entry_point());
    assert_eq!(h.ph_count, x.header.pt2.ph_count());
    assert_eq!(h.ph_offset, x.header.pt2.ph_offset());
    let ph = parse_program_header(&img, &h, 0).unwrap();
    let xph = x.program_header(0).unwrap();
    assert_eq!(ph.vaddr, xph.virtual_addr());
    assert_eq!(ph.file_size, xph.file_size());
    assert_eq!(ph.offset, xph.offset());
    assert!(ph.is_load && ph.readable && ph.executable && !ph.writable);
    assert!(parse_program_header(&img, &h, 1).is_none());
    let mut shifted = vec![0u8];
    shifted.extend_from_slice(&img);
    assert_eq!(parse_elf_header(&shifted[1..]), Some(h));
    assert_eq!(parse_program_header(&shifted[1..], &h, 0), Some(ph));
    let mut bad = img.clone();
    bad[0] = 0;
    assert!(parse_elf_header(&bad).is_none());
    assert!(parse_elf_header(&img[..40]).is_none());
}

#[test]
fn exec_refuses_arguments_that_do_not_fit() {
    let mut k = boot();
    k.run_next();
    let many: Vec<Vec<u8>> = (0..0x1000).map(|_| b"x".to_vec()).collect();
    assert_eq!(k.exec_current(&elf_image(&[1, 1, 1, 1]), &many), -1);
    let big = vec![vec![b'y'; 9000]];
    assert_eq!(k.exec_current(&elf_image(&[1, 1, 1, 1]), &big), -1);
}
