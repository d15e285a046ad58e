//! The trap handler's decisions: what each trap cause does to the current
//! task, the system-call table, and what is left for the caller to do
//! (switch to another task, program the timer, touch the file system).

use vstd::prelude::*;
use crate::config::{PAGE_SIZE, VPN_LIMIT};
use crate::kernel::{lemma_task_replaced, ExitOutcome, Kernel};
use crate::page_table::{spec_user_byte, PageTable};
use crate::frame_allocator::FrameAllocator;
use crate::syscall_io::IoOutcome;
use crate::task::TaskStatus;

verus! {

/// Why the hart trapped into the kernel.
#[derive(Clone, Copy, Debug, PartialEq, Eq, Structural)]
pub enum TrapCause {
    UserEnvCall,
    StoreFault,
    StorePageFault,
    InstructionFault,
    InstructionPageFault,
    LoadFault,
    LoadPageFault,
    IllegalInstruction,
    SupervisorTimer,
    Other,
}

/// Exit code of a task killed by a memory fault.
pub const EXIT_MEMORY_FAULT: i32 = -2;
/// Exit code of a task killed by an illegal instruction.
pub const EXIT_ILLEGAL_INSTRUCTION: i32 = -3;
/// Exit code of a task killed by any other unexpected trap.
pub const EXIT_OTHER_TRAP: i32 = -4;

/// The exit code that trap `cause` kills the task with, if it does.
pub open spec fn spec_fault_code(cause: TrapCause) -> Option<i32> {
    match cause {
        TrapCause::StoreFault | TrapCause::StorePageFault | TrapCause::InstructionFault
        | TrapCause::InstructionPageFault | TrapCause::LoadFault | TrapCause::LoadPageFault => Some(EXIT_MEMORY_FAULT),
        TrapCause::IllegalInstruction => Some(EXIT_ILLEGAL_INSTRUCTION),
        TrapCause::Other => Some(EXIT_OTHER_TRAP),
        _ => None,
    }
}

/// `true` for the numbers of the system calls the kernel serves.
pub open spec fn spec_known_syscall(id: u64) -> bool {
    id == 63 || id == 64 || id == 56 || id == 57 || id == 59 || id == 24 || id == 93 || id == 94
        || id == 124 || id == 129 || id == 134 || id == 135 || id == 139 || id == 169 || id == 172
        || id == 210 || id == 220 || id == 221 || id == 260
}

/// What the caller of the trap handler has to do next.
#[derive(Debug)]
pub enum TrapOutcome {
    /// Return to the current task's user code.
    Resume,
    /// The processor is idle: run the next ready task.
    Switch,
    /// Program the timer for `deadline`, then run the next ready task.
    SetTimer(u64),
    /// Turn the machine off, reporting failure when set.
    Shutdown(bool),
    /// Open the file named `path` with `flags` and finish with `sys_open`.
    Open { path: Vec<u8>, flags: u32 },
    /// Read the program named `path` and finish with `exec_current`.
    Exec { path: Vec<u8>, args: Vec<Vec<u8>> },
    /// Finish a file read or write through the file system.
    File(IoOutcome),
}

/// `r` is the null-terminated string at user address `va`: its bytes
/// without the terminator; or `None` when the bytes run into an address
/// that cannot be reached before a zero.
pub open spec fn spec_cstr(pt: PageTable, fa: FrameAllocator, va: u64, r: Option<Seq<u8>>) -> bool {
    match r {
        Some(s) => {
            &&& forall|i: int| 0 <= i < s.len() ==> #[trigger] spec_user_byte(pt, fa, va + i) == Some(s[i]) && s[i] != 0
            &&& spec_user_byte(pt, fa, va + s.len()) == Some(0u8)
        },
        None => exists|n: int| n >= 0 && (#[trigger] spec_user_byte(pt, fa, va + n)).is_none()
            && forall|i: int| 0 <= i < n ==> (#[trigger] spec_user_byte(pt, fa, va + i)).is_some()
                && spec_user_byte(pt, fa, va + i) != Some(0u8),
    }
}

/// Bytes of the null-terminated string at user address `va`, without the
/// terminator; `None` when it runs into memory that cannot be reached.
pub fn translate_to_str(pt: &PageTable, fa: &FrameAllocator, va: u64) -> (r: Option<Vec<u8>>)
    requires
        pt.wf(),
        fa.wf(),
    ensures
        spec_cstr(*pt, *fa, va, match r { Some(v) => Some(v@), None => None }),
{
    let mut out: Vec<u8> = Vec::new();
    let mut p = va;
    while p < VPN_LIMIT * PAGE_SIZE
        invariant
            pt.wf(),
            fa.wf(),
            va <= p,
            out@.len() == p - va,
            forall|i: int| 0 <= i < out@.len() ==> #[trigger] spec_user_byte(*pt, *fa, va + i) == Some(out@[i]) && out@[i] != 0,
        decreases VPN_LIMIT * PAGE_SIZE - p,
    {
        let b = match crate::page_table::read_user_bytes(pt, fa, p, 1) {
            Some(v) => v[0],
            None => {
                proof {
                    assert(spec_user_byte(*pt, *fa, p + 0).is_none());
                    let n = p - va;
                    assert(spec_user_byte(*pt, *fa, va + n).is_none());
                    assert forall|i: int| 0 <= i < n implies (#[trigger] spec_user_byte(*pt, *fa, va + i)).is_some()
                        && spec_user_byte(*pt, *fa, va + i) != Some(0u8) by {
                        assert(spec_user_byte(*pt, *fa, va + i) == Some(out@[i]));
                    }
                }
                return None;
            }
        };
        proof {
            assert(crate::page_table::spec_user_range_ok(*pt, *fa, p as int, 1));
            assert(spec_user_byte(*pt, *fa, p + 0).is_some());
        }
        if b == 0 {
            return Some(out);
        }
        out.push(b);
        p = p + 1;
    }
    proof {
        let n = p - va;
        assert(spec_user_byte(*pt, *fa, va + n).is_none());
        assert forall|i: int| 0 <= i < n implies (#[trigger] spec_user_byte(*pt, *fa, va + i)).is_some()
            && spec_user_byte(*pt, *fa, va + i) != Some(0u8) by {
            assert(spec_user_byte(*pt, *fa, va + i) == Some(out@[i]));
        }
    }
    None
}

impl Kernel {
    /// Runs signal delivery for the current task. `true` when the task
    /// must wait (it is stopped and not killed): it has then given up the
    /// processor, and the check runs again when it is next scheduled.
    pub fn handle_signals(&mut self) -> (wait: bool)
        requires
            old(self).wf(),
        ensures
            final(self).wf(),
            wait ==> final(self).current.is_none(),
            !wait ==> final(self).current == old(self).current,
            old(self).current.is_none() ==> !wait,
            old(self).current.is_some() ==> {
                let p = old(self).current.unwrap() as int;
                let t0 = old(self).task(p);
                let s = crate::signal::spec_sig_scan(old(self).spec_sig_state(p), t0.signal_mask,
                    t0.signal_actions@, (crate::config::MAX_SIG + 1) as nat);
                &&& final(self).has_task(p)
                &&& final(self).task(p).killed == s.killed
                &&& final(self).task(p).frozen == s.frozen
                &&& final(self).task(p).signals == s.signals
                &&& wait == (s.frozen && !s.killed)
                &&& !(s.delivered.is_some() && t0.signal_actions@[s.delivered.unwrap() as int].handler != 0)
                        ==> final(self).task(p).trap_cx == t0.trap_cx
            },
    {
        self.check_pending_signals();
        let (frozen, killed) = match self.current {
            Some(p) => {
                let t = self.tasks[p].as_ref().unwrap();
                (t.frozen, t.killed)
            }
            None => {
                return false;
            }
        };
        if !frozen || killed {
            return false;
        }
        let ghost k1 = *self;
        self.suspend_and_run_next();
        proof {
            let p = k1.current.unwrap() as int;
            assert(self.task(p) == (crate::kernel::TaskControlBlock { task_status: TaskStatus::Ready, ..k1.task(p) }));
        }
        true
    }

    /// Sets register `a0` of the current task's user state to `v`: the
    /// result of a system call finished by the caller.
    pub fn set_current_a0(&mut self, v: u64)
        requires
            old(self).wf(),
        ensures
            final(self).wf(),
            final(self).current == old(self).current,
            old(self).current.is_some() ==>
                final(self).task(old(self).current.unwrap() as int).trap_cx.x@
                    == old(self).task(old(self).current.unwrap() as int).trap_cx.x@.update(10, v),
            old(self).current.is_some() ==> {
                let p = old(self).current.unwrap() as int;
                &&& final(self).has_task(p)
                &&& final(self).task(p) == (crate::kernel::TaskControlBlock {
                        trap_cx: crate::task::TrapContext { x: final(self).task(p).trap_cx.x, ..old(self).task(p).trap_cx },
                        ..old(self).task(p) })
            },
    {
        let pid = match self.current {
            Some(p) => p,
            None => {
                return;
            }
        };
        let ghost k0 = *self;
        assert(k0.has_task(pid as int));
        assert(k0.task(pid as int).wf(pid, k0.trampoline_ppn));
        let mut t = self.tasks[pid].take().unwrap();
        t.trap_cx.x[10] = v;
        self.tasks.set(pid, Some(t));
        proof {
            lemma_task_replaced(k0, *self, pid as int);
        }
    }

    /// Moves the current task's `sepc` one instruction (4 bytes) forward or
    /// back, wrapping.
    fn move_current_sepc(&mut self, forward: bool)
        requires
            old(self).wf(),
        ensures
            final(self).wf(),
            final(self).current == old(self).current,
            old(self).current.is_some() ==> {
                let p = old(self).current.unwrap() as int;
                final(self).task(p).trap_cx.sepc == if forward {
                    old(self).task(p).trap_cx.sepc.wrapping_add(4)
                } else {
                    old(self).task(p).trap_cx.sepc.wrapping_sub(4)
                }
            },
            old(self).current.is_some() ==> {
                let p = old(self).current.unwrap() as int;
                &&& final(self).has_task(p)
                &&& final(self).task(p) == (crate::kernel::TaskControlBlock {
                        trap_cx: crate::task::TrapContext { sepc: final(self).task(p).trap_cx.sepc, ..old(self).task(p).trap_cx },
                        ..old(self).task(p) })
            },
    {
        let pid = match self.current {
            Some(p) => p,
            None => {
                return;
            }
        };
        let ghost k0 = *self;
        assert(k0.has_task(pid as int));
        assert(k0.task(pid as int).wf(pid, k0.trampoline_ppn));
        let mut t = self.tasks[pid].take().unwrap();
        t.trap_cx.sepc = if forward { t.trap_cx.sepc.wrapping_add(4) } else { t.trap_cx.sepc.wrapping_sub(4) };
        self.tasks.set(pid, Some(t));
        proof {
            lemma_task_replaced(k0, *self, pid as int);
        }
    }

    /// The current task's user state: system-call number and arguments.
    fn current_syscall_args(&self) -> (r: Option<(u64, u64, u64, u64)>)
        requires
            self.wf(),
        ensures
            self.current.is_none() ==> r.is_none(),
            self.current.is_some() ==> {
                let x = self.task(self.current.unwrap() as int).trap_cx.x@;
                r == Some((x[17], x[10], x[11], x[12]))
            },
    {
        match self.current {
            Some(p) => {
                let t = self.tasks[p].as_ref().unwrap();
                Some((t.trap_cx.x[17], t.trap_cx.x[10], t.trap_cx.x[11], t.trap_cx.x[12]))
            }
            None => None,
        }
    }

    /// The null-terminated string at address `va` of the current task.
    pub fn current_str(&self, va: u64) -> (r: Option<Vec<u8>>)
        requires
            self.wf(),
        ensures
            self.current.is_none() ==> r.is_none(),
            self.current.is_some() ==> spec_cstr(self.task(self.current.unwrap() as int).memory_set.page_table,
                self.frames, va, match r { Some(v) => Some(v@), None => None }),
    {
        match self.current {
            Some(p) => translate_to_str(&self.tasks[p].as_ref().unwrap().memory_set.page_table, &self.frames, va),
            None => None,
        }
    }

    /// The argument strings of `exec`: the null-terminated array of string
    /// pointers at address `va` of the current task, at most 4095 of them.
    fn current_args(&self, va: u64) -> (r: Option<Vec<Vec<u8>>>)
        requires
            self.wf(),
        ensures
            r.is_some() ==> r.unwrap()@.len() < 0x1000,
    {
        let p = match self.current {
            Some(p) => p,
            None => {
                return None;
            }
        };
        let pt = &self.tasks[p].as_ref().unwrap().memory_set.page_table;
        let mut args: Vec<Vec<u8>> = Vec::new();
        let mut at = va;
        while args.len() < 0xfff
            invariant
                pt.wf(),
                self.frames.wf(),
                args@.len() < 0x1000,
            decreases 0xfff - args@.len(),
        {
            if at > u64::MAX - 8 {
                return None;
            }
            let word = match crate::page_table::read_user_bytes(pt, &self.frames, at, 8) {
                Some(w) => w,
                None => {
                    return None;
                }
            };
            let ptr = (word[0] as u64) | ((word[1] as u64) << 8u64) | ((word[2] as u64) << 16u64) | ((word[3] as u64) << 24u64)
                | ((word[4] as u64) << 32u64) | ((word[5] as u64) << 40u64) | ((word[6] as u64) << 48u64)
                | ((word[7] as u64) << 56u64);
            if ptr == 0 {
                return Some(args);
            }
            match translate_to_str(pt, &self.frames, ptr) {
                Some(s) => args.push(s),
                None => {
                    return None;
                }
            }
            at = at + 8;
        }
        None
    }

    /// Performs system call `id` with arguments `a0`, `a1`, `a2` for the
    /// current task; `now` is the clock's tick count. A finished call
    /// leaves its result in `a0`; a call that must wait rewinds the task to
    /// the call and gives up the processor; calls that need the file
    /// system or end the machine are handed back.
    pub fn syscall(&mut self, id: u64, a0: u64, a1: u64, a2: u64, now: u64) -> (r: TrapOutcome)
        requires
            old(self).wf(),
        ensures
            final(self).wf(),
            !spec_known_syscall(id) ==> r == TrapOutcome::Resume && final(self).current == old(self).current
                && (old(self).current.is_some() ==> {
                    let p = old(self).current.unwrap() as int;
                    &&& final(self).task(p).trap_cx.x@ == old(self).task(p).trap_cx.x@.update(10, (-1i64) as u64)
                    &&& final(self).has_task(p)
                    &&& final(self).task(p) == (crate::kernel::TaskControlBlock {
                            trap_cx: crate::task::TrapContext { x: final(self).task(p).trap_cx.x, ..old(self).task(p).trap_cx },
                            ..old(self).task(p) })
                }),
            id == 172 ==> r == TrapOutcome::Resume && final(self).current == old(self).current
                && (old(self).current.is_some() ==> {
                    let p = old(self).current.unwrap() as int;
                    &&& final(self).task(p).trap_cx.x@ == old(self).task(p).trap_cx.x@.update(10, p as u64)
                    &&& final(self).has_task(p)
                    &&& final(self).task(p) == (crate::kernel::TaskControlBlock {
                            trap_cx: crate::task::TrapContext { x: final(self).task(p).trap_cx.x, ..old(self).task(p).trap_cx },
                            ..old(self).task(p) })
                }),
            id == 210 ==> r == TrapOutcome::Shutdown(a0 as usize != 0),
    {
        let ret: i64 = if id == 63 || id == 64 {
            let io = if id == 63 {
                self.sys_read(a0 as usize, a1, a2)
            } else {
                self.sys_write(a0 as usize, a1, a2)
            };
            match io {
                IoOutcome::Done(v) => v,
                IoOutcome::Blocked => {
                    self.move_current_sepc(false);
                    self.suspend_and_run_next();
                    return TrapOutcome::Switch;
                }
                IoOutcome::Killed => {
                    return TrapOutcome::Switch;
                }
                other => {
                    return TrapOutcome::File(other);
                }
            }
        } else if id == 56 {
            return match self.current_str(a0) {
                Some(path) => TrapOutcome::Open { path, flags: a1 as u32 },
                None => {
                    self.set_current_a0(-1i64 as u64);
                    TrapOutcome::Resume
                }
            };
        } else if id == 57 {
            self.sys_close(a0 as usize)
        } else if id == 59 {
            self.sys_pipe(a0)
        } else if id == 24 {
            self.sys_dup(a0 as usize)
        } else if id == 93 || id == 94 {
            return match self.sys_exit(a0 as i32) {
                ExitOutcome::Shutdown(failure) => TrapOutcome::Shutdown(failure),
                _ => TrapOutcome::Switch,
            };
        } else if id == 124 {
            self.sys_yield();
            return TrapOutcome::Switch;
        } else if id == 129 {
            self.sys_kill(a0 as usize, a1 as i32)
        } else if id == 134 {
            self.sys_sigaction(a0 as i32, a1, a2)
        } else if id == 135 {
            self.sys_sigprocmask(a0 as u32)
        } else if id == 139 {
            self.sys_sigreturn()
        } else if id == 169 {
            crate::syscall::sys_get_time(now)
        } else if id == 172 {
            self.sys_getpid()
        } else if id == 210 {
            return TrapOutcome::Shutdown(crate::syscall::sys_shutdown(a0 as usize));
        } else if id == 220 {
            self.sys_fork()
        } else if id == 221 {
            let path = self.current_str(a0);
            let args = self.current_args(a1);
            return match (path, args) {
                (Some(path), Some(args)) => TrapOutcome::Exec { path, args },
                _ => {
                    self.set_current_a0(-1i64 as u64);
                    TrapOutcome::Resume
                }
            };
        } else if id == 260 {
            self.sys_waitpid(a0 as i64, a1)
        } else {
            -1
        };
        self.set_current_a0(ret as u64);
        TrapOutcome::Resume
    }

    /// Handles a trap of the current task with cause `cause`; `now` is the
    /// clock's tick count. A system call advances `sepc` past the `ecall`
    /// and runs; a memory fault kills the task with -2, an illegal
    /// instruction with -3, any other unexpected trap with -4; the timer
    /// makes the task yield and asks for the next tick. Afterwards pending
    /// signals are delivered, and a task that is killed, or has a fatal
    /// signal pending, exits.
    pub fn trap_handler(&mut self, cause: TrapCause, now: u64) -> (r: TrapOutcome)
        requires
            old(self).wf(),
            now <= u64::MAX - crate::config::CLOCK_FREQ / crate::config::TICKS_PER_SEC,
        ensures
            final(self).wf(),
            old(self).current.is_some() && spec_fault_code(cause).is_some() ==> {
                let p = old(self).current.unwrap() as int;
                &&& final(self).has_task(p)
                &&& final(self).task(p).task_status == TaskStatus::Zombie
                &&& final(self).task(p).exit_code == spec_fault_code(cause).unwrap()
                &&& final(self).current.is_none()
                &&& final(self).ready == old(self).ready
                &&& forall|q: int| #[trigger] old(self).has_task(q) && q != p ==> final(self).has_task(q)
                        && final(self).task(q).task_status == old(self).task(q).task_status
                        && final(self).task(q).exit_code == old(self).task(q).exit_code
                        && final(self).task(q).memory_set == old(self).task(q).memory_set
                        && final(self).task(q).trap_cx == old(self).task(q).trap_cx
                        && final(self).task(q).fd_table == old(self).task(q).fd_table
            },
            r == TrapOutcome::Resume ==> {
                &&& final(self).current.is_some()
                &&& !final(self).task(final(self).current.unwrap() as int).killed
                &&& crate::task::spec_check_error(final(self).task(final(self).current.unwrap() as int).signals).is_none()
            },
            cause == TrapCause::UserEnvCall && old(self).current.is_some() && ({
                let t = old(self).task(old(self).current.unwrap() as int);
                t.signals == 0 && !t.frozen && !t.killed
                    && (!spec_known_syscall(t.trap_cx.x@[17]) || t.trap_cx.x@[17] == 172)
            }) ==> {
                let p = old(self).current.unwrap() as int;
                let t = old(self).task(p);
                &&& r == TrapOutcome::Resume
                &&& final(self).current == old(self).current
                &&& final(self).task(p).trap_cx.sepc == t.trap_cx.sepc.wrapping_add(4)
                &&& final(self).task(p).trap_cx.x@ == t.trap_cx.x@.update(10,
                        if t.trap_cx.x@[17] == 172 { p as u64 } else { (-1i64) as u64 })
            },
            cause == TrapCause::UserEnvCall && old(self).current.is_none() ==> r == TrapOutcome::Switch,
            cause == TrapCause::SupervisorTimer ==> final(self).current.is_none()
                && r == TrapOutcome::SetTimer(crate::timer::spec_next_trigger(now))
                && (old(self).current.is_some() ==> final(self).ready@ == old(self).ready@.push(old(self).current.unwrap())),
    {
        let outcome = match cause {
            TrapCause::UserEnvCall => {
                let (id, a0, a1, a2) = match self.current_syscall_args() {
                    Some(x) => x,
                    None => {
                        return TrapOutcome::Switch;
                    }
                };
                self.move_current_sepc(true);
                self.syscall(id, a0, a1, a2, now)
            }
            TrapCause::SupervisorTimer => {
                self.suspend_and_run_next();
                return TrapOutcome::SetTimer(crate::timer::set_next_trigger(now));
            }
            TrapCause::StoreFault | TrapCause::StorePageFault | TrapCause::InstructionFault
            | TrapCause::InstructionPageFault | TrapCause::LoadFault | TrapCause::LoadPageFault => {
                return match self.exit_current_and_run_next(EXIT_MEMORY_FAULT) {
                    ExitOutcome::Shutdown(f) => TrapOutcome::Shutdown(f),
                    _ => TrapOutcome::Switch,
                };
            }
            TrapCause::IllegalInstruction => {
                return match self.exit_current_and_run_next(EXIT_ILLEGAL_INSTRUCTION) {
                    ExitOutcome::Shutdown(f) => TrapOutcome::Shutdown(f),
                    _ => TrapOutcome::Switch,
                };
            }
            TrapCause::Other => {
                return match self.exit_current_and_run_next(EXIT_OTHER_TRAP) {
                    ExitOutcome::Shutdown(f) => TrapOutcome::Shutdown(f),
                    _ => TrapOutcome::Switch,
                };
            }
        };
        match outcome {
            TrapOutcome::Resume => self.after_trap(),
            other => other,
        }
    }

    /// Delivers signals to the current task on its way back to user mode;
    /// ends it when it is killed or has a fatal signal pending.
    pub fn after_trap(&mut self) -> (r: TrapOutcome)
        requires
            old(self).wf(),
        ensures
            final(self).wf(),
            old(self).current.is_some() && old(self).task(old(self).current.unwrap() as int).signals == 0
                && !old(self).task(old(self).current.unwrap() as int).frozen
                && !old(self).task(old(self).current.unwrap() as int).killed ==> {
                let p = old(self).current.unwrap() as int;
                &&& r == TrapOutcome::Resume
                &&& final(self).current == old(self).current
                &&& final(self).task(p).trap_cx == old(self).task(p).trap_cx
            },
            r == TrapOutcome::Resume ==> {
                &&& final(self).current.is_some()
                &&& final(self).current == old(self).current
                &&& !final(self).task(final(self).current.unwrap() as int).killed
                &&& crate::task::spec_check_error(final(self).task(final(self).current.unwrap() as int).signals).is_none()
            },
            old(self).current.is_none() ==> r == TrapOutcome::Switch,
    {
        if self.current.is_none() {
            return TrapOutcome::Switch;
        }
        proof {
            let p = old(self).current.unwrap() as int;
            if old(self).task(p).signals == 0 {
                crate::signal::lemma_scan_quiet(old(self).spec_sig_state(p), old(self).task(p).signal_mask,
                    old(self).task(p).signal_actions@, (crate::config::MAX_SIG + 1) as nat);
                assert(forall|b: u32| 0u32 & b == 0u32) by (bit_vector);
            }
        }
        if self.handle_signals() {
            return TrapOutcome::Switch;
        }
        let killed = match self.current {
            Some(p) => self.tasks[p].as_ref().unwrap().killed,
            None => {
                return TrapOutcome::Switch;
            }
        };
        let code = match self.check_signal_error_of_current() {
            Some((code, _msg)) => Some(code),
            None => {
                if killed {
                    Some(-9i32)
                } else {
                    None
                }
            }
        };
        match code {
            Some(c) => match self.exit_current_and_run_next(c) {
                ExitOutcome::Shutdown(f) => TrapOutcome::Shutdown(f),
                _ => TrapOutcome::Switch,
            },
            None => TrapOutcome::Resume,
        }
    }

    /// A trap taken in kernel mode changes nothing: the kernel returns to
    /// the current task.
    pub fn trap_from_kernel(&self) -> (r: TrapOutcome)
        ensures
            r == TrapOutcome::Resume,
    {
        TrapOutcome::Resume
    }
}

} // verus!
