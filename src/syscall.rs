//! The system calls that act on the current task's descriptors, signals
//! and identity.

use vstd::prelude::*;
use crate::config::MAX_SIG;
use crate::fs::FileObj;
use crate::kernel::{lemma_task_replaced, release_file, retain_file, ExitOutcome, Kernel};
use crate::task::{spec_check_error, spec_sig_bit, sig_bit, SignalAction, TaskStatus, SIGKILL, SIGSTOP};

verus! {

broadcast use vstd::std_specs::hash::group_hash_axioms;

/// `true` when a `sigaction` call must fail: a null pointer, or a signal
/// whose action cannot change (`SIGKILL`, `SIGSTOP`).
pub open spec fn spec_sigaction_error(signal: u32, action: u64, old_action: u64) -> bool {
    action == 0 || old_action == 0 || signal == SIGKILL || signal == SIGSTOP
}

/// `true` when a `sigaction` call must fail.
pub fn check_sigaction_error(signal: u32, action: u64, old_action: u64) -> (r: bool)
    ensures
        r == spec_sigaction_error(signal, action, old_action),
{
    action == 0 || old_action == 0 || signal == SIGKILL || signal == SIGSTOP
}

/// The failure flag that `shutdown(failure)` hands to the firmware: set
/// when the argument is not zero.
pub fn sys_shutdown(failure: usize) -> (r: bool)
    ensures
        r == (failure != 0),
{
    failure != 0
}

/// Milliseconds since boot, from tick count `ticks`.
pub fn sys_get_time(ticks: u64) -> (r: i64)
    ensures
        r == ticks / (crate::config::CLOCK_FREQ / crate::timer::MSEC_PER_SEC),
{
    assert(ticks / (crate::config::CLOCK_FREQ / crate::timer::MSEC_PER_SEC) <= u64::MAX / 12500);
    crate::timer::get_time_ms(ticks) as i64
}

/// Descriptor tables stop growing here, so that every descriptor fits in
/// the non-negative range of a system call's return value.
pub const FD_LIMIT: usize = 0x7fff_ffff;

impl Kernel {
    /// The pid of the current task; -1 when none runs.
    pub fn sys_getpid(&self) -> (r: i64)
        requires
            self.wf(),
        ensures
            self.current.is_some() ==> r == self.current.unwrap() as i64,
            self.current.is_none() ==> r == -1,
    {
        match self.current {
            Some(p) => p as i64,
            None => -1,
        }
    }

    /// The `satp` value of the current task's address space.
    pub fn current_user_token(&self) -> (r: Option<u64>)
        requires
            self.wf(),
        ensures
            self.current.is_none() ==> r.is_none(),
            self.current.is_some() ==> r == Some(
                (8u64 << 60u64) | self.task(self.current.unwrap() as int).memory_set.page_table.root_ppn),
    {
        match self.current {
            Some(p) => {
                let t = self.tasks[p].as_ref().unwrap();
                Some(t.get_user_token())
            }
            None => None,
        }
    }

    /// Gives up the processor; returns 0.
    pub fn sys_yield(&mut self) -> (r: i64)
        requires
            old(self).wf(),
        ensures
            final(self).wf(),
            r == 0,
            final(self).current.is_none(),
            old(self).current.is_some() ==> final(self).ready@ == old(self).ready@.push(old(self).current.unwrap()),
    {
        self.suspend_and_run_next();
        0
    }

    /// Ends the current task with `exit_code`.
    pub fn sys_exit(&mut self, exit_code: i32) -> (r: ExitOutcome)
        requires
            old(self).wf(),
        ensures
            final(self).wf(),
            final(self).current.is_none(),
            old(self).current.is_some() ==>
                final(self).task(old(self).current.unwrap() as int).task_status == TaskStatus::Zombie
                && final(self).task(old(self).current.unwrap() as int).exit_code == exit_code,
    {
        self.exit_current_and_run_next(exit_code)
    }

    /// Closes descriptor `fd` of the current task: 0, or -1 when no task
    /// runs or `fd` is not open.
    pub fn sys_close(&mut self, fd: usize) -> (r: i64)
        requires
            old(self).wf(),
        ensures
            final(self).wf(),
            final(self).current == old(self).current,
            r == 0 || r == -1,
            r == -1 <==> (old(self).current.is_none()
                || fd >= old(self).task(old(self).current.unwrap() as int).fd_table@.len()
                || old(self).task(old(self).current.unwrap() as int).fd_table@[fd as int].is_none()),
            r == -1 ==> *final(self) == *old(self),
            r == 0 ==> {
                let p = old(self).current.unwrap() as int;
                final(self).task(p).fd_table@ == old(self).task(p).fd_table@.update(fd as int, None)
            },
    {
        let pid = match self.current {
            Some(p) => p,
            None => {
                return -1;
            }
        };
        let ghost k0 = *self;
        assert(k0.has_task(pid as int));
        assert(k0.task(pid as int).wf(pid, k0.trampoline_ppn));
        let f = {
            let t = self.tasks[pid].as_ref().unwrap();
            if fd >= t.fd_table.len() {
                return -1;
            }
            match t.fd_table[fd] {
                Some(f) => f,
                None => {
                    return -1;
                }
            }
        };
        let mut t = self.tasks[pid].take().unwrap();
        t.fd_table.set(fd, None);
        self.tasks.set(pid, Some(t));
        release_file(&mut self.pipes, f);
        proof {
            lemma_task_replaced(k0, *self, pid as int);
        }
        0
    }

    /// Duplicates descriptor `fd` of the current task onto its lowest free
    /// descriptor, which it returns; -1 when no task runs or `fd` is not
    /// open.
    pub fn sys_dup(&mut self, fd: usize) -> (r: i64)
        requires
            old(self).wf(),
        ensures
            final(self).wf(),
            final(self).current == old(self).current,
            (old(self).current.is_none()
                || fd >= old(self).task(old(self).current.unwrap() as int).fd_table@.len()
                || old(self).task(old(self).current.unwrap() as int).fd_table@[fd as int].is_none()
                || old(self).task(old(self).current.unwrap() as int).fd_table@.len() >= FD_LIMIT)
                <==> r == -1,
            r == -1 ==> *final(self) == *old(self),
            r >= 0 ==> {
                let p = old(self).current.unwrap() as int;
                let old_t = old(self).fd_table_of(p);
                let new_t = final(self).fd_table_of(p);
                &&& fd < old_t.len() && old_t[fd as int].is_some()
                &&& r < new_t.len()
                &&& new_t[r as int] == old_t[fd as int]
                &&& (r < old_t.len() ==> old_t[r as int].is_none() && new_t == old_t.update(r as int, old_t[fd as int]))
                &&& (r == old_t.len() ==> new_t == old_t.push(old_t[fd as int]))
                &&& forall|k: int| 0 <= k < r ==> old_t[k].is_some()
            },
            r == -1 || r >= 0,
    {
        let pid = match self.current {
            Some(p) => p,
            None => {
                return -1;
            }
        };
        let ghost k0 = *self;
        assert(k0.has_task(pid as int));
        assert(k0.task(pid as int).wf(pid, k0.trampoline_ppn));
        let f = {
            let t = self.tasks[pid].as_ref().unwrap();
            if fd >= t.fd_table.len() || t.fd_table.len() >= FD_LIMIT {
                return -1;
            }
            match t.fd_table[fd] {
                Some(f) => f,
                None => {
                    return -1;
                }
            }
        };
        let mut t = self.tasks[pid].take().unwrap();
        let new_fd = t.alloc_fd();
        t.fd_table.set(new_fd, Some(f));
        self.tasks.set(pid, Some(t));
        retain_file(&mut self.pipes, f);
        proof {
            lemma_task_replaced(k0, *self, pid as int);
        }
        new_fd as i64
    }

    /// Sets the current task's signal mask to `mask`; returns the old mask,
    /// or -1 when no task runs.
    pub fn sys_sigprocmask(&mut self, mask: u32) -> (r: i64)
        requires
            old(self).wf(),
        ensures
            final(self).wf(),
            final(self).current == old(self).current,
            old(self).current.is_none() ==> r == -1 && *final(self) == *old(self),
            old(self).current.is_some() ==> {
                let p = old(self).current.unwrap() as int;
                &&& r == old(self).task(p).signal_mask
                &&& final(self).task(p).signal_mask == mask
            },
    {
        let pid = match self.current {
            Some(p) => p,
            None => {
                return -1;
            }
        };
        let ghost k0 = *self;
        assert(k0.has_task(pid as int));
        assert(k0.task(pid as int).wf(pid, k0.trampoline_ppn));
        let mut t = self.tasks[pid].take().unwrap();
        let old_mask = t.signal_mask;
        t.signal_mask = mask;
        self.tasks.set(pid, Some(t));
        proof {
            lemma_task_replaced(k0, *self, pid as int);
        }
        old_mask as i64
    }

    /// Marks signal `signal` pending for the current task.
    pub fn current_add_signal(&mut self, signal: u32)
        requires
            old(self).wf(),
            signal <= MAX_SIG,
        ensures
            final(self).wf(),
            final(self).current == old(self).current,
            old(self).current.is_none() ==> *final(self) == *old(self),
            old(self).current.is_some() ==> {
                let p = old(self).current.unwrap() as int;
                final(self).task(p).signals == old(self).task(p).signals | spec_sig_bit(signal)
            },
    {
        let pid = match self.current {
            Some(p) => p,
            None => {
                return;
            }
        };
        let ghost k0 = *self;
        assert(k0.has_task(pid as int));
        assert(k0.task(pid as int).wf(pid, k0.trampoline_ppn));
        let mut t = self.tasks[pid].take().unwrap();
        t.signals = t.signals | sig_bit(signal);
        self.tasks.set(pid, Some(t));
        proof {
            lemma_task_replaced(k0, *self, pid as int);
        }
    }

    /// The exit code of the first fatal signal pending for the current
    /// task, with its message.
    pub fn check_signal_error_of_current(&self) -> (r: Option<(i32, &'static str)>)
        requires
            self.wf(),
        ensures
            self.current.is_none() ==> r.is_none(),
            self.current.is_some() ==> {
                let s = self.task(self.current.unwrap() as int).signals;
                &&& r.is_some() == spec_check_error(s).is_some()
                &&& r.is_some() ==> r.unwrap().0 == spec_check_error(s).unwrap()
            },
    {
        match self.current {
            Some(p) => {
                let t = self.tasks[p].as_ref().unwrap();
                crate::task::check_error(t.signals)
            }
            None => None,
        }
    }

    /// Sends signal `signum` to task `pid`: 0, or -1 when there is no such
    /// live task, the number is out of range, or the signal is already
    /// pending.
    pub fn sys_kill(&mut self, pid: usize, signum: i32) -> (r: i64)
        requires
            old(self).wf(),
        ensures
            final(self).wf(),
            final(self).current == old(self).current,
            r == 0 || r == -1,
            r == 0 <==> (old(self).has_task(pid as int)
                && old(self).task(pid as int).task_status != TaskStatus::Zombie
                && 0 <= signum <= MAX_SIG
                && old(self).task(pid as int).signals & spec_sig_bit(signum as u32) == 0),
            r == -1 ==> *final(self) == *old(self),
            r == 0 ==> final(self).task(pid as int).signals
                == old(self).task(pid as int).signals | spec_sig_bit(signum as u32),
            r == 0 ==> final(self).task(pid as int) == (crate::kernel::TaskControlBlock {
                signals: final(self).task(pid as int).signals, ..old(self).task(pid as int) }),
            final(self).ready == old(self).ready,
            final(self).frames == old(self).frames,
            forall|q: int| #[trigger] old(self).has_task(q) && q != pid ==> final(self).has_task(q)
                && final(self).task(q) == old(self).task(q),
    {
        if pid >= self.tasks.len() || signum < 0 || signum > MAX_SIG as i32 {
            return -1;
        }
        let bit = sig_bit(signum as u32);
        match &self.tasks[pid] {
            Some(t) => {
                if t.is_zombie() || t.signals & bit != 0 {
                    return -1;
                }
            }
            None => {
                return -1;
            }
        }
        let ghost k0 = *self;
        assert(k0.has_task(pid as int));
        assert(k0.task(pid as int).wf(pid, k0.trampoline_ppn));
        let mut t = self.tasks[pid].take().unwrap();
        t.signals = t.signals | bit;
        self.tasks.set(pid, Some(t));
        proof {
            lemma_task_replaced(k0, *self, pid as int);
            assert forall|q: int| #[trigger] old(self).has_task(q) && q != pid implies self.has_task(q)
                && self.task(q) == old(self).task(q) by {
                assert(self.tasks@[q] == old(self).tasks@[q]);
            }
        }
        0
    }

    /// Returns from a user signal handler: restores the user state saved
    /// when the handler was entered and clears the handled signal; returns
    /// the restored `a0`. -1 when no task runs or no state was saved.
    pub fn sys_sigreturn(&mut self) -> (r: i64)
        requires
            old(self).wf(),
        ensures
            final(self).wf(),
            final(self).current == old(self).current,
            (old(self).current.is_none() || old(self).task(old(self).current.unwrap() as int).trap_ctx_backup.is_none())
                ==> r == -1 && *final(self) == *old(self),
            old(self).current.is_some() && old(self).task(old(self).current.unwrap() as int).trap_ctx_backup.is_some() ==> {
                let p = old(self).current.unwrap() as int;
                let b = old(self).task(p).trap_ctx_backup.unwrap();
                &&& final(self).task(p).trap_cx == b
                &&& final(self).task(p).handling_sig == -1
                &&& r == b.x@[10] as i64
            },
    {
        let pid = match self.current {
            Some(p) => p,
            None => {
                return -1;
            }
        };
        let ghost k0 = *self;
        assert(k0.has_task(pid as int));
        assert(k0.task(pid as int).wf(pid, k0.trampoline_ppn));
        let backup = match self.tasks[pid].as_ref().unwrap().trap_ctx_backup {
            Some(b) => b,
            None => {
                return -1;
            }
        };
        let mut t = self.tasks[pid].take().unwrap();
        t.handling_sig = -1;
        t.trap_cx = backup;
        self.tasks.set(pid, Some(t));
        proof {
            lemma_task_replaced(k0, *self, pid as int);
        }
        backup.x[10] as i64
    }
}

impl Kernel {
    /// The descriptor table of task `p`.
    pub open spec fn fd_table_of(&self, p: int) -> Seq<Option<FileObj>> {
        self.task(p).fd_table@
    }
}

} // verus!
