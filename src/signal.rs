//! Delivery of pending signals to the current task.

use vstd::prelude::*;
use crate::config::MAX_SIG;
use crate::kernel::{lemma_task_replaced, Kernel};
use crate::task::{spec_sig_bit, sig_bit, SignalAction, SIGCONT, SIGDEF, SIGKILL, SIGSTOP};

verus! {

/// The part of a task that signal delivery reads and changes.
pub struct SigState {
    pub signals: u32,
    pub frozen: bool,
    pub killed: bool,
    pub handling_sig: i64,
    /// The user signal delivery stopped at, if any.
    pub delivered: Option<u32>,
}

/// `true` when signal `sig` is pending, not masked by the task, and not
/// masked by the action of the signal being handled.
pub open spec fn spec_deliverable(s: SigState, mask: u32, actions: Seq<SignalAction>, sig: u32) -> bool {
    let bit = spec_sig_bit(sig);
    &&& s.signals & bit != 0
    &&& mask & bit == 0
    &&& (s.handling_sig == -1 || actions[s.handling_sig as int].mask & bit == 0)
}

/// What delivering signal `sig` does, when it is deliverable: `SIGSTOP`
/// freezes the task and clears itself; `SIGCONT` thaws it and clears
/// itself; `SIGKILL` and `SIGDEF` mark it killed; any other signal stops
/// the scan, and when a handler is installed it becomes the handled signal
/// and is cleared.
pub open spec fn spec_sig_step(s: SigState, mask: u32, actions: Seq<SignalAction>, sig: u32) -> SigState {
    let bit = spec_sig_bit(sig);
    if !spec_deliverable(s, mask, actions, sig) {
        s
    } else if sig == SIGSTOP {
        SigState { frozen: true, signals: s.signals ^ bit, ..s }
    } else if sig == SIGCONT {
        SigState { frozen: false, signals: s.signals ^ bit, ..s }
    } else if sig == SIGKILL || sig == SIGDEF {
        SigState { killed: true, ..s }
    } else if actions[sig as int].handler != 0 {
        SigState { handling_sig: sig as i64, signals: s.signals ^ bit, delivered: Some(sig), ..s }
    } else {
        SigState { delivered: Some(sig), ..s }
    }
}

/// The state after scanning signals `0..n` in order, stopping after the
/// first user signal delivered.
pub open spec fn spec_sig_scan(s: SigState, mask: u32, actions: Seq<SignalAction>, n: nat) -> SigState
    decreases n,
{
    if n == 0 {
        s
    } else {
        let prev = spec_sig_scan(s, mask, actions, (n - 1) as nat);
        if prev.delivered.is_some() {
            prev
        } else {
            spec_sig_step(prev, mask, actions, (n - 1) as u32)
        }
    }
}

impl Kernel {
    /// The signal state of task `p`, before any delivery.
    pub open spec fn spec_sig_state(&self, p: int) -> SigState {
        SigState {
            signals: self.task(p).signals,
            frozen: self.task(p).frozen,
            killed: self.task(p).killed,
            handling_sig: self.task(p).handling_sig,
            delivered: None,
        }
    }

    /// Scans the current task's pending signals from the lowest number up
    /// and delivers each deliverable one as `spec_sig_step` says. When a
    /// user handler is entered, the user state is saved, execution resumes
    /// at the handler, and `a0` holds the signal number.
    pub fn check_pending_signals(&mut self)
        requires
            old(self).wf(),
        ensures
            final(self).wf(),
            final(self).current == old(self).current,
            old(self).current.is_none() ==> *final(self) == *old(self),
            old(self).current.is_some() ==> {
                let p = old(self).current.unwrap() as int;
                let t0 = old(self).task(p);
                let t = final(self).task(p);
                let s = spec_sig_scan(old(self).spec_sig_state(p), t0.signal_mask, t0.signal_actions@, (MAX_SIG + 1) as nat);
                &&& t.signals == s.signals
                &&& t.frozen == s.frozen
                &&& t.killed == s.killed
                &&& t.handling_sig == s.handling_sig
                &&& (s.delivered.is_some() && t0.signal_actions@[s.delivered.unwrap() as int].handler != 0) ==> {
                        &&& t.trap_ctx_backup == Some(t0.trap_cx)
                        &&& t.trap_cx.sepc == t0.signal_actions@[s.delivered.unwrap() as int].handler
                        &&& t.trap_cx.x@ == t0.trap_cx.x@.update(10, s.delivered.unwrap() as u64)
                    }
                &&& !(s.delivered.is_some() && t0.signal_actions@[s.delivered.unwrap() as int].handler != 0)
                        ==> t.trap_cx == t0.trap_cx && t.trap_ctx_backup == t0.trap_ctx_backup
                &&& t.trap_cx.sstatus == t0.trap_cx.sstatus
                &&& t.trap_cx.kernel_satp == t0.trap_cx.kernel_satp
                &&& t.trap_cx.kernel_sp == t0.trap_cx.kernel_sp
                &&& t.trap_cx.trap_handler == t0.trap_cx.trap_handler
                &&& t.signal_mask == t0.signal_mask && t.signal_actions == t0.signal_actions
                &&& t.fd_table == t0.fd_table && t.memory_set == t0.memory_set && t.task_status == t0.task_status
                &&& t.children == t0.children && t.parent == t0.parent && t.exit_code == t0.exit_code
            },
            forall|q: int| #[trigger] old(self).has_task(q) && Some(q as usize) != old(self).current
                ==> final(self).has_task(q) && final(self).task(q) == old(self).task(q),
            final(self).ready == old(self).ready,
    {
        let pid = match self.current {
            Some(p) => p,
            None => {
                return;
            }
        };
        let ghost k0 = *self;
        assert(k0.has_task(pid as int));
        assert(k0.task(pid as int).wf(pid, k0.trampoline_ppn));
        let mut t = self.tasks[pid].take().unwrap();
        let ghost t0 = t;
        let ghost s0 = k0.spec_sig_state(pid as int);
        let mut sig: u32 = 0;
        let mut delivered: Option<u32> = None;
        while sig <= MAX_SIG as u32 && delivered.is_none()
            invariant
                sig <= MAX_SIG + 1,
                t.signal_mask == t0.signal_mask,
                t.signal_actions == t0.signal_actions,
                t.signal_actions@.len() == MAX_SIG + 1,
                t.pid == t0.pid,
                t.memory_set == t0.memory_set,
                t.trap_cx_ppn == t0.trap_cx_ppn,
                t.task_status == t0.task_status,
                t.fd_table == t0.fd_table,
                t.children == t0.children,
                t.parent == t0.parent,
                t.exit_code == t0.exit_code,
                t.base_size == t0.base_size,
                t.trap_cx.sstatus == t0.trap_cx.sstatus,
                t.trap_cx.kernel_satp == t0.trap_cx.kernel_satp,
                t.trap_cx.kernel_sp == t0.trap_cx.kernel_sp,
                t.trap_cx.trap_handler == t0.trap_cx.trap_handler,
                t.handling_sig == -1 || (0 <= t.handling_sig <= MAX_SIG),
                ({
                    let s = spec_sig_scan(s0, t0.signal_mask, t0.signal_actions@, sig as nat);
                    &&& t.signals == s.signals
                    &&& t.frozen == s.frozen
                    &&& t.killed == s.killed
                    &&& t.handling_sig == s.handling_sig
                    &&& delivered == s.delivered
                    &&& (s.delivered.is_some() && t0.signal_actions@[s.delivered.unwrap() as int].handler != 0) ==> {
                            &&& t.trap_ctx_backup == Some(t0.trap_cx)
                            &&& t.trap_cx.sepc == t0.signal_actions@[s.delivered.unwrap() as int].handler
                            &&& t.trap_cx.x@ == t0.trap_cx.x@.update(10, s.delivered.unwrap() as u64)
                        }
                    &&& !(s.delivered.is_some() && t0.signal_actions@[s.delivered.unwrap() as int].handler != 0)
                            ==> t.trap_cx == t0.trap_cx && t.trap_ctx_backup == t0.trap_ctx_backup
                }),
            decreases MAX_SIG + 1 - sig,
        {
            let bit = sig_bit(sig);
            let handled_masked = if t.handling_sig == -1 {
                false
            } else {
                t.signal_actions[t.handling_sig as usize].mask & bit != 0
            };
            if t.signals & bit != 0 && t.signal_mask & bit == 0 && !handled_masked {
                if sig == SIGSTOP {
                    t.frozen = true;
                    t.signals = t.signals ^ bit;
                } else if sig == SIGCONT {
                    t.frozen = false;
                    t.signals = t.signals ^ bit;
                } else if sig == SIGKILL || sig == SIGDEF {
                    t.killed = true;
                } else {
                    let handler = t.signal_actions[sig as usize].handler;
                    if handler != 0 {
                        t.handling_sig = sig as i64;
                        t.signals = t.signals ^ bit;
                        t.trap_ctx_backup = Some(t.trap_cx);
                        t.trap_cx.sepc = handler;
                        t.trap_cx.x[10] = sig as u64;
                    }
                    delivered = Some(sig);
                }
            }
            sig += 1;
        }
        self.tasks.set(pid, Some(t));
        proof {
            if sig <= MAX_SIG {
                assert(delivered.is_some());
                lemma_scan_stays(s0, t0.signal_mask, t0.signal_actions@, sig as nat, (MAX_SIG + 1) as nat);
            }
            lemma_task_replaced(k0, *self, pid as int);
            assert forall|q: int| #[trigger] old(self).has_task(q) && Some(q as usize) != old(self).current
                implies self.has_task(q) && self.task(q) == old(self).task(q) by {
                assert(q != pid as int);
                assert(self.tasks@[q] == old(self).tasks@[q]);
            }
        }
    }
}

/// With no signal pending the scan changes nothing.
pub proof fn lemma_scan_quiet(s: SigState, mask: u32, actions: Seq<SignalAction>, n: nat)
    requires
        s.signals == 0,
        s.delivered.is_none(),
    ensures
        spec_sig_scan(s, mask, actions, n) == s,
    decreases n,
{
    if n > 0 {
        lemma_scan_quiet(s, mask, actions, (n - 1) as nat);
        let bit = spec_sig_bit((n - 1) as u32);
        assert(0u32 & bit == 0u32) by (bit_vector);
    }
}

/// Once a user signal was delivered the scan changes nothing more.
proof fn lemma_scan_stays(s: SigState, mask: u32, actions: Seq<SignalAction>, m: nat, n: nat)
    requires
        m <= n,
        spec_sig_scan(s, mask, actions, m).delivered.is_some(),
    ensures
        spec_sig_scan(s, mask, actions, n) == spec_sig_scan(s, mask, actions, m),
    decreases n - m,
{
    if m < n {
        lemma_scan_stays(s, mask, actions, m, (n - 1) as nat);
    }
}

} // verus!
