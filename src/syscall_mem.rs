//! The system calls that move data between the kernel and user memory:
//! `sigaction`, `pipe`, `open` and `waitpid`.

use vstd::prelude::*;
use crate::config::MAX_SIG;
use crate::fs::{FileObj, OpenFlags, OSInode, Pipe};
use crate::kernel::{lemma_same_tasks, lemma_task_replaced, Kernel};
use crate::page_table::{read_user_bytes, spec_no_alias, spec_user_bytes, spec_user_range_ok, write_user_bytes};
use crate::syscall::{check_sigaction_error, spec_sigaction_error, FD_LIMIT};
use crate::task::{action_from_bytes, action_to_bytes, spec_action_bytes, spec_action_of, spec_u64_bytes, u64_to_bytes, SignalAction};

verus! {

broadcast use vstd::std_specs::hash::group_hash_axioms;

/// Installing an action and then installing the action that the first call
/// handed back restores the action table.
pub proof fn lemma_sigaction_restores(table: Seq<SignalAction>, sig: int, a: SignalAction)
    requires
        0 <= sig < table.len(),
    ensures
        table.update(sig, a).update(sig, spec_action_of(spec_action_bytes(table[sig]))) == table,
{
    crate::task::lemma_action_round_trip(table[sig]);
    assert(table.update(sig, a).update(sig, table[sig]) =~= table);
}

impl Kernel {
    /// Changes the current task's action for signal `signum`: writes the
    /// old action to user address `old_action`, then reads the new one from
    /// user address `action`. 0; or -1, with nothing changed, when no task
    /// runs, the number is out of range, a pointer is null, the signal is
    /// `SIGKILL` or `SIGSTOP`, or user memory cannot be reached.
    pub fn sys_sigaction(&mut self, signum: i32, action: u64, old_action: u64) -> (r: i64)
        requires
            old(self).wf(),
        ensures
            final(self).wf(),
            final(self).current == old(self).current,
            r == 0 || r == -1,
            r == -1 ==> *final(self) == *old(self),
            r == 0 <==> old(self).current.is_some() && 0 <= signum <= MAX_SIG
                && !spec_sigaction_error(signum as u32, action, old_action)
                && action <= u64::MAX - 16 && old_action <= u64::MAX - 16
                && spec_user_range_ok(old(self).task(old(self).current.unwrap() as int).memory_set.page_table,
                    old(self).frames, action as int, 16)
                && spec_user_range_ok(old(self).task(old(self).current.unwrap() as int).memory_set.page_table,
                    old(self).frames, old_action as int, 16),
            r == 0 ==> {
                let p = old(self).current.unwrap() as int;
                let pt = old(self).task(p).memory_set.page_table;
                let prev = old(self).task(p).signal_actions@[signum as int];
                &&& 0 <= signum <= MAX_SIG
                &&& !spec_sigaction_error(signum as u32, action, old_action)
                &&& final(self).task(p).signal_actions@ == old(self).task(p).signal_actions@.update(
                        signum as int, spec_action_of(spec_user_bytes(pt, final(self).frames, action as int, 16)))
                &&& spec_no_alias(pt, old_action as int, 16) ==>
                        spec_user_bytes(pt, final(self).frames, old_action as int, 16) == spec_action_bytes(prev)
            },
    {
        let pid = match self.current {
            Some(p) => p,
            None => {
                return -1;
            }
        };
        if signum < 0 || signum > MAX_SIG as i32 {
            return -1;
        }
        if check_sigaction_error(signum as u32, action, old_action) {
            return -1;
        }
        if action > u64::MAX - 16 || old_action > u64::MAX - 16 {
            return -1;
        }
        let ghost k0 = *self;
        assert(k0.has_task(pid as int));
        assert(k0.task(pid as int).wf(pid, k0.trampoline_ppn));
        let prev = self.tasks[pid].as_ref().unwrap().signal_actions[signum as usize];
        if read_user_bytes(&self.tasks[pid].as_ref().unwrap().memory_set.page_table, &self.frames, action, 16).is_none() {
            return -1;
        }
        let bytes = action_to_bytes(prev);
        if !write_user_bytes(&self.tasks[pid].as_ref().unwrap().memory_set.page_table, &mut self.frames, old_action, bytes.as_slice()) {
            return -1;
        }
        let ghost k1 = *self;
        proof {
            lemma_same_tasks(k0, k1);
        }
        let new_bytes = match read_user_bytes(&self.tasks[pid].as_ref().unwrap().memory_set.page_table, &self.frames, action, 16) {
            Some(b) => b,
            None => {
                proof {
                    assert(false) by {
                        let pt = k0.task(pid as int).memory_set.page_table;
                        assert forall|i: int| 0 <= i < 16 implies (#[trigger] crate::page_table::spec_user_byte(pt, self.frames, action + i)).is_some() by {
                            assert(crate::page_table::spec_user_byte(pt, k0.frames, action + i).is_some());
                        }
                    }
                }
                return -1;
            }
        };
        let a = action_from_bytes(new_bytes.as_slice());
        let mut t = self.tasks[pid].take().unwrap();
        t.signal_actions.set(signum as usize, a);
        self.tasks.set(pid, Some(t));
        proof {
            lemma_task_replaced(k1, *self, pid as int);
        }
        0
    }

    /// Opens file-system file `inode` (found or created by the caller for
    /// the path) with open flags `flags` on the current task's lowest free
    /// descriptor, at offset 0. -1 when no task runs, the flags hold an
    /// unknown bit, or there is no such file.
    pub fn sys_open(&mut self, inode: Option<u64>, flags: u32) -> (r: i64)
        requires
            old(self).wf(),
        ensures
            final(self).wf(),
            final(self).current == old(self).current,
            r == -1 <==> (old(self).current.is_none() || !crate::fs::spec_known_flags(flags) || inode.is_none()
                || old(self).fd_table_of(old(self).current.unwrap() as int).len() >= FD_LIMIT),
            r == -1 ==> *final(self) == *old(self),
            r != -1 ==> {
                let p = old(self).current.unwrap() as int;
                let n = old(self).files@.len();
                &&& 0 <= r < final(self).fd_table_of(p).len()
                &&& final(self).fd_table_of(p)[r as int] == Some(FileObj::Inode(n as usize))
                &&& final(self).files@.len() == n + 1
                &&& final(self).files@[n as int].inode == inode.unwrap()
                &&& final(self).files@[n as int].offset == 0
                &&& (r < old(self).fd_table_of(p).len() ==> old(self).fd_table_of(p)[r as int].is_none())
                &&& forall|k: int| 0 <= k < r ==> old(self).fd_table_of(p)[k].is_some()
                &&& forall|k: int| 0 <= k < old(self).fd_table_of(p).len() && k != r
                        ==> final(self).fd_table_of(p)[k] == old(self).fd_table_of(p)[k]
            },
    {
        let pid = match self.current {
            Some(p) => p,
            None => {
                return -1;
            }
        };
        let fl = match OpenFlags::from_bits(flags) {
            Some(f) => f,
            None => {
                return -1;
            }
        };
        let ino = match inode {
            Some(i) => i,
            None => {
                return -1;
            }
        };
        let ghost k0 = *self;
        assert(k0.has_task(pid as int));
        assert(k0.task(pid as int).wf(pid, k0.trampoline_ppn));
        if self.tasks[pid].as_ref().unwrap().fd_table.len() >= FD_LIMIT {
            return -1;
        }
        let (readable, writable) = fl.read_write();
        let n = self.files.len();
        self.files.push(OSInode { inode: ino, offset: 0, readable, writable });
        let mut t = self.tasks[pid].take().unwrap();
        let fd = t.alloc_fd();
        t.fd_table.set(fd, Some(FileObj::Inode(n)));
        self.tasks.set(pid, Some(t));
        proof {
            lemma_task_replaced(k0, *self, pid as int);
        }
        fd as i64
    }

    /// Creates a pipe and gives the current task descriptors for its read
    /// and write ends, the two lowest free ones, and writes them as two
    /// 64-bit words to user address `pipe`. 0; or -1, with nothing changed,
    /// when no task runs or the words cannot be written.
    pub fn sys_pipe(&mut self, pipe: u64) -> (r: i64)
        requires
            old(self).wf(),
        ensures
            final(self).wf(),
            final(self).current == old(self).current,
            r == 0 || r == -1,
            r == -1 ==> *final(self) == *old(self),
            r == 0 <==> old(self).current.is_some() && pipe <= u64::MAX - 16
                && old(self).fd_table_of(old(self).current.unwrap() as int).len() < FD_LIMIT
                && spec_user_range_ok(old(self).task(old(self).current.unwrap() as int).memory_set.page_table,
                    old(self).frames, pipe as int, 16),
            r == 0 ==> {
                let p = old(self).current.unwrap() as int;
                let n = old(self).pipes@.len();
                let t = final(self).fd_table_of(p);
                let pt = old(self).task(p).memory_set.page_table;
                let o = old(self).fd_table_of(p);
                &&& final(self).pipes@.len() == n + 1
                &&& final(self).pipes@[n as int].buffer@.len() == 0
                &&& final(self).pipes@[n as int].read_ends == 1
                &&& final(self).pipes@[n as int].write_ends == 1
                &&& exists|rfd: usize, wfd: usize| rfd < t.len() && wfd < t.len() && rfd < wfd
                        && (forall|k: int| 0 <= k < rfd ==> #[trigger] o[k].is_some())
                        && (rfd < o.len() ==> o[rfd as int].is_none())
                        && (forall|k: int| rfd < k < wfd ==> #[trigger] o[k].is_some())
                        && (wfd < o.len() ==> o[wfd as int].is_none())
                        && (forall|k: int| 0 <= k < o.len() && k != rfd && k != wfd ==> #[trigger] t[k] == o[k])
                        && t[rfd as int] == Some(FileObj::PipeRead(n as usize))
                        && t[wfd as int] == Some(FileObj::PipeWrite(n as usize))
                        && (spec_no_alias(pt, pipe as int, 16) ==>
                            spec_user_bytes(pt, final(self).frames, pipe as int, 16)
                                == spec_u64_bytes(rfd as u64) + spec_u64_bytes(wfd as u64))
            },
    {
        let pid = match self.current {
            Some(p) => p,
            None => {
                return -1;
            }
        };
        if pipe > u64::MAX - 16 {
            return -1;
        }
        let ghost k0 = *self;
        assert(k0.has_task(pid as int));
        assert(k0.task(pid as int).wf(pid, k0.trampoline_ppn));
        if self.tasks[pid].as_ref().unwrap().fd_table.len() >= FD_LIMIT {
            return -1;
        }
        if read_user_bytes(&self.tasks[pid].as_ref().unwrap().memory_set.page_table, &self.frames, pipe, 16).is_none() {
            return -1;
        }
        let mut t = self.tasks[pid].take().unwrap();
        let ghost o = t.fd_table@;
        let rfd = t.alloc_fd();
        t.fd_table.set(rfd, Some(FileObj::PipeRead(self.pipes.len())));
        let ghost t1 = t.fd_table@;
        assert(forall|k: int| 0 <= k < o.len() && k != rfd ==> t1[k] == o[k]);
        let wfd = t.alloc_fd();
        t.fd_table.set(wfd, Some(FileObj::PipeWrite(self.pipes.len())));
        assert(rfd != wfd);
        assert(rfd < wfd) by {
            if wfd < rfd {
                assert(o[wfd as int].is_some());
                assert(t1[wfd as int] == o[wfd as int]);
            }
        }
        assert forall|k: int| rfd < k < wfd implies #[trigger] o[k].is_some() by {
            assert(t1[k].is_some());
            if k < o.len() {
                assert(t1[k] == o[k]);
            }
        }
        let mut words = u64_to_bytes(rfd as u64);
        let mut w2 = u64_to_bytes(wfd as u64);
        words.append(&mut w2);
        assert(words@ == spec_u64_bytes(rfd as u64) + spec_u64_bytes(wfd as u64));
        let ok = write_user_bytes(&t.memory_set.page_table, &mut self.frames, pipe, words.as_slice());
        proof {
            let pt = k0.task(pid as int).memory_set.page_table;
            assert(t.memory_set.page_table == pt);
            assert(words@.len() == 16);
            assert forall|i: int| 0 <= i < 16 implies (#[trigger] crate::page_table::spec_user_byte(pt, k0.frames, pipe + i)).is_some() by {}
            assert(ok);
        }
        self.pipes.push(Pipe { buffer: Vec::new(), read_ends: 1, write_ends: 1 });
        self.tasks.set(pid, Some(t));
        proof {
            lemma_task_replaced(k0, *self, pid as int);
            let tt = self.fd_table_of(pid as int);
            let pt = k0.task(pid as int).memory_set.page_table;
            assert(tt[rfd as int] == Some(FileObj::PipeRead(k0.pipes@.len() as usize)));
            assert(tt[wfd as int] == Some(FileObj::PipeWrite(k0.pipes@.len() as usize)));
            let o = k0.fd_table_of(pid as int);
            assert(rfd < wfd);
            assert forall|k: int| 0 <= k < o.len() && k != rfd && k != wfd implies #[trigger] tt[k] == o[k] by {}
            assert(rfd < tt.len() && wfd < tt.len() && rfd < wfd
                && (forall|k: int| 0 <= k < rfd ==> #[trigger] o[k].is_some())
                && (rfd < o.len() ==> o[rfd as int].is_none())
                && (forall|k: int| rfd < k < wfd ==> #[trigger] o[k].is_some())
                && (wfd < o.len() ==> o[wfd as int].is_none())
                && (forall|k: int| 0 <= k < o.len() && k != rfd && k != wfd ==> #[trigger] tt[k] == o[k])
                && tt[rfd as int] == Some(FileObj::PipeRead(k0.pipes@.len() as usize))
                && tt[wfd as int] == Some(FileObj::PipeWrite(k0.pipes@.len() as usize))
                && (spec_no_alias(pt, pipe as int, 16) ==>
                    spec_user_bytes(pt, self.frames, pipe as int, 16)
                        == spec_u64_bytes(rfd as u64) + spec_u64_bytes(wfd as u64)));
        }
        0
    }
}

} // verus!
