//! Process creation and reaping: `fork`, `exec` and `waitpid`.

use vstd::prelude::*;
use crate::config::{MAX_SIG, PAGE_SIZE, TRAP_CONTEXT_VPN};
use crate::fs::{FileObj, Pipe};
use crate::kernel::{lemma_same_tasks, lemma_task_replaced, retain_file, Kernel, TaskControlBlock};
use crate::page_table::write_user_bytes;
use crate::memory_set::{has_trap_context, same_shape, MapType, MemorySet, MAP_R, MAP_W};
use crate::page_table::PTE_V;
use crate::task::{kernel_stack_position, SignalAction, TaskContext, TaskStatus, MAX_PID};

verus! {

broadcast use vstd::std_specs::hash::group_hash_axioms;

/// A copy of a descriptor table, counting the new descriptors on the pipe
/// ends they name.
fn copy_fd_table(fds: &Vec<Option<FileObj>>, pipes: &mut Vec<Pipe>) -> (r: Vec<Option<FileObj>>)
    requires
        forall|i: int| 0 <= i < old(pipes)@.len() ==> (#[trigger] old(pipes)@[i]).wf(),
    ensures
        r@ == fds@,
        final(pipes)@.len() == old(pipes)@.len(),
        forall|i: int| 0 <= i < final(pipes)@.len() ==> (#[trigger] final(pipes)@[i]).wf(),
        forall|i: int| 0 <= i < final(pipes)@.len() ==> (#[trigger] final(pipes)@[i]).buffer == old(pipes)@[i].buffer,
{
    let mut out: Vec<Option<FileObj>> = Vec::new();
    let mut i: usize = 0;
    while i < fds.len()
        invariant
            i <= fds@.len(),
            out@ == fds@.subrange(0, i as int),
            pipes@.len() == old(pipes)@.len(),
            forall|k: int| 0 <= k < pipes@.len() ==> (#[trigger] pipes@[k]).wf(),
            forall|k: int| 0 <= k < pipes@.len() ==> (#[trigger] pipes@[k]).buffer == old(pipes)@[k].buffer,
        decreases fds@.len() - i,
    {
        let f = fds[i];
        match f {
            Some(file) => retain_file(pipes, file),
            None => {}
        }
        out.push(f);
        assert(out@ =~= fds@.subrange(0, i + 1));
        i += 1;
    }
    assert(out@ =~= fds@);
    out
}

/// A copy of a signal-action table.
fn copy_actions(a: &Vec<SignalAction>) -> (r: Vec<SignalAction>)
    ensures
        r@ == a@,
{
    let mut out: Vec<SignalAction> = Vec::new();
    let mut i: usize = 0;
    while i < a.len()
        invariant
            i <= a@.len(),
            out@ == a@.subrange(0, i as int),
        decreases a@.len() - i,
    {
        out.push(a[i]);
        assert(out@ =~= a@.subrange(0, i + 1));
        i += 1;
    }
    assert(out@ =~= a@);
    out
}

/// The trap-context page of `ms` maps a frame readable and writable and
/// not for user mode, through a framed area: the frame that `translate`
/// gives.
proof fn lemma_trap_page(ms: MemorySet)
    requires
        ms.wf(),
        has_trap_context(ms),
    ensures
        ms@.contains_key(TRAP_CONTEXT_VPN),
        ms@[TRAP_CONTEXT_VPN].spec_flags() == (MAP_R | MAP_W) | PTE_V,
{
    let i = choose|i: int| 0 <= i < ms.areas@.len()
        && (#[trigger] ms.areas@[i]).start == TRAP_CONTEXT_VPN
        && ms.areas@[i].end == crate::config::TRAMPOLINE_VPN
        && ms.areas@[i].map_type == MapType::Framed
        && ms.areas@[i].map_perm == MAP_R | MAP_W;
    assert(ms.areas@[i].covers(TRAP_CONTEXT_VPN));
    crate::page_table::lemma_pte_flags(ms.areas@[i].target(TRAP_CONTEXT_VPN), (MAP_R | MAP_W) | PTE_V);
}

/// A copy with the same area shapes keeps the trap-context area.
proof fn lemma_copy_keeps_trap_context(src: MemorySet, dst: MemorySet)
    requires
        has_trap_context(src),
        dst.areas@.len() == src.areas@.len(),
        forall|i: int| 0 <= i < src.areas@.len() ==> same_shape(#[trigger] dst.areas@[i], src.areas@[i]),
        dst.wf(),
    ensures
        has_trap_context(dst),
{
    let i = choose|i: int| 0 <= i < src.areas@.len()
        && (#[trigger] src.areas@[i]).start == TRAP_CONTEXT_VPN
        && src.areas@[i].end == crate::config::TRAMPOLINE_VPN
        && src.areas@[i].map_type == MapType::Framed
        && src.areas@[i].map_perm == MAP_R | MAP_W;
    assert(same_shape(dst.areas@[i], src.areas@[i]));
    assert(dst.areas@[i].covers(TRAP_CONTEXT_VPN));
}

impl Kernel {
    /// Duplicates the current task. The child gets a copy of the address
    /// space (new frames holding the same contents), the same descriptors,
    /// signal mask and actions, no pending signals, the parent's user state
    /// with `a0` set to 0, and a kernel stack of its own; it becomes a child
    /// of the current task and joins the tail of the ready queue. Returns
    /// the child's pid to the parent; -1 when no task runs or memory or
    /// pids run out.
    pub fn sys_fork(&mut self) -> (r: i64)
        requires
            old(self).wf(),
        ensures
            final(self).wf(),
            final(self).current == old(self).current,
            old(self).current.is_none() ==> r == -1,
            old(self).current.is_some() && old(self).spec_room_for_task(3 + 3 * crate::memory_set::spec_pages_total(
                old(self).task(old(self).current.unwrap() as int).memory_set.areas@,
                old(self).task(old(self).current.unwrap() as int).memory_set.areas@.len() as int)) ==> r != -1,
            r != -1 ==> {
                let p = old(self).current.unwrap() as int;
                let c = r as int;
                let parent = old(self).task(p);
                let child = final(self).task(c);
                &&& 0 <= c
                &&& !old(self).has_task(c)
                &&& final(self).has_task(c)
                &&& child.parent == Some(p as usize)
                &&& child.task_status == TaskStatus::Ready
                &&& child.fd_table@ == parent.fd_table@
                &&& child.signal_mask == parent.signal_mask
                &&& child.signal_actions@ == parent.signal_actions@
                &&& child.signals == 0
                &&& child.trap_cx.x@ == parent.trap_cx.x@.update(10, 0)
                &&& child.trap_cx.sepc == parent.trap_cx.sepc
                &&& child.memory_set.areas@.len() == parent.memory_set.areas@.len()
                &&& forall|i: int| 0 <= i < parent.memory_set.areas@.len()
                        ==> same_shape(#[trigger] child.memory_set.areas@[i], parent.memory_set.areas@[i])
                &&& forall|i: int, k: int| 0 <= i < child.memory_set.areas@.len()
                        && child.memory_set.areas@[i].map_type == MapType::Framed
                        && 0 <= k < child.memory_set.areas@[i].frames@.len()
                        ==> !old(self).frames.out().contains(#[trigger] child.memory_set.areas@[i].frames@[k])
                &&& parent.memory_set.frames_out(old(self).frames) ==> forall|i: int, k: int|
                        0 <= i < child.memory_set.areas@.len()
                        && child.memory_set.areas@[i].map_type == MapType::Framed
                        && 0 <= k < child.memory_set.areas@[i].frames@.len()
                        ==> final(self).frames.page(#[trigger] child.memory_set.areas@[i].frames@[k])
                            == old(self).frames.page(parent.memory_set.areas@[i].frames@[k])
                &&& final(self).task(p).children@ == parent.children@.push(c as usize)
                &&& final(self).task(p).memory_set == parent.memory_set
                &&& final(self).task(p) == (TaskControlBlock { children: final(self).task(p).children, ..parent })
                &&& final(self).ready@ == old(self).ready@.push(c as usize)
                &&& child.exit_code == 0
                &&& child.handling_sig == -1
                &&& !child.killed && !child.frozen
                &&& child.trap_ctx_backup.is_none()
                &&& child.base_size == parent.base_size
                &&& child.children@.len() == 0
                &&& child.trap_cx.kernel_sp == crate::task::spec_kstack_top(c as usize)
                &&& child.trap_cx.sstatus == parent.trap_cx.sstatus
                &&& child.trap_cx.kernel_satp == parent.trap_cx.kernel_satp
                &&& child.trap_cx.trap_handler == parent.trap_cx.trap_handler
                &&& child.task_cx.sp == crate::task::spec_kstack_top(c as usize)
                &&& !old(self).frames.out().contains(child.trap_cx_ppn)
                &&& forall|q: int| #[trigger] old(self).has_task(q) && q != p ==> final(self).task(q) == old(self).task(q)
            },
    {
        let pid = match self.current {
            Some(p) => p,
            None => {
                return -1;
            }
        };
        let ghost k0 = *self;
        assert(k0.has_task(pid as int));
        assert(k0.task(pid as int).wf(pid, k0.trampoline_ppn));
        let child_ms = match MemorySet::from_existed_user(
            &self.tasks[pid].as_ref().unwrap().memory_set,
            self.trampoline_ppn,
            &mut self.frames,
        ) {
            Some(m) => m,
            None => {
                proof {
                    lemma_same_tasks(k0, *self);
                }
                return -1;
            }
        };
        let ghost k1 = *self;
        proof {
            lemma_same_tasks(k0, k1);
            let parent_ms = k0.task(pid as int).memory_set;
            lemma_copy_keeps_trap_context(parent_ms, child_ms);
            lemma_trap_page(child_ms);
        }
        let trap_cx_ppn = match child_ms.translate(TRAP_CONTEXT_VPN) {
            Some(e) => e.ppn(),
            None => {
                return -1;
            }
        };
        proof {
            let i = choose|i: int| 0 <= i < child_ms.areas@.len()
                && (#[trigger] child_ms.areas@[i]).start == TRAP_CONTEXT_VPN
                && child_ms.areas@[i].end == crate::config::TRAMPOLINE_VPN
                && child_ms.areas@[i].map_type == MapType::Framed
                && child_ms.areas@[i].map_perm == MAP_R | MAP_W;
            assert(child_ms.areas@[i].covers(TRAP_CONTEXT_VPN));
            assert(child_ms.areas@[i].wf());
            let k = TRAP_CONTEXT_VPN - child_ms.areas@[i].start;
            let f = child_ms.areas@[i].frames@[k];
            assert(!k0.frames.out().contains(child_ms.areas@[i].frames@[k]));
            assert(self.frames.out().contains(child_ms.areas@[i].frames@[k]));
            crate::page_table::lemma_pte_fields(f, (MAP_R | MAP_W) | PTE_V);
            assert(trap_cx_ppn == f);
        }
        let ghost old_live = self.pids.live();
        let cpid = match self.pids.alloc_pid() {
            Some(p) => p,
            None => {
                return -1;
            }
        };
        if self.tasks.len() < self.pids.current {
            self.tasks.push(None);
        }
        let ghost k2 = *self;
        if cpid > MAX_PID {
            self.pids.dealloc(cpid);
            proof {
                assert(self.pids.live() =~= old_live);
                assert forall|p: usize| #[trigger] self.pids.live().contains(p) <==> self.has_task(p as int) by {
                    if p < k1.tasks@.len() {
                        assert(self.tasks@[p as int] == k1.tasks@[p as int]);
                        assert(k1.pids.live().contains(p) <==> k1.has_task(p as int));
                    }
                }
                lemma_tasks_prefix(k1, *self);
            }
            return -1;
        }
        let (kb, kt) = kernel_stack_position(cpid);
        assert(self.frames == k1.frames);
        let ok = self.kernel_space.insert_framed_area(kb, kt, MAP_R | MAP_W, &mut self.frames);
        proof {
            assert forall|q: u64| #[trigger] k1.frames.out().contains(q) implies self.frames.page(q) == k1.frames.page(q)
                && self.frames.out().contains(q) by {}
        }
        if !ok {
            self.pids.dealloc(cpid);
            proof {
                assert(self.pids.live() =~= old_live);
                assert forall|p: usize| #[trigger] self.pids.live().contains(p) <==> self.has_task(p as int) by {
                    if p < k1.tasks@.len() {
                        assert(self.tasks@[p as int] == k1.tasks@[p as int]);
                        assert(k1.pids.live().contains(p) <==> k1.has_task(p as int));
                    }
                }
                lemma_tasks_prefix(k1, *self);
            }
            return -1;
        }
        let (fds, actions, mut trap_cx, mask, base_size) = {
            let parent = self.tasks[pid].as_ref().unwrap();
            (copy_fd_table(&parent.fd_table, &mut self.pipes), copy_actions(&parent.signal_actions),
                parent.trap_cx, parent.signal_mask, parent.base_size)
        };
        trap_cx.kernel_sp = kt;
        trap_cx.x[10] = 0;
        let child = TaskControlBlock {
            pid: cpid,
            trap_cx_ppn,
            base_size,
            task_cx: TaskContext::goto_trap_return(kt, self.trap_return_addr),
            task_status: TaskStatus::Ready,
            memory_set: child_ms,
            parent: Some(pid),
            children: Vec::new(),
            exit_code: 0,
            fd_table: fds,
            signals: 0,
            signal_mask: mask,
            handling_sig: -1,
            signal_actions: actions,
            killed: false,
            frozen: false,
            trap_cx,
            trap_ctx_backup: None,
        };
        let ghost k3 = *self;
        self.tasks.set(cpid, Some(child));
        proof {
            assert(!old_live.contains(cpid));
            assert(!k1.has_task(cpid as int));
            lemma_task_added(k1, k3, *self, cpid);
        }
        let ghost k4 = *self;
        assert(k4.has_task(pid as int));
        assert(k4.task(pid as int).wf(pid, k4.trampoline_ppn));
        let mut pt = self.tasks[pid].take().unwrap();
        pt.children.push(cpid);
        self.tasks.set(pid, Some(pt));
        proof {
            lemma_task_replaced(k4, *self, pid as int);
            assert(!self.ready@.contains(cpid)) by {
                if self.ready@.contains(cpid) {
                    let i = choose|i: int| 0 <= i < self.ready@.len() && self.ready@[i] == cpid;
                    assert(k0.has_task(self.ready@[i] as int));
                }
            }
        }
        let ghost k5 = *self;
        self.add_task(cpid);
        proof {
            let p = pid as int;
            let c = cpid as int;
            let parent = old(self).task(p);
            let ch = self.task(c);
            assert(self.tasks@[c] == k4.tasks@[c]);
            assert forall|q: int| #[trigger] old(self).has_task(q) && q != p implies self.task(q) == old(self).task(q) by {
                assert(k1.has_task(q));
                assert(q != c);
                assert(k3.tasks@[q] == k1.tasks@[q]);
                assert(self.tasks@[q] == k4.tasks@[q]);
            }
            assert(ch.fd_table@ == parent.fd_table@);
            assert(ch.signal_actions@ == parent.signal_actions@);
            assert(ch.trap_cx.x@ =~= parent.trap_cx.x@.update(10, 0));
            assert(ch.memory_set == child_ms);
            assert(forall|q: u64| #[trigger] k1.frames.out().contains(q) ==> self.frames.page(q) == k1.frames.page(q));
            assert(self.task(p).children@ == parent.children@.push(cpid));
        }
        cpid as i64
    }
}

/// Growing the task table by empty slots, with the same pids, frames that
/// stay well formed and a well-formed kernel space, keeps a kernel well
/// formed.
proof fn lemma_tasks_prefix(a: Kernel, b: Kernel)
    requires
        a.wf(),
        b.frames.wf(),
        b.kernel_space.wf(),
        b.kernel_space.has_trampoline(b.trampoline_ppn),
        b.trampoline_ppn == a.trampoline_ppn,
        b.pids.wf(),
        b.tasks@.len() == b.pids.current,
        b.tasks@.len() >= a.tasks@.len(),
        forall|p: int| 0 <= p < a.tasks@.len() ==> b.tasks@[p] == a.tasks@[p],
        forall|p: int| a.tasks@.len() <= p < b.tasks@.len() ==> b.tasks@[p].is_none(),
        forall|p: usize| #[trigger] b.pids.live().contains(p) <==> b.has_task(p as int),
        b.current == a.current,
        b.ready == a.ready,
        b.pipes == a.pipes,
    ensures
        b.wf(),
        forall|p: int| #[trigger] b.has_task(p) <==> a.has_task(p),
{
    assert forall|p: int| #[trigger] b.has_task(p) <==> a.has_task(p) by {
        if 0 <= p < a.tasks@.len() {
            assert(b.tasks@[p] == a.tasks@[p]);
        }
    }
    assert forall|p: int| #[trigger] b.has_task(p) implies b.task(p).wf(p as usize, b.trampoline_ppn) by {
        assert(a.has_task(p));
        assert(b.tasks@[p] == a.tasks@[p]);
    }
    assert forall|p: int| #[trigger] b.has_task(p) && b.task(p).task_status == TaskStatus::Running
        implies b.current == Some(p as usize) by {
        assert(a.has_task(p));
        assert(b.tasks@[p] == a.tasks@[p]);
    }
    assert forall|i: int| 0 <= i < b.ready@.len() implies b.has_task(#[trigger] b.ready@[i] as int)
        && b.task(b.ready@[i] as int).task_status == TaskStatus::Ready by {
        assert(a.has_task(a.ready@[i] as int));
        assert(b.tasks@[a.ready@[i] as int] == a.tasks@[a.ready@[i] as int]);
    }
    if b.current.is_some() {
        assert(b.tasks@[b.current.unwrap() as int] == a.tasks@[b.current.unwrap() as int]);
    }
}

/// Filling a free slot `c` of the table with a well-formed ready task whose
/// pid was just allocated keeps a kernel well formed.
proof fn lemma_task_added(a: Kernel, mid: Kernel, b: Kernel, c: usize)
    requires
        a.wf(),
        !a.has_task(c as int),
        !a.pids.live().contains(c),
        mid.pids.wf(),
        mid.pids.live() == a.pids.live().insert(c),
        mid.tasks@.len() == mid.pids.current,
        c < mid.tasks@.len(),
        mid.tasks@.len() >= a.tasks@.len(),
        forall|p: int| 0 <= p < a.tasks@.len() ==> mid.tasks@[p] == a.tasks@[p],
        forall|p: int| a.tasks@.len() <= p < mid.tasks@.len() ==> mid.tasks@[p].is_none(),
        b.tasks@ == mid.tasks@.update(c as int, b.tasks@[c as int]),
        b.tasks@[c as int].is_some(),
        b.task(c as int).wf(c, b.trampoline_ppn),
        b.task(c as int).task_status == TaskStatus::Ready,
        b.frames.wf(),
        b.kernel_space.wf(),
        b.kernel_space.has_trampoline(b.trampoline_ppn),
        b.trampoline_ppn == a.trampoline_ppn,
        b.pids == mid.pids,
        b.current == a.current,
        b.ready == a.ready,
        forall|i: int| 0 <= i < b.pipes@.len() ==> (#[trigger] b.pipes@[i]).wf(),
    ensures
        b.wf(),
        forall|p: int| #[trigger] b.has_task(p) <==> (a.has_task(p) || p == c as int),
        forall|p: int| #[trigger] a.has_task(p) ==> b.task(p) == a.task(p),
{
    assert forall|p: int| #[trigger] b.has_task(p) <==> (a.has_task(p) || p == c as int) by {
        if 0 <= p < a.tasks@.len() && p != c as int {
            assert(b.tasks@[p] == a.tasks@[p]);
        }
    }
    assert forall|p: int| #[trigger] a.has_task(p) implies b.task(p) == a.task(p) by {
        assert(p != c as int);
        assert(b.tasks@[p] == a.tasks@[p]);
    }
    assert forall|p: usize| #[trigger] b.pids.live().contains(p) <==> b.has_task(p as int) by {
        assert(a.pids.live().contains(p) <==> a.has_task(p as int));
    }
    assert forall|p: int| #[trigger] b.has_task(p) implies b.task(p).wf(p as usize, b.trampoline_ppn) by {
        if p != c as int {
            assert(a.has_task(p));
        }
    }
    assert forall|p: int| #[trigger] b.has_task(p) && b.task(p).task_status == TaskStatus::Running
        implies b.current == Some(p as usize) by {
        if p != c as int {
            assert(a.has_task(p));
        }
    }
    assert forall|i: int| 0 <= i < b.ready@.len() implies b.has_task(#[trigger] b.ready@[i] as int)
        && b.task(b.ready@[i] as int).task_status == TaskStatus::Ready by {
        assert(a.has_task(a.ready@[i] as int));
    }
    if b.current.is_some() {
        assert(a.has_task(b.current.unwrap() as int));
    }
}

} // verus!

verus! {

/// `true` when `waitpid(pid, ..)` selects child `c`: `pid` is -1 or `c`.
pub open spec fn spec_selects(pid: i64, c: usize) -> bool {
    pid == -1 || pid == c as i64
}

/// `true` when task `c` is a zombie that `waitpid(pid, ..)` may collect.
pub open spec fn spec_wait_match(k: Kernel, pid: i64, c: usize) -> bool {
    spec_selects(pid, c) && k.has_task(c as int) && k.task(c as int).task_status == TaskStatus::Zombie
}

/// The four little-endian bytes of `x`.
pub open spec fn spec_i32_bytes(x: i32) -> Seq<u8> {
    let u = x as u32 as u64;
    seq![crate::task::spec_byte(u, 0), crate::task::spec_byte(u, 1), crate::task::spec_byte(u, 2), crate::task::spec_byte(u, 3)]
}

/// The four little-endian bytes of `x`.
fn i32_to_bytes(x: i32) -> (r: Vec<u8>)
    ensures
        r@ == spec_i32_bytes(x),
{
    let u = x as u32 as u64;
    let r = vec![((u >> 0u64) & 0xff) as u8, ((u >> 8u64) & 0xff) as u8, ((u >> 16u64) & 0xff) as u8, ((u >> 24u64) & 0xff) as u8];
    assert(r@ =~= spec_i32_bytes(x));
    r
}

/// Removing a zombie from the table, returning its pid, keeps a kernel
/// well formed.
proof fn lemma_task_reaped(a: Kernel, b: Kernel, c: usize)
    requires
        a.wf(),
        a.has_task(c as int),
        a.task(c as int).task_status == TaskStatus::Zombie,
        b.tasks@ == a.tasks@.update(c as int, None),
        b.pids.wf(),
        b.pids.current == a.pids.current,
        b.pids.live() == a.pids.live().remove(c),
        b.frames.wf(),
        b.kernel_space.wf(),
        b.kernel_space.has_trampoline(b.trampoline_ppn),
        b.trampoline_ppn == a.trampoline_ppn,
        b.current == a.current,
        b.ready == a.ready,
        forall|i: int| 0 <= i < b.pipes@.len() ==> (#[trigger] b.pipes@[i]).wf(),
    ensures
        b.wf(),
        forall|p: int| #[trigger] b.has_task(p) <==> (a.has_task(p) && p != c as int),
        forall|p: int| #[trigger] b.has_task(p) ==> b.task(p) == a.task(p),
{
    assert forall|p: int| #[trigger] b.has_task(p) <==> (a.has_task(p) && p != c as int) by {}
    assert forall|p: int| #[trigger] b.has_task(p) implies b.task(p) == a.task(p) by {}
    assert forall|p: usize| #[trigger] b.pids.live().contains(p) <==> b.has_task(p as int) by {
        assert(a.pids.live().contains(p) <==> a.has_task(p as int));
    }
    assert forall|p: int| #[trigger] b.has_task(p) implies b.task(p).wf(p as usize, b.trampoline_ppn) by {
        assert(a.has_task(p));
    }
    assert forall|p: int| #[trigger] b.has_task(p) && b.task(p).task_status == TaskStatus::Running
        implies b.current == Some(p as usize) by {
        assert(a.has_task(p));
    }
    assert forall|i: int| 0 <= i < b.ready@.len() implies b.has_task(#[trigger] b.ready@[i] as int)
        && b.task(b.ready@[i] as int).task_status == TaskStatus::Ready by {
        assert(a.has_task(a.ready@[i] as int));
    }
    if b.current.is_some() {
        assert(a.has_task(b.current.unwrap() as int));
    }
}

impl Kernel {
    /// Position in the current task's children of the first zombie child
    /// that `pid` selects (-1: any), and whether any child is selected.
    fn find_zombie_child(&self, pid: i64) -> (r: (bool, Option<usize>))
        requires
            self.wf(),
            self.current.is_some(),
        ensures
            ({
                let ch = self.task(self.current.unwrap() as int).children@;
                &&& r.0 <==> exists|i: int| 0 <= i < ch.len() && spec_selects(pid, #[trigger] ch[i])
                &&& r.1.is_some() ==> r.1.unwrap() < ch.len() && spec_wait_match(*self, pid, ch[r.1.unwrap() as int])
                        && forall|j: int| 0 <= j < r.1.unwrap() ==> !spec_wait_match(*self, pid, #[trigger] ch[j])
                &&& r.1.is_none() ==> forall|i: int| 0 <= i < ch.len() ==> !spec_wait_match(*self, pid, #[trigger] ch[i])
            }),
    {
        let cur = self.current.unwrap();
        let t = self.tasks[cur].as_ref().unwrap();
        let mut any = false;
        let mut i: usize = 0;
        while i < t.children.len()
            invariant
                self.wf(),
                self.current == Some(cur),
                *t == self.task(cur as int),
                i <= t.children@.len(),
                any <==> exists|j: int| 0 <= j < i && spec_selects(pid, #[trigger] t.children@[j]),
                forall|j: int| 0 <= j < i ==> !spec_wait_match(*self, pid, #[trigger] t.children@[j]),
            decreases t.children@.len() - i,
        {
            let c = t.children[i];
            let ghost any0 = any;
            proof {
                if pid == -1 || pid == c as i64 {
                    assert(0 <= i < i + 1 && spec_selects(pid, t.children@[i as int]));
                } else {
                    assert forall|j: int| 0 <= j < i + 1 && spec_selects(pid, #[trigger] t.children@[j])
                        implies 0 <= j < i by {}
                }
            }
            if pid == -1 || pid == c as i64 {
                any = true;
                if c < self.tasks.len() {
                    match &self.tasks[c] {
                        Some(ct) => {
                            if ct.is_zombie() {
                                return (true, Some(i));
                            }
                        }
                        None => {}
                    }
                }
            }
            i += 1;
        }
        (any, None)
    }

    /// Collects a zombie child of the current task: `pid` selects the
    /// child (-1: any). Writes its exit code to user address
    /// `exit_code_ptr`, removes it from the children, frees its pid, kernel
    /// stack and memory, and returns its pid. -1 when no task runs, no
    /// child is selected, or the code cannot be written; -2 when the
    /// selected children are all still running.
    pub fn sys_waitpid(&mut self, pid: i64, exit_code_ptr: u64) -> (r: i64)
        requires
            old(self).wf(),
        ensures
            final(self).wf(),
            final(self).current == old(self).current,
            old(self).current.is_none() ==> r == -1,
            old(self).current.is_some() ==> {
                let ch = old(self).task(old(self).current.unwrap() as int).children@;
                &&& (forall|i: int| 0 <= i < ch.len() ==> !spec_selects(pid, #[trigger] ch[i])) ==> r == -1
                &&& r == -2 <==> (exists|i: int| 0 <= i < ch.len() && spec_selects(pid, #[trigger] ch[i]))
                        && (forall|i: int| 0 <= i < ch.len() ==> !spec_wait_match(*old(self), pid, #[trigger] ch[i]))
            },
            r == -1 || r == -2 ==> *final(self) == *old(self),
            r >= 0 <==> old(self).current.is_some()
                && (exists|i: int| 0 <= i < old(self).task(old(self).current.unwrap() as int).children@.len()
                    && spec_wait_match(*old(self), pid, #[trigger] old(self).task(old(self).current.unwrap() as int).children@[i]))
                && exit_code_ptr <= u64::MAX - 4
                && crate::page_table::spec_user_range_ok(old(self).task(old(self).current.unwrap() as int).memory_set.page_table,
                    old(self).frames, exit_code_ptr as int, 4),
            r >= 0 ==> {
                let p = old(self).current.unwrap() as int;
                let pt = old(self).task(p).memory_set.page_table;
                let c = r as usize;
                &&& spec_wait_match(*old(self), pid, c)
                &&& old(self).task(p).children@.contains(c)
                &&& !final(self).has_task(c as int)
                &&& !final(self).pids.live().contains(c)
                &&& exists|i: int| 0 <= i < old(self).task(p).children@.len()
                        && old(self).task(p).children@[i] == c
                        && final(self).task(p).children@ == old(self).task(p).children@.remove(i)
                        && forall|j: int| 0 <= j < i ==> !spec_wait_match(*old(self), pid, #[trigger] old(self).task(p).children@[j])
                &&& crate::page_table::spec_no_alias(pt, exit_code_ptr as int, 4) ==>
                        crate::page_table::spec_user_bytes(pt, final(self).frames, exit_code_ptr as int, 4)
                            == spec_i32_bytes(old(self).task(c as int).exit_code)
            },
            r == -1 || r == -2 || r >= 0,
    {
        let cur = match self.current {
            Some(p) => p,
            None => {
                return -1;
            }
        };
        let (any, found) = self.find_zombie_child(pid);
        if !any {
            return -1;
        }
        let idx = match found {
            Some(i) => i,
            None => {
                return -2;
            }
        };
        if exit_code_ptr > u64::MAX - 4 {
            return -1;
        }
        let ghost k0 = *self;
        assert(k0.has_task(cur as int));
        assert(k0.task(cur as int).wf(cur, k0.trampoline_ppn));
        let c = self.tasks[cur].as_ref().unwrap().children[idx];
        assert(k0.has_task(c as int));
        assert(k0.task(c as int).wf(c, k0.trampoline_ppn));
        assert(c != cur);
        let code = self.tasks[c].as_ref().unwrap().exit_code;
        let bytes = i32_to_bytes(code);
        if !write_user_bytes(&self.tasks[cur].as_ref().unwrap().memory_set.page_table, &mut self.frames, exit_code_ptr, bytes.as_slice()) {
            return -1;
        }
        let ghost k1 = *self;
        proof {
            lemma_same_tasks(k0, k1);
        }
        let mut pt = self.tasks[cur].take().unwrap();
        pt.children.remove(idx);
        self.tasks.set(cur, Some(pt));
        proof {
            lemma_task_replaced(k1, *self, cur as int);
            assert(self.task(cur as int).children@ == k0.task(cur as int).children@.remove(idx as int));
            assert(k0.task(cur as int).children@[idx as int] == c);
        }
        let ghost k2 = *self;
        assert(k2.has_task(c as int));
        let child = self.tasks[c].take().unwrap();
        let (kb, _kt) = kernel_stack_position(c);
        self.kernel_space.remove_area_with_start_vpn(crate::address::va_floor(kb), &mut self.frames);
        child.memory_set.release(&mut self.frames);
        self.pids.dealloc(c);
        proof {
            lemma_task_reaped(k2, *self, c);
            assert(self.task(cur as int) == k2.task(cur as int));
            assert(self.frames.start == k1.frames.start && self.frames.current == k1.frames.current);
            let ptab = k0.task(cur as int).memory_set.page_table;
            assert(crate::page_table::spec_user_bytes(ptab, self.frames, exit_code_ptr as int, 4)
                =~= crate::page_table::spec_user_bytes(ptab, k1.frames, exit_code_ptr as int, 4));
        }
        c as i64
    }
}

} // verus!

verus! {

/// Where `exec` puts the argument pointers: `argc + 1` words below the top
/// of the new user stack.
pub open spec fn spec_argv_base(stack_top: u64, argc: nat) -> int {
    stack_top - (argc + 1) * 8
}

/// Bytes the first `n` argument strings take on the stack, each with its
/// terminator.
pub open spec fn spec_args_bytes(args: Seq<Vec<u8>>, n: int) -> int
    decreases n,
{
    if n <= 0 || n > args.len() {
        0
    } else {
        spec_args_bytes(args, n - 1) + args[n - 1]@.len() + 1
    }
}

/// Where `exec` puts argument string `j`.
pub open spec fn spec_arg_addr(argv_base: u64, args: Seq<Vec<u8>>, j: int) -> int {
    argv_base - spec_args_bytes(args, j + 1)
}

/// `true` when, in `fa`, the strings of `args` lie below `argv_base`, each
/// with its terminator, and the null-terminated array of their addresses
/// lies at `argv_base`.
pub open spec fn spec_args_laid_out(pt: crate::page_table::PageTable, fa: crate::frame_allocator::FrameAllocator,
    argv_base: u64, args: Seq<Vec<u8>>) -> bool {
    &&& forall|j: int, m: int| 0 <= j < args.len() && 0 <= m <= args[j]@.len() ==>
            #[trigger] crate::page_table::spec_user_byte(pt, fa, spec_arg_addr(argv_base, args, j) + m)
                == Some(if m < args[j]@.len() { args[j]@[m] } else { 0u8 })
    &&& forall|j: int, m: int| 0 <= j < args.len() && 0 <= m < 8 ==>
            #[trigger] crate::page_table::spec_user_byte(pt, fa, argv_base + 8 * j + m)
                == Some(crate::task::spec_u64_bytes(spec_arg_addr(argv_base, args, j) as u64)[m])
    &&& forall|m: int| 0 <= m < 8 ==>
            #[trigger] crate::page_table::spec_user_byte(pt, fa, argv_base + 8 * args.len() + m) == Some(0u8)
}

/// Inside a range that no two addresses of alias, an address outside a
/// sub-range reaches no byte the sub-range reaches.
proof fn lemma_apart_in(pt: crate::page_table::PageTable, lo: int, len: int, a: int, w: int, l: int)
    requires
        crate::page_table::spec_no_alias(pt, lo, len),
        lo <= a < lo + len,
        lo <= w,
        w + l <= lo + len,
        !(w <= a < w + l),
    ensures
        crate::page_table::spec_apart(pt, a, w, l),
{
    assert forall|k: int| 0 <= k < l implies !(crate::page_table::spec_frame_of(pt, a)
        == #[trigger] crate::page_table::spec_frame_of(pt, w + k)
        && a % crate::config::PAGE_SIZE as int == (w + k) % crate::config::PAGE_SIZE as int) by {
        let i = a - lo;
        let j = w + k - lo;
        assert(lo + i == a);
        assert(lo + j == w + k);
        assert(i != j);
        if crate::page_table::spec_frame_of(pt, lo + i) == crate::page_table::spec_frame_of(pt, lo + j) {
            assert((lo + i) % crate::config::PAGE_SIZE as int != (lo + j) % crate::config::PAGE_SIZE as int);
        }
    }
}

/// A sub-range of a range that no two addresses alias has no alias.
proof fn lemma_no_alias_sub(pt: crate::page_table::PageTable, lo: int, len: int, w: int, l: int)
    requires
        crate::page_table::spec_no_alias(pt, lo, len),
        lo <= w,
        w + l <= lo + len,
    ensures
        crate::page_table::spec_no_alias(pt, w, l),
{
    assert forall|i: int, j: int| 0 <= i < l && 0 <= j < l && i != j
        && #[trigger] crate::page_table::spec_frame_of(pt, w + i) == #[trigger] crate::page_table::spec_frame_of(pt, w + j)
        implies (w + i) % crate::config::PAGE_SIZE as int != (w + j) % crate::config::PAGE_SIZE as int by {
        let a = w + i - lo;
        let b = w + j - lo;
        assert(lo + a == w + i);
        assert(lo + b == w + j);
        assert(crate::page_table::spec_frame_of(pt, lo + a) == crate::page_table::spec_frame_of(pt, lo + b));
    }
}

/// Byte `m` of argument string `j` lies between the lowest string address
/// and the start of the strings after it.
proof fn lemma_arg_range(args: Seq<Vec<u8>>, argv_base: u64, j: int, m: int)
    requires
        0 <= j < args.len(),
        0 <= m <= args[j]@.len(),
    ensures
        argv_base - spec_args_bytes(args, args.len() as int) <= spec_arg_addr(argv_base, args, j) + m,
        spec_arg_addr(argv_base, args, j) + m < argv_base - spec_args_bytes(args, j),
{
    lemma_args_bytes_mono(args, j + 1, args.len() as int);
    lemma_args_bytes_mono(args, 0, j);
}

proof fn lemma_args_bytes_mono(args: Seq<Vec<u8>>, m: int, n: int)
    requires
        0 <= m <= n <= args.len(),
    ensures
        0 <= spec_args_bytes(args, m) <= spec_args_bytes(args, n),
    decreases n,
{
    if m < n {
        lemma_args_bytes_mono(args, m, n - 1);
    } else if m > 0 {
        lemma_args_bytes_mono(args, m - 1, m - 1);
    }
}

impl Kernel {
    /// Writes the argument strings below `argv_base` and the pointer array
    /// at `argv_base` in address space `ms`; returns the final stack
    /// pointer, aligned down to 8. `None` when the stack cannot hold them.
    fn push_args(ms: &MemorySet, fa: &mut crate::frame_allocator::FrameAllocator, argv_base: u64, args: &Vec<Vec<u8>>) -> (r: Option<u64>)
        requires
            ms.wf(),
            old(fa).wf(),
            argv_base as int + (args@.len() + 1) * 8 <= u64::MAX,
        ensures
            final(fa).wf(),
            final(fa).start == old(fa).start,
            final(fa).current == old(fa).current,
            final(fa).end == old(fa).end,
            final(fa).recycled == old(fa).recycled,
            final(fa).out() == old(fa).out(),
            r.is_some() ==> r.unwrap() % 8 == 0 && r.unwrap() <= argv_base,
            argv_base >= spec_args_bytes(args@, args@.len() as int)
                && (forall|a: int| argv_base - spec_args_bytes(args@, args@.len() as int) <= a
                    < argv_base + (args@.len() + 1) * 8
                    ==> #[trigger] crate::page_table::spec_user_byte(ms.page_table, *old(fa), a).is_some())
                ==> r.is_some(),
            r.is_some() && crate::page_table::spec_no_alias(ms.page_table,
                argv_base - spec_args_bytes(args@, args@.len() as int),
                spec_args_bytes(args@, args@.len() as int) + (args@.len() + 1) * 8)
                ==> spec_args_laid_out(ms.page_table, *final(fa), argv_base, args@),
    {
        let ghost lo = argv_base - spec_args_bytes(args@, args@.len() as int);
        let ghost hi = argv_base + (args@.len() + 1) * 8;
        let ghost pre = argv_base >= spec_args_bytes(args@, args@.len() as int)
            && (forall|a: int| lo <= a < hi ==> #[trigger] crate::page_table::spec_user_byte(ms.page_table, *old(fa), a).is_some());
        proof {
            lemma_args_bytes_mono(args@, 0, args@.len() as int);
        }
        let mut sp = argv_base;
        let mut i: usize = 0;
        while i < args.len()
            invariant
                lo == argv_base - spec_args_bytes(args@, args@.len() as int),
                hi == argv_base + (args@.len() + 1) * 8,
                pre == (argv_base >= spec_args_bytes(args@, args@.len() as int)
                    && (forall|a: int| lo <= a < hi ==> #[trigger] crate::page_table::spec_user_byte(ms.page_table, *old(fa), a).is_some())),
                pre ==> sp == argv_base - spec_args_bytes(args@, i as int),
                pre ==> forall|a: int| lo <= a < hi ==> #[trigger] crate::page_table::spec_user_byte(ms.page_table, *fa, a).is_some(),
                sp == argv_base - spec_args_bytes(args@, i as int),
                crate::page_table::spec_no_alias(ms.page_table, lo, hi - lo) ==> {
                    &&& forall|j: int, m: int| 0 <= j < i && 0 <= m <= args@[j]@.len() ==>
                        #[trigger] crate::page_table::spec_user_byte(ms.page_table, *fa, spec_arg_addr(argv_base, args@, j) + m)
                            == Some(if m < args@[j]@.len() { args@[j]@[m] } else { 0u8 })
                    &&& forall|j: int, m: int| 0 <= j < i && 0 <= m < 8 ==>
                        #[trigger] crate::page_table::spec_user_byte(ms.page_table, *fa, argv_base + 8 * j + m)
                            == Some(crate::task::spec_u64_bytes(spec_arg_addr(argv_base, args@, j) as u64)[m])
                },
                ms.wf(),
                fa.wf(),
                fa.start == old(fa).start,
                fa.current == old(fa).current,
                fa.end == old(fa).end,
                fa.recycled == old(fa).recycled,
                fa.out() == old(fa).out(),
                argv_base as int + (args@.len() + 1) * 8 <= u64::MAX,
                sp <= argv_base,
                i <= args@.len(),
            decreases args@.len() - i,
        {
            let arg = &args[i];
            proof {
                lemma_args_bytes_mono(args@, i as int + 1, args@.len() as int);
            }
            if (arg.len() as u64) >= sp {
                return None;
            }
            sp = sp - arg.len() as u64 - 1;
            let mut bytes = crate::memory_set::copy_range(arg.as_slice(), 0, arg.len());
            assert(bytes@ =~= arg@);
            bytes.push(0u8);
            if sp as u128 + bytes.len() as u128 > u64::MAX as u128 {
                return None;
            }
            let ghost fa1 = *fa;
            if !crate::page_table::write_user_bytes(&ms.page_table, fa, sp, bytes.as_slice()) {
                proof {
                    if pre {
                        assert forall|k: int| 0 <= k < bytes@.len() implies
                            (#[trigger] crate::page_table::spec_user_byte(ms.page_table, fa1, sp + k)).is_some() by {
                            assert(lo <= sp + k < hi);
                        }
                    }
                }
                return None;
            }
            proof {
                assert forall|a: int| lo <= a < hi && crate::page_table::spec_user_byte(ms.page_table, fa1, a).is_some()
                    implies #[trigger] crate::page_table::spec_user_byte(ms.page_table, *fa, a).is_some() by {}
                let pt = ms.page_table;
                if crate::page_table::spec_no_alias(pt, lo, hi - lo) {
                    let l = bytes@.len() as int;
                    assert(sp + l == argv_base - spec_args_bytes(args@, i as int));
                    lemma_no_alias_sub(pt, lo, hi - lo, sp as int, l);
                    assert(sp as int == spec_arg_addr(argv_base, args@, i as int));
                    assert forall|j: int, m: int| 0 <= j < i + 1 && 0 <= m <= args@[j]@.len() implies
                        #[trigger] crate::page_table::spec_user_byte(pt, *fa, spec_arg_addr(argv_base, args@, j) + m)
                            == Some(if m < args@[j]@.len() { args@[j]@[m] } else { 0u8 }) by {
                        if j < i {
                            lemma_arg_range(args@, argv_base, j, m);
                            assert(sp + l <= argv_base);
                            lemma_args_bytes_mono(args@, j + 1, i as int);
                            lemma_args_bytes_mono(args@, 0, j);
                            let a = spec_arg_addr(argv_base, args@, j) + m;
                            assert(lo <= a);
                            assert(a < hi);
                            lemma_apart_in(pt, lo, hi - lo, a, sp as int, l);
                            assert(crate::page_table::spec_user_byte(pt, fa1, a)
                                == Some(if m < args@[j]@.len() { args@[j]@[m] } else { 0u8 }));
                        } else {
                            assert(bytes@[m] == (if m < args@[j]@.len() { args@[j]@[m] } else { 0u8 }));
                            assert(crate::page_table::spec_user_bytes(pt, *fa, sp as int, l as nat)[m] == bytes@[m]);
                            assert(crate::page_table::spec_user_byte(pt, *fa, sp + m).is_some());
                        }
                    }
                    assert forall|j: int, m: int| 0 <= j < i && 0 <= m < 8 implies
                        #[trigger] crate::page_table::spec_user_byte(pt, *fa, argv_base + 8 * j + m)
                            == Some(crate::task::spec_u64_bytes(spec_arg_addr(argv_base, args@, j) as u64)[m]) by {
                        lemma_args_bytes_mono(args@, 0, i as int);
                        assert(sp + l <= argv_base);
                        assert(lo <= argv_base + 8 * j + m < hi);
                        lemma_apart_in(pt, lo, hi - lo, argv_base + 8 * j + m, sp as int, l);
                        assert(crate::page_table::spec_user_byte(pt, fa1, argv_base + 8 * j + m)
                            == Some(crate::task::spec_u64_bytes(spec_arg_addr(argv_base, args@, j) as u64)[m]));
                        assert(crate::page_table::spec_apart(pt, argv_base + 8 * j + m, sp as int, l));
                        assert(crate::page_table::spec_user_byte(pt, *fa, argv_base + 8 * j + m)
                            == crate::page_table::spec_user_byte(pt, fa1, argv_base + 8 * j + m));
                    }
                }
            }
            let ptr = crate::task::u64_to_bytes(sp);
            assert((i as int) * 8 <= (args@.len() as int) * 8) by (nonlinear_arith)
                requires i <= args@.len();
            let ghost fa2 = *fa;
            if !crate::page_table::write_user_bytes(&ms.page_table, fa, argv_base + (i as u64) * 8, ptr.as_slice()) {
                proof {
                    if pre {
                        assert forall|k: int| 0 <= k < 8 implies
                            (#[trigger] crate::page_table::spec_user_byte(ms.page_table, fa2, argv_base + (i as u64) * 8 + k)).is_some() by {
                            assert(lo <= argv_base + (i as int) * 8 + k < hi);
                        }
                    }
                }
                return None;
            }
            proof {
                assert forall|a: int| lo <= a < hi && crate::page_table::spec_user_byte(ms.page_table, fa2, a).is_some()
                    implies #[trigger] crate::page_table::spec_user_byte(ms.page_table, *fa, a).is_some() by {}
                let pt = ms.page_table;
                if crate::page_table::spec_no_alias(pt, lo, hi - lo) {
                    let w = argv_base + 8 * i;
                    lemma_no_alias_sub(pt, lo, hi - lo, w, 8);
                    assert forall|j: int, m: int| 0 <= j < i + 1 && 0 <= m <= args@[j]@.len() implies
                        #[trigger] crate::page_table::spec_user_byte(pt, *fa, spec_arg_addr(argv_base, args@, j) + m)
                            == Some(if m < args@[j]@.len() { args@[j]@[m] } else { 0u8 }) by {
                        lemma_arg_range(args@, argv_base, j, m);
                        lemma_args_bytes_mono(args@, 0, j);
                        lemma_apart_in(pt, lo, hi - lo, spec_arg_addr(argv_base, args@, j) + m, w, 8);
                        assert(crate::page_table::spec_user_byte(pt, fa2, spec_arg_addr(argv_base, args@, j) + m)
                            == Some(if m < args@[j]@.len() { args@[j]@[m] } else { 0u8 }));
                    }
                    assert forall|j: int, m: int| 0 <= j < i + 1 && 0 <= m < 8 implies
                        #[trigger] crate::page_table::spec_user_byte(pt, *fa, argv_base + 8 * j + m)
                            == Some(crate::task::spec_u64_bytes(spec_arg_addr(argv_base, args@, j) as u64)[m]) by {
                        if j < i {
                            lemma_apart_in(pt, lo, hi - lo, argv_base + 8 * j + m, w, 8);
                            assert(crate::page_table::spec_user_byte(pt, fa2, argv_base + 8 * j + m)
                                == Some(crate::task::spec_u64_bytes(spec_arg_addr(argv_base, args@, j) as u64)[m]));
                        } else {
                            assert(crate::page_table::spec_user_bytes(pt, *fa, w, 8)[m] == ptr@[m]);
                            assert(crate::page_table::spec_user_byte(pt, *fa, w + m).is_some());
                        }
                    }
                }
            }
            i += 1;
        }
        let zero = crate::task::u64_to_bytes(0);
        assert((args@.len() as int) * 8 + 8 == (args@.len() as int + 1) * 8) by (nonlinear_arith);
        let ghost fa3 = *fa;
        if !crate::page_table::write_user_bytes(&ms.page_table, fa, argv_base + (args.len() as u64) * 8, zero.as_slice()) {
            proof {
                if pre {
                    assert forall|k: int| 0 <= k < 8 implies
                        (#[trigger] crate::page_table::spec_user_byte(ms.page_table, fa3, argv_base + (args.len() as u64) * 8 + k)).is_some() by {
                        assert(lo <= argv_base + (args@.len() as int) * 8 + k < hi);
                    }
                }
            }
            return None;
        }
        proof {
            let pt = ms.page_table;
            if crate::page_table::spec_no_alias(pt, lo, hi - lo) {
                let n = args@.len() as int;
                let w = argv_base + 8 * n;
                lemma_no_alias_sub(pt, lo, hi - lo, w, 8);
                assert forall|j: int, m: int| 0 <= j < n && 0 <= m <= args@[j]@.len() implies
                    #[trigger] crate::page_table::spec_user_byte(pt, *fa, spec_arg_addr(argv_base, args@, j) + m)
                        == Some(if m < args@[j]@.len() { args@[j]@[m] } else { 0u8 }) by {
                    lemma_arg_range(args@, argv_base, j, m);
                    lemma_args_bytes_mono(args@, 0, j);
                    lemma_apart_in(pt, lo, hi - lo, spec_arg_addr(argv_base, args@, j) + m, w, 8);
                    assert(crate::page_table::spec_user_byte(pt, fa3, spec_arg_addr(argv_base, args@, j) + m)
                        == Some(if m < args@[j]@.len() { args@[j]@[m] } else { 0u8 }));
                }
                assert forall|j: int, m: int| 0 <= j < n && 0 <= m < 8 implies
                    #[trigger] crate::page_table::spec_user_byte(pt, *fa, argv_base + 8 * j + m)
                        == Some(crate::task::spec_u64_bytes(spec_arg_addr(argv_base, args@, j) as u64)[m]) by {
                    lemma_apart_in(pt, lo, hi - lo, argv_base + 8 * j + m, w, 8);
                    assert(crate::page_table::spec_user_byte(pt, fa3, argv_base + 8 * j + m)
                        == Some(crate::task::spec_u64_bytes(spec_arg_addr(argv_base, args@, j) as u64)[m]));
                }
                assert forall|m: int| 0 <= m < 8 implies
                    #[trigger] crate::page_table::spec_user_byte(pt, *fa, argv_base + 8 * n + m) == Some(0u8) by {
                    assert(crate::page_table::spec_user_bytes(pt, *fa, w, 8)[m] == zero@[m]);
                    assert(crate::page_table::spec_user_byte(pt, *fa, w + m).is_some());
                    assert(zero@[m] == 0u8) by {
                        assert(forall|b: u64| crate::task::spec_byte(0u64, b) == 0u8) by (bit_vector);
                    }
                }
            }
        }
        Some(sp - sp % 8)
    }

    /// Replaces the current task's program with ELF image `elf_data`,
    /// passing `args`: builds the new address space, lays the arguments out
    /// on its user stack (a null-terminated array of pointers to
    /// null-terminated strings), frees every frame of the old address
    /// space, and starts the program at its entry point with `a0` = the
    /// number of arguments and `a1` = the address of the pointer array.
    /// Returns the number of arguments; -1, with the task unchanged, when no
    /// task runs, the image cannot be loaded or the arguments do not fit.
    pub fn exec_current(&mut self, elf_data: &[u8], args: &Vec<Vec<u8>>) -> (r: i64)
        requires
            old(self).wf(),
        ensures
            final(self).wf(),
            final(self).current == old(self).current,
            r == -1 ==> final(self).tasks == old(self).tasks,
            r == -1 || r == args@.len(),
            r != -1 ==> old(self).current.is_some(),
            old(self).current.is_some() && crate::memory_set::spec_elf_loadable(elf_data@)
                && old(self).frames.free_count() >= crate::memory_set::spec_elf_frames(elf_data@)
                && args@.len() < 0x1000
                && spec_args_bytes(args@, args@.len() as int) + (args@.len() + 1) * 8 <= PAGE_SIZE
                ==> r == args@.len() && spec_args_laid_out(
                    final(self).task(old(self).current.unwrap() as int).memory_set.page_table, final(self).frames,
                    final(self).task(old(self).current.unwrap() as int).trap_cx.x@[11], args@),
            r != -1 ==> {
                let p = old(self).current.unwrap() as int;
                let t = final(self).task(p);
                let old_ms = old(self).task(p).memory_set;
                &&& crate::elf::elf_header_of(elf_data@).is_some()
                &&& t.trap_cx.sepc == crate::elf::elf_header_of(elf_data@).unwrap().entry
                &&& t.trap_cx.x@[10] == args@.len()
                &&& t.trap_cx.x@[11] == spec_argv_base(t.base_size, args@.len())
                &&& t.trap_cx.x@[2] % 8 == 0
                &&& t.trap_cx.x@[2] <= t.trap_cx.x@[11]
                &&& t.memory_set.has_trampoline(final(self).trampoline_ppn)
                &&& has_trap_context(t.memory_set)
                &&& t.fd_table == old(self).task(p).fd_table
                &&& t.children == old(self).task(p).children
                &&& forall|k: int| 0 <= k < old_ms.page_table.frames@.len()
                        ==> !final(self).frames.out().contains(#[trigger] old_ms.page_table.frames@[k])
                &&& forall|i: int, k: int| 0 <= i < old_ms.areas@.len() && old_ms.areas@[i].map_type == MapType::Framed
                        && 0 <= k < old_ms.areas@[i].frames@.len()
                        ==> !final(self).frames.out().contains(#[trigger] old_ms.areas@[i].frames@[k])
            },
    {
        let pid = match self.current {
            Some(p) => p,
            None => {
                return -1;
            }
        };
        let ghost k0 = *self;
        assert(k0.has_task(pid as int));
        assert(k0.task(pid as int).wf(pid, k0.trampoline_ppn));
        let (ms, user_sp, entry) = match MemorySet::from_elf(elf_data, self.trampoline_ppn, &mut self.frames) {
            Some(x) => x,
            None => {
                proof {
                    lemma_same_tasks(k0, *self);
                }
                return -1;
            }
        };
        proof {
            lemma_trap_page(ms);
        }
        let trap_cx_ppn = match ms.translate(TRAP_CONTEXT_VPN) {
            Some(e) => e.ppn(),
            None => {
                proof {
                    lemma_same_tasks(k0, *self);
                }
                return -1;
            }
        };
        if args.len() >= 0x1000 {
            proof {
                lemma_same_tasks(k0, *self);
            }
            return -1;
        }
        let argc = args.len() as u64;
        proof {
            lemma_args_bytes_mono(args@, 0, args@.len() as int);
        }
        if user_sp < (argc + 1) * 8 {
            proof {
                lemma_same_tasks(k0, *self);
            }
            return -1;
        }
        let argv_base = user_sp - (argc + 1) * 8;
        proof {
            lemma_args_bytes_mono(args@, 0, args@.len() as int);
            if spec_args_bytes(args@, args@.len() as int) + (args@.len() + 1) * 8 <= PAGE_SIZE {
                let top = ((user_sp - 1) / PAGE_SIZE as int) as u64;
                assert forall|a: int| argv_base - spec_args_bytes(args@, args@.len() as int) <= a
                    < argv_base + (args@.len() + 1) * 8
                    implies #[trigger] crate::page_table::spec_user_byte(ms.page_table, self.frames, a).is_some() by {
                    assert(user_sp - PAGE_SIZE <= a < user_sp);
                    assert(a / PAGE_SIZE as int == top) by (nonlinear_arith)
                        requires user_sp - 4096 <= a < user_sp, user_sp % 4096 == 0, top == (user_sp - 1) / 4096, user_sp >= 4096;
                }
                let lo = argv_base - spec_args_bytes(args@, args@.len() as int);
                let len = spec_args_bytes(args@, args@.len() as int) + (args@.len() + 1) * 8;
                let pt = ms.page_table;
                assert forall|i: int, j: int| 0 <= i < len && 0 <= j < len && i != j
                    && #[trigger] crate::page_table::spec_frame_of(pt, lo + i) == #[trigger] crate::page_table::spec_frame_of(pt, lo + j)
                    implies (lo + i) % PAGE_SIZE as int != (lo + j) % PAGE_SIZE as int by {
                    assert((lo + i) / 4096 == top && (lo + j) / 4096 == top) by (nonlinear_arith)
                        requires user_sp - 4096 <= lo + i < user_sp, user_sp - 4096 <= lo + j < user_sp,
                            user_sp % 4096 == 0, top == (user_sp - 1) / 4096, user_sp >= 4096;
                    assert((lo + i) % 4096 != (lo + j) % 4096) by (nonlinear_arith)
                        requires (lo + i) / 4096 == (lo + j) / 4096, lo + i != lo + j;
                }
            }
        }
        let sp = match Kernel::push_args(&ms, &mut self.frames, argv_base, args) {
            Some(s) => s,
            None => {
                proof {
                    lemma_same_tasks(k0, *self);
                }
                return -1;
            }
        };
        let ghost k1 = *self;
        proof {
            lemma_same_tasks(k0, k1);
        }
        let (_kb, kt) = kernel_stack_position(pid);
        let kernel_token = self.kernel_space.token();
        let mut t = self.tasks[pid].take().unwrap();
        let mut old_ms = ms;
        std::mem::swap(&mut old_ms, &mut t.memory_set);
        t.trap_cx_ppn = trap_cx_ppn;
        t.base_size = user_sp;
        let mut cx = crate::task::TrapContext::app_init_context(entry, sp, kernel_token, kt, self.trap_handler_addr, self.boot_sstatus);
        cx.x[10] = argc;
        cx.x[11] = argv_base;
        t.trap_cx = cx;
        self.tasks.set(pid, Some(t));
        proof {
            lemma_task_replaced(k1, *self, pid as int);
        }
        let ghost k2 = *self;
        old_ms.release(&mut self.frames);
        proof {
            lemma_same_tasks(k2, *self);
            let pt = self.task(pid as int).memory_set.page_table;
            assert(pt == ms.page_table);
            assert forall|a: int| #[trigger] crate::page_table::spec_user_byte(pt, self.frames, a)
                == crate::page_table::spec_user_byte(pt, k1.frames, a) by {}
        }
        argc as i64
    }
}

} // verus!
