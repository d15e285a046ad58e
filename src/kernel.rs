//! The kernel's state as one value: frames, the kernel address space, the
//! PID allocator, the task table, the ready queue, the processor, pipes,
//! open files and the console buffers; and the operations that schedule
//! tasks and create them.

use vstd::prelude::*;
use crate::config::{MAX_SIG, PPN_LIMIT, TRAP_CONTEXT_VPN};
use crate::frame_allocator::FrameAllocator;
use crate::fs::{FileObj, OSInode, Pipe};
use crate::memory_set::{MemorySet, KernelLayout, MAP_R, MAP_W};
use crate::page_table::PTE_V;
use crate::task::{
    kernel_stack_position, PidAllocator, SignalAction, TaskContext, TaskStatus, TrapContext, MAX_PID,
};

verus! {

broadcast use vstd::std_specs::hash::group_hash_axioms;

/// Pid of the first task; when it exits the machine shuts down.
pub const IDLE_PID: usize = 0;

/// Per-task state.
pub struct TaskControlBlock {
    pub pid: usize,
    /// Frame of the trap-context page, so the kernel can reach it directly.
    pub trap_cx_ppn: u64,
    /// Top of the loaded image in user space.
    pub base_size: u64,
    pub task_cx: TaskContext,
    pub task_status: TaskStatus,
    pub memory_set: MemorySet,
    pub parent: Option<usize>,
    pub children: Vec<usize>,
    pub exit_code: i32,
    pub fd_table: Vec<Option<FileObj>>,
    /// Pending signals, one bit per signal.
    pub signals: u32,
    pub signal_mask: u32,
    /// The signal whose handler runs now; -1 for none.
    pub handling_sig: i64,
    pub signal_actions: Vec<SignalAction>,
    pub killed: bool,
    pub frozen: bool,
    /// The saved user state, as held on the trap-context page.
    pub trap_cx: TrapContext,
    pub trap_ctx_backup: Option<TrapContext>,
}

impl TaskControlBlock {
    /// The address space is well formed with the trampoline at `tppn`, the
    /// trap-context page maps `trap_cx_ppn` readable and writable but not
    /// for user mode, and there is one action per signal.
    pub open spec fn wf(&self, pid: usize, tppn: u64) -> bool {
        &&& self.pid == pid
        &&& pid <= MAX_PID
        &&& self.memory_set.wf()
        &&& self.memory_set.has_trampoline(tppn)
        &&& self.memory_set@.contains_key(TRAP_CONTEXT_VPN)
        &&& self.memory_set@[TRAP_CONTEXT_VPN].spec_ppn() == self.trap_cx_ppn
        &&& self.memory_set@[TRAP_CONTEXT_VPN].spec_flags() == (MAP_R | MAP_W) | PTE_V
        &&& self.signal_actions@.len() == MAX_SIG + 1
        &&& self.handling_sig == -1 || (0 <= self.handling_sig <= MAX_SIG)
        &&& self.task_status != TaskStatus::Zombie ==> crate::memory_set::has_trap_context(self.memory_set)
    }

    /// `true` when the task has exited and waits to be reaped.
    pub fn is_zombie(&self) -> (r: bool)
        ensures
            r == (self.task_status == TaskStatus::Zombie),
    {
        match self.task_status {
            TaskStatus::Zombie => true,
            _ => false,
        }
    }

    /// The `satp` value of the task's address space.
    pub fn get_user_token(&self) -> (r: u64)
        requires
            self.memory_set.wf(),
        ensures
            r == (8u64 << 60u64) | self.memory_set.page_table.root_ppn,
    {
        self.memory_set.token()
    }

    /// The lowest free descriptor, growing the table by one when none is
    /// free.
    pub fn alloc_fd(&mut self) -> (fd: usize)
        requires
            old(self).fd_table@.len() < usize::MAX,
        ensures
            fd < final(self).fd_table@.len(),
            final(self).fd_table@[fd as int].is_none(),
            forall|k: int| 0 <= k < fd ==> old(self).fd_table@[k].is_some(),
            fd < old(self).fd_table@.len() ==> final(self).fd_table@ == old(self).fd_table@,
            fd == old(self).fd_table@.len() ==> final(self).fd_table@ == old(self).fd_table@.push(None),
            fd <= old(self).fd_table@.len(),
            final(self).pid == old(self).pid,
            final(self).trap_cx_ppn == old(self).trap_cx_ppn,
            final(self).memory_set == old(self).memory_set,
            final(self).signal_actions == old(self).signal_actions,
            final(self).task_status == old(self).task_status,
            final(self).children == old(self).children,
            final(self).parent == old(self).parent,
            final(self).signals == old(self).signals,
            final(self).signal_mask == old(self).signal_mask,
            final(self).handling_sig == old(self).handling_sig,
            final(self).killed == old(self).killed,
            final(self).frozen == old(self).frozen,
            final(self).trap_cx == old(self).trap_cx,
            final(self).exit_code == old(self).exit_code,
    {
        let mut fd: usize = 0;
        while fd < self.fd_table.len()
            invariant
                *self == *old(self),
                fd <= self.fd_table@.len(),
                forall|k: int| 0 <= k < fd ==> self.fd_table@[k].is_some(),
            decreases self.fd_table@.len() - fd,
        {
            if self.fd_table[fd].is_none() {
                return fd;
            }
            fd += 1;
        }
        self.fd_table.push(None);
        fd
    }
}

/// The whole kernel.
pub struct Kernel {
    pub frames: FrameAllocator,
    pub kernel_space: MemorySet,
    /// Frame that holds the trampoline code.
    pub trampoline_ppn: u64,
    /// Kernel address of the trap handler, written into every trap context.
    pub trap_handler_addr: u64,
    /// Kernel address of the return-to-user path, where new tasks start.
    pub trap_return_addr: u64,
    /// `sstatus` as the kernel found it at boot.
    pub boot_sstatus: u64,
    pub pids: PidAllocator,
    /// Task with pid `p` at index `p`.
    pub tasks: Vec<Option<TaskControlBlock>>,
    /// Ready tasks, in the order they became ready.
    pub ready: Vec<usize>,
    /// The task on the hart now.
    pub current: Option<usize>,
    pub initproc: usize,
    pub pipes: Vec<Pipe>,
    pub files: Vec<OSInode>,
    /// Bytes the console delivered that no task has read yet.
    pub console_in: Vec<u8>,
    /// Bytes written to the console that are not yet sent out.
    pub console_out: Vec<u8>,
}

impl Kernel {
    /// `true` when `p` names a task in the table.
    pub open spec fn has_task(&self, p: int) -> bool {
        0 <= p < self.tasks@.len() && self.tasks@[p].is_some()
    }

    /// The task with pid `p`.
    pub open spec fn task(&self, p: int) -> TaskControlBlock {
        self.tasks@[p].unwrap()
    }

    pub open spec fn wf(&self) -> bool {
        &&& self.frames.wf()
        &&& self.pids.wf()
        &&& self.kernel_space.wf()
        &&& self.kernel_space.has_trampoline(self.trampoline_ppn)
        &&& self.trampoline_ppn < PPN_LIMIT
        &&& self.tasks@.len() == self.pids.current
        &&& forall|p: usize| #[trigger] self.pids.live().contains(p) <==> self.has_task(p as int)
        &&& forall|p: int| #[trigger] self.has_task(p) ==> self.task(p).wf(p as usize, self.trampoline_ppn)
        &&& self.current.is_some() ==> self.has_task(self.current.unwrap() as int)
                && self.task(self.current.unwrap() as int).task_status == TaskStatus::Running
        &&& forall|p: int| #[trigger] self.has_task(p) && self.task(p).task_status == TaskStatus::Running
                ==> self.current == Some(p as usize)
        &&& forall|i: int| 0 <= i < self.ready@.len() ==> self.has_task(#[trigger] self.ready@[i] as int)
                && self.task(self.ready@[i] as int).task_status == TaskStatus::Ready
        &&& forall|i: int, j: int| 0 <= i < j < self.ready@.len() ==> self.ready@[i] != self.ready@[j]
        &&& forall|i: int| 0 <= i < self.pipes@.len() ==> (#[trigger] self.pipes@[i]).wf()
    }
}

} // verus!

verus! {

/// What became of the machine when the current task exited.
#[derive(Clone, Copy, Debug, PartialEq, Eq, Structural)]
pub enum ExitOutcome {
    /// No task was running.
    NoTask,
    /// The task is now a zombie; the processor is idle.
    Switched,
    /// The first task exited: the machine shuts down, reporting failure
    /// when the flag is set.
    Shutdown(bool),
}

/// A table of one action per signal, none installed.
pub fn default_actions() -> (r: Vec<SignalAction>)
    ensures
        r@.len() == MAX_SIG + 1,
        forall|i: int| 0 <= i < r@.len() ==> r@[i] == (SignalAction { handler: 0, mask: 0 }),
{
    let mut v: Vec<SignalAction> = Vec::new();
    let mut i: u32 = 0;
    while i <= MAX_SIG as u32
        invariant
            i <= MAX_SIG + 1,
            v@.len() == i,
            forall|k: int| 0 <= k < v@.len() ==> v@[k] == (SignalAction { handler: 0, mask: 0 }),
        decreases MAX_SIG + 1 - i,
    {
        v.push(SignalAction { handler: 0, mask: 0 });
        i += 1;
    }
    v
}

/// A kernel whose task table, queue, processor, pids and pipes are those
/// of a well-formed one, with well-formed frames and kernel space, is well
/// formed.
pub proof fn lemma_same_tasks(a: Kernel, b: Kernel)
    requires
        a.wf(),
        b.frames.wf(),
        b.kernel_space.wf(),
        b.kernel_space.has_trampoline(b.trampoline_ppn),
        b.tasks == a.tasks,
        b.pids == a.pids,
        b.trampoline_ppn == a.trampoline_ppn,
        b.current == a.current,
        b.ready == a.ready,
        forall|i: int| 0 <= i < b.pipes@.len() ==> (#[trigger] b.pipes@[i]).wf(),
    ensures
        b.wf(),
{
    assert forall|p: int| #[trigger] b.has_task(p) implies b.task(p).wf(p as usize, b.trampoline_ppn) by {
        assert(a.has_task(p));
    }
    assert forall|p: int| #[trigger] b.has_task(p) && b.task(p).task_status == TaskStatus::Running
        implies b.current == Some(p as usize) by {
        assert(a.has_task(p));
    }
}

/// Replacing task `pid` by a well-formed task of the same status keeps a
/// kernel well formed.
pub proof fn lemma_task_replaced(a: Kernel, b: Kernel, pid: int)
    requires
        a.wf(),
        a.has_task(pid),
        b.tasks@.len() == a.tasks@.len(),
        b.tasks@[pid].is_some(),
        b.task(pid).wf(pid as usize, b.trampoline_ppn),
        b.task(pid).task_status == a.task(pid).task_status,
        forall|p: int| 0 <= p < b.tasks@.len() && p != pid ==> b.tasks@[p] == a.tasks@[p],
        b.frames.wf(),
        b.kernel_space.wf(),
        b.kernel_space.has_trampoline(b.trampoline_ppn),
        b.pids == a.pids,
        b.trampoline_ppn == a.trampoline_ppn,
        b.current == a.current,
        b.ready == a.ready,
        forall|i: int| 0 <= i < b.pipes@.len() ==> (#[trigger] b.pipes@[i]).wf(),
    ensures
        b.wf(),
        forall|p: int| #[trigger] b.has_task(p) <==> a.has_task(p),
{
    assert forall|p: int| #[trigger] b.has_task(p) <==> a.has_task(p) by {
        if p != pid && 0 <= p < b.tasks@.len() {
            assert(b.tasks@[p] == a.tasks@[p]);
        }
    }
    assert forall|p: usize| #[trigger] b.pids.live().contains(p) <==> b.has_task(p as int) by {
        assert(a.pids.live().contains(p) <==> a.has_task(p as int));
    }
    assert forall|p: int| #[trigger] b.has_task(p) implies b.task(p).wf(p as usize, b.trampoline_ppn) by {
        if p != pid {
            assert(b.tasks@[p] == a.tasks@[p]);
        }
    }
    assert forall|p: int| #[trigger] b.has_task(p) && b.task(p).task_status == TaskStatus::Running
        implies b.current == Some(p as usize) by {
        assert(a.has_task(p));
        if p != pid {
            assert(b.tasks@[p] == a.tasks@[p]);
        }
    }
    assert forall|i: int| 0 <= i < b.ready@.len() implies b.has_task(#[trigger] b.ready@[i] as int)
        && b.task(b.ready@[i] as int).task_status == TaskStatus::Ready by {
        let q = b.ready@[i] as int;
        assert(a.has_task(q));
        if q != pid {
            assert(b.tasks@[q] == a.tasks@[q]);
        }
    }
    if b.current.is_some() {
        let c = b.current.unwrap() as int;
        if c != pid {
            assert(b.tasks@[c] == a.tasks@[c]);
        }
    }
}

impl Kernel {
    /// The next pid can be handed out and its kernel stack placed: it is
    /// within range and the stack's pages are free in the kernel's address
    /// space, and `extra` more frames than the stack needs are free.
    pub open spec fn spec_room_for_task(&self, extra: int) -> bool {
        let pid = crate::task::spec_next_pid(self.pids);
        let b = crate::task::spec_kstack_bottom(pid);
        let t = crate::task::spec_kstack_top(pid);
        &&& self.pids.recycled@.len() > 0 || self.pids.current < usize::MAX
        &&& pid <= MAX_PID
        &&& forall|v: u64| crate::address::spec_floor(b) <= v < crate::memory_set::spec_area_end(b, t)
                ==> !#[trigger] self.kernel_space@.contains_key(v)
        &&& self.frames.free_count() >= extra + 3 * (crate::memory_set::spec_area_end(b, t) - crate::address::spec_floor(b))
    }

    /// The live task with pid `pid`, if any: a task that has exited is no
    /// longer found by pid, though it stays in the table until reaped.
    pub fn pid2task(&self, pid: usize) -> (r: Option<&TaskControlBlock>)
        ensures
            r.is_some() <==> self.has_task(pid as int) && self.task(pid as int).task_status != TaskStatus::Zombie,
            r.is_some() ==> *r.unwrap() == self.task(pid as int),
    {
        if pid < self.tasks.len() {
            match &self.tasks[pid] {
                Some(t) => {
                    if t.is_zombie() {
                        None
                    } else {
                        Some(t)
                    }
                }
                None => None,
            }
        } else {
            None
        }
    }

    /// Boots the memory side of the kernel: frames `[frame_start,
    /// frame_end)` for allocation and the kernel's address space built from
    /// `layout`. `None` when the kernel map cannot be built.
    pub fn new(
        layout: &KernelLayout,
        frame_start: u64,
        frame_end: u64,
        trap_handler_addr: u64,
        trap_return_addr: u64,
        boot_sstatus: u64,
    ) -> (r: Option<Kernel>)
        requires
            frame_start <= frame_end < PPN_LIMIT,
            layout.strampoline / crate::config::PAGE_SIZE < PPN_LIMIT,
            layout.mmio@.len() + 5 <= usize::MAX,
            forall|i: int| 0 <= i < layout.mmio@.len() ==> #[trigger] layout.mmio@[i].0 + layout.mmio@[i].1 <= u64::MAX,
        ensures
            crate::memory_set::spec_layout_ok(*layout)
                && frame_end - frame_start >= 3 + 3 * crate::memory_set::spec_region_pages(*layout, 5 + layout.mmio@.len() as int)
                ==> r.is_some(),
            r.is_some() ==> {
                let k = r.unwrap();
                &&& k.wf()
                &&& k.current.is_none()
                &&& k.ready@.len() == 0
                &&& k.tasks@.len() == 0
                &&& k.trampoline_ppn == layout.strampoline / crate::config::PAGE_SIZE
                &&& k.kernel_space.areas@.len() == 5 + layout.mmio@.len()
            },
    {
        let mut frames = FrameAllocator::new(frame_start, frame_end);
        let kernel_space = match MemorySet::new_kernel(layout, &mut frames) {
            Some(ms) => ms,
            None => {
                return None;
            }
        };
        let k = Kernel {
            frames,
            kernel_space,
            trampoline_ppn: layout.strampoline / crate::config::PAGE_SIZE,
            trap_handler_addr,
            trap_return_addr,
            boot_sstatus,
            pids: PidAllocator::new(),
            tasks: Vec::new(),
            ready: Vec::new(),
            current: None,
            initproc: 0,
            pipes: Vec::new(),
            files: Vec::new(),
            console_in: Vec::new(),
            console_out: Vec::new(),
        };
        Some(k)
    }

    /// Creates a task from ELF image `elf_data`: its address space, a pid,
    /// a kernel stack in the kernel's address space, descriptors 0, 1 and 2
    /// on the console, no signals, and a trap context that enters the
    /// program at its entry point on its user stack. The task is ready but
    /// not queued. `None` when the image cannot be loaded or memory or pids
    /// run out.
    pub fn new_task(&mut self, elf_data: &[u8]) -> (r: Option<usize>)
        requires
            old(self).wf(),
        ensures
            final(self).wf(),
            final(self).current == old(self).current,
            final(self).ready == old(self).ready,
            final(self).trampoline_ppn == old(self).trampoline_ppn,
            forall|p: int| #[trigger] old(self).has_task(p) ==> final(self).has_task(p) && final(self).task(p) == old(self).task(p),
            r.is_some() ==> {
                let p = r.unwrap() as int;
                let t = final(self).task(p);
                &&& !old(self).has_task(p)
                &&& final(self).has_task(p)
                &&& t.task_status == TaskStatus::Ready
                &&& t.parent.is_none()
                &&& t.children@.len() == 0
                &&& t.fd_table@ == seq![Some(FileObj::Stdin), Some(FileObj::Stdout), Some(FileObj::Stdout)]
                &&& t.signals == 0 && t.signal_mask == 0 && t.handling_sig == -1
                &&& !t.killed && !t.frozen
                &&& t.trap_cx.sepc == crate::elf::elf_header_of(elf_data@).unwrap().entry
                &&& t.trap_cx.x@[2] == t.base_size
                &&& t.trap_cx.trap_handler == old(self).trap_handler_addr
                &&& t.task_cx.ra == old(self).trap_return_addr
                &&& t.task_cx.sp == crate::task::spec_kstack_top(p as usize)
                &&& t.trap_cx.kernel_sp == crate::task::spec_kstack_top(p as usize)
                &&& t.trap_cx.kernel_satp == (8u64 << 60u64) | old(self).kernel_space.page_table.root_ppn
                &&& t.trap_cx.sstatus == old(self).boot_sstatus & !crate::task::SSTATUS_SPP
                &&& t.exit_code == 0
                &&& t.trap_ctx_backup.is_none()
                &&& t.memory_set.page_table@.contains_key((((t.base_size - 1) as int) / crate::config::PAGE_SIZE as int) as u64)
                &&& t.base_size % crate::config::PAGE_SIZE == 0
            },
            forall|p: int| #[trigger] final(self).has_task(p) && !old(self).has_task(p) ==> r == Some(p as usize),
            crate::memory_set::spec_elf_loadable(elf_data@)
                && old(self).spec_room_for_task(crate::memory_set::spec_elf_frames(elf_data@)) ==> r.is_some(),
    {
        let (ms, user_sp, entry) = match MemorySet::from_elf(elf_data, self.trampoline_ppn, &mut self.frames) {
            Some(x) => x,
            None => {
                proof {
                    lemma_same_tasks(*old(self), *self);
                }
                return None;
            }
        };
        let trap_pte = match ms.translate(TRAP_CONTEXT_VPN) {
            Some(e) => e,
            None => {
                return None;
            }
        };
        let trap_cx_ppn = trap_pte.ppn();
        proof {
            let i = choose|i: int| 0 <= i < ms.areas@.len()
                && (#[trigger] ms.areas@[i]).start == TRAP_CONTEXT_VPN
                && ms.areas@[i].end == crate::config::TRAMPOLINE_VPN
                && ms.areas@[i].map_type == crate::memory_set::MapType::Framed
                && ms.areas@[i].map_perm == MAP_R | MAP_W;
            assert(ms.areas@[i].covers(TRAP_CONTEXT_VPN));
            crate::page_table::lemma_pte_flags(ms.areas@[i].target(TRAP_CONTEXT_VPN), (MAP_R | MAP_W) | PTE_V);
        }
        let ghost old_live = self.pids.live();
        let pid = match self.pids.alloc_pid() {
            Some(p) => p,
            None => {
                proof {
                    lemma_same_tasks(*old(self), *self);
                }
                return None;
            }
        };
        if self.tasks.len() < self.pids.current {
            self.tasks.push(None);
        }
        assert(self.tasks@.len() == self.pids.current);
        if pid > MAX_PID {
            self.pids.dealloc(pid);
            proof {
                assert(self.pids.live() =~= old_live);
                assert forall|p: usize| #[trigger] self.pids.live().contains(p) <==> self.has_task(p as int) by {
                    if p < old(self).tasks@.len() {
                        assert(self.tasks@[p as int] == old(self).tasks@[p as int]);
                    }
                }
                assert forall|p: int| #[trigger] self.has_task(p) implies old(self).has_task(p) && self.task(p) == old(self).task(p) by {
                    if p < old(self).tasks@.len() {
                        assert(self.tasks@[p] == old(self).tasks@[p]);
                    }
                }
            }
            return None;
        }
        let (kb, kt) = kernel_stack_position(pid);
        if !self.kernel_space.insert_framed_area(kb, kt, MAP_R | MAP_W, &mut self.frames) {
            self.pids.dealloc(pid);
            proof {
                assert(self.pids.live() =~= old_live);
                assert forall|p: usize| #[trigger] self.pids.live().contains(p) <==> self.has_task(p as int) by {
                    if p < old(self).tasks@.len() {
                        assert(self.tasks@[p as int] == old(self).tasks@[p as int]);
                    }
                }
                assert forall|p: int| #[trigger] self.has_task(p) implies old(self).has_task(p) && self.task(p) == old(self).task(p) by {
                    if p < old(self).tasks@.len() {
                        assert(self.tasks@[p] == old(self).tasks@[p]);
                    }
                }
            }
            return None;
        }
        let trap_cx = TrapContext::app_init_context(
            entry,
            user_sp,
            self.kernel_space.token(),
            kt,
            self.trap_handler_addr,
            self.boot_sstatus,
        );
        let tcb = TaskControlBlock {
            pid,
            trap_cx_ppn,
            base_size: user_sp,
            task_cx: TaskContext::goto_trap_return(kt, self.trap_return_addr),
            task_status: TaskStatus::Ready,
            memory_set: ms,
            parent: None,
            children: Vec::new(),
            exit_code: 0,
            fd_table: vec![Some(FileObj::Stdin), Some(FileObj::Stdout), Some(FileObj::Stdout)],
            signals: 0,
            signal_mask: 0,
            handling_sig: -1,
            signal_actions: default_actions(),
            killed: false,
            frozen: false,
            trap_cx,
            trap_ctx_backup: None,
        };
        self.tasks.set(pid, Some(tcb));
        proof {
            assert(!old_live.contains(pid));
            assert(!old(self).has_task(pid as int));
            assert forall|p: usize| #[trigger] self.pids.live().contains(p) <==> self.has_task(p as int) by {
                if p < old(self).tasks@.len() && p != pid {
                    assert(self.tasks@[p as int] == old(self).tasks@[p as int]);
                }
            }
            assert forall|p: int| #[trigger] old(self).has_task(p) implies self.has_task(p) && self.task(p) == old(self).task(p) by {
                assert(p != pid);
                assert(self.tasks@[p] == old(self).tasks@[p]);
            }
            assert(self.task(pid as int).memory_set == ms);
            assert(ms@.contains_key(TRAP_CONTEXT_VPN));
            assert(self.task(pid as int).wf(pid, self.trampoline_ppn));
            assert forall|p: int| #[trigger] self.has_task(p) implies self.task(p).wf(p as usize, self.trampoline_ppn) by {
                if p != pid {
                    assert(self.tasks@[p] == old(self).tasks@[p]);
                    assert(old(self).has_task(p));
                }
            }
            assert forall|p: int| #[trigger] self.has_task(p) && self.task(p).task_status == TaskStatus::Running
                implies self.current == Some(p as usize) by {
                if p != pid {
                    assert(self.tasks@[p] == old(self).tasks@[p]);
                    assert(old(self).has_task(p));
                }
            }
            assert forall|i: int| 0 <= i < self.ready@.len() implies self.has_task(#[trigger] self.ready@[i] as int)
                && self.task(self.ready@[i] as int).task_status == TaskStatus::Ready by {
                assert(old(self).has_task(self.ready@[i] as int));
                assert(self.tasks@[self.ready@[i] as int] == old(self).tasks@[self.ready@[i] as int]);
            }
            if self.current.is_some() {
                assert(self.tasks@[self.current.unwrap() as int] == old(self).tasks@[self.current.unwrap() as int]);
            }
            assert(self.task(pid as int).fd_table@ =~= seq![Some(FileObj::Stdin), Some(FileObj::Stdout), Some(FileObj::Stdout)]);
            assert forall|p: int| #[trigger] self.has_task(p) && !old(self).has_task(p) implies Some(pid) == Some(p as usize) by {
                if p != pid {
                    assert(self.tasks@[p] == old(self).tasks@[p]);
                }
            }
        }
        Some(pid)
    }
}

} // verus!

verus! {

/// Counts one more descriptor on the pipe end that `f` names, if any.
pub fn retain_file(pipes: &mut Vec<Pipe>, f: FileObj)
    requires
        forall|i: int| 0 <= i < old(pipes)@.len() ==> (#[trigger] old(pipes)@[i]).wf(),
    ensures
        final(pipes)@.len() == old(pipes)@.len(),
        forall|i: int| 0 <= i < final(pipes)@.len() ==> (#[trigger] final(pipes)@[i]).wf(),
        forall|i: int| 0 <= i < final(pipes)@.len() ==> (#[trigger] final(pipes)@[i]).buffer == old(pipes)@[i].buffer,
{
    match f {
        FileObj::PipeRead(n) => {
            if n < pipes.len() && pipes[n].read_ends < u64::MAX {
                pipes[n].read_ends = pipes[n].read_ends + 1;
            }
        }
        FileObj::PipeWrite(n) => {
            if n < pipes.len() && pipes[n].write_ends < u64::MAX {
                pipes[n].write_ends = pipes[n].write_ends + 1;
            }
        }
        _ => {}
    }
}

/// Counts one descriptor less on the pipe end that `f` names, if any.
pub fn release_file(pipes: &mut Vec<Pipe>, f: FileObj)
    requires
        forall|i: int| 0 <= i < old(pipes)@.len() ==> (#[trigger] old(pipes)@[i]).wf(),
    ensures
        final(pipes)@.len() == old(pipes)@.len(),
        forall|i: int| 0 <= i < final(pipes)@.len() ==> (#[trigger] final(pipes)@[i]).wf(),
        forall|i: int| 0 <= i < final(pipes)@.len() ==> (#[trigger] final(pipes)@[i]).buffer == old(pipes)@[i].buffer,
        match f {
            FileObj::PipeRead(n) => n < old(pipes)@.len() && old(pipes)@[n as int].read_ends > 0
                ==> final(pipes)@[n as int].read_ends == old(pipes)@[n as int].read_ends - 1,
            FileObj::PipeWrite(n) => n < old(pipes)@.len() && old(pipes)@[n as int].write_ends > 0
                ==> final(pipes)@[n as int].write_ends == old(pipes)@[n as int].write_ends - 1,
            _ => final(pipes)@ == old(pipes)@,
        },
{
    match f {
        FileObj::PipeRead(n) => {
            if n < pipes.len() && pipes[n].read_ends > 0 {
                pipes[n].read_ends = pipes[n].read_ends - 1;
            }
        }
        FileObj::PipeWrite(n) => {
            if n < pipes.len() && pipes[n].write_ends > 0 {
                pipes[n].write_ends = pipes[n].write_ends - 1;
            }
        }
        _ => {}
    }
}

impl Kernel {
    /// Queues task `pid` at the tail of the ready queue.
    pub fn add_task(&mut self, pid: usize)
        requires
            old(self).wf(),
            old(self).has_task(pid as int),
            old(self).task(pid as int).task_status == TaskStatus::Ready,
            !old(self).ready@.contains(pid),
        ensures
            final(self).wf(),
            final(self).ready@ == old(self).ready@.push(pid),
            final(self).tasks == old(self).tasks,
            final(self).current == old(self).current,
            final(self).initproc == old(self).initproc,
            final(self).frames == old(self).frames,
            final(self).pipes == old(self).pipes,
            final(self).files == old(self).files,
            final(self).kernel_space == old(self).kernel_space,
    {
        self.ready.push(pid);
        proof {
            assert(self.ready@.subrange(0, old(self).ready@.len() as int) =~= old(self).ready@);
            lemma_same_tasks_ready(*old(self), *self);
        }
    }

    /// Creates the first task from `elf_data` and queues it. `false` when
    /// it cannot be created.
    pub fn add_initproc(&mut self, elf_data: &[u8]) -> (ok: bool)
        requires
            old(self).wf(),
        ensures
            final(self).wf(),
            ok ==> final(self).has_task(final(self).initproc as int)
                && final(self).ready@ == old(self).ready@.push(final(self).initproc),
            crate::memory_set::spec_elf_loadable(elf_data@)
                && old(self).spec_room_for_task(crate::memory_set::spec_elf_frames(elf_data@)) ==> ok,
    {
        match self.new_task(elf_data) {
            Some(pid) => {
                let ghost k0 = *self;
                self.initproc = pid;
                proof {
                    lemma_same_tasks(k0, *self);
                    assert(!self.ready@.contains(pid)) by {
                        if self.ready@.contains(pid) {
                            let i = choose|i: int| 0 <= i < self.ready@.len() && self.ready@[i] == pid;
                            assert(old(self).has_task(self.ready@[i] as int));
                        }
                    }
                }
                self.add_task(pid);
                true
            }
            None => false,
        }
    }

    /// One turn of the idle loop: takes the task at the head of the ready
    /// queue and runs it. `None` when no task is ready.
    pub fn run_next(&mut self) -> (r: Option<usize>)
        requires
            old(self).wf(),
            old(self).current.is_none(),
        ensures
            final(self).wf(),
            old(self).ready@.len() == 0 <==> r.is_none(),
            r.is_none() ==> *final(self) == *old(self),
            r.is_some() ==> {
                &&& r.unwrap() == old(self).ready@[0]
                &&& final(self).ready@ == old(self).ready@.subrange(1, old(self).ready@.len() as int)
                &&& final(self).current == r
                &&& final(self).task(r.unwrap() as int).task_status == TaskStatus::Running
                &&& final(self).task(r.unwrap() as int) == (TaskControlBlock {
                        task_status: TaskStatus::Running, ..old(self).task(r.unwrap() as int) })
                &&& forall|q: int| #[trigger] old(self).has_task(q) && q != r.unwrap() ==> final(self).has_task(q)
                        && final(self).task(q) == old(self).task(q)
                &&& final(self).frames == old(self).frames
                &&& final(self).pipes == old(self).pipes
            },
    {
        if self.ready.len() == 0 {
            return None;
        }
        let pid = self.ready.remove(0);
        assert(old(self).has_task(pid as int));
        let mut t = self.tasks[pid].take().unwrap();
        t.task_status = TaskStatus::Running;
        self.tasks.set(pid, Some(t));
        self.current = Some(pid);
        proof {
            assert forall|i: int| 0 <= i < self.ready@.len() implies self.ready@[i] != pid by {
                assert(old(self).ready@[i + 1] == self.ready@[i]);
            }
            assert(self.tasks@ =~= old(self).tasks@.update(pid as int,
                Some(TaskControlBlock { task_status: TaskStatus::Running, ..old(self).task(pid as int) })));
            lemma_scheduled(*old(self), *self, pid);
            assert(self.ready@ =~= old(self).ready@.subrange(1, old(self).ready@.len() as int));
            assert forall|q: int| #[trigger] old(self).has_task(q) && q != pid implies self.has_task(q)
                && self.task(q) == old(self).task(q) by {
                assert(self.tasks@[q] == old(self).tasks@[q]);
            }
        }
        Some(pid)
    }

    /// Gives up the processor: the current task becomes ready again and
    /// joins the tail of the ready queue.
    pub fn suspend_and_run_next(&mut self)
        requires
            old(self).wf(),
        ensures
            final(self).wf(),
            final(self).current.is_none(),
            old(self).current.is_some() ==> {
                let p = old(self).current.unwrap();
                &&& final(self).ready@ == old(self).ready@.push(p)
                &&& final(self).task(p as int).task_status == TaskStatus::Ready
                &&& final(self).has_task(p as int)
                &&& final(self).task(p as int) == (TaskControlBlock { task_status: TaskStatus::Ready, ..old(self).task(p as int) })
                &&& forall|q: int| #[trigger] old(self).has_task(q) && q != p ==> final(self).has_task(q)
                        && final(self).task(q) == old(self).task(q)
            },
            old(self).current.is_none() ==> *final(self) == *old(self),
            final(self).frames == old(self).frames,
            final(self).pipes == old(self).pipes,
    {
        let pid = match self.current {
            Some(p) => p,
            None => {
                return;
            }
        };
        let mut t = self.tasks[pid].take().unwrap();
        t.task_status = TaskStatus::Ready;
        self.tasks.set(pid, Some(t));
        self.current = None;
        self.ready.push(pid);
        proof {
            assert(self.tasks@ =~= old(self).tasks@.update(pid as int,
                Some(TaskControlBlock { task_status: TaskStatus::Ready, ..old(self).task(pid as int) })));
            lemma_descheduled(*old(self), *self, pid);
            assert forall|q: int| #[trigger] old(self).has_task(q) && q != pid implies self.has_task(q)
                && self.task(q) == old(self).task(q) by {
                assert(self.tasks@[q] == old(self).tasks@[q]);
            }
        }
    }
}

/// Appending a ready task to the queue keeps a kernel well formed.
proof fn lemma_same_tasks_ready(a: Kernel, b: Kernel)
    requires
        a.wf(),
        b.frames == a.frames,
        b.kernel_space == a.kernel_space,
        b.tasks == a.tasks,
        b.pids == a.pids,
        b.trampoline_ppn == a.trampoline_ppn,
        b.current == a.current,
        b.pipes == a.pipes,
        b.ready@.len() == a.ready@.len() + 1,
        b.ready@.subrange(0, a.ready@.len() as int) == a.ready@,
        a.has_task(b.ready@.last() as int),
        a.task(b.ready@.last() as int).task_status == TaskStatus::Ready,
        !a.ready@.contains(b.ready@.last()),
    ensures
        b.wf(),
{
    assert forall|i: int, j: int| 0 <= i < j < b.ready@.len() implies b.ready@[i] != b.ready@[j] by {
        assert(b.ready@[i] == b.ready@.subrange(0, a.ready@.len() as int)[i]);
        if j < a.ready@.len() {
            assert(b.ready@[j] == b.ready@.subrange(0, a.ready@.len() as int)[j]);
        } else {
            assert(a.ready@[i] == b.ready@[i]);
        }
    }
    assert forall|i: int| 0 <= i < b.ready@.len() implies b.has_task(#[trigger] b.ready@[i] as int)
        && b.task(b.ready@[i] as int).task_status == TaskStatus::Ready by {
        if i < a.ready@.len() {
            assert(b.ready@[i] == b.ready@.subrange(0, a.ready@.len() as int)[i]);
        }
    }
    assert forall|p: int| #[trigger] b.has_task(p) implies b.task(p).wf(p as usize, b.trampoline_ppn) by {
        assert(a.has_task(p));
    }
    assert forall|p: int| #[trigger] b.has_task(p) && b.task(p).task_status == TaskStatus::Running
        implies b.current == Some(p as usize) by {
        assert(a.has_task(p));
    }
}

/// Taking the head of the queue and making it the running task keeps a
/// kernel well formed.
proof fn lemma_scheduled(a: Kernel, b: Kernel, pid: usize)
    requires
        a.wf(),
        a.current.is_none(),
        a.ready@.len() > 0,
        a.ready@[0] == pid,
        b.ready@ == a.ready@.remove(0),
        forall|i: int| 0 <= i < b.ready@.len() ==> b.ready@[i] != pid,
        b.current == Some(pid),
        b.tasks@ == a.tasks@.update(pid as int, Some(TaskControlBlock { task_status: TaskStatus::Running, ..a.task(pid as int) })),
        b.frames == a.frames,
        b.kernel_space == a.kernel_space,
        b.pids == a.pids,
        b.trampoline_ppn == a.trampoline_ppn,
        b.pipes == a.pipes,
    ensures
        b.wf(),
        b.task(pid as int).task_status == TaskStatus::Running,
{
    assert(a.has_task(pid as int));
    assert forall|p: int| #[trigger] b.has_task(p) <==> a.has_task(p) by {}
    assert forall|p: usize| #[trigger] b.pids.live().contains(p) <==> b.has_task(p as int) by {
        assert(a.pids.live().contains(p) <==> a.has_task(p as int));
    }
    assert forall|p: int| #[trigger] b.has_task(p) implies b.task(p).wf(p as usize, b.trampoline_ppn) by {
        assert(a.has_task(p));
    }
    assert forall|p: int| #[trigger] b.has_task(p) && b.task(p).task_status == TaskStatus::Running
        implies b.current == Some(p as usize) by {
        assert(a.has_task(p));
        if p != pid as int {
            assert(a.task(p).task_status == TaskStatus::Running);
        }
    }
    assert forall|i: int| 0 <= i < b.ready@.len() implies b.has_task(#[trigger] b.ready@[i] as int)
        && b.task(b.ready@[i] as int).task_status == TaskStatus::Ready by {
        assert(b.ready@[i] == a.ready@[i + 1]);
        assert(a.has_task(a.ready@[i + 1] as int));
    }
}

/// Making the running task ready and queueing it keeps a kernel well formed.
proof fn lemma_descheduled(a: Kernel, b: Kernel, pid: usize)
    requires
        a.wf(),
        a.current == Some(pid),
        b.ready@ == a.ready@.push(pid),
        b.current.is_none(),
        b.tasks@ == a.tasks@.update(pid as int, Some(TaskControlBlock { task_status: TaskStatus::Ready, ..a.task(pid as int) })),
        b.frames == a.frames,
        b.kernel_space == a.kernel_space,
        b.pids == a.pids,
        b.trampoline_ppn == a.trampoline_ppn,
        b.pipes == a.pipes,
    ensures
        b.wf(),
        b.task(pid as int).task_status == TaskStatus::Ready,
{
    assert(a.has_task(pid as int));
    assert forall|p: int| #[trigger] b.has_task(p) <==> a.has_task(p) by {}
    assert forall|p: usize| #[trigger] b.pids.live().contains(p) <==> b.has_task(p as int) by {
        assert(a.pids.live().contains(p) <==> a.has_task(p as int));
    }
    assert forall|p: int| #[trigger] b.has_task(p) implies b.task(p).wf(p as usize, b.trampoline_ppn) by {
        assert(a.has_task(p));
    }
    assert forall|p: int| #[trigger] b.has_task(p) && b.task(p).task_status == TaskStatus::Running
        implies b.current == Some(p as usize) by {
        assert(a.has_task(p));
        if p != pid as int {
            assert(a.task(p).task_status == TaskStatus::Running);
        }
    }
    assert forall|i: int| 0 <= i < b.ready@.len() implies b.has_task(#[trigger] b.ready@[i] as int)
        && b.task(b.ready@[i] as int).task_status == TaskStatus::Ready by {
        if i < a.ready@.len() {
            assert(b.ready@[i] == a.ready@[i]);
            assert(a.has_task(a.ready@[i] as int));
            assert(a.ready@[i] != pid) by {
                if a.ready@[i] == pid {
                    assert(a.task(pid as int).task_status == TaskStatus::Ready);
                }
            }
        }
    }
}

} // verus!

verus! {

/// The children in `ch[..n]` other than `pid`, in order: what the first
/// task adopts when `pid` exits.
pub open spec fn spec_orphans(ch: Seq<usize>, pid: usize, n: int) -> Seq<usize>
    decreases n,
{
    if n <= 0 || n > ch.len() {
        Seq::empty()
    } else if ch[n - 1] != pid {
        spec_orphans(ch, pid, n - 1).push(ch[n - 1])
    } else {
        spec_orphans(ch, pid, n - 1)
    }
}

/// Turning the running task into a zombie, with the processor left idle,
/// keeps a kernel well formed.
proof fn lemma_exited(a: Kernel, b: Kernel, pid: usize)
    requires
        a.wf(),
        a.current == Some(pid),
        b.current.is_none(),
        b.tasks@.len() == a.tasks@.len(),
        b.tasks@[pid as int].is_some(),
        b.task(pid as int).wf(pid, b.trampoline_ppn),
        b.task(pid as int).task_status == TaskStatus::Zombie,
        forall|p: int| 0 <= p < b.tasks@.len() && p != pid ==> b.tasks@[p] == a.tasks@[p],
        b.frames.wf(),
        b.kernel_space.wf(),
        b.kernel_space.has_trampoline(b.trampoline_ppn),
        b.pids == a.pids,
        b.trampoline_ppn == a.trampoline_ppn,
        b.ready == a.ready,
        forall|i: int| 0 <= i < b.pipes@.len() ==> (#[trigger] b.pipes@[i]).wf(),
    ensures
        b.wf(),
        forall|p: int| #[trigger] b.has_task(p) <==> a.has_task(p),
        forall|p: int| #[trigger] a.has_task(p) && p != pid as int ==> b.task(p) == a.task(p),
{
    assert(a.has_task(pid as int));
    assert forall|p: int| #[trigger] a.has_task(p) && p != pid as int implies b.task(p) == a.task(p) by {
        assert(b.tasks@[p] == a.tasks@[p]);
    }
    assert forall|p: int| #[trigger] b.has_task(p) <==> a.has_task(p) by {
        if p != pid as int && 0 <= p < b.tasks@.len() {
            assert(b.tasks@[p] == a.tasks@[p]);
        }
    }
    assert forall|p: usize| #[trigger] b.pids.live().contains(p) <==> b.has_task(p as int) by {
        assert(a.pids.live().contains(p) <==> a.has_task(p as int));
    }
    assert forall|p: int| #[trigger] b.has_task(p) implies b.task(p).wf(p as usize, b.trampoline_ppn) by {
        if p != pid as int {
            assert(b.tasks@[p] == a.tasks@[p]);
        }
    }
    assert forall|p: int| #[trigger] b.has_task(p) && b.task(p).task_status == TaskStatus::Running
        implies b.current == Some(p as usize) by {
        if p != pid as int {
            assert(b.tasks@[p] == a.tasks@[p]);
            assert(a.has_task(p));
        }
    }
    assert forall|i: int| 0 <= i < b.ready@.len() implies b.has_task(#[trigger] b.ready@[i] as int)
        && b.task(b.ready@[i] as int).task_status == TaskStatus::Ready by {
        let q = b.ready@[i] as int;
        assert(a.has_task(q));
        if q != pid as int {
            assert(b.tasks@[q] == a.tasks@[q]);
        }
    }
}

/// Counts one descriptor less on every pipe end that `fds` names.
pub fn release_all(pipes: &mut Vec<Pipe>, fds: &Vec<Option<FileObj>>)
    requires
        forall|i: int| 0 <= i < old(pipes)@.len() ==> (#[trigger] old(pipes)@[i]).wf(),
    ensures
        final(pipes)@.len() == old(pipes)@.len(),
        forall|i: int| 0 <= i < final(pipes)@.len() ==> (#[trigger] final(pipes)@[i]).wf(),
        forall|i: int| 0 <= i < final(pipes)@.len() ==> (#[trigger] final(pipes)@[i]).buffer == old(pipes)@[i].buffer,
{
    let mut i: usize = 0;
    while i < fds.len()
        invariant
            pipes@.len() == old(pipes)@.len(),
            forall|k: int| 0 <= k < pipes@.len() ==> (#[trigger] pipes@[k]).wf(),
            forall|k: int| 0 <= k < pipes@.len() ==> (#[trigger] pipes@[k]).buffer == old(pipes)@[k].buffer,
        decreases fds@.len() - i,
    {
        match fds[i] {
            Some(f) => release_file(pipes, f),
            None => {}
        }
        i += 1;
    }
}

impl Kernel {
    /// Sets the parent of task `child` to `parent`, if `child` is a task.
    fn set_parent(&mut self, child: usize, parent: usize)
        requires
            old(self).wf(),
        ensures
            final(self).wf(),
            final(self).current == old(self).current,
            final(self).ready == old(self).ready,
            final(self).pipes == old(self).pipes,
            final(self).frames == old(self).frames,
            final(self).initproc == old(self).initproc,
            final(self).tasks@.len() == old(self).tasks@.len(),
            forall|p: int| #[trigger] final(self).has_task(p) <==> old(self).has_task(p),
            forall|p: int| #[trigger] old(self).has_task(p) ==> final(self).task(p).task_status == old(self).task(p).task_status
                && final(self).task(p).children == old(self).task(p).children
                && final(self).task(p).exit_code == old(self).task(p).exit_code
                && (p != child ==> final(self).task(p) == old(self).task(p)),
            old(self).has_task(child as int) ==> final(self).task(child as int).parent == Some(parent),
            old(self).has_task(child as int) ==> final(self).task(child as int)
                == (TaskControlBlock { parent: Some(parent), ..old(self).task(child as int) }),
    {
        if child < self.tasks.len() && self.tasks[child].is_some() {
            assert(old(self).has_task(child as int));
            let mut t = self.tasks[child].take().unwrap();
            t.parent = Some(parent);
            self.tasks.set(child, Some(t));
            proof {
                lemma_task_replaced(*old(self), *self, child as int);
                assert forall|p: int| #[trigger] old(self).has_task(p) implies
                    final(self).task(p).task_status == old(self).task(p).task_status
                    && final(self).task(p).children == old(self).task(p).children
                    && final(self).task(p).exit_code == old(self).task(p).exit_code
                    && (p != child ==> self.task(p) == old(self).task(p)) by {
                    if p != child {
                        assert(self.tasks@[p] == old(self).tasks@[p]);
                    }
                }
            }
        }
    }

    /// Adds `child` to the children of task `parent`, if `parent` is a task.
    fn adopt(&mut self, parent: usize, child: usize)
        requires
            old(self).wf(),
        ensures
            final(self).wf(),
            final(self).current == old(self).current,
            final(self).ready == old(self).ready,
            final(self).pipes == old(self).pipes,
            final(self).frames == old(self).frames,
            final(self).initproc == old(self).initproc,
            final(self).tasks@.len() == old(self).tasks@.len(),
            forall|p: int| #[trigger] final(self).has_task(p) <==> old(self).has_task(p),
            forall|p: int| #[trigger] old(self).has_task(p) ==> final(self).task(p).task_status == old(self).task(p).task_status
                && final(self).task(p).exit_code == old(self).task(p).exit_code
                && (p != parent ==> final(self).task(p) == old(self).task(p)),
            old(self).has_task(parent as int) ==> final(self).task(parent as int).children@
                == old(self).task(parent as int).children@.push(child),
            old(self).has_task(parent as int) ==> final(self).task(parent as int).parent == old(self).task(parent as int).parent,
            old(self).has_task(parent as int) ==> final(self).task(parent as int)
                == (TaskControlBlock { children: final(self).task(parent as int).children, ..old(self).task(parent as int) }),
    {
        if parent < self.tasks.len() && self.tasks[parent].is_some() {
            assert(old(self).has_task(parent as int));
            let mut t = self.tasks[parent].take().unwrap();
            t.children.push(child);
            self.tasks.set(parent, Some(t));
            proof {
                lemma_task_replaced(*old(self), *self, parent as int);
                assert forall|p: int| #[trigger] old(self).has_task(p) implies
                    final(self).task(p).task_status == old(self).task(p).task_status
                    && final(self).task(p).exit_code == old(self).task(p).exit_code
                    && (p != parent ==> self.task(p) == old(self).task(p)) by {
                    if p != parent {
                        assert(self.tasks@[p] == old(self).tasks@[p]);
                    }
                }
            }
        }
    }

    /// Ends the current task with `exit_code`: it becomes a zombie that
    /// keeps its exit code, its children pass to the first task, its user
    /// frames are returned, its descriptors are closed, and the processor
    /// goes idle. When the first task exits the machine shuts down instead,
    /// reporting failure for a non-zero code.
    pub fn exit_current_and_run_next(&mut self, exit_code: i32) -> (r: ExitOutcome)
        requires
            old(self).wf(),
        ensures
            final(self).wf(),
            final(self).current.is_none(),
            old(self).current.is_none() ==> r == ExitOutcome::NoTask && *final(self) == *old(self),
            old(self).current.is_some() ==> {
                let p = old(self).current.unwrap() as int;
                &&& final(self).has_task(p)
                &&& final(self).task(p).task_status == TaskStatus::Zombie
                &&& final(self).task(p).exit_code == exit_code
                &&& (p == IDLE_PID || p == old(self).initproc) ==> r == ExitOutcome::Shutdown(exit_code != 0)
                &&& (p != IDLE_PID && p != old(self).initproc) ==> {
                        &&& r == ExitOutcome::Switched
                        &&& final(self).task(p).children@.len() == 0
                        &&& forall|k: int| 0 <= k < old(self).task(p).children@.len()
                                && old(self).task(p).children@[k] != p && #[trigger] old(self).has_task(old(self).task(p).children@[k] as int)
                                ==> final(self).task(old(self).task(p).children@[k] as int).parent == Some(old(self).initproc)
                        &&& old(self).has_task(old(self).initproc as int) ==> forall|k: int| 0 <= k < old(self).task(p).children@.len()
                                && old(self).task(p).children@[k] != p && old(self).has_task(old(self).task(p).children@[k] as int)
                                ==> final(self).task(old(self).initproc as int).children@.contains(#[trigger] old(self).task(p).children@[k])
                        &&& forall|q: int| #[trigger] old(self).has_task(q) && q != p && q != old(self).initproc
                                ==> final(self).task(q).children == old(self).task(q).children
                        &&& forall|q: int| #[trigger] old(self).has_task(q) && q != p
                                ==> final(self).task(q).task_status == old(self).task(q).task_status
                        &&& forall|q: int| #[trigger] old(self).has_task(q) && q != p ==> final(self).task(q)
                                == (TaskControlBlock { parent: final(self).task(q).parent, children: final(self).task(q).children,
                                    ..old(self).task(q) })
                        &&& old(self).has_task(old(self).initproc as int) ==> final(self).task(old(self).initproc as int).children@
                                == old(self).task(old(self).initproc as int).children@
                                    + spec_orphans(old(self).task(p).children@, p as usize, old(self).task(p).children@.len() as int)
                        &&& final(self).task(p).fd_table@.len() == 0
                        &&& final(self).task(p).memory_set.areas@.len() == 0
                        &&& old(self).task(p).memory_set.frames_out(old(self).frames) ==> forall|i: int, k: int|
                                0 <= i < old(self).task(p).memory_set.areas@.len()
                                && old(self).task(p).memory_set.areas@[i].map_type == crate::memory_set::MapType::Framed
                                && 0 <= k < old(self).task(p).memory_set.areas@[i].frames@.len()
                                ==> !final(self).frames.out().contains(
                                    #[trigger] old(self).task(p).memory_set.areas@[i].frames@[k])
                    }
            },
            forall|p: int| #[trigger] final(self).has_task(p) <==> old(self).has_task(p),
            final(self).ready == old(self).ready,
            forall|q: int| #[trigger] old(self).has_task(q) && Some(q as usize) != old(self).current
                ==> final(self).task(q).task_status == old(self).task(q).task_status
                    && final(self).task(q).exit_code == old(self).task(q).exit_code
                    && final(self).task(q) == (TaskControlBlock { parent: final(self).task(q).parent,
                        children: final(self).task(q).children, ..old(self).task(q) }),
    {
        let pid = match self.current {
            Some(p) => p,
            None => {
                return ExitOutcome::NoTask;
            }
        };
        assert(old(self).has_task(pid as int));
        let mut t = self.tasks[pid].take().unwrap();
        t.task_status = TaskStatus::Zombie;
        t.exit_code = exit_code;
        if pid == IDLE_PID || pid == self.initproc {
            self.tasks.set(pid, Some(t));
            self.current = None;
            proof {
                lemma_exited(*old(self), *self, pid);
            }
            return ExitOutcome::Shutdown(exit_code != 0);
        }
        let ghost ms0 = t.memory_set;
        let ghost fa0 = self.frames;
        t.memory_set.recycle_data_pages(&mut self.frames);
        release_all(&mut self.pipes, &t.fd_table);
        t.fd_table.clear();
        let mut children: Vec<usize> = Vec::new();
        std::mem::swap(&mut children, &mut t.children);
        self.tasks.set(pid, Some(t));
        self.current = None;
        proof {
            assert(self.task(pid as int).memory_set.has_trampoline(self.trampoline_ppn));
            lemma_exited(*old(self), *self, pid);
        }
        let ghost k1 = *self;
        let init = self.initproc;
        let mut c: usize = 0;
        while c < children.len()
            invariant
                self.wf(),
                self.current.is_none(),
                self.initproc == init,
                init != pid,
                self.frames == k1.frames,
                self.ready == old(self).ready,
                forall|p: int| #[trigger] self.has_task(p) <==> old(self).has_task(p),
                self.has_task(pid as int),
                self.task(pid as int) == k1.task(pid as int),
                forall|q: int| #[trigger] old(self).has_task(q) && q != pid as int ==> k1.task(q) == old(self).task(q),
                c <= children@.len(),
                children@ == old(self).task(pid as int).children@,
                forall|k: int| 0 <= k < c && children@[k] != pid && #[trigger] self.has_task(children@[k] as int)
                    ==> self.task(children@[k] as int).parent == Some(init),
                self.has_task(init as int) ==> forall|k: int| 0 <= k < c && children@[k] != pid
                    && self.has_task(children@[k] as int) ==> self.task(init as int).children@.contains(#[trigger] children@[k]),
                self.has_task(init as int) ==> k1.task(init as int).children@.len() <= self.task(init as int).children@.len()
                    && self.task(init as int).children@.subrange(0, k1.task(init as int).children@.len() as int)
                        == k1.task(init as int).children@,
                forall|q: int| #[trigger] self.has_task(q) && q != init ==> self.task(q).children == k1.task(q).children,
                forall|q: int| #[trigger] self.has_task(q) && q != pid as int ==> self.task(q)
                    == (TaskControlBlock { parent: self.task(q).parent, children: self.task(q).children, ..k1.task(q) }),
                self.has_task(init as int) ==> self.task(init as int).children@
                    == k1.task(init as int).children@ + spec_orphans(children@, pid, c as int),
                forall|q: int| #[trigger] self.has_task(q) ==> self.task(q).task_status == k1.task(q).task_status
                    && self.task(q).exit_code == k1.task(q).exit_code,
            decreases children@.len() - c,
        {
            let child = children[c];
            if child != pid {
                let ghost k2 = *self;
                self.set_parent(child, init);
                assert(k2.has_task(pid as int));
                assert(self.task(pid as int) == k2.task(pid as int));
                let ghost k3 = *self;
                self.adopt(init, child);
                assert(k3.has_task(pid as int));
                assert(self.task(pid as int) == k3.task(pid as int));
                proof {
                    assert forall|k: int| 0 <= k < c + 1 && children@[k] != pid && #[trigger] self.has_task(children@[k] as int)
                        implies self.task(children@[k] as int).parent == Some(init) by {
                        let ck = children@[k] as int;
                        assert(k2.has_task(ck));
                        if k < c && ck != child as int {
                            assert(k3.task(ck) == k2.task(ck));
                        }
                    }
                    if self.has_task(init as int) {
                        let ic0 = k2.task(init as int).children@;
                        assert(self.task(init as int).children@ == k3.task(init as int).children@.push(child));
                        assert forall|k: int| 0 <= k < c + 1 && children@[k] != pid
                            && self.has_task(children@[k] as int) implies self.task(init as int).children@.contains(#[trigger] children@[k]) by {
                            if k < c {
                                assert(k2.task(init as int).children@.contains(children@[k]));
                                let m = choose|m: int| 0 <= m < ic0.len() && ic0[m] == children@[k];
                                assert(k3.task(init as int).children@[m] == children@[k]);
                                assert(self.task(init as int).children@[m] == children@[k]);
                            } else {
                                assert(self.task(init as int).children@[self.task(init as int).children@.len() - 1] == child);
                            }
                        }
                        assert(self.task(init as int).children@.subrange(0, k1.task(init as int).children@.len() as int)
                            =~= k1.task(init as int).children@);
                    }
                    assert forall|q: int| #[trigger] self.has_task(q) && q != init implies self.task(q).children == k1.task(q).children by {
                        assert(k2.has_task(q));
                    }
                    assert forall|q: int| #[trigger] self.has_task(q) && q != pid as int implies self.task(q)
                        == (TaskControlBlock { parent: self.task(q).parent, children: self.task(q).children, ..k1.task(q) }) by {
                        assert(k2.has_task(q));
                        assert(k3.has_task(q));
                    }
                    if self.has_task(init as int) {
                        assert(spec_orphans(children@, pid, c as int + 1) == spec_orphans(children@, pid, c as int).push(child));
                        assert(self.task(init as int).children@ =~= k1.task(init as int).children@ + spec_orphans(children@, pid, c as int + 1));
                    }
                    assert forall|q: int| #[trigger] self.has_task(q) implies self.task(q).task_status == k1.task(q).task_status
                        && self.task(q).exit_code == k1.task(q).exit_code by {
                        assert(k2.has_task(q));
                    }
                }
            } else {
                proof {
                    assert(spec_orphans(children@, pid, c as int + 1) == spec_orphans(children@, pid, c as int));
                }
            }
            c += 1;
        }
        proof {
            assert(self.task(pid as int).children@.len() == 0);
            assert forall|q: int| #[trigger] old(self).has_task(q) && q != pid as int && q != old(self).initproc
                implies self.task(q).children == old(self).task(q).children by {
                assert(k1.task(q) == old(self).task(q));
                assert(self.has_task(q));
            }
            assert forall|q: int| #[trigger] old(self).has_task(q) && q != pid as int
                implies self.task(q).task_status == old(self).task(q).task_status
                    && self.task(q).exit_code == old(self).task(q).exit_code by {
                assert(k1.task(q) == old(self).task(q));
                assert(self.has_task(q));
            }
            assert forall|k: int| 0 <= k < old(self).task(pid as int).children@.len()
                && old(self).task(pid as int).children@[k] != pid
                && #[trigger] old(self).has_task(old(self).task(pid as int).children@[k] as int)
                implies self.task(old(self).task(pid as int).children@[k] as int).parent == Some(old(self).initproc) by {
                assert(self.has_task(children@[k] as int));
            }
            assert forall|q: int| #[trigger] old(self).has_task(q) && q != pid as int implies self.task(q)
                == (TaskControlBlock { parent: self.task(q).parent, children: self.task(q).children, ..old(self).task(q) }) by {
                assert(k1.task(q) == old(self).task(q));
                assert(self.has_task(q));
            }
            if old(self).has_task(old(self).initproc as int) {
                assert(self.has_task(init as int));
                assert(k1.task(init as int) == old(self).task(init as int));
                assert(children@.len() == c);
                assert forall|k: int| 0 <= k < old(self).task(pid as int).children@.len()
                    && old(self).task(pid as int).children@[k] != pid
                    && old(self).has_task(old(self).task(pid as int).children@[k] as int)
                    implies self.task(old(self).initproc as int).children@.contains(#[trigger] old(self).task(pid as int).children@[k]) by {
                    assert(self.has_task(children@[k] as int));
                }
            }
        }
        ExitOutcome::Switched
    }
}

} // verus!
