//! Properties that hold of every well-formed kernel state, and of pairs of
//! calls, stated over the same models the contracts use.

use vstd::prelude::*;
use crate::config::{TRAMPOLINE_VPN, TRAP_CONTEXT_VPN};
use crate::frame_allocator::FrameAllocator;
use crate::kernel::Kernel;
use crate::memory_set::{MapType, MemorySet, MAP_R, MAP_W, MAP_X};
use crate::page_table::{lemma_pte_fields, PTE_U, PTE_V};
use crate::task::TaskStatus;

verus! {

/// In every task's address space the trap-context page maps the task's
/// trap-context frame, readable and writable, not reachable from user mode.
pub proof fn lemma_trap_context_mapped(k: Kernel, p: int)
    requires
        k.wf(),
        k.has_task(p),
    ensures
        k.task(p).memory_set@.contains_key(TRAP_CONTEXT_VPN),
        k.task(p).memory_set@[TRAP_CONTEXT_VPN].spec_ppn() == k.task(p).trap_cx_ppn,
        k.task(p).memory_set@[TRAP_CONTEXT_VPN].has(MAP_R),
        k.task(p).memory_set@[TRAP_CONTEXT_VPN].has(MAP_W),
        !k.task(p).memory_set@[TRAP_CONTEXT_VPN].has(PTE_U),
{
    assert(k.task(p).wf(p as usize, k.trampoline_ppn));
    let f = k.task(p).memory_set@[TRAP_CONTEXT_VPN].spec_flags();
    assert((2u8 | 4u8) | 1u8 == 7u8) by (bit_vector);
    assert(f == 7u8);
    assert(7u8 & 2u8 != 0u8 && 7u8 & 4u8 != 0u8 && 7u8 & 16u8 == 0u8) by (bit_vector);
}

/// The trampoline page maps the same frame, readable and executable and not
/// reachable from user mode, in the kernel's address space and in every
/// task's.
pub proof fn lemma_trampoline_shared(k: Kernel, p: int)
    requires
        k.wf(),
        k.has_task(p),
    ensures
        k.task(p).memory_set@.contains_key(TRAMPOLINE_VPN),
        k.kernel_space@.contains_key(TRAMPOLINE_VPN),
        k.task(p).memory_set@[TRAMPOLINE_VPN] == k.kernel_space@[TRAMPOLINE_VPN],
        k.kernel_space@[TRAMPOLINE_VPN].spec_ppn() == k.trampoline_ppn,
        k.kernel_space@[TRAMPOLINE_VPN].has(MAP_R),
        k.kernel_space@[TRAMPOLINE_VPN].has(MAP_X),
        !k.kernel_space@[TRAMPOLINE_VPN].has(PTE_U),
{
    assert(k.task(p).wf(p as usize, k.trampoline_ppn));
    lemma_pte_fields(k.trampoline_ppn, (MAP_R | MAP_X) | PTE_V);
    assert(((2u8 | 8u8) | 1u8) & 2u8 != 0u8 && ((2u8 | 8u8) | 1u8) & 8u8 != 0u8
        && ((2u8 | 8u8) | 1u8) & 16u8 == 0u8) by (bit_vector);
}

/// No page lies in two areas of one address space.
pub proof fn lemma_areas_disjoint(ms: MemorySet, i: int, j: int, vpn: u64)
    requires
        ms.wf(),
        0 <= i < ms.areas@.len(),
        0 <= j < ms.areas@.len(),
        i != j,
    ensures
        !(ms.areas@[i].covers(vpn) && ms.areas@[j].covers(vpn)),
{
}

/// Every recycled pid lies below the next new one, and no pid of a task in
/// the table is recycled.
pub proof fn lemma_pids_consistent(k: Kernel, p: int)
    requires
        k.wf(),
    ensures
        forall|i: int| 0 <= i < k.pids.recycled@.len() ==> #[trigger] k.pids.recycled@[i] < k.pids.current,
        k.has_task(p) ==> !k.pids.recycled@.contains(p as usize),
{
    if k.has_task(p) {
        assert(k.pids.live().contains(p as usize));
    }
}

/// At most one task is running.
pub proof fn lemma_single_running(k: Kernel, p: int, q: int)
    requires
        k.wf(),
        k.has_task(p),
        k.has_task(q),
        k.task(p).task_status == TaskStatus::Running,
        k.task(q).task_status == TaskStatus::Running,
    ensures
        p == q,
{
}

/// After a copy made by `from_existed_user`, each framed page of the copy
/// maps a frame other than the source's, holding what the source's
/// frame held when the copy was made.
pub proof fn lemma_copy_pages_agree(
    src: MemorySet,
    dst: MemorySet,
    before: FrameAllocator,
    after: FrameAllocator,
    i: int,
    vpn: u64,
)
    requires
        src.wf(),
        dst.wf(),
        before.wf(),
        after.wf(),
        src.frames_out(before),
        dst.frames_out(after),
        after.end == before.end,
        dst.areas@.len() == src.areas@.len(),
        forall|a: int| 0 <= a < src.areas@.len() ==> crate::memory_set::same_shape(#[trigger] dst.areas@[a], src.areas@[a]),
        forall|a: int, k: int| 0 <= a < dst.areas@.len() && dst.areas@[a].map_type == MapType::Framed
            && 0 <= k < dst.areas@[a].frames@.len() ==> !before.out().contains(#[trigger] dst.areas@[a].frames@[k]),
        forall|a: int, k: int| 0 <= a < dst.areas@.len() && dst.areas@[a].map_type == MapType::Framed
            && 0 <= k < dst.areas@[a].frames@.len()
            ==> after.page(#[trigger] dst.areas@[a].frames@[k]) == before.page(src.areas@[a].frames@[k]),
        0 <= i < src.areas@.len(),
        src.areas@[i].map_type == MapType::Framed,
        src.areas@[i].covers(vpn),
    ensures
        src@.contains_key(vpn),
        dst@.contains_key(vpn),
        dst@[vpn].spec_ppn() != src@[vpn].spec_ppn(),
        after.page(dst@[vpn].spec_ppn()) == before.page(src@[vpn].spec_ppn()),
{
    let a = src.areas@[i];
    let b = dst.areas@[i];
    assert(crate::memory_set::same_shape(b, a));
    assert(a.wf() && b.wf());
    assert(b.covers(vpn));
    let k = vpn - a.start;
    let sf = a.frames@[k];
    let df = b.frames@[k];
    assert(before.out().contains(sf));
    assert(after.out().contains(df));
    assert(!before.out().contains(df));
    lemma_pte_fields(sf, a.map_perm | PTE_V);
    lemma_pte_fields(df, b.map_perm | PTE_V);
}

} // verus!
