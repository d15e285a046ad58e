//! Task-level types: PID allocation, kernel-stack placement, the saved
//! kernel and user register windows, task status and signals.

use vstd::prelude::*;
use crate::config::{KERNEL_STACK_SIZE, MAX_SIG, PAGE_SIZE, TRAMPOLINE};

verus! {

/// Recyclable process ids: ids below `current` have been handed out, and
/// those in `recycled` are free again.
pub struct PidAllocator {
    pub current: usize,
    pub recycled: Vec<usize>,
}

impl PidAllocator {
    /// Every recycled id lies below `current`, and none is recycled twice.
    pub open spec fn wf(&self) -> bool {
        &&& forall|i: int| 0 <= i < self.recycled@.len() ==> #[trigger] self.recycled@[i] < self.current
        &&& forall|i: int, j: int| 0 <= i < j < self.recycled@.len() ==> self.recycled@[i] != self.recycled@[j]
    }

    /// The ids that are handed out and not yet returned.
    pub open spec fn live(&self) -> Set<usize> {
        Set::new(|p: usize| p < self.current && !self.recycled@.contains(p))
    }

    /// An allocator that has handed out nothing.
    pub fn new() -> (r: Self)
        ensures
            r.wf(),
            r.current == 0,
            r.recycled@.len() == 0,
            r.live() == Set::<usize>::empty(),
    {
        let r = PidAllocator { current: 0, recycled: Vec::new() };
        assert(r.live() =~= Set::<usize>::empty());
        r
    }

    /// Hands out an id: the most recently returned one if any, else the
    /// next new one. `None` only when every `usize` is taken.
    pub fn alloc_pid(&mut self) -> (r: Option<usize>)
        requires
            old(self).wf(),
        ensures
            final(self).wf(),
            final(self).current >= old(self).current,
            r.is_none() <==> old(self).recycled@.len() == 0 && old(self).current == usize::MAX,
            r.is_none() ==> *final(self) == *old(self),
            r.is_some() ==> {
                &&& !old(self).live().contains(r.unwrap())
                &&& final(self).live() == old(self).live().insert(r.unwrap())
                &&& r.unwrap() < final(self).current
                &&& old(self).recycled@.len() > 0 ==> r.unwrap() == old(self).recycled@.last()
                        && final(self).current == old(self).current
                        && final(self).recycled@ == old(self).recycled@.drop_last()
                &&& old(self).recycled@.len() == 0 ==> r.unwrap() == old(self).current
                        && final(self).current == old(self).current + 1
                        && final(self).recycled@ == old(self).recycled@
            },
    {
        if self.recycled.len() > 0 {
            let p = self.recycled.pop().unwrap();
            proof {
                let rs = old(self).recycled@;
                assert(rs.drop_last() == self.recycled@);
                assert forall|k: int| 0 <= k < self.recycled@.len() implies self.recycled@[k] != p by {
                    assert(rs[k] != rs[rs.len() - 1]);
                }
                assert forall|q: usize| #[trigger] self.live().contains(q) <==> old(self).live().insert(p).contains(q) by {
                    if q != p && rs.contains(q) {
                        let k = choose|k: int| 0 <= k < rs.len() && rs[k] == q;
                        assert(k != rs.len() - 1);
                        assert(self.recycled@[k] == q);
                    }
                    if q != p && self.recycled@.contains(q) {
                        let k = choose|k: int| 0 <= k < self.recycled@.len() && self.recycled@[k] == q;
                        assert(rs[k] == q);
                    }
                }
                assert(self.live() =~= old(self).live().insert(p));
            }
            Some(p)
        } else if self.current < usize::MAX {
            let p = self.current;
            self.current = self.current + 1;
            assert(self.live() =~= old(self).live().insert(p));
            Some(p)
        } else {
            None
        }
    }

    /// Returns id `pid`, which must be live.
    pub fn dealloc(&mut self, pid: usize)
        requires
            old(self).wf(),
            old(self).live().contains(pid),
        ensures
            final(self).wf(),
            final(self).current == old(self).current,
            final(self).recycled@ == old(self).recycled@.push(pid),
            final(self).live() == old(self).live().remove(pid),
    {
        self.recycled.push(pid);
        proof {
            let rs = old(self).recycled@;
            assert(self.recycled@ == rs.push(pid));
            assert forall|i: int, j: int| 0 <= i < j < self.recycled@.len()
                implies self.recycled@[i] != self.recycled@[j] by {
                if j == rs.len() as int {
                    assert(rs[i] == self.recycled@[i]);
                    assert(rs.contains(rs[i]));
                }
            }
            assert(self.recycled@[rs.len() as int] == pid);
            assert forall|q: usize| #[trigger] self.live().contains(q) <==> old(self).live().remove(pid).contains(q) by {
                if rs.contains(q) {
                    let k = choose|k: int| 0 <= k < rs.len() && rs[k] == q;
                    assert(self.recycled@[k] == q);
                }
                if q != pid && self.recycled@.contains(q) {
                    let k = choose|k: int| 0 <= k < self.recycled@.len() && self.recycled@[k] == q;
                    if k < rs.len() {
                        assert(rs[k] == q);
                    }
                }
            }
            assert(self.live() =~= old(self).live().remove(pid));
        }
    }
}

/// Largest pid whose kernel stack still fits below the trampoline.
pub const MAX_PID: usize = 0x10_0000;

/// Top of the kernel stack of task `pid`.
pub open spec fn spec_kstack_top(pid: usize) -> u64 {
    (TRAMPOLINE - pid * (KERNEL_STACK_SIZE + PAGE_SIZE)) as u64
}

/// Bottom of the kernel stack of task `pid`.
pub open spec fn spec_kstack_bottom(pid: usize) -> u64 {
    (spec_kstack_top(pid) - KERNEL_STACK_SIZE) as u64
}

/// The pid `alloc_pid` hands out next.
pub open spec fn spec_next_pid(p: PidAllocator) -> usize {
    if p.recycled@.len() > 0 { p.recycled@.last() } else { p.current }
}

/// Bottom and top of the kernel stack of task `app_id`: stacks lie below
/// the trampoline, each under a guard page.
pub fn kernel_stack_position(app_id: usize) -> (r: (u64, u64))
    requires
        app_id <= MAX_PID,
    ensures
        r.1 == TRAMPOLINE - app_id * (KERNEL_STACK_SIZE + PAGE_SIZE),
        r.0 == r.1 - KERNEL_STACK_SIZE,
        r.1 == spec_kstack_top(app_id),
        r.0 == spec_kstack_bottom(app_id),
{
    assert((app_id as int) * (KERNEL_STACK_SIZE + PAGE_SIZE) <= MAX_PID * (KERNEL_STACK_SIZE + PAGE_SIZE)) by (nonlinear_arith)
        requires app_id <= MAX_PID;
    let top = TRAMPOLINE - (app_id as u64) * (KERNEL_STACK_SIZE + PAGE_SIZE);
    let bottom = top - KERNEL_STACK_SIZE;
    (bottom, top)
}

/// Saved kernel-side registers of a task for a cooperative switch: return
/// address, stack pointer and `s0`..`s11`.
#[derive(Clone, Copy, Debug)]
pub struct TaskContext {
    pub ra: u64,
    pub sp: u64,
    pub s: [u64; 12],
}

impl TaskContext {
    /// All registers zero.
    pub fn zero_init() -> (r: Self)
        ensures
            r.ra == 0,
            r.sp == 0,
            forall|i: int| 0 <= i < 12 ==> r.s@[i] == 0,
    {
        TaskContext { ra: 0, sp: 0, s: [0u64; 12] }
    }

    /// A context that resumes at `trap_return_addr` on kernel stack
    /// `kstack_ptr`.
    pub fn goto_trap_return(kstack_ptr: u64, trap_return_addr: u64) -> (r: Self)
        ensures
            r.ra == trap_return_addr,
            r.sp == kstack_ptr,
            forall|i: int| 0 <= i < 12 ==> r.s@[i] == 0,
    {
        TaskContext { ra: trap_return_addr, sp: kstack_ptr, s: [0u64; 12] }
    }
}

/// Bit of `sstatus` that holds the privilege the trap came from.
pub const SSTATUS_SPP: u64 = 0x100;

/// Saved user state of a task, kept on its trap-context page: the 32
/// general registers, `sstatus`, `sepc`, and what the trap entry needs to
/// reach the kernel.
#[derive(Clone, Copy, Debug)]
pub struct TrapContext {
    pub x: [u64; 32],
    pub sstatus: u64,
    pub sepc: u64,
    pub kernel_satp: u64,
    pub kernel_sp: u64,
    pub trap_handler: u64,
}

impl TrapContext {
    /// Sets the user stack pointer (`x2`).
    pub fn set_sp(&mut self, sp: u64)
        ensures
            final(self).x@ == old(self).x@.update(2, sp),
            final(self).sstatus == old(self).sstatus,
            final(self).sepc == old(self).sepc,
            final(self).kernel_satp == old(self).kernel_satp,
            final(self).kernel_sp == old(self).kernel_sp,
            final(self).trap_handler == old(self).trap_handler,
    {
        self.x[2] = sp;
    }

    /// The context a new program starts from: user mode (`SPP` cleared in
    /// `sstatus`), `sepc` at `entry`, stack pointer `sp`, other registers
    /// zero, and the kernel's resume information.
    pub fn app_init_context(entry: u64, sp: u64, kernel_satp: u64, kernel_sp: u64, trap_handler: u64, sstatus: u64) -> (r: Self)
        ensures
            r.sepc == entry,
            r.x@[2] == sp,
            forall|i: int| 0 <= i < 32 && i != 2 ==> r.x@[i] == 0,
            r.sstatus == sstatus & !SSTATUS_SPP,
            r.kernel_satp == kernel_satp,
            r.kernel_sp == kernel_sp,
            r.trap_handler == trap_handler,
    {
        let mut cx = TrapContext {
            x: [0u64; 32],
            sstatus: sstatus & !SSTATUS_SPP,
            sepc: entry,
            kernel_satp,
            kernel_sp,
            trap_handler,
        };
        cx.set_sp(sp);
        cx
    }
}

/// Run state of a task.
#[derive(Clone, Copy, Debug, PartialEq, Eq, Structural)]
pub enum TaskStatus {
    Ready,
    Running,
    Zombie,
}

/// Signal numbers used by the kernel.
pub const SIGDEF: u32 = 0;
pub const SIGHUP: u32 = 1;
pub const SIGINT: u32 = 2;
pub const SIGQUIT: u32 = 3;
pub const SIGILL: u32 = 4;
pub const SIGTRAP: u32 = 5;
pub const SIGABRT: u32 = 6;
pub const SIGBUS: u32 = 7;
pub const SIGFPE: u32 = 8;
pub const SIGKILL: u32 = 9;
pub const SIGUSR1: u32 = 10;
pub const SIGSEGV: u32 = 11;
pub const SIGUSR2: u32 = 12;
pub const SIGPIPE: u32 = 13;
pub const SIGALRM: u32 = 14;
pub const SIGTERM: u32 = 15;
pub const SIGCHLD: u32 = 17;
pub const SIGCONT: u32 = 18;
pub const SIGSTOP: u32 = 19;

/// The flag bit of signal `sig`.
pub open spec fn spec_sig_bit(sig: u32) -> u32 {
    (1u32 << sig) as u32
}

/// The flag bit of signal `sig`.
pub fn sig_bit(sig: u32) -> (r: u32)
    requires
        sig <= MAX_SIG,
    ensures
        r == spec_sig_bit(sig),
{
    1u32 << sig
}

/// The exit code and message of the first fatal signal pending in
/// `signals`, if any: `SIGINT`, `SIGILL`, `SIGABRT`, `SIGFPE`, `SIGKILL`,
/// `SIGSEGV`, in that order of precedence.
pub open spec fn spec_check_error(signals: u32) -> Option<i32> {
    if signals & spec_sig_bit(SIGINT) != 0 {
        Some(-2i32)
    } else if signals & spec_sig_bit(SIGILL) != 0 {
        Some(-4i32)
    } else if signals & spec_sig_bit(SIGABRT) != 0 {
        Some(-6i32)
    } else if signals & spec_sig_bit(SIGFPE) != 0 {
        Some(-8i32)
    } else if signals & spec_sig_bit(SIGKILL) != 0 {
        Some(-9i32)
    } else if signals & spec_sig_bit(SIGSEGV) != 0 {
        Some(-11i32)
    } else {
        None
    }
}

/// The exit code and message of the first fatal signal pending in `signals`.
pub fn check_error(signals: u32) -> (r: Option<(i32, &'static str)>)
    ensures
        r.is_some() == spec_check_error(signals).is_some(),
        r.is_some() ==> r.unwrap().0 == spec_check_error(signals).unwrap(),
{
    if signals & sig_bit(SIGINT) != 0 {
        Some((-2, "Killed, SIGINT=2"))
    } else if signals & sig_bit(SIGILL) != 0 {
        Some((-4, "Illegal Instruction, SIGILL=4"))
    } else if signals & sig_bit(SIGABRT) != 0 {
        Some((-6, "Aborted, SIGABRT=6"))
    } else if signals & sig_bit(SIGFPE) != 0 {
        Some((-8, "Erroneous Arithmetic Operation, SIGFPE=8"))
    } else if signals & sig_bit(SIGKILL) != 0 {
        Some((-9, "Killed, SIGKILL=9"))
    } else if signals & sig_bit(SIGSEGV) != 0 {
        Some((-11, "Segmentation Fault, SIGSEGV=11"))
    } else {
        None
    }
}

/// What a task does on a signal: jump to `handler` (0: none installed)
/// with the signals in `mask` blocked meanwhile.
#[derive(Clone, Copy, Debug, PartialEq, Eq, Structural)]
pub struct SignalAction {
    pub handler: u64,
    pub mask: u32,
}

/// Size of a `SignalAction` in user memory: the handler, the mask, padding.
pub const SIGNAL_ACTION_SIZE: u64 = 16;

/// Byte `i` (0 for the lowest) of `x`.
pub open spec fn spec_byte(x: u64, i: u64) -> u8 {
    ((x >> (8 * i)) & 0xff) as u8
}

/// The 16 bytes that hold action `a` in user memory: the handler and the
/// mask, little-endian, then four bytes of padding.
pub open spec fn spec_action_bytes(a: SignalAction) -> Seq<u8> {
    seq![
        spec_byte(a.handler, 0), spec_byte(a.handler, 1), spec_byte(a.handler, 2), spec_byte(a.handler, 3),
        spec_byte(a.handler, 4), spec_byte(a.handler, 5), spec_byte(a.handler, 6), spec_byte(a.handler, 7),
        spec_byte(a.mask as u64, 0), spec_byte(a.mask as u64, 1), spec_byte(a.mask as u64, 2), spec_byte(a.mask as u64, 3),
        0u8, 0u8, 0u8, 0u8
    ]
}

/// The value of eight little-endian bytes.
pub open spec fn spec_le8(b0: u8, b1: u8, b2: u8, b3: u8, b4: u8, b5: u8, b6: u8, b7: u8) -> u64 {
    (b0 as u64) | ((b1 as u64) << 8) | ((b2 as u64) << 16) | ((b3 as u64) << 24)
        | ((b4 as u64) << 32) | ((b5 as u64) << 40) | ((b6 as u64) << 48) | ((b7 as u64) << 56)
}

/// The value of four little-endian bytes.
pub open spec fn spec_le4(b0: u8, b1: u8, b2: u8, b3: u8) -> u64 {
    (b0 as u64) | ((b1 as u64) << 8) | ((b2 as u64) << 16) | ((b3 as u64) << 24)
}

/// The action that 16 bytes of user memory hold.
pub open spec fn spec_action_of(b: Seq<u8>) -> SignalAction {
    SignalAction {
        handler: spec_le8(b[0], b[1], b[2], b[3], b[4], b[5], b[6], b[7]),
        mask: spec_le4(b[8], b[9], b[10], b[11]) as u32,
    }
}

/// Reading back the bytes of an action gives the action.
pub proof fn lemma_action_round_trip(a: SignalAction)
    ensures
        spec_action_of(spec_action_bytes(a)) == a,
{
    let h = a.handler;
    let m = a.mask as u64;
    assert(spec_le8(spec_byte(h, 0), spec_byte(h, 1), spec_byte(h, 2), spec_byte(h, 3),
        spec_byte(h, 4), spec_byte(h, 5), spec_byte(h, 6), spec_byte(h, 7)) == h) by (bit_vector);
    assert(spec_le4(spec_byte(m, 0), spec_byte(m, 1), spec_byte(m, 2), spec_byte(m, 3)) == m) by (bit_vector)
        requires m < 0x1_0000_0000u64;
}

/// The 16 bytes that hold action `a` in user memory.
pub fn action_to_bytes(a: SignalAction) -> (r: Vec<u8>)
    ensures
        r@ == spec_action_bytes(a),
{
    let h = a.handler;
    let m = a.mask as u64;
    let r = vec![
        ((h >> 0u64) & 0xff) as u8, ((h >> 8u64) & 0xff) as u8, ((h >> 16u64) & 0xff) as u8, ((h >> 24u64) & 0xff) as u8,
        ((h >> 32u64) & 0xff) as u8, ((h >> 40u64) & 0xff) as u8, ((h >> 48u64) & 0xff) as u8, ((h >> 56u64) & 0xff) as u8,
        ((m >> 0u64) & 0xff) as u8, ((m >> 8u64) & 0xff) as u8, ((m >> 16u64) & 0xff) as u8, ((m >> 24u64) & 0xff) as u8,
        0u8, 0u8, 0u8, 0u8
    ];
    assert(r@ =~= spec_action_bytes(a));
    r
}

/// The eight little-endian bytes of `x`.
pub open spec fn spec_u64_bytes(x: u64) -> Seq<u8> {
    seq![spec_byte(x, 0), spec_byte(x, 1), spec_byte(x, 2), spec_byte(x, 3),
        spec_byte(x, 4), spec_byte(x, 5), spec_byte(x, 6), spec_byte(x, 7)]
}

/// The eight little-endian bytes of `x`.
pub fn u64_to_bytes(x: u64) -> (r: Vec<u8>)
    ensures
        r@ == spec_u64_bytes(x),
{
    let r = vec![
        ((x >> 0u64) & 0xff) as u8, ((x >> 8u64) & 0xff) as u8, ((x >> 16u64) & 0xff) as u8, ((x >> 24u64) & 0xff) as u8,
        ((x >> 32u64) & 0xff) as u8, ((x >> 40u64) & 0xff) as u8, ((x >> 48u64) & 0xff) as u8, ((x >> 56u64) & 0xff) as u8
    ];
    assert(r@ =~= spec_u64_bytes(x));
    r
}

/// The action that 16 bytes of user memory hold.
pub fn action_from_bytes(b: &[u8]) -> (r: SignalAction)
    requires
        b@.len() >= 12,
    ensures
        r == spec_action_of(b@),
{
    let h = (b[0] as u64) | ((b[1] as u64) << 8u64) | ((b[2] as u64) << 16u64) | ((b[3] as u64) << 24u64)
        | ((b[4] as u64) << 32u64) | ((b[5] as u64) << 40u64) | ((b[6] as u64) << 48u64) | ((b[7] as u64) << 56u64);
    let m = (b[8] as u64) | ((b[9] as u64) << 8u64) | ((b[10] as u64) << 16u64) | ((b[11] as u64) << 24u64);
    SignalAction { handler: h, mask: m as u32 }
}

} // verus!
