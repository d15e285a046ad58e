use vstd::prelude::*;

verus! {

/// Size of one page and one physical frame, in bytes.
pub const PAGE_SIZE: u64 = 4096;

/// Largest virtual page number under Sv39, plus one.
pub const VPN_LIMIT: u64 = 0x800_0000;

/// Largest physical page number under Sv39, plus one.
pub const PPN_LIMIT: u64 = 0x1000_0000_0000;

/// Size of each task's user stack.
pub const USER_STACK_SIZE: u64 = 8192;

/// Size of each task's kernel stack.
pub const KERNEL_STACK_SIZE: u64 = 8192;

/// The trampoline page: the highest page of every address space.
pub const TRAMPOLINE: u64 = 0xffff_ffff_ffff_f000;

/// The trap-context page: the page just below the trampoline.
pub const TRAP_CONTEXT: u64 = 0xffff_ffff_ffff_e000;

/// Page number of the trampoline page.
pub const TRAMPOLINE_VPN: u64 = 0x7ff_ffff;

/// Page number of the trap-context page.
pub const TRAP_CONTEXT_VPN: u64 = 0x7ff_fffe;

/// End of physical RAM on the board.
pub const MEMORY_END: u64 = 0x8100_0000;

/// Frequency of the machine timer, in ticks per second.
pub const CLOCK_FREQ: u64 = 12_500_000;

/// Timer interrupts per second.
pub const TICKS_PER_SEC: u64 = 100;

/// Capacity of a pipe's ring buffer, in bytes.
pub const RING_BUFFER_SIZE: usize = 32;

/// Highest signal number.
pub const MAX_SIG: usize = 31;

} // verus!
