//! A model of a small RISC-V Sv39 teaching kernel: frames, page tables,
//! address spaces, tasks, files, pipes, signals and the system-call layer,
//! with the behaviour of each part stated as contracts.

pub mod config;
pub mod address;
pub mod log;
pub mod timer;
pub mod frame_allocator;
pub mod page_table;
pub mod memory_set;
pub mod elf;
pub mod task;
pub mod fs;
pub mod kernel;
pub mod syscall;
pub mod syscall_mem;
pub mod syscall_io;
pub mod process;
pub mod signal;
pub mod trap;
pub mod console;
pub mod laws;
pub mod virtio;
