//! Open files: the open flags, the kinds of file a descriptor can name,
//! pipes, and files of the on-disk file system as the kernel tracks them.

use vstd::prelude::*;
use crate::config::RING_BUFFER_SIZE;

verus! {

/// Open for reading only (no bit set).
pub const RDONLY: u32 = 0;
/// Open for writing only.
pub const WRONLY: u32 = 1;
/// Open for reading and writing.
pub const RDWR: u32 = 2;
/// Create the file if missing; clear it if present.
pub const CREATE: u32 = 0x200;
/// Clear the file.
pub const TRUNC: u32 = 0x400;

/// Flags of `open`.
#[derive(Clone, Copy, Debug, PartialEq, Eq, Structural)]
pub struct OpenFlags {
    pub bits: u32,
}

/// `true` when `bits` holds only known open flags.
pub open spec fn spec_known_flags(bits: u32) -> bool {
    bits & !(WRONLY | RDWR | CREATE | TRUNC) == 0
}

impl OpenFlags {
    /// The flags `bits`, when all of them are known.
    pub fn from_bits(bits: u32) -> (r: Option<OpenFlags>)
        ensures
            r.is_some() <==> spec_known_flags(bits),
            r.is_some() ==> r.unwrap().bits == bits,
    {
        if bits & !(WRONLY | RDWR | CREATE | TRUNC) == 0 {
            Some(OpenFlags { bits })
        } else {
            None
        }
    }

    /// `true` when `flag` is set.
    pub fn contains(&self, flag: u32) -> (r: bool)
        ensures
            r == (self.bits & flag == flag),
    {
        self.bits & flag == flag
    }

    /// Whether the file opens readable and writable: no flag gives
    /// (readable, not writable); `WRONLY` gives (not readable, writable);
    /// anything else gives both.
    pub fn read_write(&self) -> (r: (bool, bool))
        ensures
            self.bits == 0 ==> r == (true, false),
            self.bits != 0 && self.bits & WRONLY == WRONLY ==> r == (false, true),
            self.bits != 0 && self.bits & WRONLY != WRONLY ==> r == (true, true),
    {
        if self.bits == 0 {
            (true, false)
        } else if self.contains(WRONLY) {
            (false, true)
        } else {
            (true, true)
        }
    }
}

/// What opening a file does to the file system.
#[derive(Clone, Copy, Debug, PartialEq, Eq, Structural)]
pub enum OpenAction {
    /// Create the file, or clear it when it exists.
    CreateOrClear,
    /// Open the existing file and clear it.
    Truncate,
    /// Open the existing file as it is.
    Keep,
    /// Fail: the flags are unknown, or the file is missing.
    Fail,
}

/// What `open` with `flags` does, given whether the file exists: with
/// `CREATE` it creates the file or clears an existing one; without it a
/// missing file fails, and `TRUNC` clears an existing one.
pub fn open_action(flags: u32, exists: bool) -> (r: OpenAction)
    ensures
        !spec_known_flags(flags) ==> r == OpenAction::Fail,
        spec_known_flags(flags) && flags & CREATE == CREATE ==> r == OpenAction::CreateOrClear,
        spec_known_flags(flags) && flags & CREATE != CREATE && !exists ==> r == OpenAction::Fail,
        spec_known_flags(flags) && flags & CREATE != CREATE && exists && flags & TRUNC == TRUNC ==> r == OpenAction::Truncate,
        spec_known_flags(flags) && flags & CREATE != CREATE && exists && flags & TRUNC != TRUNC ==> r == OpenAction::Keep,
{
    let f = match OpenFlags::from_bits(flags) {
        Some(f) => f,
        None => {
            return OpenAction::Fail;
        }
    };
    if f.contains(CREATE) {
        OpenAction::CreateOrClear
    } else if !exists {
        OpenAction::Fail
    } else if f.contains(TRUNC) {
        OpenAction::Truncate
    } else {
        OpenAction::Keep
    }
}

/// What a file descriptor names.
#[derive(Clone, Copy, Debug, PartialEq, Eq, Structural)]
pub enum FileObj {
    /// The console, for reading one byte at a time.
    Stdin,
    /// The console, for writing.
    Stdout,
    /// The read end of pipe `n`.
    PipeRead(usize),
    /// The write end of pipe `n`.
    PipeWrite(usize),
    /// Open file `n` of the kernel's table of file-system files.
    Inode(usize),
}

/// A file of the file system, opened: its inode, the shared offset, and
/// the access it was opened with.
#[derive(Clone, Copy, Debug, PartialEq, Eq, Structural)]
pub struct OSInode {
    pub inode: u64,
    pub offset: u64,
    pub readable: bool,
    pub writable: bool,
}

/// A pipe: its buffered bytes, oldest first, and how many descriptors
/// name each end.
pub struct Pipe {
    pub buffer: Vec<u8>,
    pub read_ends: u64,
    pub write_ends: u64,
}

impl Pipe {
    pub open spec fn wf(&self) -> bool {
        self.buffer@.len() <= RING_BUFFER_SIZE
    }

    /// Bytes that can be read now.
    pub fn available_read(&self) -> (r: usize)
        ensures
            r == self.buffer@.len(),
    {
        self.buffer.len()
    }

    /// Room left for writing.
    pub fn available_write(&self) -> (r: usize)
        requires
            self.wf(),
        ensures
            r == RING_BUFFER_SIZE - self.buffer@.len(),
    {
        RING_BUFFER_SIZE - self.buffer.len()
    }

    /// `true` when no descriptor names the write end any more.
    pub fn all_write_ends_closed(&self) -> (r: bool)
        ensures
            r == (self.write_ends == 0),
    {
        self.write_ends == 0
    }

    /// `true` when no descriptor names the read end any more.
    pub fn all_read_ends_closed(&self) -> (r: bool)
        ensures
            r == (self.read_ends == 0),
    {
        self.read_ends == 0
    }

    /// Takes up to `n` of the oldest bytes.
    pub fn read_bytes(&mut self, n: usize) -> (r: Vec<u8>)
        ensures
            r@ == old(self).buffer@.subrange(0, if n < old(self).buffer@.len() { n as int } else { old(self).buffer@.len() as int }),
            final(self).buffer@ == old(self).buffer@.subrange(r@.len() as int, old(self).buffer@.len() as int),
            final(self).read_ends == old(self).read_ends,
            final(self).write_ends == old(self).write_ends,
    {
        let take = if n < self.buffer.len() { n } else { self.buffer.len() };
        let mut out: Vec<u8> = Vec::new();
        let mut rest: Vec<u8> = Vec::new();
        let mut i: usize = 0;
        while i < self.buffer.len()
            invariant
                *self == *old(self),
                take <= self.buffer@.len(),
                i <= self.buffer@.len(),
                out@ == self.buffer@.subrange(0, if i < take { i as int } else { take as int }),
                rest@ == if i < take { Seq::<u8>::empty() } else { self.buffer@.subrange(take as int, i as int) },
            decreases self.buffer@.len() - i,
        {
            if i < take {
                out.push(self.buffer[i]);
            } else {
                rest.push(self.buffer[i]);
            }
            proof {
                assert(out@ =~= self.buffer@.subrange(0, if i + 1 < take { i + 1 } else { take as int }));
                assert(rest@ =~= if i + 1 < take { Seq::<u8>::empty() } else { self.buffer@.subrange(take as int, i + 1) });
            }
            i += 1;
        }
        self.buffer = rest;
        proof {
            if take == old(self).buffer@.len() {
                assert(self.buffer@ =~= old(self).buffer@.subrange(take as int, take as int));
            }
        }
        out
    }

    /// Appends as many bytes of `data` as there is room for; returns how
    /// many.
    pub fn write_bytes(&mut self, data: &[u8]) -> (r: usize)
        requires
            old(self).wf(),
        ensures
            final(self).wf(),
            r == (if data@.len() < RING_BUFFER_SIZE - old(self).buffer@.len() { data@.len() as int }
                else { RING_BUFFER_SIZE - old(self).buffer@.len() }),
            final(self).buffer@ == old(self).buffer@ + data@.subrange(0, r as int),
            final(self).read_ends == old(self).read_ends,
            final(self).write_ends == old(self).write_ends,
    {
        let room = self.available_write();
        let n = if data.len() < room { data.len() } else { room };
        let mut i: usize = 0;
        while i < n
            invariant
                n <= data@.len(),
                n + old(self).buffer@.len() <= RING_BUFFER_SIZE,
                i <= n,
                self.buffer@ == old(self).buffer@ + data@.subrange(0, i as int),
                self.read_ends == old(self).read_ends,
                self.write_ends == old(self).write_ends,
            decreases n - i,
        {
            self.buffer.push(data[i]);
            assert(self.buffer@ =~= old(self).buffer@ + data@.subrange(0, i + 1));
            i += 1;
        }
        n
    }
}

} // verus!
