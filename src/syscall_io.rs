//! `read` and `write`: on the console, on pipes, and on files of the file
//! system, whose bytes the caller moves through the file-system driver.

use vstd::prelude::*;
use crate::fs::FileObj;
use crate::kernel::{lemma_same_tasks, Kernel};
use crate::page_table::{read_user_bytes, spec_user_bytes, spec_user_range_ok, write_user_bytes};

verus! {

broadcast use vstd::std_specs::hash::group_hash_axioms;

/// What a `read` or `write` came to.
#[derive(Debug)]
pub enum IoOutcome {
    /// Finished, with the system call's return value.
    Done(i64),
    /// Nothing can move now; the task waits and retries the call later.
    Blocked,
    /// The task was killed for an illegal console read.
    Killed,
    /// Read up to `len` bytes of file `file` (inode `inode`) at `offset`,
    /// then finish with `complete_file_read`.
    FileRead { file: usize, inode: u64, offset: u64, buf: u64, len: u64 },
    /// Write `data` to file `file` (inode `inode`) at `offset`, then finish
    /// with `complete_file_write`.
    FileWrite { file: usize, inode: u64, offset: u64, data: Vec<u8> },
}

impl Kernel {
    /// The file that descriptor `fd` of the current task names.
    pub open spec fn spec_file_of(&self, fd: usize) -> Option<FileObj> {
        if self.current.is_some() && fd < self.fd_table_of(self.current.unwrap() as int).len() {
            self.fd_table_of(self.current.unwrap() as int)[fd as int]
        } else {
            None
        }
    }

    /// The file that descriptor `fd` of the current task names.
    pub fn file_of(&self, fd: usize) -> (r: Option<FileObj>)
        requires
            self.wf(),
        ensures
            r == self.spec_file_of(fd),
    {
        match self.current {
            Some(p) => {
                let t = self.tasks[p].as_ref().unwrap();
                if fd < t.fd_table.len() {
                    t.fd_table[fd]
                } else {
                    None
                }
            }
            None => None,
        }
    }

    /// `true` when `f` can be written.
    pub open spec fn spec_writable(&self, f: FileObj) -> bool {
        match f {
            FileObj::Stdout => true,
            FileObj::PipeWrite(n) => n < self.pipes@.len(),
            FileObj::Inode(n) => n < self.files@.len() && self.files@[n as int].writable,
            _ => false,
        }
    }

    /// `true` when `f` can be read.
    pub open spec fn spec_readable(&self, f: FileObj) -> bool {
        match f {
            FileObj::Stdin => true,
            FileObj::PipeRead(n) => n < self.pipes@.len(),
            FileObj::Inode(n) => n < self.files@.len() && self.files@[n as int].readable,
            _ => false,
        }
    }

    /// Writes `len` bytes from user address `buf` to descriptor `fd` of the
    /// current task. On the console they are all queued for output; on a
    /// pipe as many as there is room for go in, and the call waits while
    /// the pipe is full unless no reader is left, which gives 0; on a file
    /// the caller is asked to write them. -1 when no task runs, `fd` is not
    /// open for writing, or the buffer cannot be read.
    pub fn sys_write(&mut self, fd: usize, buf: u64, len: u64) -> (r: IoOutcome)
        requires
            old(self).wf(),
        ensures
            final(self).wf(),
            final(self).current == old(self).current,
            final(self).tasks == old(self).tasks,
            (old(self).spec_file_of(fd).is_none() || !old(self).spec_writable(old(self).spec_file_of(fd).unwrap())
                || buf as int + len as int > u64::MAX) ==> r == IoOutcome::Done(-1i64) && *final(self) == *old(self),
            r == IoOutcome::Done(-1i64) ==> *final(self) == *old(self) && (old(self).spec_file_of(fd).is_none()
                || !old(self).spec_writable(old(self).spec_file_of(fd).unwrap()) || buf as int + len as int > u64::MAX
                || !spec_user_range_ok(old(self).task(old(self).current.unwrap() as int).memory_set.page_table,
                    old(self).frames, buf as int, len as int)),
            old(self).spec_file_of(fd) == Some(FileObj::Stdout) && r != IoOutcome::Done(-1i64) ==> {
                let pt = old(self).task(old(self).current.unwrap() as int).memory_set.page_table;
                &&& spec_user_range_ok(pt, old(self).frames, buf as int, len as int)
                &&& final(self).console_out@ == old(self).console_out@ + spec_user_bytes(pt, old(self).frames, buf as int, len as nat)
                &&& r == IoOutcome::Done(len as i64)
            },
            forall|n: usize| old(self).spec_file_of(fd) == Some(FileObj::PipeWrite(n)) && n < old(self).pipes@.len()
                && r != IoOutcome::Done(-1i64) && r != IoOutcome::Blocked ==> {
                let pt = old(self).task(old(self).current.unwrap() as int).memory_set.page_table;
                let data = spec_user_bytes(pt, old(self).frames, buf as int, len as nat);
                exists|k: int| 0 <= k <= len && r == IoOutcome::Done(k as i64)
                    && final(self).pipes@[n as int].buffer@ == old(self).pipes@[n as int].buffer@ + data.subrange(0, k)
            },
            r == IoOutcome::Blocked ==> *final(self) == *old(self),
            old(self).spec_file_of(fd).is_some() && old(self).spec_writable(old(self).spec_file_of(fd).unwrap())
                && buf as int + len as int <= u64::MAX
                && !spec_user_range_ok(old(self).task(old(self).current.unwrap() as int).memory_set.page_table,
                    old(self).frames, buf as int, len as int) ==> r == IoOutcome::Done(-1i64) && *final(self) == *old(self),
            old(self).spec_file_of(fd) == Some(FileObj::Stdout) && buf as int + len as int <= u64::MAX
                && spec_user_range_ok(old(self).task(old(self).current.unwrap() as int).memory_set.page_table,
                    old(self).frames, buf as int, len as int) ==> r == IoOutcome::Done(len as i64),
            forall|n: usize| old(self).spec_file_of(fd) == Some(FileObj::Inode(n)) && n < old(self).files@.len()
                && old(self).files@[n as int].writable && buf as int + len as int <= u64::MAX
                && spec_user_range_ok(old(self).task(old(self).current.unwrap() as int).memory_set.page_table,
                    old(self).frames, buf as int, len as int) ==> *final(self) == *old(self)
                && r == (IoOutcome::FileWrite { file: n, inode: old(self).files@[n as int].inode,
                    offset: old(self).files@[n as int].offset,
                    data: r->FileWrite_data })
                && r->FileWrite_data@ == spec_user_bytes(old(self).task(old(self).current.unwrap() as int).memory_set.page_table,
                    old(self).frames, buf as int, len as nat),
            forall|n: usize| old(self).spec_file_of(fd) == Some(FileObj::PipeWrite(n)) && n < old(self).pipes@.len()
                && buf as int + len as int <= u64::MAX
                && spec_user_range_ok(old(self).task(old(self).current.unwrap() as int).memory_set.page_table,
                    old(self).frames, buf as int, len as int) ==> {
                let room = crate::config::RING_BUFFER_SIZE - old(self).pipes@[n as int].buffer@.len();
                &&& room == 0 && old(self).pipes@[n as int].read_ends != 0 ==> r == IoOutcome::Blocked
                &&& room == 0 && old(self).pipes@[n as int].read_ends == 0 ==> r == IoOutcome::Done(0i64)
                &&& room > 0 ==> r == IoOutcome::Done((if len < room { len as int } else { room }) as i64)
            },
    {
        let f = match self.file_of(fd) {
            Some(f) => f,
            None => {
                return IoOutcome::Done(-1i64);
            }
        };
        let pid = self.current.unwrap();
        let writable = match f {
            FileObj::Stdout => true,
            FileObj::PipeWrite(_) => true,
            FileObj::Inode(n) => n < self.files.len() && self.files[n].writable,
            _ => false,
        };
        if !writable || buf > u64::MAX - len {
            return IoOutcome::Done(-1i64);
        }
        let data = match read_user_bytes(&self.tasks[pid].as_ref().unwrap().memory_set.page_table, &self.frames, buf, len) {
            Some(d) => d,
            None => {
                return IoOutcome::Done(-1i64);
            }
        };
        match f {
            FileObj::Stdout => {
                let mut d = data;
                self.console_out.append(&mut d);
                proof {
                    lemma_same_tasks(*old(self), *self);
                    if len > 0 {
                        let pt = old(self).task(pid as int).memory_set.page_table;
                        let va = buf as int + (len as int - 1);
                        assert(crate::page_table::spec_user_byte(pt, old(self).frames, buf + (len - 1)).is_some());
                        assert(crate::page_table::spec_user_byte(pt, old(self).frames, va).is_some());
                        assert(0 <= va < crate::config::VPN_LIMIT * crate::config::PAGE_SIZE);
                        assert((len as int) <= 0x80_0000_0000int);
                    }
                    assert((len as int) <= 0x80_0000_0000int);
                    assert(len as i64 != -1i64);
                }
                IoOutcome::Done(len as i64)
            }
            FileObj::PipeWrite(n) => {
                if n >= self.pipes.len() {
                    return IoOutcome::Done(-1i64);
                }
                if self.pipes[n].available_write() == 0 {
                    if self.pipes[n].all_read_ends_closed() {
                        proof {
                            let pt = old(self).task(pid as int).memory_set.page_table;
                            let dd = spec_user_bytes(pt, old(self).frames, buf as int, len as nat);
                            assert(old(self).pipes@[n as int].buffer@ + dd.subrange(0, 0) =~= old(self).pipes@[n as int].buffer@);
                        }
                        return IoOutcome::Done(0);
                    }
                    return IoOutcome::Blocked;
                }
                let ghost k0 = *self;
                let written = self.pipes[n].write_bytes(data.as_slice());
                proof {
                    assert forall|i: int| 0 <= i < self.pipes@.len() implies (#[trigger] self.pipes@[i]).wf() by {
                        if i != n {
                            assert(self.pipes@[i] == k0.pipes@[i]);
                        }
                    }
                    lemma_same_tasks(*old(self), *self);
                }
                IoOutcome::Done(written as i64)
            }
            FileObj::Inode(n) => {
                IoOutcome::FileWrite { file: n, inode: self.files[n].inode, offset: self.files[n].offset, data }
            }
            _ => IoOutcome::Done(-1i64),
        }
    }

    /// Reads up to `len` bytes from descriptor `fd` of the current task into
    /// user address `buf`. The console gives one byte at a time and waits
    /// while none has arrived; any other length kills the task (0 gives 0).
    /// A pipe gives what it holds, up to `len`, and waits while it is empty
    /// unless no writer is left, which gives 0. On a file the caller is
    /// asked to read. -1 when no task runs, `fd` is not open for reading,
    /// or the buffer cannot be written.
    pub fn sys_read(&mut self, fd: usize, buf: u64, len: u64) -> (r: IoOutcome)
        requires
            old(self).wf(),
        ensures
            final(self).wf(),
            (old(self).spec_file_of(fd).is_none() || !old(self).spec_readable(old(self).spec_file_of(fd).unwrap())
                || buf as int + len as int > u64::MAX) ==> r == IoOutcome::Done(-1i64) && *final(self) == *old(self),
            forall|n: usize| old(self).spec_file_of(fd) == Some(FileObj::PipeRead(n)) && n < old(self).pipes@.len()
                && r != IoOutcome::Done(-1i64) && r != IoOutcome::Blocked ==> {
                let pt = old(self).task(old(self).current.unwrap() as int).memory_set.page_table;
                let old_buf = old(self).pipes@[n as int].buffer@;
                exists|k: int| k == (if len < old_buf.len() { len as int } else { old_buf.len() as int })
                    && r == IoOutcome::Done(k as i64)
                    && final(self).pipes@[n as int].buffer@ == old_buf.subrange(k, old_buf.len() as int)
                    && (k == 0 <==> old_buf.len() == 0 || len == 0)
                    && (crate::page_table::spec_no_alias(pt, buf as int, k) ==>
                        spec_user_bytes(pt, final(self).frames, buf as int, k as nat) == old_buf.subrange(0, k))
            },
            forall|n: usize| old(self).spec_file_of(fd) == Some(FileObj::PipeRead(n)) && n < old(self).pipes@.len()
                && len > 0 && old(self).pipes@[n as int].buffer@.len() == 0 && buf as int + len as int <= u64::MAX ==>
                (old(self).pipes@[n as int].write_ends == 0 ==> r == IoOutcome::Done(0i64))
                && (old(self).pipes@[n as int].write_ends != 0 ==> r == IoOutcome::Blocked),
            old(self).spec_file_of(fd) == Some(FileObj::Stdin) && len == 1 && old(self).console_in@.len() == 0
                && buf < u64::MAX ==> r == IoOutcome::Blocked,
            old(self).spec_file_of(fd) == Some(FileObj::Stdin) && len > 1 && buf as int + len as int <= u64::MAX
                ==> r == IoOutcome::Killed,
            old(self).spec_file_of(fd) == Some(FileObj::Stdin) && r == IoOutcome::Done(1i64) ==> {
                let pt = old(self).task(old(self).current.unwrap() as int).memory_set.page_table;
                &&& old(self).console_in@.len() > 0
                &&& final(self).console_in@ == old(self).console_in@.subrange(1, old(self).console_in@.len() as int)
                &&& spec_user_bytes(pt, final(self).frames, buf as int, 1) == seq![old(self).console_in@[0]]
            },
            r == IoOutcome::Blocked ==> *final(self) == *old(self),
            forall|n: usize| old(self).spec_file_of(fd) == Some(FileObj::PipeRead(n)) && n < old(self).pipes@.len()
                && buf as int + len as int <= u64::MAX && len > 0 && old(self).pipes@[n as int].buffer@.len() > 0
                && spec_user_range_ok(old(self).task(old(self).current.unwrap() as int).memory_set.page_table,
                    old(self).frames, buf as int,
                    if len < old(self).pipes@[n as int].buffer@.len() { len as int } else { old(self).pipes@[n as int].buffer@.len() as int })
                ==> r != IoOutcome::Done(-1i64) && r != IoOutcome::Blocked,
            old(self).spec_file_of(fd) == Some(FileObj::Stdin) && len == 1 && old(self).console_in@.len() > 0
                && buf < u64::MAX
                && spec_user_range_ok(old(self).task(old(self).current.unwrap() as int).memory_set.page_table,
                    old(self).frames, buf as int, 1) ==> r == IoOutcome::Done(1i64),
            r == IoOutcome::Done(0i64) || r == IoOutcome::Done(-1i64) ==> *final(self) == *old(self),
            forall|n: usize| old(self).spec_file_of(fd) == Some(FileObj::Inode(n)) && n < old(self).files@.len()
                && old(self).files@[n as int].readable && buf as int + len as int <= u64::MAX
                ==> *final(self) == *old(self) && r == (IoOutcome::FileRead { file: n, inode: old(self).files@[n as int].inode,
                    offset: old(self).files@[n as int].offset, buf, len }),
            r == IoOutcome::Killed ==> old(self).current.is_some()
                && final(self).task(old(self).current.unwrap() as int).task_status == crate::task::TaskStatus::Zombie
                && final(self).task(old(self).current.unwrap() as int).exit_code == -9,
    {
        let f = match self.file_of(fd) {
            Some(f) => f,
            None => {
                return IoOutcome::Done(-1i64);
            }
        };
        let pid = self.current.unwrap();
        let readable = match f {
            FileObj::Stdin => true,
            FileObj::PipeRead(_) => true,
            FileObj::Inode(n) => n < self.files.len() && self.files[n].readable,
            _ => false,
        };
        if !readable || buf > u64::MAX - len {
            return IoOutcome::Done(-1i64);
        }
        match f {
            FileObj::Stdin => {
                if len == 0 {
                    return IoOutcome::Done(0);
                }
                if len != 1 {
                    self.exit_current_and_run_next(-9);
                    return IoOutcome::Killed;
                }
                if self.console_in.len() == 0 {
                    return IoOutcome::Blocked;
                }
                let c = vec![self.console_in[0]];
                assert(c@ =~= seq![old(self).console_in@[0]]);
                let ghost k0 = *self;
                if !write_user_bytes(&self.tasks[pid].as_ref().unwrap().memory_set.page_table, &mut self.frames, buf, c.as_slice()) {
                    return IoOutcome::Done(-1i64);
                }
                self.console_in.remove(0);
                proof {
                    lemma_same_tasks(k0, *self);
                    let pt = old(self).task(pid as int).memory_set.page_table;
                    assert(crate::page_table::spec_no_alias(pt, buf as int, 1));
                    assert(self.console_in@ =~= old(self).console_in@.subrange(1, old(self).console_in@.len() as int));
                }
                IoOutcome::Done(1)
            }
            FileObj::PipeRead(n) => {
                if n >= self.pipes.len() {
                    return IoOutcome::Done(-1i64);
                }
                if self.pipes[n].available_read() == 0 || len == 0 {
                    proof {
                        let pt = old(self).task(pid as int).memory_set.page_table;
                        let ob = old(self).pipes@[n as int].buffer@;
                        assert(ob.subrange(0, ob.len() as int) =~= ob);
                        assert(spec_user_bytes(pt, self.frames, buf as int, 0) =~= ob.subrange(0, 0));
                    }
                    if len == 0 {
                        return IoOutcome::Done(0);
                    }
                    if self.pipes[n].all_write_ends_closed() {
                        return IoOutcome::Done(0);
                    }
                    return IoOutcome::Blocked;
                }
                let avail = self.pipes[n].available_read() as u64;
                let k = if len < avail { len } else { avail };
                if read_user_bytes(&self.tasks[pid].as_ref().unwrap().memory_set.page_table, &self.frames, buf, k).is_none() {
                    return IoOutcome::Done(-1i64);
                }
                let ghost k0 = *self;
                let bytes = self.pipes[n].read_bytes(k as usize);
                let ok = write_user_bytes(&self.tasks[pid].as_ref().unwrap().memory_set.page_table, &mut self.frames, buf, bytes.as_slice());
                proof {
                    let pt = k0.task(pid as int).memory_set.page_table;
                    assert forall|i: int| 0 <= i < k implies (#[trigger] crate::page_table::spec_user_byte(pt, self.frames, buf + i)).is_some() by {}
                    assert(ok);
                    assert forall|i: int| 0 <= i < self.pipes@.len() implies (#[trigger] self.pipes@[i]).wf() by {
                        if i != n {
                            assert(self.pipes@[i] == k0.pipes@[i]);
                        }
                    }
                    lemma_same_tasks(*old(self), *self);
                }
                IoOutcome::Done(k as i64)
            }
            FileObj::Inode(n) => {
                IoOutcome::FileRead { file: n, inode: self.files[n].inode, offset: self.files[n].offset, buf, len }
            }
            _ => IoOutcome::Done(-1i64),
        }
    }
}

} // verus!

verus! {

impl Kernel {
    /// Finishes a file read: writes `data`, the bytes the file system gave
    /// for request `file` at user address `buf`, and advances the file's
    /// offset by their number, which is returned; -1 when no task runs,
    /// there is no such file, or the bytes cannot be written.
    pub fn complete_file_read(&mut self, file: usize, buf: u64, data: &[u8]) -> (r: i64)
        requires
            old(self).wf(),
        ensures
            final(self).wf(),
            final(self).current == old(self).current,
            r == -1 || r == data@.len(),
            r != -1 ==> file < old(self).files@.len()
                && final(self).files@[file as int].offset == old(self).files@[file as int].offset + data@.len(),
            r == -1 ==> *final(self) == *old(self),
            (old(self).current.is_some() && file < old(self).files@.len() && buf as int + data@.len() <= u64::MAX
                && old(self).files@[file as int].offset + data@.len() <= u64::MAX
                && spec_user_range_ok(old(self).task(old(self).current.unwrap() as int).memory_set.page_table,
                    old(self).frames, buf as int, data@.len() as int)) <==> r != -1,
            r != -1 && crate::page_table::spec_no_alias(old(self).task(old(self).current.unwrap() as int).memory_set.page_table,
                buf as int, data@.len() as int) ==> spec_user_bytes(
                    old(self).task(old(self).current.unwrap() as int).memory_set.page_table,
                    final(self).frames, buf as int, data@.len()) == data@,
    {
        let pid = match self.current {
            Some(p) => p,
            None => {
                return -1;
            }
        };
        if file >= self.files.len() || buf as u128 + data.len() as u128 > u64::MAX as u128
            || self.files[file].offset as u128 + data.len() as u128 > u64::MAX as u128 {
            return -1;
        }
        let ghost k0 = *self;
        if !write_user_bytes(&self.tasks[pid].as_ref().unwrap().memory_set.page_table, &mut self.frames, buf, data) {
            return -1;
        }
        proof {
            let len = data@.len() as int;
            if len > 0 {
                let pt = old(self).task(pid as int).memory_set.page_table;
                let va = buf as int + (len - 1);
                assert(crate::page_table::spec_user_byte(pt, old(self).frames, buf + (len - 1)).is_some());
                assert(crate::page_table::spec_user_byte(pt, old(self).frames, va).is_some());
                assert(0 <= va < crate::config::VPN_LIMIT * crate::config::PAGE_SIZE);
            }
            assert(len <= 0x80_0000_0000int);
        }
        self.files[file].offset = self.files[file].offset + data.len() as u64;
        proof {
            lemma_same_tasks(k0, *self);
        }
        data.len() as i64
    }

    /// Finishes a file write of `written` bytes to file `file`: advances
    /// its offset and returns the count; -1 when there is no such file.
    pub fn complete_file_write(&mut self, file: usize, written: u64) -> (r: i64)
        requires
            old(self).wf(),
        ensures
            final(self).wf(),
            final(self).current == old(self).current,
            r == -1 || r == written,
            r != -1 ==> file < old(self).files@.len()
                && final(self).files@[file as int].offset == old(self).files@[file as int].offset + written,
            r == -1 ==> *final(self) == *old(self),
            (file < old(self).files@.len() && old(self).files@[file as int].offset + written <= u64::MAX
                && written <= i64::MAX) <==> r != -1,
    {
        if file >= self.files.len() || self.files[file].offset as u128 + written as u128 > u64::MAX as u128
            || written > 0x7fff_ffff_ffff_ffff {
            return -1;
        }
        self.files[file].offset = self.files[file].offset + written;
        proof {
            lemma_same_tasks(*old(self), *self);
        }
        written as i64
    }
}

} // verus!
