//! Physical frames: a stack allocator over a contiguous range of physical
//! page numbers, together with the contents of the frames it has handed out.

use vstd::prelude::*;
use crate::config::{PAGE_SIZE, PPN_LIMIT};

verus! {

/// A page of zero bytes.
pub open spec fn zero_page() -> Seq<u8> {
    Seq::new(PAGE_SIZE as nat, |i: int| 0u8)
}

/// Owns the physical frames `[start, end)`. Frames below `current` have
/// been handed out at least once; those in `recycled` are free again.
pub struct FrameAllocator {
    pub start: u64,
    pub current: u64,
    pub end: u64,
    pub recycled: Vec<u64>,
    /// Contents of frame `start + i`, for every frame below `current`.
    pub mem: Vec<Vec<u8>>,
}

impl FrameAllocator {
    pub open spec fn wf(&self) -> bool {
        &&& self.start <= self.current <= self.end
        &&& self.end < PPN_LIMIT
        &&& self.mem@.len() == self.current - self.start
        &&& forall|i: int| 0 <= i < self.mem@.len() ==> #[trigger] self.mem@[i]@.len() == PAGE_SIZE
        &&& forall|i: int| 0 <= i < self.recycled@.len() ==>
                self.start <= #[trigger] self.recycled@[i] < self.current
        &&& forall|i: int, j: int| 0 <= i < j < self.recycled@.len() ==>
                self.recycled@[i] != self.recycled@[j]
    }

    /// The frames that are handed out and not yet returned.
    pub open spec fn out(&self) -> Set<u64> {
        Set::new(|p: u64| self.start <= p < self.current && !self.recycled@.contains(p))
    }

    /// Number of frames handed out and not yet returned.
    pub open spec fn out_count(&self) -> int {
        (self.current - self.start) - self.recycled@.len()
    }

    /// Number of frames that can still be handed out.
    pub open spec fn free_count(&self) -> int {
        self.recycled@.len() + (self.end - self.current)
    }

    /// `true` when frame `p` holds a page of contents.
    pub open spec fn backed(&self, p: u64) -> bool {
        self.start <= p < self.current
    }

    /// Contents of frame `p`.
    pub open spec fn page(&self, p: u64) -> Seq<u8> {
        self.mem@[p - self.start]@
    }

    /// An allocator over the frames `[start, end)`, none of them handed out.
    pub fn new(start: u64, end: u64) -> (r: Self)
        requires
            start <= end < PPN_LIMIT,
        ensures
            r.wf(),
            r.start == start,
            r.end == end,
            r.out() == Set::<u64>::empty(),
            r.out_count() == 0,
            r.free_count() == end - start,
    {
        let r = FrameAllocator { start, current: start, end, recycled: Vec::new(), mem: Vec::new() };
        assert(r.out() =~= Set::<u64>::empty());
        r
    }

    /// Hands out a free frame with zeroed contents: the most recently
    /// returned one if any, else the next never-used one. `None` when every
    /// frame is out.
    pub fn alloc_frame(&mut self) -> (r: Option<u64>)
        requires
            old(self).wf(),
        ensures
            final(self).wf(),
            final(self).start == old(self).start,
            final(self).end == old(self).end,
            r.is_none() <==> (old(self).recycled@.len() == 0 && old(self).current == old(self).end),
            r.is_none() ==> final(self).out() == old(self).out() && final(self).free_count() == old(self).free_count(),
            r.is_none() <==> old(self).free_count() == 0,
            r.is_some() ==> final(self).free_count() == old(self).free_count() - 1,
            final(self).current >= old(self).current,
            forall|q: u64| #[trigger] old(self).out().contains(q) ==> final(self).page(q) == old(self).page(q),
            r.is_some() ==> {
                let p = r.unwrap();
                &&& !old(self).out().contains(p)
                &&& final(self).out() == old(self).out().insert(p)
                &&& final(self).out_count() == old(self).out_count() + 1
                &&& final(self).page(p) == zero_page()
                &&& final(self).backed(p)
                &&& old(self).recycled@.len() > 0 ==> p == old(self).recycled@.last()
                &&& forall|q: u64| #[trigger] old(self).backed(q) && q != p
                        ==> final(self).backed(q) && final(self).page(q) == old(self).page(q)
            },
    {
        if self.recycled.len() > 0 {
            let p = self.recycled.pop().unwrap();
            proof {
                let rs = old(self).recycled@;
                assert(rs.drop_last() == self.recycled@);
                assert forall|k: int| 0 <= k < self.recycled@.len() implies self.recycled@[k] != p by {
                    assert(rs[k] != rs[rs.len() - 1]);
                }
                assert(!self.recycled@.contains(p));
                assert(self.out() =~= old(self).out().insert(p)) by {
                    assert forall|q: u64| self.out().contains(q) implies old(self).out().insert(q).contains(q) by {}
                    assert forall|q: u64| #[trigger] old(self).out().insert(p).contains(q) implies self.out().contains(q) by {
                        if q != p {
                            assert(!rs.contains(q));
                        }
                    }
                    assert forall|q: u64| #[trigger] self.out().contains(q) implies old(self).out().insert(p).contains(q) by {
                        if q != p && rs.contains(q) {
                            let k = choose|k: int| 0 <= k < rs.len() && rs[k] == q;
                            assert(k != rs.len() - 1);
                            assert(self.recycled@[k] == q);
                        }
                    }
                }
            }
            let idx = self.index_of(p);
            self.mem.set(idx, vec![0u8; PAGE_SIZE as usize]);
            proof {
                assert(self.page(p) =~= zero_page());
                assert forall|q: u64| #[trigger] old(self).out().contains(q) implies self.page(q) == old(self).page(q) by {
                    assert(q != p);
                    assert(self.mem@[q - self.start] == old(self).mem@[q - self.start]);
                }
            }
            Some(p)
        } else if self.current < self.end {
            let p = self.current;
            self.current = self.current + 1;
            self.mem.push(vec![0u8; PAGE_SIZE as usize]);
            proof {
                assert(self.page(p) =~= zero_page());
                assert(self.out() =~= old(self).out().insert(p));
                assert forall|q: u64| #[trigger] old(self).backed(q) && q != p
                    implies self.backed(q) && self.page(q) == old(self).page(q) by {
                    assert(self.mem@[q - self.start] == old(self).mem@[q - self.start]);
                }
                assert forall|q: u64| #[trigger] old(self).out().contains(q) implies self.page(q) == old(self).page(q) by {
                    assert(self.mem@[q - self.start] == old(self).mem@[q - self.start]);
                }
            }
            Some(p)
        } else {
            None
        }
    }

    /// Returns frame `ppn`, which must be out.
    pub fn dealloc(&mut self, ppn: u64)
        requires
            old(self).wf(),
            old(self).out().contains(ppn),
        ensures
            final(self).wf(),
            final(self).start == old(self).start,
            final(self).end == old(self).end,
            final(self).current == old(self).current,
            final(self).mem == old(self).mem,
            final(self).out() == old(self).out().remove(ppn),
            final(self).out_count() == old(self).out_count() - 1,
            final(self).free_count() == old(self).free_count() + 1,
    {
        self.recycled.push(ppn);
        proof {
            let rs = old(self).recycled@;
            assert(self.recycled@ == rs.push(ppn));
            assert forall|i: int, j: int| 0 <= i < j < self.recycled@.len()
                implies self.recycled@[i] != self.recycled@[j] by {
                if j == rs.len() as int {
                    assert(rs[i] == self.recycled@[i]);
                    assert(rs.contains(rs[i]));
                }
            }
            assert(self.out() =~= old(self).out().remove(ppn)) by {
                assert(self.recycled@[rs.len() as int] == ppn);
                assert forall|q: u64| #[trigger] self.out().contains(q) implies old(self).out().remove(ppn).contains(q) by {
                    if rs.contains(q) {
                        let k = choose|k: int| 0 <= k < rs.len() && rs[k] == q;
                        assert(self.recycled@[k] == q);
                    }
                }
                assert forall|q: u64| #[trigger] old(self).out().remove(ppn).contains(q) implies self.out().contains(q) by {
                    if self.recycled@.contains(q) {
                        let k = choose|k: int| 0 <= k < self.recycled@.len() && self.recycled@[k] == q;
                        if k < rs.len() {
                            assert(rs[k] == q);
                        }
                    }
                }
            }
        }
    }

    /// Every frame is either out or free.
    pub proof fn lemma_frames_conserved(&self)
        requires
            self.wf(),
        ensures
            self.out_count() + self.free_count() == self.end - self.start,
    {
    }

    /// Position of frame `p` in `mem`.
    fn index_of(&self, p: u64) -> (r: usize)
        requires
            self.wf(),
            self.backed(p),
        ensures
            r == p - self.start,
            r < self.mem@.len(),
    {
        let n = self.mem.len();
        assert((p - self.start) < n);
        (p - self.start) as usize
    }

    /// `true` when frame `p` is out.
    pub fn is_out(&self, p: u64) -> (r: bool)
        requires
            self.wf(),
        ensures
            r == self.out().contains(p),
    {
        if p < self.start || p >= self.current {
            return false;
        }
        let mut i: usize = 0;
        while i < self.recycled.len()
            invariant
                i <= self.recycled@.len(),
                forall|k: int| 0 <= k < i ==> self.recycled@[k] != p,
            decreases self.recycled@.len() - i,
        {
            if self.recycled[i] == p {
                return false;
            }
            i += 1;
        }
        true
    }

    /// `true` when frame `p` holds contents.
    pub fn is_backed(&self, p: u64) -> (r: bool)
        ensures
            r == self.backed(p),
    {
        self.start <= p && p < self.current
    }

    /// Returns frame `p` when it is out; `false`, with nothing changed,
    /// when it is not.
    pub fn free_frame(&mut self, p: u64) -> (r: bool)
        requires
            old(self).wf(),
        ensures
            final(self).wf(),
            r == old(self).out().contains(p),
            final(self).start == old(self).start,
            final(self).end == old(self).end,
            final(self).current == old(self).current,
            final(self).mem == old(self).mem,
            r ==> final(self).out() == old(self).out().remove(p),
            r ==> final(self).out_count() == old(self).out_count() - 1,
            r ==> final(self).free_count() == old(self).free_count() + 1,
            !r ==> *final(self) == *old(self),
    {
        if self.is_out(p) {
            self.dealloc(p);
            true
        } else {
            false
        }
    }

    /// Byte `off` of frame `ppn`.
    pub fn read_byte(&self, ppn: u64, off: u64) -> (r: u8)
        requires
            self.wf(),
            self.backed(ppn),
            off < PAGE_SIZE,
        ensures
            r == self.page(ppn)[off as int],
    {
        let idx = self.index_of(ppn);
        self.mem[idx][off as usize]
    }

    /// Writes byte `b` at offset `off` of frame `ppn`.
    pub fn write_byte(&mut self, ppn: u64, off: u64, b: u8)
        requires
            old(self).wf(),
            old(self).backed(ppn),
            off < PAGE_SIZE,
        ensures
            final(self).wf(),
            final(self).start == old(self).start,
            final(self).current == old(self).current,
            final(self).end == old(self).end,
            final(self).recycled == old(self).recycled,
            final(self).out() == old(self).out(),
            final(self).page(ppn) == old(self).page(ppn).update(off as int, b),
            forall|q: u64| q != ppn && old(self).backed(q) ==> #[trigger] final(self).page(q) == old(self).page(q),
    {
        let idx = self.index_of(ppn);
        let mut page = Vec::new();
        std::mem::swap(&mut page, &mut self.mem[idx]);
        page.set(off as usize, b);
        self.mem.set(idx, page);
        proof {
            assert forall|q: u64| q != ppn && old(self).backed(q) implies #[trigger] self.page(q) == old(self).page(q) by {
                {
                    assert(self.mem@[q - self.start] == old(self).mem@[q - self.start]);
                }
            }
        }
    }

    /// Copies the whole contents of frame `src` into frame `dst`.
    pub fn copy_page(&mut self, src: u64, dst: u64)
        requires
            old(self).wf(),
            old(self).backed(src),
            old(self).backed(dst),
        ensures
            final(self).wf(),
            final(self).start == old(self).start,
            final(self).current == old(self).current,
            final(self).end == old(self).end,
            final(self).recycled == old(self).recycled,
            final(self).out() == old(self).out(),
            final(self).page(dst) == old(self).page(src),
            forall|q: u64| q != dst && old(self).backed(q) ==> #[trigger] final(self).page(q) == old(self).page(q),
    {
        let si = self.index_of(src);
        let di = self.index_of(dst);
        let page = self.mem[si].clone();
        self.mem.set(di, page);
        proof {
            assert(self.page(dst) =~= old(self).page(src));
            assert forall|q: u64| q != dst && old(self).backed(q) implies #[trigger] self.page(q) == old(self).page(q) by {
                {
                    assert(self.mem@[q - self.start] == old(self).mem@[q - self.start]);
                }
            }
        }
    }
}

} // verus!
