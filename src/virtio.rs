//! Memory for the block device's request queues: runs of physically
//! contiguous frames handed to the device driver.

use vstd::prelude::*;
use crate::config::{PAGE_SIZE, PPN_LIMIT};
use crate::frame_allocator::FrameAllocator;

verus! {

/// Frames that the block device's queues hold.
pub struct VirtioHal {
    pub queue_frames: Vec<u64>,
}

impl VirtioHal {
    /// A device that holds no frames.
    pub fn new() -> (r: Self)
        ensures
            r.queue_frames@.len() == 0,
    {
        VirtioHal { queue_frames: Vec::new() }
    }

    /// Allocates `pages` frames that must be consecutive, keeps them for the
    /// device, and returns the physical address of the first. `None` when
    /// frames run out or the frames handed out are not consecutive; the
    /// frames taken so far stay with the device.
    pub fn dma_alloc(&mut self, fa: &mut FrameAllocator, pages: u64) -> (r: Option<u64>)
        requires
            old(fa).wf(),
            pages > 0,
        ensures
            final(fa).wf(),
            final(fa).start == old(fa).start,
            final(fa).end == old(fa).end,
            final(self).queue_frames@.subrange(0, old(self).queue_frames@.len() as int) == old(self).queue_frames@,
            forall|p: u64| #[trigger] old(fa).out().contains(p) ==> final(fa).out().contains(p),
            r.is_some() ==> {
                let base = final(self).queue_frames@[old(self).queue_frames@.len() as int];
                &&& final(self).queue_frames@.len() == old(self).queue_frames@.len() + pages
                &&& r.unwrap() == base * PAGE_SIZE
                &&& forall|i: int| 0 <= i < pages ==>
                        #[trigger] final(self).queue_frames@[old(self).queue_frames@.len() + i] == base + i
                        && final(fa).out().contains((base + i) as u64)
                        && !old(fa).out().contains((base + i) as u64)
            },
    {
        let n0 = self.queue_frames.len();
        let mut base: u64 = 0;
        let mut i: u64 = 0;
        while i < pages
            invariant
                fa.wf(),
                fa.start == old(fa).start,
                fa.end == old(fa).end,
                i <= pages,
                n0 == old(self).queue_frames@.len(),
                self.queue_frames@.len() == n0 + i,
                self.queue_frames@.subrange(0, n0 as int) == old(self).queue_frames@,
                forall|p: u64| #[trigger] old(fa).out().contains(p) ==> fa.out().contains(p),
                i > 0 ==> base == self.queue_frames@[n0 as int],
                forall|j: int| 0 <= j < i ==> #[trigger] self.queue_frames@[n0 + j] == base + j
                    && fa.out().contains((base + j) as u64)
                    && !old(fa).out().contains((base + j) as u64),
                base < PPN_LIMIT,
            decreases pages - i,
        {
            let ghost fa0 = *fa;
            let f = match fa.alloc_frame() {
                Some(f) => f,
                None => {
                    return None;
                }
            };
            if i == 0 {
                base = f;
            }
            let ghost qf0 = self.queue_frames@;
            self.queue_frames.push(f);
            proof {
                assert(self.queue_frames@.subrange(0, n0 as int) =~= qf0.subrange(0, n0 as int));
            }
            if f as u128 != base as u128 + i as u128 {
                return None;
            }
            proof {
                assert forall|j: int| 0 <= j < i + 1 implies #[trigger] self.queue_frames@[n0 + j] == base + j
                    && fa.out().contains((base + j) as u64)
                    && !old(fa).out().contains((base + j) as u64) by {
                    if j < i {
                        assert(self.queue_frames@[n0 + j] == qf0[n0 + j]);
                        assert(fa0.out().contains((base + j) as u64));
                    }
                }
            }
            i = i + 1;
        }
        Some(base * PAGE_SIZE)
    }

    /// Returns the `pages` frames that start at physical address `pa`
    /// and stops holding them; returns 0.
    pub fn dma_dealloc(&mut self, fa: &mut FrameAllocator, pa: u64, pages: u64) -> (r: i32)
        requires
            old(fa).wf(),
            pa / PAGE_SIZE + pages <= u64::MAX,
        ensures
            final(fa).wf(),
            final(fa).start == old(fa).start,
            final(fa).end == old(fa).end,
            r == 0,
            forall|i: int| 0 <= i < pages ==> !final(fa).out().contains(#[trigger] ((pa / PAGE_SIZE + i) as u64)),
            forall|i: int| 0 <= i < pages ==> !final(self).queue_frames@.contains(#[trigger] ((pa / PAGE_SIZE + i) as u64)),
            forall|q: u64| #[trigger] final(self).queue_frames@.contains(q) ==> old(self).queue_frames@.contains(q),
            (forall|i: int| 0 <= i < pages ==> old(fa).out().contains(#[trigger] ((pa / PAGE_SIZE + i) as u64)))
                ==> final(fa).out_count() == old(fa).out_count() - pages,
    {
        let base = pa / PAGE_SIZE;
        let mut i: u64 = 0;
        while i < pages
            invariant
                fa.wf(),
                fa.start == old(fa).start,
                fa.end == old(fa).end,
                base == pa / PAGE_SIZE,
                base + pages <= u64::MAX,
                i <= pages,
                forall|j: int| 0 <= j < i ==> !fa.out().contains(#[trigger] ((base + j) as u64)),
                forall|j: int| 0 <= j < i ==> !self.queue_frames@.contains(#[trigger] ((base + j) as u64)),
                forall|q: u64| #[trigger] self.queue_frames@.contains(q) ==> old(self).queue_frames@.contains(q),
                (forall|j: int| 0 <= j < pages ==> old(fa).out().contains(#[trigger] ((base + j) as u64))) ==> {
                    &&& fa.out_count() == old(fa).out_count() - i
                    &&& forall|j: int| i <= j < pages ==> fa.out().contains(#[trigger] ((base + j) as u64))
                },
            decreases pages - i,
        {
            let ghost fa0 = *fa;
            let f = base + i;
            fa.free_frame(f);
            remove_value(&mut self.queue_frames, f);
            proof {
                if forall|j: int| 0 <= j < pages ==> old(fa).out().contains(#[trigger] ((base + j) as u64)) {
                    assert(fa0.out().contains(f));
                    assert forall|j: int| i + 1 <= j < pages implies fa.out().contains(#[trigger] ((base + j) as u64)) by {
                        assert(fa0.out().contains((base + j) as u64));
                    }
                }
                assert forall|j: int| 0 <= j < i + 1 implies !fa.out().contains(#[trigger] ((base + j) as u64)) by {
                    if j < i {
                        assert(!fa0.out().contains((base + j) as u64));
                    }
                }
            }
            i = i + 1;
        }
        0
    }
}

/// Removes every occurrence of `x` from `v`.
fn remove_value(v: &mut Vec<u64>, x: u64)
    ensures
        forall|q: u64| #[trigger] final(v)@.contains(q) <==> old(v)@.contains(q) && q != x,
{
    let mut out: Vec<u64> = Vec::new();
    let mut i: usize = 0;
    while i < v.len()
        invariant
            *v == *old(v),
            i <= v@.len(),
            forall|q: u64| #[trigger] out@.contains(q) <==> v@.subrange(0, i as int).contains(q) && q != x,
        decreases v@.len() - i,
    {
        let y = v[i];
        let ghost before = out@;
        if y != x {
            out.push(y);
        }
        proof {
            let s1 = v@.subrange(0, i as int);
            let s2 = v@.subrange(0, i + 1);
            assert(s2 =~= s1.push(y));
            assert forall|q: u64| #[trigger] out@.contains(q) <==> s2.contains(q) && q != x by {
                if out@.contains(q) {
                    let k = choose|k: int| 0 <= k < out@.len() && #[trigger] out@[k] == q;
                    if k < before.len() {
                        assert(before[k] == q);
                        assert(before.contains(q));
                        let m = choose|m: int| 0 <= m < s1.len() && #[trigger] s1[m] == q;
                        assert(s2[m] == q);
                    } else {
                        assert(s2[i as int] == q);
                    }
                }
                if s2.contains(q) && q != x {
                    let m = choose|m: int| 0 <= m < s2.len() && #[trigger] s2[m] == q;
                    if m < i {
                        assert(s1[m] == q);
                        assert(before.contains(q));
                        let k = choose|k: int| 0 <= k < before.len() && #[trigger] before[k] == q;
                        assert(out@[k] == q);
                    } else {
                        assert(out@[out@.len() - 1] == q);
                    }
                }
            }
        }
        i += 1;
    }
    assert(v@.subrange(0, v@.len() as int) =~= v@);
    *v = out;
}

} // verus!
