//! Address spaces: map areas (identity-mapped or backed by frames of their
//! own) and memory sets, each a page table together with its areas.

use vstd::prelude::*;
use crate::address::{spec_ceil, spec_floor, va_ceil, va_floor};
use crate::config::{PAGE_SIZE, PPN_LIMIT, VPN_LIMIT};
use crate::frame_allocator::FrameAllocator;
use crate::page_table::{PageTable, PageTableEntry, PTE_V};

verus! {

broadcast use vstd::std_specs::hash::group_hash_axioms;

/// Area is readable.
pub const MAP_R: u8 = 2;
/// Area is writable.
pub const MAP_W: u8 = 4;
/// Area is executable.
pub const MAP_X: u8 = 8;
/// Area is reachable from user mode.
pub const MAP_U: u8 = 16;

/// How the pages of an area find their frames.
#[derive(Clone, Copy, Debug, PartialEq, Eq, Structural)]
pub enum MapType {
    /// Page `n` maps frame `n`.
    Identical,
    /// Each page maps a frame of its own, allocated when the area is mapped.
    Framed,
}

/// A range `[start, end)` of virtual page numbers mapped alike.
pub struct MapArea {
    pub start: u64,
    pub end: u64,
    /// For a framed area, once mapped: the frame of page `start + i`.
    pub frames: Vec<u64>,
    pub map_type: MapType,
    pub map_perm: u8,
}

/// The entry that maps page `vpn` to frame `ppn` with `perm` and `V`.
pub open spec fn spec_leaf(ppn: u64, perm: u8) -> PageTableEntry {
    PageTableEntry { bits: (ppn << 10u64) | ((perm | PTE_V) as u64) }
}

impl MapArea {
    pub open spec fn covers(&self, vpn: u64) -> bool {
        self.start <= vpn < self.end
    }

    /// Number of pages in the area.
    pub open spec fn pages(&self) -> int {
        self.end - self.start
    }

    /// The frame that page `vpn` of the area maps.
    pub open spec fn target(&self, vpn: u64) -> u64 {
        match self.map_type {
            MapType::Identical => vpn,
            MapType::Framed => self.frames@[vpn - self.start],
        }
    }

    /// Range is well formed and, once mapped, a framed area holds one frame
    /// per page.
    pub open spec fn wf(&self) -> bool {
        &&& self.start <= self.end <= VPN_LIMIT
        &&& self.map_type == MapType::Framed ==> self.frames@.len() == self.end - self.start
        &&& self.map_type == MapType::Identical ==> self.frames@.len() == 0
    }

    /// An unmapped area over the pages that `[start_va, end_va)` touches.
    pub fn new(start_va: u64, end_va: u64, map_type: MapType, map_perm: u8) -> (r: Self)
        ensures
            r.start == spec_floor(start_va),
            r.end == (if spec_ceil(end_va) < spec_floor(start_va) { spec_floor(start_va) } else { spec_ceil(end_va) }),
            r.frames@.len() == 0,
            r.map_type == map_type,
            r.map_perm == map_perm,
            r.start <= r.end <= VPN_LIMIT,
    {
        let start = va_floor(start_va);
        let mut end = va_ceil(end_va);
        if end < start {
            end = start;
        }
        MapArea { start, end, frames: Vec::new(), map_type, map_perm }
    }

    /// Maps page `vpn` of the area into `pt`: to frame `vpn` when identical,
    /// else to a newly allocated frame, recorded in `frames`. `false` when no
    /// frame can be had.
    pub fn map_one(&mut self, pt: &mut PageTable, vpn: u64, fa: &mut FrameAllocator) -> (ok: bool)
        requires
            old(pt).wf(),
            old(fa).wf(),
            vpn < VPN_LIMIT,
            !old(pt)@.contains_key(vpn),
            old(self).map_type == MapType::Framed ==> old(self).frames@.len() == vpn - old(self).start,
        ensures
            final(pt).wf(),
            final(fa).wf(),
            final(fa).start == old(fa).start,
            final(fa).end == old(fa).end,
            final(fa).current >= old(fa).current,
            final(pt).root_ppn == old(pt).root_ppn,
            final(self).start == old(self).start,
            final(self).end == old(self).end,
            final(self).map_type == old(self).map_type,
            final(self).map_perm == old(self).map_perm,
            forall|p: u64| #[trigger] old(fa).out().contains(p) ==> final(fa).out().contains(p),
            forall|p: u64| #[trigger] old(fa).out().contains(p) ==> final(fa).page(p) == old(fa).page(p),
            ok ==> final(pt)@ == old(pt)@.insert(vpn, spec_leaf(final(self).target(vpn), old(self).map_perm)),
            ok && old(self).map_type == MapType::Framed ==> {
                &&& final(self).frames@ == old(self).frames@.push(final(self).frames@.last())
                &&& !old(fa).out().contains(final(self).frames@.last())
                &&& final(fa).out().contains(final(self).frames@.last())
                &&& final(fa).backed(final(self).frames@.last())
            },
            ok && old(self).map_type == MapType::Identical ==> final(self).frames == old(self).frames,
            !ok ==> final(pt)@ == old(pt)@,
            old(fa).free_count() >= 3 ==> ok,
            final(pt).frames@.len() >= old(pt).frames@.len(),
            final(pt).frames@.len() <= old(pt).frames@.len() + 2,
            ok ==> final(fa).free_count() == old(fa).free_count()
                - (if old(self).map_type == MapType::Framed { 1int } else { 0int })
                - (final(pt).frames@.len() - old(pt).frames@.len()),
            final(fa).free_count() >= old(fa).free_count() - 3,
            forall|p: u64| #[trigger] final(pt).frames@.contains(p) ==> old(pt).frames@.contains(p)
                || (!old(fa).out().contains(p) && final(fa).out().contains(p)),
            ok ==> final(fa).out_count() == old(fa).out_count()
                + (if old(self).map_type == MapType::Framed { 1int } else { 0int })
                + (final(pt).frames@.len() - old(pt).frames@.len()),
    {
        proof {
            old(fa).lemma_frames_conserved();
        }
        let ppn: u64;
        match self.map_type {
            MapType::Identical => {
                ppn = vpn;
            }
            MapType::Framed => {
                match fa.alloc_frame() {
                    Some(f) => {
                        ppn = f;
                        self.frames.push(f);
                    }
                    None => {
                        return false;
                    }
                }
            }
        }
        let ghost fa1 = *fa;
        let ok = pt.map(vpn, ppn, self.map_perm, fa);
        proof {
            fa.lemma_frames_conserved();
            assert forall|p: u64| #[trigger] old(fa).out().contains(p) implies fa.out().contains(p)
                && fa.page(p) == old(fa).page(p) by {
                assert(fa1.out().contains(p));
                assert(fa1.page(p) == old(fa).page(p));
            }
            if self.map_type == MapType::Framed {
                assert(self.frames@.last() == ppn);
                assert(self.frames@ =~= old(self).frames@.push(ppn));
                assert(fa1.out().contains(ppn));
                assert(fa.out().contains(ppn));
            }
        }
        ok
    }

    /// Maps every page of the area into `pt`. `false` when frames run out;
    /// the pages mapped so far then stay mapped.
    pub fn map(&mut self, pt: &mut PageTable, fa: &mut FrameAllocator) -> (ok: bool)
        requires
            old(pt).wf(),
            old(fa).wf(),
            old(self).start <= old(self).end <= VPN_LIMIT,
            old(self).frames@.len() == 0,
            forall|v: u64| #[trigger] old(self).covers(v) ==> !old(pt)@.contains_key(v),
        ensures
            final(pt).wf(),
            final(fa).wf(),
            final(fa).start == old(fa).start,
            final(fa).end == old(fa).end,
            final(fa).current >= old(fa).current,
            final(pt).root_ppn == old(pt).root_ppn,
            final(self).start == old(self).start,
            final(self).end == old(self).end,
            final(self).map_type == old(self).map_type,
            final(self).map_perm == old(self).map_perm,
            forall|p: u64| #[trigger] old(fa).out().contains(p) ==> final(fa).out().contains(p),
            forall|p: u64| #[trigger] old(fa).out().contains(p) ==> final(fa).page(p) == old(fa).page(p),
            forall|v: u64| #[trigger] old(pt)@.contains_key(v) ==> final(pt)@.contains_key(v) && final(pt)@[v] == old(pt)@[v],
            ok ==> final(self).wf(),
            ok ==> forall|v: u64| #[trigger] final(self).covers(v) ==>
                final(pt)@.contains_key(v) && final(pt)@[v] == spec_leaf(final(self).target(v), final(self).map_perm),
            ok ==> forall|v: u64| #[trigger] final(pt)@.contains_key(v) ==> old(pt)@.contains_key(v) || final(self).covers(v),
            ok && final(self).map_type == MapType::Framed ==> forall|k: int| 0 <= k < final(self).frames@.len() ==> {
                &&& !old(fa).out().contains(#[trigger] final(self).frames@[k])
                &&& final(fa).out().contains(final(self).frames@[k])
                &&& final(fa).backed(final(self).frames@[k])
            },
            ok && final(self).map_type == MapType::Framed ==> forall|k1: int, k2: int|
                0 <= k1 < k2 < final(self).frames@.len() ==> final(self).frames@[k1] != final(self).frames@[k2],
            old(fa).free_count() >= 3 * (old(self).end - old(self).start) ==> ok,
            final(fa).free_count() >= old(fa).free_count() - 3 * (old(self).end - old(self).start),
            forall|p: u64| #[trigger] final(pt).frames@.contains(p) ==> old(pt).frames@.contains(p)
                || (!old(fa).out().contains(p) && final(fa).out().contains(p)),
    {
        let mut vpn = self.start;
        while vpn < self.end
            invariant
                pt.wf(),
                fa.wf(),
                fa.start == old(fa).start,
                fa.end == old(fa).end,
                fa.current >= old(fa).current,
                pt.root_ppn == old(pt).root_ppn,
                self.start == old(self).start,
                self.end == old(self).end,
                self.map_type == old(self).map_type,
                self.map_perm == old(self).map_perm,
                self.start <= vpn <= self.end <= VPN_LIMIT,
                self.map_type == MapType::Framed ==> self.frames@.len() == vpn - self.start,
                self.map_type == MapType::Identical ==> self.frames@.len() == 0,
                forall|v: u64| #[trigger] old(self).covers(v) ==> !old(pt)@.contains_key(v),
                forall|p: u64| #[trigger] old(fa).out().contains(p) ==> fa.out().contains(p),
                forall|p: u64| #[trigger] old(fa).out().contains(p) ==> fa.page(p) == old(fa).page(p),
                forall|v: u64| #[trigger] old(pt)@.contains_key(v) ==> pt@.contains_key(v) && pt@[v] == old(pt)@[v],
                forall|v: u64| self.start <= v < vpn ==>
                    #[trigger] pt@.contains_key(v) && pt@[v] == spec_leaf(self.target(v), self.map_perm),
                forall|v: u64| #[trigger] pt@.contains_key(v) ==> old(pt)@.contains_key(v) || (self.start <= v < vpn),
                self.map_type == MapType::Framed ==> forall|k: int| 0 <= k < self.frames@.len() ==> {
                    &&& !old(fa).out().contains(#[trigger] self.frames@[k])
                    &&& fa.out().contains(self.frames@[k])
                    &&& fa.backed(self.frames@[k])
                },
                self.map_type == MapType::Framed ==> forall|k1: int, k2: int|
                    0 <= k1 < k2 < self.frames@.len() ==> self.frames@[k1] != self.frames@[k2],
                fa.free_count() >= old(fa).free_count() - 3 * (vpn - self.start),
                forall|p: u64| #[trigger] pt.frames@.contains(p) ==> old(pt).frames@.contains(p)
                    || (!old(fa).out().contains(p) && fa.out().contains(p)),
            decreases self.end - vpn,
        {
            let ghost pt0 = *pt;
            let ghost fa0 = *fa;
            let ghost frames0 = self.frames@;
            assert(old(self).covers(vpn));
            if !self.map_one(pt, vpn, fa) {
                assert(fa0.free_count() < 3);
                return false;
            }
            proof {
                assert forall|v: u64| self.start <= v < vpn + 1 implies
                    #[trigger] pt@.contains_key(v) && pt@[v] == spec_leaf(self.target(v), self.map_perm) by {
                    if v < vpn {
                        assert(pt0@.contains_key(v));
                        if self.map_type == MapType::Framed {
                            assert(self.frames@[v - self.start] == frames0[v - self.start]);
                        }
                    }
                }
                if self.map_type == MapType::Framed {
                    assert forall|k: int| 0 <= k < self.frames@.len() implies {
                        &&& !old(fa).out().contains(#[trigger] self.frames@[k])
                        &&& fa.out().contains(self.frames@[k])
                        &&& fa.backed(self.frames@[k])
                    } by {
                        if k < frames0.len() {
                            assert(self.frames@[k] == frames0[k]);
                            assert(fa0.out().contains(frames0[k]));
                        } else {
                            assert(self.frames@[k] == self.frames@.last());
                            assert(!fa0.out().contains(self.frames@.last()));
                        }
                    }
                    assert forall|k1: int, k2: int| 0 <= k1 < k2 < self.frames@.len() implies self.frames@[k1] != self.frames@[k2] by {
                        if k2 == frames0.len() {
                            assert(fa0.out().contains(frames0[k1]));
                            assert(self.frames@[k1] == frames0[k1]);
                        } else {
                            assert(self.frames@[k1] == frames0[k1]);
                            assert(self.frames@[k2] == frames0[k2]);
                        }
                    }
                }
            }
            vpn = vpn + 1;
        }
        true
    }

    /// Removes every page of the area from `pt`.
    pub fn unmap(&mut self, pt: &mut PageTable)
        requires
            old(pt).wf(),
            old(self).start <= old(self).end,
            forall|v: u64| #[trigger] old(self).covers(v) ==> old(pt)@.contains_key(v),
        ensures
            final(pt).wf(),
            *final(self) == *old(self),
            final(pt).frames == old(pt).frames,
            forall|v: u64| #[trigger] final(pt)@.contains_key(v) <==> old(pt)@.contains_key(v) && !old(self).covers(v),
            forall|v: u64| #[trigger] final(pt)@.contains_key(v) ==> final(pt)@[v] == old(pt)@[v],
    {
        let mut vpn = self.start;
        while vpn < self.end
            invariant
                pt.wf(),
                *self == *old(self),
                pt.frames == old(pt).frames,
                self.start <= vpn <= self.end,
                forall|v: u64| #[trigger] old(self).covers(v) ==> old(pt)@.contains_key(v),
                forall|v: u64| #[trigger] pt@.contains_key(v) <==> old(pt)@.contains_key(v) && !(self.start <= v < vpn),
                forall|v: u64| #[trigger] pt@.contains_key(v) ==> pt@[v] == old(pt)@[v],
            decreases self.end - vpn,
        {
            assert(old(self).covers(vpn));
            assert(old(pt)@.contains_key(vpn));
            assert(pt@.contains_key(vpn));
            self.unmap_one(pt, vpn);
            vpn = vpn + 1;
        }
    }

    /// Removes page `vpn` of the area from `pt`.
    pub fn unmap_one(&mut self, pt: &mut PageTable, vpn: u64)
        requires
            old(pt).wf(),
            old(pt)@.contains_key(vpn),
        ensures
            final(pt).wf(),
            final(pt)@ == old(pt)@.remove(vpn),
            final(pt).frames == old(pt).frames,
            final(pt).root_ppn == old(pt).root_ppn,
            *final(self) == *old(self),
    {
        pt.unmap(vpn);
    }
}

} // verus!

verus! {

impl MapArea {
    /// Copies `data` into the area's frames from its first page on, one
    /// page at a time.
    pub fn copy_data(&self, data: &[u8], fa: &mut FrameAllocator)
        requires
            old(fa).wf(),
            self.wf(),
            self.map_type == MapType::Framed,
            data@.len() <= self.pages() * PAGE_SIZE,
            forall|k: int| 0 <= k < self.frames@.len() ==> old(fa).backed(#[trigger] self.frames@[k]),
            forall|k1: int, k2: int| 0 <= k1 < k2 < self.frames@.len() ==> self.frames@[k1] != self.frames@[k2],
        ensures
            final(fa).wf(),
            final(fa).start == old(fa).start,
            final(fa).current == old(fa).current,
            final(fa).end == old(fa).end,
            final(fa).recycled == old(fa).recycled,
            final(fa).out() == old(fa).out(),
            forall|k: int| 0 <= k < data@.len() ==>
                #[trigger] final(fa).page(self.frames@[k / PAGE_SIZE as int])[k % PAGE_SIZE as int] == data@[k],
            forall|q: u64| old(fa).backed(q) && !self.frames@.contains(q) ==> #[trigger] final(fa).page(q) == old(fa).page(q),
    {
        let len = data.len();
        let mut k: usize = 0;
        while k < len
            invariant
                fa.wf(),
                self.wf(),
                self.map_type == MapType::Framed,
                len == data@.len(),
                k <= len,
                len <= self.pages() * PAGE_SIZE,
                fa.start == old(fa).start,
                fa.current == old(fa).current,
                fa.end == old(fa).end,
                fa.recycled == old(fa).recycled,
                fa.out() == old(fa).out(),
                forall|j: int| 0 <= j < self.frames@.len() ==> fa.backed(#[trigger] self.frames@[j]),
                forall|k1: int, k2: int| 0 <= k1 < k2 < self.frames@.len() ==> self.frames@[k1] != self.frames@[k2],
                forall|j: int| 0 <= j < k ==>
                    #[trigger] fa.page(self.frames@[j / PAGE_SIZE as int])[j % PAGE_SIZE as int] == data@[j],
                forall|q: u64| old(fa).backed(q) && !self.frames@.contains(q) ==> #[trigger] fa.page(q) == old(fa).page(q),
            decreases len - k,
        {
            let idx = k / (PAGE_SIZE as usize);
            let off = k % (PAGE_SIZE as usize);
            let f = self.frames[idx];
            let ghost before = *fa;
            fa.write_byte(f, off as u64, data[k]);
            proof {
                assert forall|j: int| 0 <= j < k + 1 implies
                    #[trigger] fa.page(self.frames@[j / PAGE_SIZE as int])[j % PAGE_SIZE as int] == data@[j] by {
                    if j < k {
                        let fj = self.frames@[j / PAGE_SIZE as int];
                        assert(before.backed(fj));
                        if fj == f {
                            assert(j / PAGE_SIZE as int == idx as int);
                            assert(j % PAGE_SIZE as int != off as int);
                        }
                    }
                }
                assert forall|q: u64| old(fa).backed(q) && !self.frames@.contains(q) implies #[trigger] fa.page(q) == old(fa).page(q) by {
                    assert(q != f);
                }
            }
            k += 1;
        }
    }
}

/// A virtual address space: a page table and the areas mapped in it.
pub struct MemorySet {
    pub page_table: PageTable,
    pub areas: Vec<MapArea>,
}

impl MemorySet {
    /// Every area is mapped page by page as it says, and no page lies in
    /// two areas.
    pub open spec fn wf(&self) -> bool {
        &&& self.page_table.wf()
        &&& forall|i: int| 0 <= i < self.areas@.len() ==> #[trigger] self.areas@[i].wf()
        &&& forall|i: int, v: u64| 0 <= i < self.areas@.len() && #[trigger] self.areas@[i].covers(v) ==> {
                &&& self.page_table@.contains_key(v)
                &&& self.page_table@[v] == spec_leaf(self.areas@[i].target(v), self.areas@[i].map_perm)
            }
        &&& forall|i: int, j: int, v: u64| 0 <= i < self.areas@.len() && 0 <= j < self.areas@.len() && i != j
                && #[trigger] self.areas@[i].covers(v) ==> !#[trigger] self.areas@[j].covers(v)
    }

    /// The trampoline page maps frame `tppn`, readable and executable, not
    /// reachable from user mode, and lies in no area.
    pub open spec fn has_trampoline(&self, tppn: u64) -> bool {
        &&& self.page_table@.contains_key(crate::config::TRAMPOLINE_VPN)
        &&& self.page_table@[crate::config::TRAMPOLINE_VPN] == spec_leaf(tppn, MAP_R | MAP_X)
        &&& forall|i: int| 0 <= i < self.areas@.len() ==> !(#[trigger] self.areas@[i].covers(crate::config::TRAMPOLINE_VPN))
    }

    /// Every frame of a framed area is out in `fa`.
    pub open spec fn frames_out(&self, fa: FrameAllocator) -> bool {
        forall|i: int, k: int| 0 <= i < self.areas@.len() && self.areas@[i].map_type == MapType::Framed
            && 0 <= k < self.areas@[i].frames@.len() ==> fa.out().contains(#[trigger] self.areas@[i].frames@[k])
    }

    /// Frame `f` belongs to this address space: a frame of its page table
    /// or of one of its framed areas.
    pub open spec fn owns(&self, f: u64) -> bool {
        self.page_table.frames@.contains(f) || self.area_owns(f)
    }

    /// Frame `f` backs a page of a framed area.
    pub open spec fn area_owns(&self, f: u64) -> bool {
        exists|i: int, k: int| 0 <= i < self.areas@.len() && self.areas@[i].map_type == MapType::Framed
            && 0 <= k < self.areas@[i].frames@.len() && #[trigger] self.areas@[i].frames@[k] == f
    }

    /// What the address space maps, by virtual page number.
    pub open spec fn view(&self) -> Map<u64, PageTableEntry> {
        self.page_table@
    }

    /// An empty address space; `None` when no frame is free for its root.
    pub fn new_bare(fa: &mut FrameAllocator) -> (r: Option<Self>)
        requires
            old(fa).wf(),
        ensures
            final(fa).wf(),
            final(fa).start == old(fa).start,
            final(fa).end == old(fa).end,
            final(fa).current >= old(fa).current,
            forall|p: u64| #[trigger] old(fa).out().contains(p) ==> final(fa).out().contains(p),
            forall|p: u64| #[trigger] old(fa).out().contains(p) ==> final(fa).page(p) == old(fa).page(p),
            r.is_none() <==> (old(fa).recycled@.len() == 0 && old(fa).current == old(fa).end),
            r.is_some() ==> r.unwrap().wf() && r.unwrap()@ == Map::<u64, PageTableEntry>::empty()
                && r.unwrap().areas@.len() == 0,
            r.is_some() ==> final(fa).free_count() == old(fa).free_count() - 1,
            r.is_none() ==> final(fa).free_count() == old(fa).free_count(),
            r.is_some() ==> forall|f: u64| #[trigger] r.unwrap().owns(f)
                ==> !old(fa).out().contains(f) && final(fa).out().contains(f),
    {
        match PageTable::new(fa) {
            Some(pt) => Some(MemorySet { page_table: pt, areas: Vec::new() }),
            None => None,
        }
    }

    /// The `satp` value that selects this address space.
    pub fn token(&self) -> (r: u64)
        requires
            self.wf(),
        ensures
            r == (8u64 << 60u64) | self.page_table.root_ppn,
    {
        self.page_table.token()
    }

    /// The entry that maps page `vpn`, if any.
    pub fn translate(&self, vpn: u64) -> (r: Option<PageTableEntry>)
        ensures
            r == (if self@.contains_key(vpn) { Some(self@[vpn]) } else { None::<PageTableEntry> }),
    {
        self.page_table.translate(vpn)
    }

    /// Maps `area` and adds it, then copies `data`, if given, into its
    /// frames. `false` when a page of the area is already mapped or frames
    /// run out; the areas are then unchanged.
    pub fn push(&mut self, mut area: MapArea, data: Option<&[u8]>, fa: &mut FrameAllocator) -> (ok: bool)
        requires
            old(self).wf(),
            old(fa).wf(),
            area.start <= area.end <= VPN_LIMIT,
            area.frames@.len() == 0,
            data.is_some() ==> area.map_type == MapType::Framed && data.unwrap()@.len() <= area.pages() * PAGE_SIZE,
        ensures
            final(self).wf(),
            final(fa).wf(),
            final(fa).start == old(fa).start,
            final(fa).end == old(fa).end,
            final(fa).current >= old(fa).current,
            final(self).page_table.root_ppn == old(self).page_table.root_ppn,
            forall|p: u64| #[trigger] old(fa).out().contains(p) ==> final(fa).out().contains(p),
            forall|p: u64| #[trigger] old(fa).out().contains(p) ==> final(fa).page(p) == old(fa).page(p),
            forall|t: u64| old(self).has_trampoline(t) ==> #[trigger] final(self).has_trampoline(t),
            forall|v: u64| #[trigger] old(self)@.contains_key(v) ==> final(self)@.contains_key(v) && final(self)@[v] == old(self)@[v],
            old(self).frames_out(*old(fa)) ==> final(self).frames_out(*final(fa)),
            ok <==> (forall|v: u64| #[trigger] area.covers(v) ==> !old(self)@.contains_key(v)) && {
                let last = final(self).areas@.last();
                &&& final(self).areas@ == old(self).areas@.push(last)
                &&& last.start == area.start
                &&& last.end == area.end
                &&& last.map_type == area.map_type
                &&& last.map_perm == area.map_perm
            },
            !ok ==> final(self).areas@ == old(self).areas@,
            (forall|v: u64| #[trigger] area.covers(v) ==> !old(self)@.contains_key(v))
                && old(fa).free_count() >= 3 * area.pages() ==> ok,
            final(fa).free_count() >= old(fa).free_count() - 3 * area.pages(),
            forall|f: u64| #[trigger] final(self).owns(f) ==> old(self).owns(f)
                || (!old(fa).out().contains(f) && final(fa).out().contains(f)),
            ok ==> forall|v: u64| #[trigger] final(self)@.contains_key(v) ==> old(self)@.contains_key(v) || area.covers(v),
            ok && final(self).areas@.last().map_type == MapType::Framed ==> {
                let fr = final(self).areas@.last().frames@;
                &&& forall|k: int| 0 <= k < fr.len() ==> !old(fa).out().contains(#[trigger] fr[k])
                &&& forall|k1: int, k2: int| 0 <= k1 < k2 < fr.len() ==> fr[k1] != fr[k2]
            },
            ok && data.is_some() ==> forall|k: int| 0 <= k < data.unwrap()@.len() ==>
                #[trigger] final(fa).page(final(self).areas@.last().frames@[k / PAGE_SIZE as int])[k % PAGE_SIZE as int]
                    == data.unwrap()@[k],
    {
        let ghost area0 = area;
        let mut v = area.start;
        while v < area.end
            invariant
                area == area0,
                *self == *old(self),
                *fa == *old(fa),
                self.wf(),
                fa.wf(),
                area.start <= v <= area.end,
                forall|u: u64| area.start <= u < v ==> !self.page_table@.contains_key(u),
            decreases area.end - v,
        {
            if self.page_table.translate(v).is_some() {
                assert(area.covers(v));
                assert(old(self)@.contains_key(v));
                assert(*fa == *old(fa));
                assert(area0.pages() >= 0);
                assert(fa.free_count() >= old(fa).free_count() - 3 * area0.pages());
                assert(area0.covers(v));
                return false;
            }
            v = v + 1;
        }
        let ghost pt0 = self.page_table;
        let ghost fa0 = *fa;
        assert forall|u: u64| #[trigger] area.covers(u) implies !pt0@.contains_key(u) by {
            assert(area.start <= u < v);
            assert(!self.page_table@.contains_key(u));
        }
        if !area.map(&mut self.page_table, fa) {
            proof {
                assert(forall|i: int, u: u64| 0 <= i < self.areas@.len() && #[trigger] self.areas@[i].covers(u)
                    ==> pt0@.contains_key(u));
            }
            assert(self.frames_out(*old(fa)) ==> self.frames_out(*fa));
            assert(!(self.areas@ == old(self).areas@.push(self.areas@.last()))) by {
                assert(self.areas@.len() != old(self).areas@.len() + 1);
            }
            return false;
        }
        proof {
            if area.map_type == MapType::Framed {
                assert(forall|k1: int, k2: int| 0 <= k1 < k2 < area.frames@.len() ==> area.frames@[k1] != area.frames@[k2]);
            }
        }
        let ghost fa1 = *fa;
        match data {
            Some(d) => {
                area.copy_data(d, fa);
            }
            None => {}
        }
        let ghost n = self.areas@.len();
        self.areas.push(area);
        proof {
            assert(self.areas@.last() == area);
            assert forall|p: u64| #[trigger] old(fa).out().contains(p) implies fa.out().contains(p)
                && fa.page(p) == old(fa).page(p) by {
                assert(fa1.out().contains(p));
                if area.map_type == MapType::Framed {
                    assert(!area.frames@.contains(p));
                    assert(fa1.backed(p));
                }
            }
            assert forall|i: int, u: u64| 0 <= i < self.areas@.len() && #[trigger] self.areas@[i].covers(u) implies {
                &&& self.page_table@.contains_key(u)
                &&& self.page_table@[u] == spec_leaf(self.areas@[i].target(u), self.areas@[i].map_perm)
            } by {
                if i < n {
                    assert(old(self).areas@[i] == self.areas@[i]);
                    assert(pt0@.contains_key(u));
                }
            }
            assert forall|i: int, j: int, u: u64| 0 <= i < self.areas@.len() && 0 <= j < self.areas@.len() && i != j
                && #[trigger] self.areas@[i].covers(u) implies !#[trigger] self.areas@[j].covers(u) by {
                if i < n && j < n {
                    assert(old(self).areas@[i] == self.areas@[i]);
                    assert(old(self).areas@[j] == self.areas@[j]);
                } else if i < n {
                    assert(old(self).areas@[i] == self.areas@[i]);
                    assert(pt0@.contains_key(u));
                } else {
                    assert(old(self).areas@[j] == self.areas@[j]);
                    assert(self.areas@[i] == area);
                    assert(area.covers(u));
                    assert(!pt0@.contains_key(u));
                }
            }
            assert forall|t: u64| old(self).has_trampoline(t) implies #[trigger] self.has_trampoline(t) by {
                assert(pt0@.contains_key(crate::config::TRAMPOLINE_VPN));
                assert forall|i: int| 0 <= i < self.areas@.len() implies !(#[trigger] self.areas@[i].covers(crate::config::TRAMPOLINE_VPN)) by {
                    if i < n {
                        assert(old(self).areas@[i] == self.areas@[i]);
                    }
                }
            }
            assert forall|i: int| 0 <= i < self.areas@.len() implies #[trigger] self.areas@[i].wf() by {
                if i < n {
                    assert(old(self).areas@[i] == self.areas@[i]);
                }
            }
            if old(self).frames_out(*old(fa)) {
                assert forall|i: int, k: int| 0 <= i < self.areas@.len() && self.areas@[i].map_type == MapType::Framed
                    && 0 <= k < self.areas@[i].frames@.len() implies fa.out().contains(#[trigger] self.areas@[i].frames@[k]) by {
                    if i < n {
                        assert(old(self).areas@[i] == self.areas@[i]);
                        assert(old(fa).out().contains(self.areas@[i].frames@[k]));
                    }
                }
            }
        }
        true
    }
}

} // verus!

verus! {

/// The last page number (exclusive) of the area `MapArea::new` builds over
/// `[start_va, end_va)`.
pub open spec fn spec_area_end(start_va: u64, end_va: u64) -> int {
    if spec_ceil(end_va) < spec_floor(start_va) { spec_floor(start_va) } else { spec_ceil(end_va) }
}

impl MemorySet {
    /// Adds a framed area over `[start_va, end_va)` with `permission`.
    /// `false` when a page of it is already mapped or frames run out.
    pub fn insert_framed_area(&mut self, start_va: u64, end_va: u64, permission: u8, fa: &mut FrameAllocator) -> (ok: bool)
        requires
            old(self).wf(),
            old(fa).wf(),
        ensures
            final(self).wf(),
            final(fa).wf(),
            final(fa).start == old(fa).start,
            final(fa).end == old(fa).end,
            final(fa).current >= old(fa).current,
            final(self).page_table.root_ppn == old(self).page_table.root_ppn,
            forall|p: u64| #[trigger] old(fa).out().contains(p) ==> final(fa).out().contains(p),
            forall|p: u64| #[trigger] old(fa).out().contains(p) ==> final(fa).page(p) == old(fa).page(p),
            forall|t: u64| old(self).has_trampoline(t) ==> #[trigger] final(self).has_trampoline(t),
            old(self).frames_out(*old(fa)) ==> final(self).frames_out(*final(fa)),
            ok ==> {
                let last = final(self).areas@.last();
                &&& final(self).areas@ == old(self).areas@.push(last)
                &&& last.start == spec_floor(start_va)
                &&& last.end == spec_area_end(start_va, end_va)
                &&& last.map_type == MapType::Framed
                &&& last.map_perm == permission
                &&& forall|v: u64| #[trigger] last.covers(v) ==> final(self)@.contains_key(v)
                        && final(self)@[v] == spec_leaf(last.target(v), permission)
                &&& forall|v: u64| #[trigger] final(self)@.contains_key(v) ==> old(self)@.contains_key(v) || last.covers(v)
            },
            forall|v: u64| #[trigger] old(self)@.contains_key(v) ==> final(self)@.contains_key(v) && final(self)@[v] == old(self)@[v],
            !ok ==> final(self).areas@ == old(self).areas@,
            forall|f: u64| #[trigger] final(self).owns(f) ==> old(self).owns(f)
                || (!old(fa).out().contains(f) && final(fa).out().contains(f)),
            (forall|v: u64| spec_floor(start_va) <= v < spec_area_end(start_va, end_va) ==> !#[trigger] old(self)@.contains_key(v))
                && old(fa).free_count() >= 3 * (spec_area_end(start_va, end_va) - spec_floor(start_va)) ==> ok,
    {
        let area = MapArea::new(start_va, end_va, MapType::Framed, permission);
        let ok = self.push(area, None, fa);
        proof {
            if ok {
                let last = self.areas@.last();
                assert(self.areas@[self.areas@.len() - 1] == last);
                assert forall|v: u64| #[trigger] last.covers(v) implies self@.contains_key(v)
                    && self@[v] == spec_leaf(last.target(v), permission) by {
                    assert(self.areas@[self.areas@.len() - 1].covers(v));
                }
            }
        }
        ok
    }

    /// Maps the trampoline page to frame `tppn`, readable and executable.
    pub fn map_trampoline(&mut self, tppn: u64, fa: &mut FrameAllocator) -> (ok: bool)
        requires
            old(self).wf(),
            old(fa).wf(),
            tppn < PPN_LIMIT,
            !old(self)@.contains_key(crate::config::TRAMPOLINE_VPN),
        ensures
            final(self).wf(),
            final(fa).wf(),
            final(fa).start == old(fa).start,
            final(fa).end == old(fa).end,
            final(fa).current >= old(fa).current,
            final(self).areas == old(self).areas,
            final(self).page_table.root_ppn == old(self).page_table.root_ppn,
            forall|p: u64| #[trigger] old(fa).out().contains(p) ==> final(fa).out().contains(p),
            forall|p: u64| #[trigger] old(fa).out().contains(p) ==> final(fa).page(p) == old(fa).page(p),
            forall|v: u64| #[trigger] old(self)@.contains_key(v) ==> final(self)@.contains_key(v) && final(self)@[v] == old(self)@[v],
            ok ==> final(self).has_trampoline(tppn),
            ok ==> forall|v: u64| #[trigger] final(self)@.contains_key(v) ==> old(self)@.contains_key(v)
                || v == crate::config::TRAMPOLINE_VPN,
            old(fa).free_count() >= 2 ==> ok,
            final(fa).free_count() >= old(fa).free_count() - 2,
            forall|f: u64| #[trigger] final(self).owns(f) ==> old(self).owns(f)
                || (!old(fa).out().contains(f) && final(fa).out().contains(f)),

            old(self).frames_out(*old(fa)) ==> final(self).frames_out(*final(fa)),
    {
        let ghost pt0 = self.page_table;
        let ok = self.page_table.map(crate::config::TRAMPOLINE_VPN, tppn, MAP_R | MAP_X, fa);
        proof {
            assert forall|i: int| 0 <= i < self.areas@.len() implies !(#[trigger] self.areas@[i].covers(crate::config::TRAMPOLINE_VPN)) by {
                if self.areas@[i].covers(crate::config::TRAMPOLINE_VPN) {
                    assert(pt0@.contains_key(crate::config::TRAMPOLINE_VPN));
                }
            }
            assert(forall|i: int, u: u64| 0 <= i < self.areas@.len() && #[trigger] self.areas@[i].covers(u) ==> pt0@.contains_key(u));
            if ok {
                assert((MAP_R | MAP_X) | PTE_V == (MAP_R | MAP_X) | PTE_V);
            }
        }
        ok
    }

    /// Position of the area that starts at page `start_vpn`, if any.
    fn find_area(&self, start_vpn: u64) -> (r: Option<usize>)
        ensures
            r.is_some() ==> r.unwrap() < self.areas@.len() && self.areas@[r.unwrap() as int].start == start_vpn,
            r.is_none() ==> forall|k: int| 0 <= k < self.areas@.len() ==> (#[trigger] self.areas@[k]).start != start_vpn,
    {
        let mut idx: usize = 0;
        while idx < self.areas.len()
            invariant
                idx <= self.areas@.len(),
                forall|k: int| 0 <= k < idx ==> (#[trigger] self.areas@[k]).start != start_vpn,
            decreases self.areas@.len() - idx,
        {
            if self.areas[idx].start == start_vpn {
                return Some(idx);
            }
            idx += 1;
        }
        None
    }

    /// Removes the area that starts at page `start_vpn`, if any: unmaps its
    /// pages and returns its frames. `false` when no area starts there.
    pub fn remove_area_with_start_vpn(&mut self, start_vpn: u64, fa: &mut FrameAllocator) -> (found: bool)
        requires
            old(self).wf(),
            old(fa).wf(),
        ensures
            final(self).wf(),
            final(fa).wf(),
            final(fa).start == old(fa).start,
            final(fa).end == old(fa).end,
            final(fa).current == old(fa).current,
            final(fa).mem == old(fa).mem,
            final(self).page_table.root_ppn == old(self).page_table.root_ppn,
            forall|t: u64| old(self).has_trampoline(t) ==> #[trigger] final(self).has_trampoline(t),
            forall|f: u64| #[trigger] old(fa).out().contains(f) && !old(self).owns(f) ==> final(fa).out().contains(f),
            forall|f: u64| #[trigger] final(self).owns(f) ==> old(self).owns(f),
            forall|p: u64| #[trigger] final(fa).out().contains(p) ==> old(fa).out().contains(p),
            found <==> exists|i: int| 0 <= i < old(self).areas@.len() && #[trigger] old(self).areas@[i].start == start_vpn,
            found ==> exists|i: int| 0 <= i < old(self).areas@.len() && old(self).areas@[i].start == start_vpn
                && final(self).areas@ == #[trigger] old(self).areas@.remove(i)
                && (forall|v: u64| #[trigger] old(self).areas@[i].covers(v) ==> !final(self)@.contains_key(v)),
            !found ==> final(self).areas@ == old(self).areas@ && final(self)@ == old(self)@,
    {
        let idx = match self.find_area(start_vpn) {
            Some(i) => i,
            None => {
                return false;
            }
        };
        let ghost ms0 = *self;
        let area = self.areas.remove(idx);
        assert(area == ms0.areas@[idx as int]);
        assert(ms0.areas@[idx as int].wf());
        let mut v = area.start;
        while v < area.end
            invariant
                self.page_table.wf(),
                fa.wf(),
                fa.start == old(fa).start,
                fa.end == old(fa).end,
                fa.current == old(fa).current,
                fa.mem == old(fa).mem,
                ms0.wf(),
                ms0 == *old(self),
                area == ms0.areas@[idx as int],
                0 <= idx < ms0.areas@.len(),
                self.areas@ == ms0.areas@.remove(idx as int),
                self.page_table.root_ppn == ms0.page_table.root_ppn,
                self.page_table.frames == ms0.page_table.frames,
                area.start <= v <= area.end,
                forall|u: u64| #[trigger] self.page_table@.contains_key(u) <==> ms0@.contains_key(u) && !(area.start <= u < v),
                forall|u: u64| #[trigger] self.page_table@.contains_key(u) ==> self.page_table@[u] == ms0@[u],
            decreases area.end - v,
        {
            assert(area.covers(v));
            assert(ms0@.contains_key(v));
            self.page_table.unmap(v);
            v = v + 1;
        }
        if area.map_type == MapType::Framed {
            let mut k: usize = 0;
            while k < area.frames.len()
                invariant
                    fa.wf(),
                    fa.start == old(fa).start,
                    fa.end == old(fa).end,
                    fa.current == old(fa).current,
                    fa.mem == old(fa).mem,
                    k <= area.frames@.len(),
                    area == ms0.areas@[idx as int],
                    0 <= idx < ms0.areas@.len(),
                    ms0 == *old(self),
                    area.map_type == MapType::Framed,
                    forall|f: u64| #[trigger] old(fa).out().contains(f) && !old(self).owns(f) ==> fa.out().contains(f),
                    forall|p: u64| #[trigger] fa.out().contains(p) ==> old(fa).out().contains(p),
                decreases area.frames@.len() - k,
            {
                proof {
                    assert(ms0.areas@[idx as int].frames@[k as int] == area.frames@[k as int]);
                    assert(old(self).area_owns(area.frames@[k as int]));
                }
                fa.free_frame(area.frames[k]);
                k += 1;
            }
        }
        proof {
            let n = ms0.areas@.len();
            assert forall|i: int, u: u64| 0 <= i < self.areas@.len() && #[trigger] self.areas@[i].covers(u) implies {
                &&& self.page_table@.contains_key(u)
                &&& self.page_table@[u] == spec_leaf(self.areas@[i].target(u), self.areas@[i].map_perm)
            } by {
                let oi = if i < idx { i } else { i + 1 };
                assert(self.areas@[i] == ms0.areas@[oi]);
                assert(ms0.areas@[oi].covers(u));
                assert(!ms0.areas@[idx as int].covers(u));
                assert(ms0@.contains_key(u));
                assert(!(area.start <= u < v));
                assert(self.page_table@.contains_key(u));
            }
            assert forall|i: int, j: int, u: u64| 0 <= i < self.areas@.len() && 0 <= j < self.areas@.len() && i != j
                && #[trigger] self.areas@[i].covers(u) implies !#[trigger] self.areas@[j].covers(u) by {
                let oi = if i < idx { i } else { i + 1 };
                let oj = if j < idx { j } else { j + 1 };
                assert(self.areas@[i] == ms0.areas@[oi]);
                assert(self.areas@[j] == ms0.areas@[oj]);
            }
            assert forall|i: int| 0 <= i < self.areas@.len() implies #[trigger] self.areas@[i].wf() by {
                let oi = if i < idx { i } else { i + 1 };
                assert(self.areas@[i] == ms0.areas@[oi]);
            }
            assert forall|t: u64| old(self).has_trampoline(t) implies #[trigger] self.has_trampoline(t) by {
                assert(!area.covers(crate::config::TRAMPOLINE_VPN));
                assert(ms0@.contains_key(crate::config::TRAMPOLINE_VPN));
                assert(self.page_table@.contains_key(crate::config::TRAMPOLINE_VPN));
                assert forall|i: int| 0 <= i < self.areas@.len() implies !(#[trigger] self.areas@[i].covers(crate::config::TRAMPOLINE_VPN)) by {
                    let oi = if i < idx { i } else { i + 1 };
                    assert(self.areas@[i] == ms0.areas@[oi]);
                }
            }
            assert(ms0.areas@[idx as int].start == start_vpn);
            assert forall|u: u64| #[trigger] ms0.areas@[idx as int].covers(u) implies !self@.contains_key(u) by {}
            assert forall|f: u64| #[trigger] self.owns(f) implies old(self).owns(f) by {
                if !self.page_table.frames@.contains(f) {
                    let (i, k) = choose|i: int, k: int| 0 <= i < self.areas@.len() && self.areas@[i].map_type == MapType::Framed
                        && 0 <= k < self.areas@[i].frames@.len() && #[trigger] self.areas@[i].frames@[k] == f;
                    let oi = if i < idx { i } else { i + 1 };
                    assert(self.areas@[i] == ms0.areas@[oi]);
                    assert(ms0.areas@[oi].frames@[k] == f);
                }
            }
        }
        true
    }

    /// Drops every area and returns the frames of the framed ones. The page
    /// table is kept, so the address space stays usable until it is dropped.
    pub fn recycle_data_pages(&mut self, fa: &mut FrameAllocator)
        requires
            old(self).wf(),
            old(fa).wf(),
        ensures
            final(self).wf(),
            final(fa).wf(),
            final(fa).start == old(fa).start,
            final(fa).end == old(fa).end,
            final(fa).current == old(fa).current,
            final(fa).mem == old(fa).mem,
            final(self).areas@.len() == 0,
            final(self).page_table == old(self).page_table,
            forall|f: u64| #[trigger] old(fa).out().contains(f) && !old(self).owns(f) ==> final(fa).out().contains(f),
            forall|f: u64| #[trigger] final(self).owns(f) ==> old(self).owns(f),
            forall|i: int, k: int|
                0 <= i < old(self).areas@.len() && old(self).areas@[i].map_type == MapType::Framed
                && 0 <= k < old(self).areas@[i].frames@.len()
                ==> !final(fa).out().contains(#[trigger] old(self).areas@[i].frames@[k]),
    {
        let mut i: usize = 0;
        while i < self.areas.len()
            invariant
                *self == *old(self),
                fa.wf(),
                fa.start == old(fa).start,
                fa.end == old(fa).end,
                fa.current == old(fa).current,
                fa.mem == old(fa).mem,
                i <= self.areas@.len(),
                forall|f: u64| #[trigger] old(fa).out().contains(f) && !old(self).owns(f) ==> fa.out().contains(f),
                forall|p: u64| #[trigger] fa.out().contains(p) ==> old(fa).out().contains(p),
                forall|a: int, k: int| 0 <= a < i && self.areas@[a].map_type == MapType::Framed
                    && 0 <= k < self.areas@[a].frames@.len()
                    ==> !fa.out().contains(#[trigger] self.areas@[a].frames@[k]),
            decreases self.areas@.len() - i,
        {
            if self.areas[i].map_type == MapType::Framed {
                let mut k: usize = 0;
                while k < self.areas[i].frames.len()
                    invariant
                        *self == *old(self),
                        i < self.areas@.len(),
                        self.areas@[i as int].map_type == MapType::Framed,
                        fa.wf(),
                        fa.start == old(fa).start,
                        fa.end == old(fa).end,
                        fa.current == old(fa).current,
                        fa.mem == old(fa).mem,
                        k <= self.areas@[i as int].frames@.len(),
                        forall|f: u64| #[trigger] old(fa).out().contains(f) && !old(self).owns(f) ==> fa.out().contains(f),
                        forall|p: u64| #[trigger] fa.out().contains(p) ==> old(fa).out().contains(p),
                        forall|a: int, k2: int| 0 <= a < i && self.areas@[a].map_type == MapType::Framed
                            && 0 <= k2 < self.areas@[a].frames@.len()
                            ==> !fa.out().contains(#[trigger] self.areas@[a].frames@[k2]),
                        forall|k2: int| 0 <= k2 < k ==> !fa.out().contains(#[trigger] self.areas@[i as int].frames@[k2]),
                    decreases self.areas@[i as int].frames@.len() - k,
                {
                    let f = self.areas[i].frames[k];
                    proof {
                        assert(self.areas@[i as int].frames@[k as int] == f);
                        assert(old(self).area_owns(f));
                    }
                    fa.free_frame(f);
                    k += 1;
                }
            }
            i += 1;
        }
        self.areas.clear();
    }
}

} // verus!

verus! {

/// Pages in the first `n` areas of `areas`.
pub open spec fn spec_pages_total(areas: Seq<MapArea>, n: int) -> int
    decreases n,
{
    if n <= 0 || n > areas.len() {
        0
    } else {
        spec_pages_total(areas, n - 1) + areas[n - 1].pages()
    }
}

/// `true` when area `a` has the same pages, kind and permission as `b`.
pub open spec fn same_shape(a: MapArea, b: MapArea) -> bool {
    a.start == b.start && a.end == b.end && a.map_type == b.map_type && a.map_perm == b.map_perm
}

/// The page total of a prefix grows with the prefix.
pub proof fn lemma_pages_total_mono(areas: Seq<MapArea>, m: int, n: int)
    requires
        0 <= m <= n <= areas.len(),
        forall|i: int| 0 <= i < areas.len() ==> (#[trigger] areas[i]).start <= areas[i].end,
    ensures
        spec_pages_total(areas, m) <= spec_pages_total(areas, n),
        spec_pages_total(areas, m) >= 0,
    decreases n,
{
    if m < n {
        lemma_pages_total_mono(areas, m, n - 1);
    } else if m > 0 {
        lemma_pages_total_mono(areas, m - 1, m - 1);
    }
}

impl MemorySet {
    /// A copy of user address space `src`, with the trampoline at frame
    /// `tppn`: the same areas, each framed page backed by a new frame that
    /// holds a copy of the contents of the frame in `src`. `None` when frames run
    /// out.
    pub fn from_existed_user(src: &MemorySet, tppn: u64, fa: &mut FrameAllocator) -> (r: Option<MemorySet>)
        requires
            src.wf(),
            old(fa).wf(),
            tppn < PPN_LIMIT,
        ensures
            final(fa).wf(),
            final(fa).start == old(fa).start,
            final(fa).end == old(fa).end,
            final(fa).current >= old(fa).current,
            forall|p: u64| #[trigger] old(fa).out().contains(p) ==> final(fa).out().contains(p),
            forall|p: u64| #[trigger] old(fa).out().contains(p) ==> final(fa).page(p) == old(fa).page(p),
            (forall|i: int| 0 <= i < src.areas@.len() ==> !(#[trigger] src.areas@[i]).covers(crate::config::TRAMPOLINE_VPN))
                && old(fa).free_count() >= 3 + 3 * spec_pages_total(src.areas@, src.areas@.len() as int)
                ==> r.is_some() && final(fa).free_count() >= old(fa).free_count() - 3
                    - 3 * spec_pages_total(src.areas@, src.areas@.len() as int),
            r.is_some() ==> {
                let ms = r.unwrap();
                &&& ms.wf()
                &&& ms.has_trampoline(tppn)
                &&& ms.frames_out(*final(fa))
                &&& ms.areas@.len() == src.areas@.len()
                &&& forall|i: int| 0 <= i < src.areas@.len() ==> same_shape(#[trigger] ms.areas@[i], src.areas@[i])
                &&& forall|i: int, k: int| 0 <= i < ms.areas@.len() && ms.areas@[i].map_type == MapType::Framed
                        && 0 <= k < ms.areas@[i].frames@.len()
                        ==> !old(fa).out().contains(#[trigger] ms.areas@[i].frames@[k])
                &&& src.frames_out(*old(fa)) ==> forall|i: int, k: int| 0 <= i < ms.areas@.len()
                        && ms.areas@[i].map_type == MapType::Framed && 0 <= k < ms.areas@[i].frames@.len()
                        ==> final(fa).page(#[trigger] ms.areas@[i].frames@[k]) == old(fa).page(src.areas@[i].frames@[k])
            },
    {
        proof {
            assert forall|j: int| 0 <= j < src.areas@.len() implies (#[trigger] src.areas@[j]).start <= src.areas@[j].end by {
                assert(src.areas@[j].wf());
            }
            lemma_pages_total_mono(src.areas@, 0, src.areas@.len() as int);
        }
        let mut ms = match MemorySet::new_bare(fa) {
            Some(m) => m,
            None => {
                return None;
            }
        };
        let ghost free0 = old(fa).free_count();
        let ghost good = (forall|i: int| 0 <= i < src.areas@.len() ==> !(#[trigger] src.areas@[i]).covers(crate::config::TRAMPOLINE_VPN))
            && free0 >= 3 + 3 * spec_pages_total(src.areas@, src.areas@.len() as int);
        proof {
            assert(ms@.dom() =~= Set::<u64>::empty());
            assert forall|j: int| 0 <= j < src.areas@.len() implies (#[trigger] src.areas@[j]).start <= src.areas@[j].end by {
                assert(src.areas@[j].wf());
            }
            lemma_pages_total_mono(src.areas@, 0, src.areas@.len() as int);
        }
        if !ms.map_trampoline(tppn, fa) {
            return None;
        }
        let mut i: usize = 0;
        while i < src.areas.len()
            invariant
                forall|f: u64| #[trigger] ms.owns(f) ==> !old(fa).out().contains(f) && fa.out().contains(f),
                free0 == old(fa).free_count(),
                good == ((forall|j: int| 0 <= j < src.areas@.len() ==> !(#[trigger] src.areas@[j]).covers(crate::config::TRAMPOLINE_VPN))
                    && free0 >= 3 + 3 * spec_pages_total(src.areas@, src.areas@.len() as int)),
                good ==> fa.free_count() >= free0 - 3 - 3 * spec_pages_total(src.areas@, i as int),
                good ==> free0 >= 3 + 3 * spec_pages_total(src.areas@, src.areas@.len() as int),
                good ==> forall|j: int| 0 <= j < src.areas@.len() ==> !(#[trigger] src.areas@[j]).covers(crate::config::TRAMPOLINE_VPN),
                forall|v: u64| #[trigger] ms@.contains_key(v) ==> v == crate::config::TRAMPOLINE_VPN
                    || exists|j: int| 0 <= j < i && (#[trigger] src.areas@[j]).covers(v),
                src.wf(),
                fa.wf(),
                fa.start == old(fa).start,
                fa.end == old(fa).end,
                fa.current >= old(fa).current,
                forall|p: u64| #[trigger] old(fa).out().contains(p) ==> fa.out().contains(p),
                forall|p: u64| #[trigger] old(fa).out().contains(p) ==> fa.page(p) == old(fa).page(p),
                ms.wf(),
                ms.has_trampoline(tppn),
                ms.frames_out(*fa),
                i <= src.areas@.len(),
                ms.areas@.len() == i,
                forall|j: int| 0 <= j < i ==> same_shape(#[trigger] ms.areas@[j], src.areas@[j]),
                forall|j: int, k: int| 0 <= j < ms.areas@.len() && ms.areas@[j].map_type == MapType::Framed
                    && 0 <= k < ms.areas@[j].frames@.len()
                    ==> !old(fa).out().contains(#[trigger] ms.areas@[j].frames@[k]),
                src.frames_out(*old(fa)) ==> forall|j: int, k: int| 0 <= j < ms.areas@.len()
                    && ms.areas@[j].map_type == MapType::Framed && 0 <= k < ms.areas@[j].frames@.len()
                    ==> fa.page(#[trigger] ms.areas@[j].frames@[k]) == old(fa).page(src.areas@[j].frames@[k]),
            decreases src.areas@.len() - i,
        {
            let a = &src.areas[i];
            assert(src.areas@[i as int].wf());
            let area = MapArea { start: a.start, end: a.end, frames: Vec::new(), map_type: a.map_type, map_perm: a.map_perm };
            let ghost fa_pre = *fa;
            let ghost ms_pre = ms;
            proof {
                assert(area.pages() == src.areas@[i as int].pages());
                assert forall|j: int| 0 <= j < src.areas@.len() implies (#[trigger] src.areas@[j]).start <= src.areas@[j].end by {
                    assert(src.areas@[j].wf());
                }
                lemma_pages_total_mono(src.areas@, i as int + 1, src.areas@.len() as int);
                assert(spec_pages_total(src.areas@, i as int + 1) == spec_pages_total(src.areas@, i as int) + area.pages());
                if good {
                assert forall|v: u64| #[trigger] area.covers(v) implies !ms@.contains_key(v) by {
                    assert(src.areas@[i as int].covers(v));
                    if ms@.contains_key(v) {
                        if v != crate::config::TRAMPOLINE_VPN {
                            let j = choose|j: int| 0 <= j < i && (#[trigger] src.areas@[j]).covers(v);
                            assert(!src.areas@[j].covers(v));
                        }
                    }
                }
                assert(fa.free_count() >= 3 * area.pages());
                }
            }
            if !ms.push(area, None, fa) {
                return None;
            }
            proof {
                assert forall|v: u64| #[trigger] ms@.contains_key(v) implies v == crate::config::TRAMPOLINE_VPN
                    || exists|j: int| 0 <= j < i + 1 && (#[trigger] src.areas@[j]).covers(v) by {
                    if !ms_pre@.contains_key(v) {
                        assert(area.covers(v));
                        assert(src.areas@[i as int].covers(v));
                    } else if v != crate::config::TRAMPOLINE_VPN {
                        let j = choose|j: int| 0 <= j < i && (#[trigger] src.areas@[j]).covers(v);
                        assert(src.areas@[j].covers(v));
                    }
                }
            }
            proof {
                assert forall|j: int| 0 <= j < i + 1 implies same_shape(#[trigger] ms.areas@[j], src.areas@[j]) by {
                    if j < i {
                        assert(ms.areas@[j] == ms_pre.areas@[j]);
                    }
                }
                assert forall|j: int, k: int| 0 <= j < ms.areas@.len() && ms.areas@[j].map_type == MapType::Framed
                    && 0 <= k < ms.areas@[j].frames@.len()
                    implies !old(fa).out().contains(#[trigger] ms.areas@[j].frames@[k]) by {
                    if j < i {
                        assert(ms.areas@[j] == ms_pre.areas@[j]);
                    } else {
                        assert(!fa_pre.out().contains(ms.areas@[j].frames@[k]));
                    }
                }
                if src.frames_out(*old(fa)) {
                    assert forall|j: int, k: int| 0 <= j < i
                        && ms.areas@[j].map_type == MapType::Framed && 0 <= k < ms.areas@[j].frames@.len()
                        implies fa.page(#[trigger] ms.areas@[j].frames@[k]) == old(fa).page(src.areas@[j].frames@[k]) by {
                        assert(ms.areas@[j] == ms_pre.areas@[j]);
                        assert(fa_pre.out().contains(ms_pre.areas@[j].frames@[k]));
                    }
                }
            }
            if ms.areas[i].map_type == MapType::Framed {
                let mut k: usize = 0;
                let ghost fa_mid = *fa;
                while k < ms.areas[i].frames.len()
                    invariant
                        src.wf(),
                        fa.wf(),
                        fa.start == old(fa).start,
                        fa.end == old(fa).end,
                        fa.current == fa_mid.current,
                        fa.recycled == fa_mid.recycled,
                        fa.out() == fa_mid.out(),
                        forall|f: u64| #[trigger] ms.owns(f) ==> !old(fa).out().contains(f) && fa.out().contains(f),
                        fa_mid.current >= old(fa).current,
                        forall|p: u64| #[trigger] old(fa).out().contains(p) ==> fa_mid.out().contains(p),
                        forall|p: u64| #[trigger] old(fa).out().contains(p) ==> fa.page(p) == old(fa).page(p),
                        ms.wf(),
                        ms.has_trampoline(tppn),
                        ms.frames_out(*fa),
                        i < src.areas@.len(),
                        ms.areas@.len() == i + 1,
                        ms.areas@[i as int].map_type == MapType::Framed,
                        k <= ms.areas@[i as int].frames@.len(),
                        forall|j: int| 0 <= j < i + 1 ==> same_shape(#[trigger] ms.areas@[j], src.areas@[j]),
                        forall|j: int, k2: int| 0 <= j < ms.areas@.len() && ms.areas@[j].map_type == MapType::Framed
                            && 0 <= k2 < ms.areas@[j].frames@.len()
                            ==> !old(fa).out().contains(#[trigger] ms.areas@[j].frames@[k2]),
                        forall|k1: int, k2: int| 0 <= k1 < k2 < ms.areas@[i as int].frames@.len()
                            ==> ms.areas@[i as int].frames@[k1] != ms.areas@[i as int].frames@[k2],
                        forall|j: int, k2: int, k3: int| 0 <= j < i && ms.areas@[j].map_type == MapType::Framed
                            && 0 <= k2 < ms.areas@[j].frames@.len() && 0 <= k3 < ms.areas@[i as int].frames@.len()
                            ==> #[trigger] ms.areas@[j].frames@[k2] != #[trigger] ms.areas@[i as int].frames@[k3],
                        src.frames_out(*old(fa)) ==> forall|j: int, k2: int| 0 <= j < i
                            && ms.areas@[j].map_type == MapType::Framed && 0 <= k2 < ms.areas@[j].frames@.len()
                            ==> fa.page(#[trigger] ms.areas@[j].frames@[k2]) == old(fa).page(src.areas@[j].frames@[k2]),
                        src.frames_out(*old(fa)) ==> forall|k2: int| 0 <= k2 < k
                            ==> fa.page(#[trigger] ms.areas@[i as int].frames@[k2]) == old(fa).page(src.areas@[i as int].frames@[k2]),
                    decreases ms.areas@[i as int].frames@.len() - k,
                {
                    assert(src.areas@[i as int].wf());
                    assert(ms.areas@[i as int].wf());
                    let sp = src.areas[i].frames[k];
                    let dp = ms.areas[i].frames[k];
                    if fa.is_backed(sp) && fa.is_backed(dp) {
                        let ghost before = *fa;
                        fa.copy_page(sp, dp);
                        proof {
                            assert(!old(fa).out().contains(dp));
                            if src.frames_out(*old(fa)) {
                                assert(old(fa).out().contains(sp));
                                assert forall|j: int, k2: int| 0 <= j < i
                                    && ms.areas@[j].map_type == MapType::Framed && 0 <= k2 < ms.areas@[j].frames@.len()
                                    implies fa.page(#[trigger] ms.areas@[j].frames@[k2]) == old(fa).page(src.areas@[j].frames@[k2]) by {
                                    assert(ms.areas@[j].frames@[k2] != dp);
                                    assert(before.out().contains(ms.areas@[j].frames@[k2]));
                                }
                                assert forall|k2: int| 0 <= k2 < k + 1
                                    implies fa.page(#[trigger] ms.areas@[i as int].frames@[k2]) == old(fa).page(src.areas@[i as int].frames@[k2]) by {
                                    if k2 < k {
                                        assert(ms.areas@[i as int].frames@[k2] != dp);
                                        assert(before.out().contains(ms.areas@[i as int].frames@[k2]));
                                    }
                                }
                            }
                        }
                    } else {
                        proof {
                            if src.frames_out(*old(fa)) {
                                assert(old(fa).out().contains(sp));
                                assert(fa.out().contains(dp));
                            }
                        }
                    }
                    k += 1;
                }
            }
            i += 1;
        }
        Some(ms)
    }
}

} // verus!

verus! {

/// Where the kernel image and the board's memory lie, in physical (and,
/// identity-mapped, virtual) addresses.
pub struct KernelLayout {
    pub stext: u64,
    pub etext: u64,
    pub srodata: u64,
    pub erodata: u64,
    pub sdata: u64,
    pub edata: u64,
    pub sbss_with_stack: u64,
    pub ebss: u64,
    pub ekernel: u64,
    pub strampoline: u64,
    pub memory_end: u64,
    /// Memory-mapped device regions, each a base address and a length.
    pub mmio: Vec<(u64, u64)>,
}

/// The `i`-th identity area of the kernel map: start, end, permission.
pub open spec fn kernel_region(l: KernelLayout, i: int) -> (u64, u64, u8) {
    if i == 0 {
        (l.stext, l.etext, MAP_R | MAP_X)
    } else if i == 1 {
        (l.srodata, l.erodata, MAP_R)
    } else if i == 2 {
        (l.sdata, l.edata, MAP_R | MAP_W)
    } else if i == 3 {
        (l.sbss_with_stack, l.ebss, MAP_R | MAP_W)
    } else if i == 4 {
        (l.ekernel, l.memory_end, MAP_R | MAP_W)
    } else {
        let m = l.mmio@[i - 5];
        (m.0, (m.0 + m.1) as u64, MAP_R | MAP_W)
    }
}

/// `true` when area `a` is the identity area over `[s, e)` with `perm`.
pub open spec fn is_identity_area(a: MapArea, s: u64, e: u64, perm: u8) -> bool {
    &&& a.start == spec_floor(s)
    &&& a.end == (if spec_ceil(e) < spec_floor(s) { spec_floor(s) } else { spec_ceil(e) })
    &&& a.map_type == MapType::Identical
    &&& a.map_perm == perm
}

/// First page of region `i` of layout `l`.
pub open spec fn spec_region_lo(l: KernelLayout, i: int) -> int {
    spec_floor(kernel_region(l, i).0)
}

/// End page (exclusive) of region `i` of layout `l`.
pub open spec fn spec_region_hi(l: KernelLayout, i: int) -> int {
    spec_area_end(kernel_region(l, i).0, kernel_region(l, i).1)
}

/// Pages of the first `n` regions of layout `l`.
pub open spec fn spec_region_pages(l: KernelLayout, n: int) -> int
    decreases n,
{
    if n <= 0 {
        0
    } else {
        spec_region_pages(l, n - 1) + (spec_region_hi(l, n - 1) - spec_region_lo(l, n - 1))
    }
}

/// The regions of layout `l` lie below the trampoline page and share no
/// page.
pub open spec fn spec_layout_ok(l: KernelLayout) -> bool {
    let n = 5 + l.mmio@.len() as int;
    &&& forall|i: int| 0 <= i < n ==> #[trigger] spec_region_hi(l, i) <= crate::config::TRAMPOLINE_VPN
    &&& forall|i: int, j: int| 0 <= i < n && 0 <= j < n && i != j ==>
            #[trigger] spec_region_hi(l, i) <= #[trigger] spec_region_lo(l, j) || spec_region_hi(l, j) <= spec_region_lo(l, i)
}

proof fn lemma_region_pages_mono(l: KernelLayout, m: int, n: int)
    requires
        0 <= m <= n,
    ensures
        0 <= spec_region_pages(l, m) <= spec_region_pages(l, n),
    decreases n,
{
    if m < n {
        lemma_region_pages_mono(l, m, n - 1);
    } else if m > 0 {
        lemma_region_pages_mono(l, m - 1, m - 1);
    }
}

/// Start, end and permission of region `i` of `layout`.
fn region(layout: &KernelLayout, i: usize) -> (r: (u64, u64, u8))
    requires
        i < 5 + layout.mmio@.len(),
        forall|k: int| 0 <= k < layout.mmio@.len() ==> #[trigger] layout.mmio@[k].0 + layout.mmio@[k].1 <= u64::MAX,
    ensures
        r == kernel_region(*layout, i as int),
{
    if i == 0 {
        (layout.stext, layout.etext, MAP_R | MAP_X)
    } else if i == 1 {
        (layout.srodata, layout.erodata, MAP_R)
    } else if i == 2 {
        (layout.sdata, layout.edata, MAP_R | MAP_W)
    } else if i == 3 {
        (layout.sbss_with_stack, layout.ebss, MAP_R | MAP_W)
    } else if i == 4 {
        (layout.ekernel, layout.memory_end, MAP_R | MAP_W)
    } else {
        let (base, len) = layout.mmio[i - 5];
        assert(layout.mmio@[i - 5].0 + layout.mmio@[i - 5].1 <= u64::MAX);
        (base, base + len, MAP_R | MAP_W)
    }
}

impl MemorySet {
    /// The kernel's address space: the trampoline, then identity areas for
    /// the text (R X), read-only data (R), data (R W), bss (R W), the rest
    /// of physical memory (R W) and each device region (R W). `None` when
    /// two of these overlap or frames run out; owed when the regions are
    /// apart and below the trampoline and enough frames are free.
    pub fn new_kernel(layout: &KernelLayout, fa: &mut FrameAllocator) -> (r: Option<MemorySet>)
        requires
            old(fa).wf(),
            layout.strampoline / PAGE_SIZE < PPN_LIMIT,
            layout.mmio@.len() + 5 <= usize::MAX,
            forall|i: int| 0 <= i < layout.mmio@.len() ==> #[trigger] layout.mmio@[i].0 + layout.mmio@[i].1 <= u64::MAX,
        ensures
            final(fa).wf(),
            final(fa).start == old(fa).start,
            final(fa).end == old(fa).end,
            spec_layout_ok(*layout)
                && old(fa).free_count() >= 3 + 3 * spec_region_pages(*layout, 5 + layout.mmio@.len() as int) ==> r.is_some(),
            r.is_some() ==> {
                let ms = r.unwrap();
                &&& ms.wf()
                &&& ms.has_trampoline(layout.strampoline / PAGE_SIZE)
                &&& ms.areas@.len() == 5 + layout.mmio@.len()
                &&& forall|i: int| 0 <= i < ms.areas@.len() ==> {
                        let (s, e, p) = kernel_region(*layout, i);
                        is_identity_area(#[trigger] ms.areas@[i], s, e, p)
                    }
            },
    {
        let n: usize = 5 + layout.mmio.len();
        let ghost free0 = old(fa).free_count();
        let ghost good = spec_layout_ok(*layout) && free0 >= 3 + 3 * spec_region_pages(*layout, n as int);
        proof {
            lemma_region_pages_mono(*layout, 0, n as int);
        }
        let mut ms = match MemorySet::new_bare(fa) {
            Some(m) => m,
            None => {
                return None;
            }
        };
        let tppn = layout.strampoline / PAGE_SIZE;
        proof {
            assert(ms@.dom() =~= Set::<u64>::empty());
        }
        if !ms.map_trampoline(tppn, fa) {
            return None;
        }
        let mut i: usize = 0;
        while i < n
            invariant
                forall|f: u64| #[trigger] ms.owns(f) ==> !old(fa).out().contains(f) && fa.out().contains(f),
                forall|p: u64| #[trigger] old(fa).out().contains(p) ==> fa.out().contains(p),
                n == 5 + layout.mmio@.len(),
                free0 == old(fa).free_count(),
                good == (spec_layout_ok(*layout) && free0 >= 3 + 3 * spec_region_pages(*layout, n as int)),
                good ==> fa.free_count() >= free0 - 3 - 3 * spec_region_pages(*layout, i as int),
                good ==> forall|v: u64| #[trigger] ms@.contains_key(v) ==> v == crate::config::TRAMPOLINE_VPN
                    || exists|j: int| 0 <= j < i && spec_region_lo(*layout, j) <= v < #[trigger] spec_region_hi(*layout, j),
                fa.wf(),
                fa.start == old(fa).start,
                fa.end == old(fa).end,
                ms.wf(),
                ms.has_trampoline(tppn),
                tppn == layout.strampoline / PAGE_SIZE,
                i <= n,
                ms.areas@.len() == i,
                forall|j: int| 0 <= j < layout.mmio@.len() ==> #[trigger] layout.mmio@[j].0 + layout.mmio@[j].1 <= u64::MAX,
                forall|j: int| 0 <= j < ms.areas@.len() ==> {
                    let (s, e, p) = kernel_region(*layout, j);
                    is_identity_area(#[trigger] ms.areas@[j], s, e, p)
                },
            decreases n - i,
        {
            let (s, e, p) = region(layout, i);
            let area = MapArea::new(s, e, MapType::Identical, p);
            let ghost before = ms;
            proof {
                lemma_region_pages_mono(*layout, i as int + 1, n as int);
                if good {
                    assert(area.start == spec_region_lo(*layout, i as int));
                    assert(area.end == spec_region_hi(*layout, i as int));
                    assert forall|v: u64| #[trigger] area.covers(v) implies !ms@.contains_key(v) by {
                        if ms@.contains_key(v) {
                            assert(spec_region_hi(*layout, i as int) <= crate::config::TRAMPOLINE_VPN);
                            if v != crate::config::TRAMPOLINE_VPN {
                                let j = choose|j: int| 0 <= j < i && spec_region_lo(*layout, j) <= v
                                    < #[trigger] spec_region_hi(*layout, j);
                                assert(spec_region_hi(*layout, j) <= spec_region_lo(*layout, i as int)
                                    || spec_region_hi(*layout, i as int) <= spec_region_lo(*layout, j));
                            }
                        }
                    }
                }
            }
            if !ms.push(area, None, fa) {
                return None;
            }
            proof {
                assert(ms.areas@[i as int] == ms.areas@.last());
                assert forall|j: int| 0 <= j < ms.areas@.len() implies {
                    let (s, e, p) = kernel_region(*layout, j);
                    is_identity_area(#[trigger] ms.areas@[j], s, e, p)
                } by {
                    if j < i {
                        assert(ms.areas@[j] == before.areas@[j]);
                    }
                }
                if good {
                    assert forall|v: u64| #[trigger] ms@.contains_key(v) implies v == crate::config::TRAMPOLINE_VPN
                        || exists|j: int| 0 <= j < i + 1 && spec_region_lo(*layout, j) <= v
                            < #[trigger] spec_region_hi(*layout, j) by {
                        if !before@.contains_key(v) {
                            assert(spec_region_lo(*layout, i as int) <= v < spec_region_hi(*layout, i as int));
                        } else if v != crate::config::TRAMPOLINE_VPN {
                            let j = choose|j: int| 0 <= j < i && spec_region_lo(*layout, j) <= v
                                < #[trigger] spec_region_hi(*layout, j);
                            assert(spec_region_lo(*layout, j) <= v < spec_region_hi(*layout, j));
                        }
                    }
                }
            }
            i += 1;
        }
        Some(ms)
    }
}

/// `true` when the middle of the text is not writable, the middle of the
/// read-only data is not writable, and the middle of the data is not
/// executable, in address space `ms`.
pub open spec fn spec_remap_ok(ms: MemorySet, l: KernelLayout) -> bool {
    let t = spec_floor(((l.stext as int + l.etext as int) / 2) as u64) as u64;
    let r = spec_floor(((l.srodata as int + l.erodata as int) / 2) as u64) as u64;
    let d = spec_floor(((l.sdata as int + l.edata as int) / 2) as u64) as u64;
    &&& ms@.contains_key(t) && !ms@[t].has(crate::page_table::PTE_W)
    &&& ms@.contains_key(r) && !ms@[r].has(crate::page_table::PTE_W)
    &&& ms@.contains_key(d) && !ms@[d].has(crate::page_table::PTE_X)
}

/// Checks that the kernel map keeps the text and read-only data
/// unwritable and the data unexecutable.
pub fn remap_test(kernel_space: &MemorySet, layout: &KernelLayout) -> (r: bool)
    ensures
        r == spec_remap_ok(*kernel_space, *layout),
{
    let mid_text = ((layout.stext as u128 + layout.etext as u128) / 2) as u64;
    let mid_rodata = ((layout.srodata as u128 + layout.erodata as u128) / 2) as u64;
    let mid_data = ((layout.sdata as u128 + layout.edata as u128) / 2) as u64;
    let t = kernel_space.translate(va_floor(mid_text));
    let r = kernel_space.translate(va_floor(mid_rodata));
    let d = kernel_space.translate(va_floor(mid_data));
    match (t, r, d) {
        (Some(t), Some(r), Some(d)) => !t.writable() && !r.writable() && !d.executable(),
        _ => false,
    }
}

} // verus!

verus! {

/// Bytes `[from, to)` of `data`, as a vector.
pub fn copy_range(data: &[u8], from: usize, to: usize) -> (r: Vec<u8>)
    requires
        from <= to <= data@.len(),
    ensures
        r@ == data@.subrange(from as int, to as int),
{
    let mut out: Vec<u8> = Vec::new();
    let mut i = from;
    while i < to
        invariant
            from <= i <= to <= data@.len(),
            out@ == data@.subrange(from as int, i as int),
        decreases to - i,
    {
        out.push(data[i]);
        assert(out@ =~= data@.subrange(from as int, i + 1));
        i += 1;
    }
    out
}

/// Program header `i` of ELF image `d`, read under its own file header.
pub open spec fn spec_ph(d: Seq<u8>, i: int) -> Option<crate::elf::ProgramInfo> {
    crate::elf::elf_program_header_of(d, crate::elf::elf_header_of(d).unwrap(), i as u16)
}

/// First page of the area that segment `ph` loads into.
pub open spec fn spec_seg_lo(ph: crate::elf::ProgramInfo) -> int {
    spec_floor(ph.vaddr)
}

/// End page (exclusive) of the area that segment `ph` loads into.
pub open spec fn spec_seg_hi(ph: crate::elf::ProgramInfo) -> int {
    spec_area_end(ph.vaddr, (ph.vaddr + ph.mem_size) as u64)
}

/// End page of the last loadable segment among the first `n` program
/// headers of `d`; 0 when there is none.
pub open spec fn spec_last_end(d: Seq<u8>, n: int) -> int
    decreases n,
{
    if n <= 0 {
        0
    } else if spec_ph(d, n - 1).unwrap().is_load {
        spec_seg_hi(spec_ph(d, n - 1).unwrap())
    } else {
        spec_last_end(d, n - 1)
    }
}

/// Pages of the loadable segments among the first `n` program headers.
pub open spec fn spec_load_pages(d: Seq<u8>, n: int) -> int
    decreases n,
{
    if n <= 0 {
        0
    } else if spec_ph(d, n - 1).unwrap().is_load {
        spec_load_pages(d, n - 1) + (spec_seg_hi(spec_ph(d, n - 1).unwrap()) - spec_seg_lo(spec_ph(d, n - 1).unwrap()))
    } else {
        spec_load_pages(d, n - 1)
    }
}

/// `true` when `d` is a 64-bit ELF image that `from_elf` lays out without
/// conflict: every program header can be read; each loadable segment's
/// addresses fit, its file bytes lie in `d` and fit its pages, and its
/// pages lie below the trap-context page, apart from every other loadable
/// segment and from the user stack placed above the last one.
pub open spec fn spec_elf_loadable(d: Seq<u8>) -> bool {
    let h = crate::elf::elf_header_of(d);
    let n = h.unwrap().ph_count as int;
    let l = spec_last_end(d, n);
    &&& h.is_some()
    &&& h.unwrap().is64
    &&& h.unwrap().ph_entry_size >= 56
    &&& l + 3 <= crate::config::TRAP_CONTEXT_VPN
    &&& forall|i: int| 0 <= i < n ==> (#[trigger] spec_ph(d, i)).is_some()
    &&& forall|i: int| 0 <= i < n && (#[trigger] spec_ph(d, i)).unwrap().is_load ==> {
            let ph = spec_ph(d, i).unwrap();
            &&& ph.vaddr + ph.mem_size <= u64::MAX
            &&& ph.offset + ph.file_size <= d.len()
            &&& ph.file_size <= (spec_seg_hi(ph) - spec_seg_lo(ph)) * PAGE_SIZE
            &&& spec_seg_hi(ph) <= l || l + 3 <= spec_seg_lo(ph)
            &&& spec_seg_hi(ph) <= crate::config::TRAP_CONTEXT_VPN
        }
    &&& forall|i: int, j: int| 0 <= i < n && 0 <= j < n && i != j && (#[trigger] spec_ph(d, i)).unwrap().is_load
            && (#[trigger] spec_ph(d, j)).unwrap().is_load ==> {
            let a = spec_ph(d, i).unwrap();
            let b = spec_ph(d, j).unwrap();
            spec_seg_hi(a) <= spec_seg_lo(b) || spec_seg_hi(b) <= spec_seg_lo(a)
        }
}

/// The permission of the area a loadable segment goes into: `U`, plus
/// `R`, `W`, `X` as the program header grants them.
pub open spec fn spec_segment_perm(ph: crate::elf::ProgramInfo) -> u8 {
    MAP_U | (if ph.readable { MAP_R } else { 0u8 }) | (if ph.writable { MAP_W } else { 0u8 })
        | (if ph.executable { MAP_X } else { 0u8 })
}

/// Area `a` of `ms` holds the file bytes of segment `ph` of `d` from its
/// first page on, in the frames of `fa`.
pub open spec fn spec_area_holds(ms: MemorySet, fa: FrameAllocator, d: Seq<u8>, a: int, ph: crate::elf::ProgramInfo) -> bool {
    &&& ph.file_size <= ms.areas@[a].frames@.len() * PAGE_SIZE
    &&& forall|k: int| 0 <= k < ph.file_size ==>
        #[trigger] fa.page(ms.areas@[a].frames@[k / PAGE_SIZE as int])[k % PAGE_SIZE as int] == d[ph.offset + k]
}

/// `ms` has a framed area for loadable segment `j` of `d` with the
/// segment's pages and permission, holding the segment's file bytes.
pub open spec fn spec_segment_loaded(ms: MemorySet, fa: FrameAllocator, d: Seq<u8>, j: int) -> bool {
    let ph = spec_ph(d, j).unwrap();
    exists|a: int| 0 <= a < ms.areas@.len() && (#[trigger] ms.areas@[a]).start == spec_seg_lo(ph)
        && ms.areas@[a].end == spec_seg_hi(ph) && ms.areas@[a].map_type == MapType::Framed
        && ms.areas@[a].map_perm == spec_segment_perm(ph) && spec_area_holds(ms, fa, d, a, ph)
}

/// Areas that stay in place, over frames whose contents stay, keep the
/// loaded segments they held.
proof fn lemma_segment_loaded_kept(m1: MemorySet, f1: FrameAllocator, m2: MemorySet, f2: FrameAllocator, d: Seq<u8>, n: int)
    requires
        m1.wf(),
        m1.frames_out(f1),
        m1.areas@.len() <= m2.areas@.len(),
        forall|a: int| 0 <= a < m1.areas@.len() ==> #[trigger] m2.areas@[a] == m1.areas@[a],
        forall|p: u64| #[trigger] f1.out().contains(p) ==> f2.page(p) == f1.page(p),
    ensures
        forall|j: int| 0 <= j < n && #[trigger] spec_segment_loaded(m1, f1, d, j) ==> spec_segment_loaded(m2, f2, d, j),
{
    assert forall|j: int| 0 <= j < n && #[trigger] spec_segment_loaded(m1, f1, d, j) implies spec_segment_loaded(m2, f2, d, j) by {
        let p = spec_ph(d, j).unwrap();
        let a = choose|a: int| 0 <= a < m1.areas@.len() && (#[trigger] m1.areas@[a]).start == spec_seg_lo(p)
            && m1.areas@[a].end == spec_seg_hi(p) && m1.areas@[a].map_type == MapType::Framed
            && m1.areas@[a].map_perm == spec_segment_perm(p) && spec_area_holds(m1, f1, d, a, p);
        assert(m2.areas@[a] == m1.areas@[a]);
        assert forall|k: int| 0 <= k < p.file_size implies
            #[trigger] f2.page(m2.areas@[a].frames@[k / PAGE_SIZE as int])[k % PAGE_SIZE as int] == d[p.offset + k] by {
            assert(f1.page(m1.areas@[a].frames@[k / PAGE_SIZE as int])[k % PAGE_SIZE as int] == d[p.offset + k]);
            assert((k / PAGE_SIZE as int) < m1.areas@[a].frames@.len()) by (nonlinear_arith)
                requires 0 <= k < p.file_size, p.file_size <= m1.areas@[a].frames@.len() * 4096;
            assert(f1.out().contains(m1.areas@[a].frames@[k / PAGE_SIZE as int]));
        }
    }
}

/// Page `v` lies in loadable segment `j` of `d`.
pub open spec fn spec_in_seg(d: Seq<u8>, j: int, v: u64) -> bool {
    spec_ph(d, j).unwrap().is_load && spec_seg_lo(spec_ph(d, j).unwrap()) <= v < spec_seg_hi(spec_ph(d, j).unwrap())
}

/// The page count of loadable segments grows with the number of headers
/// counted.
pub proof fn lemma_load_pages_mono(d: Seq<u8>, m: int, n: int)
    requires
        0 <= m <= n,
    ensures
        0 <= spec_load_pages(d, m) <= spec_load_pages(d, n),
    decreases n,
{
    if m < n {
        lemma_load_pages_mono(d, m, n - 1);
    } else if m > 0 {
        lemma_load_pages_mono(d, m - 1, m - 1);
    }
}

/// Frames enough for `from_elf` to load `d`.
pub open spec fn spec_elf_frames(d: Seq<u8>) -> int {
    12 + 3 * spec_load_pages(d, crate::elf::elf_header_of(d).unwrap().ph_count as int)
}

/// The trap-context page maps a frame of its own, readable and writable
/// and not reachable from user mode, through a framed area of one page.
pub open spec fn has_trap_context(ms: MemorySet) -> bool {
    &&& ms@.contains_key(crate::config::TRAP_CONTEXT_VPN)
    &&& exists|i: int| 0 <= i < ms.areas@.len()
            && (#[trigger] ms.areas@[i]).start == crate::config::TRAP_CONTEXT_VPN
            && ms.areas@[i].end == crate::config::TRAMPOLINE_VPN
            && ms.areas@[i].map_type == MapType::Framed
            && ms.areas@[i].map_perm == MAP_R | MAP_W
}

impl MemorySet {
    /// The user address space of ELF image `elf_data`, with the trampoline
    /// at frame `tppn`: a framed area with `U` for each loadable segment,
    /// holding the segment's file bytes; a user stack one guard page above
    /// the last segment; and the trap-context page. Returns the space, the
    /// top of the user stack and the entry point; `None` when the image is
    /// not a 64-bit ELF file the loader can read, a segment overlaps
    /// another, or frames run out.
    pub fn from_elf(elf_data: &[u8], tppn: u64, fa: &mut FrameAllocator) -> (r: Option<(MemorySet, u64, u64)>)
        requires
            old(fa).wf(),
            tppn < PPN_LIMIT,
        ensures
            final(fa).wf(),
            final(fa).start == old(fa).start,
            final(fa).end == old(fa).end,
            final(fa).current >= old(fa).current,
            forall|p: u64| #[trigger] old(fa).out().contains(p) ==> final(fa).out().contains(p),
            forall|p: u64| #[trigger] old(fa).out().contains(p) ==> final(fa).page(p) == old(fa).page(p),
            r.is_some() ==> {
                let (ms, sp, entry) = r.unwrap();
                &&& elf_data@.len() >= 64
                &&& crate::elf::elf_header_of(elf_data@).is_some()
                &&& elf_data@.subrange(0, 4) == crate::elf::elf_magic()
                &&& entry == crate::elf::elf_header_of(elf_data@).unwrap().entry
                &&& ms.wf()
                &&& ms.has_trampoline(tppn)
                &&& has_trap_context(ms)
                &&& ms.frames_out(*final(fa))
                &&& sp % PAGE_SIZE == 0
                &&& PAGE_SIZE <= sp < VPN_LIMIT * PAGE_SIZE
                &&& ms@.contains_key(((sp - 1) / PAGE_SIZE as int) as u64)
                &&& final(fa).backed(ms@[((sp - 1) / PAGE_SIZE as int) as u64].spec_ppn())
                &&& forall|j: int| 0 <= j < crate::elf::elf_header_of(elf_data@).unwrap().ph_count
                        ==> (#[trigger] spec_ph(elf_data@, j)).is_some()
                        && (spec_ph(elf_data@, j).unwrap().is_load ==> spec_segment_loaded(ms, *final(fa), elf_data@, j))
            },
            elf_data@.len() < 64 || crate::elf::elf_header_of(elf_data@).is_none() ==> r.is_none(),
            spec_elf_loadable(elf_data@) && old(fa).free_count() >= spec_elf_frames(elf_data@)
                ==> r.is_some() && final(fa).free_count() >= old(fa).free_count() - spec_elf_frames(elf_data@),
            spec_elf_loadable(elf_data@) && old(fa).free_count() >= spec_elf_frames(elf_data@) ==> {
                let (ms, sp, entry) = r.unwrap();
                let l = spec_last_end(elf_data@, crate::elf::elf_header_of(elf_data@).unwrap().ph_count as int);
                &&& sp == (l + 1) * PAGE_SIZE + crate::config::USER_STACK_SIZE
                &&& !ms@.contains_key(l as u64)
                &&& forall|v: u64| l + 1 <= v < l + 3 ==> #[trigger] ms@.contains_key(v)
            },
    {
        let ghost d = elf_data@;
        let ghost good = spec_elf_loadable(d) && old(fa).free_count() >= spec_elf_frames(d);
        let ghost free0 = old(fa).free_count();
        if elf_data.len() < 64 {
            return None;
        }
        let h = match crate::elf::parse_elf_header(elf_data) {
            Some(h) => h,
            None => {
                return None;
            }
        };
        if !h.is64 || h.ph_entry_size < 56 {
            return None;
        }
        proof {
            lemma_load_pages_mono(d, 0, h.ph_count as int);
        }
        let mut ms = match MemorySet::new_bare(fa) {
            Some(m) => m,
            None => {
                return None;
            }
        };
        if !ms.map_trampoline(tppn, fa) {
            return None;
        }
        let mut max_end_vpn: u64 = 0;
        let mut i: u16 = 0;
        proof {
            lemma_load_pages_mono(d, 0, h.ph_count as int);
            assert(ms@.dom() =~= Set::<u64>::empty().insert(crate::config::TRAMPOLINE_VPN)) by {
                assert forall|v: u64| #[trigger] ms@.contains_key(v) implies v == crate::config::TRAMPOLINE_VPN by {}
            }
        }
        while i < h.ph_count
            invariant
                forall|f: u64| #[trigger] ms.owns(f) ==> !old(fa).out().contains(f) && fa.out().contains(f),
                d == elf_data@,
                free0 == old(fa).free_count(),
                good == (spec_elf_loadable(d) && free0 >= spec_elf_frames(d)),
                good ==> fa.free_count() >= free0 - 3 - 3 * spec_load_pages(d, i as int),
                good ==> max_end_vpn == spec_last_end(d, i as int),
                good ==> forall|v: u64| #[trigger] ms@.contains_key(v) ==> v == crate::config::TRAMPOLINE_VPN
                    || exists|j: int| 0 <= j < i && #[trigger] spec_in_seg(d, j, v),
                forall|j: int| 0 <= j < i ==> (#[trigger] spec_ph(d, j)).is_some()
                    && (spec_ph(d, j).unwrap().is_load ==> spec_segment_loaded(ms, *fa, d, j)),
                i <= h.ph_count,
                elf_data@.len() >= 64,
                crate::elf::elf_header_of(elf_data@) == Some(h),
                h.is64,
                h.ph_entry_size >= 56,
                tppn < PPN_LIMIT,
                fa.wf(),
                fa.start == old(fa).start,
                fa.end == old(fa).end,
                fa.current >= old(fa).current,
                forall|p: u64| #[trigger] old(fa).out().contains(p) ==> fa.out().contains(p),
                forall|p: u64| #[trigger] old(fa).out().contains(p) ==> fa.page(p) == old(fa).page(p),
                ms.wf(),
                ms.has_trampoline(tppn),
                ms.frames_out(*fa),
                max_end_vpn <= VPN_LIMIT,
            decreases h.ph_count - i,
        {
            proof {
                if good {
                    assert(spec_ph(d, i as int).is_some());
                    lemma_load_pages_mono(d, i as int + 1, h.ph_count as int);
                }
            }
            let ph = match crate::elf::parse_program_header(elf_data, &h, i) {
                Some(ph) => ph,
                None => {
                    return None;
                }
            };
            assert(good ==> Some(ph) == spec_ph(d, i as int));
            let ghost ms_pre = ms;
            let ghost fa_pre = *fa;
            if ph.is_load {
                if ph.vaddr as u128 + ph.mem_size as u128 > u64::MAX as u128 {
                    return None;
                }
                let perm: u8 = MAP_U | (if ph.readable { MAP_R } else { 0u8 }) | (if ph.writable { MAP_W } else { 0u8 })
                    | (if ph.executable { MAP_X } else { 0u8 });
                let area = MapArea::new(ph.vaddr, ph.vaddr + ph.mem_size, MapType::Framed, perm);
                max_end_vpn = area.end;
                let pages = (area.end - area.start) as u128;
                assert(pages * PAGE_SIZE <= VPN_LIMIT * PAGE_SIZE) by (nonlinear_arith)
                    requires pages <= VPN_LIMIT;
                if ph.offset as u128 + ph.file_size as u128 > elf_data.len() as u128
                    || ph.file_size as u128 > pages * (PAGE_SIZE as u128) {
                    return None;
                }
                let seg = copy_range(elf_data, ph.offset as usize, (ph.offset + ph.file_size) as usize);
                proof {
                    if good {
                        assert(area.start == spec_seg_lo(ph) && area.end == spec_seg_hi(ph));
                        assert forall|v: u64| #[trigger] area.covers(v) implies !ms@.contains_key(v) by {
                            if ms@.contains_key(v) {
                                if v != crate::config::TRAMPOLINE_VPN {
                                    let j = choose|j: int| 0 <= j < i && #[trigger] spec_in_seg(d, j, v);
                                    assert(spec_ph(d, j).unwrap().is_load);
                                    assert(spec_ph(d, i as int).unwrap().is_load);
                                }
                            }
                        }
                    }
                }
                if !ms.push(area, Some(seg.as_slice()), fa) {
                    return None;
                }
                proof {
                    assert(spec_ph(d, i as int) == Some(ph));
                    assert forall|j: int| 0 <= j < i + 1 implies (#[trigger] spec_ph(d, j)).is_some()
                        && (spec_ph(d, j).unwrap().is_load ==> spec_segment_loaded(ms, *fa, d, j)) by {
                        if j < i {
                            if spec_ph(d, j).unwrap().is_load {
                                let p = spec_ph(d, j).unwrap();
                                let a = choose|a: int| 0 <= a < ms_pre.areas@.len() && (#[trigger] ms_pre.areas@[a]).start == spec_seg_lo(p)
                                    && ms_pre.areas@[a].end == spec_seg_hi(p) && ms_pre.areas@[a].map_type == MapType::Framed
                                    && ms_pre.areas@[a].map_perm == spec_segment_perm(p) && spec_area_holds(ms_pre, fa_pre, d, a, p);
                                assert(ms.areas@[a] == ms_pre.areas@[a]);
                                assert(ms_pre.areas@[a].wf());
                                assert forall|k: int| 0 <= k < p.file_size implies
                                    #[trigger] fa.page(ms.areas@[a].frames@[k / PAGE_SIZE as int])[k % PAGE_SIZE as int] == d[p.offset + k] by {
                                    assert(fa_pre.page(ms_pre.areas@[a].frames@[k / PAGE_SIZE as int])[k % PAGE_SIZE as int] == d[p.offset + k]);
                                    assert((k / PAGE_SIZE as int) < ms_pre.areas@[a].frames@.len()) by (nonlinear_arith)
                                        requires 0 <= k < p.file_size, p.file_size <= ms_pre.areas@[a].frames@.len() * 4096;
                                    assert(fa_pre.out().contains(ms_pre.areas@[a].frames@[k / PAGE_SIZE as int]));
                                }
                            }
                        } else {
                            let a = ms.areas@.len() - 1;
                            assert(ms.areas@[a].start == spec_seg_lo(ph));
                            assert(ms.areas@[a].wf());
                            assert forall|k: int| 0 <= k < ph.file_size implies
                                #[trigger] fa.page(ms.areas@[a].frames@[k / PAGE_SIZE as int])[k % PAGE_SIZE as int] == d[ph.offset + k] by {
                                assert(seg@[k] == d[ph.offset + k]);
                            }
                        }
                    }
                    if good {
                        assert forall|v: u64| #[trigger] ms@.contains_key(v) implies v == crate::config::TRAMPOLINE_VPN
                            || exists|j: int| 0 <= j < i + 1 && #[trigger] spec_in_seg(d, j, v) by {
                            if !ms_pre@.contains_key(v) {
                                assert(spec_in_seg(d, i as int, v));
                            } else if v != crate::config::TRAMPOLINE_VPN {
                                let j = choose|j: int| 0 <= j < i && #[trigger] spec_in_seg(d, j, v);
                                assert(spec_in_seg(d, j, v));
                            }
                        }
                    }
                }
            } else {
                proof {
                    assert(spec_ph(d, i as int) == Some(ph));
                    assert forall|j: int| 0 <= j < i + 1 implies (#[trigger] spec_ph(d, j)).is_some()
                        && (spec_ph(d, j).unwrap().is_load ==> spec_segment_loaded(ms, *fa, d, j)) by {}
                    if good {
                        assert forall|v: u64| #[trigger] ms@.contains_key(v) implies v == crate::config::TRAMPOLINE_VPN
                            || exists|j: int| 0 <= j < i + 1 && #[trigger] spec_in_seg(d, j, v) by {
                            if v != crate::config::TRAMPOLINE_VPN {
                                let j = choose|j: int| 0 <= j < i && #[trigger] spec_in_seg(d, j, v);
                                assert(spec_in_seg(d, j, v));
                            }
                        }
                    }
                }
            }
            i = i + 1;
        }
        if max_end_vpn + 3 > crate::config::TRAP_CONTEXT_VPN {
            return None;
        }
        let user_stack_bottom = max_end_vpn * PAGE_SIZE + PAGE_SIZE;
        let user_stack_top = user_stack_bottom + crate::config::USER_STACK_SIZE;
        proof {
            assert(user_stack_bottom < VPN_LIMIT * PAGE_SIZE);
            assert(user_stack_top < VPN_LIMIT * PAGE_SIZE);
            assert(spec_floor(user_stack_bottom) == max_end_vpn + 1);
            assert(user_stack_top == (max_end_vpn + 3) * 4096);
            assert(((max_end_vpn + 3) * 4096 + 4095) / 4096 == max_end_vpn + 3) by (nonlinear_arith);
            vstd::arithmetic::div_mod::lemma_small_mod(user_stack_top as nat, (VPN_LIMIT * PAGE_SIZE) as nat);
            assert(spec_ceil(user_stack_top) == ((user_stack_top as int) + 4095) / 4096);
            assert(spec_ceil(user_stack_top) == max_end_vpn + 3);
        }
        let stack_area = MapArea::new(user_stack_bottom, user_stack_top, MapType::Framed, MAP_R | MAP_W | MAP_U);
        let ghost ms_l = ms;
        let ghost fa_l = *fa;
        proof {
            if good {
                assert(stack_area.start == max_end_vpn + 1 && stack_area.end == max_end_vpn + 3);
                assert forall|v: u64| #[trigger] stack_area.covers(v) implies !ms@.contains_key(v) by {
                    if ms@.contains_key(v) && v != crate::config::TRAMPOLINE_VPN {
                        let j = choose|j: int| 0 <= j < h.ph_count && #[trigger] spec_in_seg(d, j, v);
                        assert(spec_ph(d, j).unwrap().is_load);
                    }
                }
            }
        }
        if !ms.push(stack_area, None, fa) {
            return None;
        }
        proof {
            if good {
                assert forall|v: u64| #[trigger] ms@.contains_key(v) implies v == crate::config::TRAMPOLINE_VPN
                    || max_end_vpn + 1 <= v < max_end_vpn + 3
                    || exists|j: int| 0 <= j < h.ph_count && #[trigger] spec_in_seg(d, j, v) by {
                    if ms_l@.contains_key(v) && v != crate::config::TRAMPOLINE_VPN {
                        let j = choose|j: int| 0 <= j < h.ph_count && #[trigger] spec_in_seg(d, j, v);
                        assert(spec_in_seg(d, j, v));
                    }
                }
            }
        }
        let ghost stack = ms.areas@.last();
        let ghost ms_after_stack = ms;
        if !ms.push(MapArea::new(user_stack_top, user_stack_top, MapType::Framed, MAP_R | MAP_W | MAP_U), None, fa) {
            return None;
        }
        let ghost ms_before_trap = ms;
        let trap_area = MapArea::new(crate::config::TRAP_CONTEXT, crate::config::TRAMPOLINE, MapType::Framed, MAP_R | MAP_W);
        proof {
            assert(trap_area.start == crate::config::TRAP_CONTEXT_VPN);
            assert(trap_area.end == crate::config::TRAMPOLINE_VPN);
            if good {
                assert forall|v: u64| #[trigger] trap_area.covers(v) implies !ms@.contains_key(v) by {
                    if ms@.contains_key(v) {
                        assert(ms_after_stack@.contains_key(v));
                        if v != crate::config::TRAMPOLINE_VPN && !(max_end_vpn + 1 <= v < max_end_vpn + 3) {
                            let j = choose|j: int| 0 <= j < h.ph_count && #[trigger] spec_in_seg(d, j, v);
                            assert(spec_ph(d, j).unwrap().is_load);
                        }
                    }
                }
            }
        }
        if !ms.push(trap_area, None, fa) {
            return None;
        }
        proof {
            assert forall|a: int| 0 <= a < ms_l.areas@.len() implies #[trigger] ms.areas@[a] == ms_l.areas@[a] by {
                assert(ms_after_stack.areas@[a] == ms_l.areas@[a]);
                assert(ms_before_trap.areas@[a] == ms_after_stack.areas@[a]);
            }
            lemma_segment_loaded_kept(ms_l, fa_l, ms, *fa, d, h.ph_count as int);
            let last = ms.areas@.len() - 1;
            assert(ms.areas@[last].start == crate::config::TRAP_CONTEXT_VPN);
            assert(ms.areas@[last].covers(crate::config::TRAP_CONTEXT_VPN));
            let top_vpn = ((user_stack_top - 1) / PAGE_SIZE as int) as u64;
            assert(user_stack_bottom < VPN_LIMIT * PAGE_SIZE);
            assert(user_stack_top < VPN_LIMIT * PAGE_SIZE);
            assert(spec_floor(user_stack_bottom) == max_end_vpn + 1);
            assert(user_stack_top == (max_end_vpn + 3) * 4096);
            assert(((max_end_vpn + 3) * 4096 + 4095) / 4096 == max_end_vpn + 3) by (nonlinear_arith);
            vstd::arithmetic::div_mod::lemma_small_mod(user_stack_top as nat, (VPN_LIMIT * PAGE_SIZE) as nat);
            assert(spec_ceil(user_stack_top) == ((user_stack_top as int) + 4095) / 4096);
            assert(spec_ceil(user_stack_top) == max_end_vpn + 3);
            assert(top_vpn == max_end_vpn + 2);
            assert(stack.covers(top_vpn));
            let si = ms_after_stack.areas@.len() - 1;
            assert(ms_after_stack.areas@[si].covers(top_vpn));
            assert(ms_after_stack@.contains_key(top_vpn));
            assert(ms_before_trap@.contains_key(top_vpn));
            assert(ms.areas@[si] == stack);
            assert(ms.areas@[si].covers(top_vpn));
            assert(ms.areas@[si].wf());
            assert(ms.areas@[si].map_type == MapType::Framed);
            let k = top_vpn - stack.start;
            assert(0 <= k < ms.areas@[si].frames@.len());
            let f = ms.areas@[si].frames@[k];
            assert(ms.frames_out(*fa));
            assert(fa.out().contains(ms.areas@[si].frames@[k]));
            crate::page_table::lemma_pte_fields(f, (MAP_R | MAP_W | MAP_U) | crate::page_table::PTE_V);
            assert(ms@[top_vpn].spec_ppn() == f);
        }
        proof {
            if good {
                let g = max_end_vpn;
                assert(!ms@.contains_key(g)) by {
                    if ms@.contains_key(g) {
                        assert(ms_before_trap@.contains_key(g));
                        assert(ms_after_stack@.contains_key(g));
                        if g != crate::config::TRAMPOLINE_VPN && !(max_end_vpn + 1 <= g < max_end_vpn + 3) {
                            let j = choose|j: int| 0 <= j < h.ph_count && #[trigger] spec_in_seg(d, j, g);
                            assert(spec_ph(d, j).unwrap().is_load);
                        }
                    }
                }
                assert forall|v: u64| max_end_vpn + 1 <= v < max_end_vpn + 3 implies #[trigger] ms@.contains_key(v) by {
                    assert(stack.covers(v));
                    let si = ms_after_stack.areas@.len() - 1;
                    assert(ms_after_stack.areas@[si].covers(v));
                    assert(ms_after_stack@.contains_key(v));
                }
            }
        }
        Some((ms, user_stack_top, h.entry))
    }
}

} // verus!

verus! {

impl MemorySet {
    /// Returns every frame the address space owns: its data frames and the
    /// frames of its page table.
    pub fn release(self, fa: &mut FrameAllocator)
        requires
            self.wf(),
            old(fa).wf(),
        ensures
            final(fa).wf(),
            final(fa).start == old(fa).start,
            final(fa).end == old(fa).end,
            final(fa).current == old(fa).current,
            final(fa).mem == old(fa).mem,
            forall|f: u64| #[trigger] old(fa).out().contains(f) && !self.owns(f) ==> final(fa).out().contains(f),
            forall|k: int| 0 <= k < self.page_table.frames@.len()
                ==> !final(fa).out().contains(#[trigger] self.page_table.frames@[k]),
            forall|i: int, k: int|
                0 <= i < self.areas@.len() && self.areas@[i].map_type == MapType::Framed
                && 0 <= k < self.areas@[i].frames@.len()
                ==> !final(fa).out().contains(#[trigger] self.areas@[i].frames@[k]),
    {
        let mut ms = self;
        ms.recycle_data_pages(fa);
        let mut k: usize = 0;
        while k < ms.page_table.frames.len()
            invariant
                fa.wf(),
                fa.start == old(fa).start,
                fa.end == old(fa).end,
                fa.current == old(fa).current,
                fa.mem == old(fa).mem,
                forall|f: u64| #[trigger] old(fa).out().contains(f) && !self.owns(f) ==> fa.out().contains(f),
                ms.page_table == self.page_table,
                k <= ms.page_table.frames@.len(),
                forall|i: int, k2: int|
                    0 <= i < self.areas@.len() && self.areas@[i].map_type == MapType::Framed
                    && 0 <= k2 < self.areas@[i].frames@.len()
                    ==> !fa.out().contains(#[trigger] self.areas@[i].frames@[k2]),
                forall|j: int| 0 <= j < k ==> !fa.out().contains(#[trigger] ms.page_table.frames@[j]),
            decreases ms.page_table.frames@.len() - k,
        {
            proof {
                assert(self.page_table.frames@.contains(ms.page_table.frames@[k as int]));
            }
            fa.free_frame(ms.page_table.frames[k]);
            k += 1;
        }
    }
}

} // verus!
