//! Sv39 page-table entries and page tables: map, unmap and translate, and
//! the reading and writing of user memory through a page table.

use vstd::prelude::*;
use std::collections::HashMap;
use crate::config::{PAGE_SIZE, PPN_LIMIT, VPN_LIMIT};
use crate::frame_allocator::FrameAllocator;

verus! {

broadcast use vstd::std_specs::hash::group_hash_axioms;

/// Entry is valid.
pub const PTE_V: u8 = 1;
/// Page is readable.
pub const PTE_R: u8 = 2;
/// Page is writable.
pub const PTE_W: u8 = 4;
/// Page is executable.
pub const PTE_X: u8 = 8;
/// Page is reachable from user mode.
pub const PTE_U: u8 = 16;
/// Mapping is global.
pub const PTE_G: u8 = 32;
/// Page was accessed.
pub const PTE_A: u8 = 64;
/// Page was written.
pub const PTE_D: u8 = 128;

/// One Sv39 page-table entry: a physical page number above ten flag bits
/// (the low eight are `V R W X U G A D`).
#[derive(Clone, Copy, Debug, PartialEq, Eq, Structural)]
pub struct PageTableEntry {
    pub bits: u64,
}

/// Physical page number held by entry bits `bits`.
pub open spec fn spec_pte_ppn(bits: u64) -> u64 {
    (bits >> 10u64) & 0xfff_ffff_ffffu64
}

/// Flags held by entry bits `bits`.
pub open spec fn spec_pte_flags(bits: u64) -> u8 {
    (bits & 0xffu64) as u8
}

/// An entry built from a frame and flags gives them back.
pub proof fn lemma_pte_fields(ppn: u64, flags: u8)
    requires
        ppn < PPN_LIMIT,
    ensures
        spec_pte_ppn((ppn << 10u64) | (flags as u64)) == ppn,
        spec_pte_flags((ppn << 10u64) | (flags as u64)) == flags,
{
    let f = flags as u64;
    assert(f < 256);
    assert((((ppn << 10u64) | f) >> 10u64) & 0xfff_ffff_ffffu64 == ppn) by (bit_vector)
        requires
            ppn < 0x1000_0000_0000u64,
            f < 256u64,
    ;
    assert(((ppn << 10u64) | f) & 0xffu64 == f) by (bit_vector)
        requires
            f < 256u64,
    ;
}

/// The flags of an entry do not depend on its frame number.
pub proof fn lemma_pte_flags(ppn: u64, flags: u8)
    ensures
        spec_pte_flags((ppn << 10u64) | (flags as u64)) == flags,
{
    let f = flags as u64;
    assert(f < 256);
    assert(((ppn << 10u64) | f) & 0xffu64 == f) by (bit_vector)
        requires
            f < 256u64,
    ;
}

/// Mapping a page and then translating it gives the entry with the frame
/// and the flags plus `V`; unmapping it afterwards makes translation give
/// nothing.
pub proof fn lemma_map_translate_unmap(
    before: Map<u64, PageTableEntry>,
    mapped: Map<u64, PageTableEntry>,
    unmapped: Map<u64, PageTableEntry>,
    vpn: u64,
    ppn: u64,
    flags: u8,
)
    requires
        ppn < PPN_LIMIT,
        mapped == before.insert(vpn, PageTableEntry { bits: (ppn << 10u64) | ((flags | PTE_V) as u64) }),
        unmapped == mapped.remove(vpn),
    ensures
        mapped.contains_key(vpn),
        mapped[vpn].spec_ppn() == ppn,
        mapped[vpn].spec_flags() == flags | PTE_V,
        mapped[vpn].has(PTE_V),
        !unmapped.contains_key(vpn),
{
    lemma_pte_fields(ppn, flags | PTE_V);
    let f = flags | PTE_V;
    assert(f & 1u8 != 0u8) by (bit_vector)
        requires f == flags | 1u8;
}

impl PageTableEntry {
    pub open spec fn spec_ppn(&self) -> u64 {
        spec_pte_ppn(self.bits)
    }

    pub open spec fn spec_flags(&self) -> u8 {
        spec_pte_flags(self.bits)
    }

    pub open spec fn has(&self, f: u8) -> bool {
        self.spec_flags() & f != 0
    }

    /// The entry for page `ppn` with `flags`.
    pub fn new(ppn: u64, flags: u8) -> (r: Self)
        requires
            ppn < PPN_LIMIT,
        ensures
            r.bits == (ppn << 10u64) | (flags as u64),
            r.spec_ppn() == ppn,
            r.spec_flags() == flags,
    {
        proof {
            lemma_pte_fields(ppn, flags);
        }
        PageTableEntry { bits: (ppn << 10u64) | (flags as u64) }
    }

    /// The all-zero entry, which is not valid.
    pub fn empty() -> (r: Self)
        ensures
            r.bits == 0,
            !r.has(PTE_V),
    {
        assert(spec_pte_flags(0) == 0) by (bit_vector);
        assert(0u8 & 1u8 == 0u8) by (bit_vector);
        PageTableEntry { bits: 0 }
    }

    /// The physical page number of the entry.
    pub fn ppn(&self) -> (r: u64)
        ensures
            r == self.spec_ppn(),
    {
        (self.bits >> 10u64) & 0xfff_ffff_ffffu64
    }

    /// The flag bits of the entry.
    pub fn flags(&self) -> (r: u8)
        ensures
            r == self.spec_flags(),
    {
        (self.bits & 0xffu64) as u8
    }

    /// `V` is set.
    pub fn is_valid(&self) -> (r: bool)
        ensures
            r == self.has(PTE_V),
    {
        self.flags() & PTE_V != 0
    }

    /// `R` is set.
    pub fn readable(&self) -> (r: bool)
        ensures
            r == self.has(PTE_R),
    {
        self.flags() & PTE_R != 0
    }

    /// `W` is set.
    pub fn writable(&self) -> (r: bool)
        ensures
            r == self.has(PTE_W),
    {
        self.flags() & PTE_W != 0
    }

    /// `X` is set.
    pub fn executable(&self) -> (r: bool)
        ensures
            r == self.has(PTE_X),
    {
        self.flags() & PTE_X != 0
    }
}

/// A three-level Sv39 page table. It owns its root and directory frames;
/// `entries` holds the valid leaves by virtual page number, and `dirs` the
/// frame of each directory table that a walk passes through.
pub struct PageTable {
    pub root_ppn: u64,
    pub frames: Vec<u64>,
    pub entries: HashMap<u64, PageTableEntry>,
    pub dirs: HashMap<u64, u64>,
}

impl PageTable {
    pub open spec fn wf(&self) -> bool {
        &&& self.root_ppn < PPN_LIMIT
        &&& forall|v: u64| #[trigger] self.entries@.contains_key(v) ==> v < VPN_LIMIT
        &&& forall|v: u64| #[trigger] self.entries@.contains_key(v) ==> self.entries@[v].has(PTE_V)
    }

    /// What the table maps, by virtual page number.
    pub open spec fn view(&self) -> Map<u64, PageTableEntry> {
        self.entries@
    }

    /// Number of frames the table owns.
    pub open spec fn frame_count(&self) -> nat {
        self.frames@.len()
    }

    /// A table with an empty root frame; `None` when no frame is free.
    pub fn new(fa: &mut FrameAllocator) -> (r: Option<Self>)
        requires
            old(fa).wf(),
        ensures
            final(fa).wf(),
            final(fa).start == old(fa).start,
            final(fa).end == old(fa).end,
            r.is_none() <==> (old(fa).recycled@.len() == 0 && old(fa).current == old(fa).end),
            r.is_some() ==> {
                let t = r.unwrap();
                &&& t.wf()
                &&& t@ == Map::<u64, PageTableEntry>::empty()
                &&& t.frames@ == seq![t.root_ppn]
                &&& final(fa).out() == old(fa).out().insert(t.root_ppn)
                &&& !old(fa).out().contains(t.root_ppn)
            },
            r.is_none() ==> final(fa).out() == old(fa).out(),
            r.is_none() ==> final(fa).free_count() == old(fa).free_count(),
            r.is_some() ==> final(fa).free_count() == old(fa).free_count() - 1,
            forall|p: u64| #[trigger] old(fa).out().contains(p) ==> final(fa).page(p) == old(fa).page(p),
            final(fa).current >= old(fa).current,
    {
        match fa.alloc_frame() {
            Some(root) => {
                let t = PageTable {
                    root_ppn: root,
                    frames: vec![root],
                    entries: HashMap::new(),
                    dirs: HashMap::new(),
                };
                assert(t.entries@ =~= Map::<u64, PageTableEntry>::empty());
                Some(t)
            }
            None => None,
        }
    }

    /// Makes sure the directory table with key `key` exists, allocating
    /// its frame when it does not. `false` when no frame is free.
    fn ensure_dir(&mut self, key: u64, fa: &mut FrameAllocator) -> (ok: bool)
        requires
            old(fa).wf(),
        ensures
            final(fa).wf(),
            final(fa).start == old(fa).start,
            final(fa).end == old(fa).end,
            final(self).entries == old(self).entries,
            final(self).root_ppn == old(self).root_ppn,
            ok ==> final(self).dirs@.contains_key(key),
            (old(self).dirs@.contains_key(key) || old(fa).free_count() >= 1) ==> ok,
            forall|p: u64| #[trigger] final(self).frames@.contains(p) ==> old(self).frames@.contains(p)
                || (!old(fa).out().contains(p) && final(fa).out().contains(p)),
            final(self).frames@.len() >= old(self).frames@.len(),
            final(self).frames@.len() <= old(self).frames@.len() + 1,
            final(fa).free_count() == old(fa).free_count() - (final(self).frames@.len() - old(self).frames@.len()),
            final(self).frames@.subrange(0, old(self).frames@.len() as int) == old(self).frames@,
            forall|p: u64| #[trigger] final(fa).out().contains(p) ==> old(fa).out().contains(p) || final(self).frames@.contains(p),
            forall|p: u64| #[trigger] old(fa).out().contains(p) ==> final(fa).out().contains(p),
            forall|p: u64| #[trigger] old(fa).out().contains(p) ==> final(fa).page(p) == old(fa).page(p),
            final(fa).current >= old(fa).current,
    {
        if self.dirs.contains_key(&key) {
            assert(self.frames@.subrange(0, self.frames@.len() as int) =~= self.frames@);
            return true;
        }
        match fa.alloc_frame() {
            Some(f) => {
                self.dirs.insert(key, f);
                self.frames.push(f);
                proof {
                    assert(self.frames@.subrange(0, old(self).frames@.len() as int) =~= old(self).frames@);
                    assert(self.frames@[self.frames@.len() - 1] == f);
                }
                true
            }
            None => {
                assert(self.frames@.subrange(0, self.frames@.len() as int) =~= self.frames@);
                false
            }
        }
    }

    /// Maps page `vpn` to frame `ppn` with `flags` and `V`, creating the
    /// directory tables the walk needs. `false`, with nothing mapped, when
    /// a directory frame cannot be had.
    pub fn map(&mut self, vpn: u64, ppn: u64, flags: u8, fa: &mut FrameAllocator) -> (ok: bool)
        requires
            old(self).wf(),
            old(fa).wf(),
            vpn < VPN_LIMIT,
            ppn < PPN_LIMIT,
            !old(self)@.contains_key(vpn),
        ensures
            final(self).wf(),
            final(fa).wf(),
            final(fa).start == old(fa).start,
            final(fa).end == old(fa).end,
            final(self).root_ppn == old(self).root_ppn,
            ok ==> final(self)@ == old(self)@.insert(vpn, PageTableEntry { bits: (ppn << 10u64) | ((flags | PTE_V) as u64) }),
            !ok ==> final(self)@ == old(self)@,
            old(fa).free_count() >= 2 ==> ok,
            final(self).frames@.len() <= old(self).frames@.len() + 2,
            final(self).frames@.len() >= old(self).frames@.len(),
            final(fa).free_count() == old(fa).free_count() - (final(self).frames@.len() - old(self).frames@.len()),
            final(self).frames@.subrange(0, old(self).frames@.len() as int) == old(self).frames@,
            forall|p: u64| #[trigger] final(fa).out().contains(p) ==> old(fa).out().contains(p) || final(self).frames@.contains(p),
            forall|p: u64| #[trigger] old(fa).out().contains(p) ==> final(fa).out().contains(p),
            forall|p: u64| #[trigger] old(fa).out().contains(p) ==> final(fa).page(p) == old(fa).page(p),
            final(fa).current >= old(fa).current,
            forall|p: u64| #[trigger] final(self).frames@.contains(p) ==> old(self).frames@.contains(p)
                || (!old(fa).out().contains(p) && final(fa).out().contains(p)),
    {
        let ghost frames0 = self.frames@;
        if !self.ensure_dir(vpn / 0x40000, fa) {
            return false;
        }
        let ghost frames1 = self.frames@;
        if !self.ensure_dir(0x10_0000 + vpn / 512, fa) {
            proof {
                assert(self.frames@.subrange(0, frames0.len() as int) =~= frames1.subrange(0, frames0.len() as int));
                assert forall|p: u64| #[trigger] fa.out().contains(p) implies old(fa).out().contains(p) || self.frames@.contains(p) by {
                    if !old(fa).out().contains(p) && frames1.contains(p) {
                        let k = choose|k: int| 0 <= k < frames1.len() && frames1[k] == p;
                        assert(self.frames@[k] == p);
                    }
                }
            }
            return false;
        }
        let f = flags | PTE_V;
        let pte = PageTableEntry::new(ppn, f);
        self.entries.insert(vpn, pte);
        proof {
            assert(self.frames@.subrange(0, frames0.len() as int) =~= frames1.subrange(0, frames0.len() as int));
            assert forall|p: u64| #[trigger] fa.out().contains(p) implies old(fa).out().contains(p) || self.frames@.contains(p) by {
                if !old(fa).out().contains(p) && frames1.contains(p) {
                    let k = choose|k: int| 0 <= k < frames1.len() && frames1[k] == p;
                    assert(self.frames@[k] == p);
                }
            }
            lemma_pte_fields(ppn, f);
            assert(f & 1 != 0) by (bit_vector)
                requires f == flags | 1u8;
            assert(pte.bits == (ppn << 10u64) | ((flags | PTE_V) as u64));
        }
        true
    }

    /// Removes the mapping of page `vpn`.
    pub fn unmap(&mut self, vpn: u64)
        requires
            old(self).wf(),
            old(self)@.contains_key(vpn),
        ensures
            final(self).wf(),
            final(self)@ == old(self)@.remove(vpn),
            final(self).frames == old(self).frames,
            final(self).root_ppn == old(self).root_ppn,
    {
        self.entries.remove(&vpn);
    }

    /// The entry that maps page `vpn`, if any.
    pub fn translate(&self, vpn: u64) -> (r: Option<PageTableEntry>)
        ensures
            r == (if self@.contains_key(vpn) { Some(self@[vpn]) } else { None::<PageTableEntry> }),
    {
        match self.entries.get(&vpn) {
            Some(e) => Some(*e),
            None => None,
        }
    }

    /// The physical address that virtual address `va` translates to.
    pub fn tranlate_va(&self, va: u64) -> (r: Option<u64>)
        requires
            self.wf(),
        ensures
            r == (if self@.contains_key(crate::address::spec_floor(va) as u64) {
                Some((self@[crate::address::spec_floor(va) as u64].spec_ppn() * PAGE_SIZE + va % PAGE_SIZE) as u64)
            } else {
                None::<u64>
            }),
    {
        let vpn = crate::address::va_floor(va);
        match self.translate(vpn) {
            Some(pte) => {
                let ppn = pte.ppn();
                let bits = pte.bits;
                assert(ppn < PPN_LIMIT) by (bit_vector)
                    requires ppn == (bits >> 10u64) & 0xfff_ffff_ffffu64;
                Some(crate::address::ppn_to_pa(ppn) + crate::address::page_offset(va))
            }
            None => None,
        }
    }

    /// The `satp` value that selects this table: Sv39 mode above the root.
    pub fn token(&self) -> (r: u64)
        requires
            self.wf(),
        ensures
            r == (8u64 << 60u64) | self.root_ppn,
    {
        (8u64 << 60u64) | self.root_ppn
    }
}

/// Byte at user virtual address `va`, read through `pt` from the frames of
/// `fa`; `None` when the page is not mapped or its frame holds no contents.
pub open spec fn spec_user_byte(pt: PageTable, fa: FrameAllocator, va: int) -> Option<u8> {
    let vpn = (va / PAGE_SIZE as int) as u64;
    if 0 <= va < VPN_LIMIT * PAGE_SIZE && pt@.contains_key(vpn) && fa.backed(pt@[vpn].spec_ppn()) {
        Some(fa.page(pt@[vpn].spec_ppn())[va % PAGE_SIZE as int])
    } else {
        None
    }
}

/// `true` when every byte of `[va, va + len)` can be reached through `pt`.
pub open spec fn spec_user_range_ok(pt: PageTable, fa: FrameAllocator, va: int, len: int) -> bool {
    forall|i: int| 0 <= i < len ==> (#[trigger] spec_user_byte(pt, fa, va + i)).is_some()
}

/// The bytes of `[va, va + len)`, when all are reachable.
pub open spec fn spec_user_bytes(pt: PageTable, fa: FrameAllocator, va: int, len: nat) -> Seq<u8> {
    Seq::new(len, |i: int| spec_user_byte(pt, fa, va + i).unwrap())
}

/// Frame of the page that holds user address `va`.
pub open spec fn spec_frame_of(pt: PageTable, va: int) -> u64 {
    pt@[(va / PAGE_SIZE as int) as u64].spec_ppn()
}

/// `true` when no two addresses of `[va, va + len)` reach the same byte of
/// a frame (no two of its pages share a frame).
pub open spec fn spec_no_alias(pt: PageTable, va: int, len: int) -> bool {
    forall|i: int, j: int| 0 <= i < len && 0 <= j < len && i != j
        && #[trigger] spec_frame_of(pt, va + i) == #[trigger] spec_frame_of(pt, va + j)
        ==> (va + i) % PAGE_SIZE as int != (va + j) % PAGE_SIZE as int
}

/// Address `a` reaches a byte of a frame that none of `[va, va + len)`
/// reaches.
pub open spec fn spec_apart(pt: PageTable, a: int, va: int, len: int) -> bool {
    forall|k: int| 0 <= k < len ==> !(spec_frame_of(pt, a) == #[trigger] spec_frame_of(pt, va + k)
        && a % PAGE_SIZE as int == (va + k) % PAGE_SIZE as int)
}

/// Where user address `va` lies: its frame and offset, when mapped and backed.
fn locate(pt: &PageTable, fa: &FrameAllocator, va: u64) -> (r: Option<(u64, u64)>)
    requires
        pt.wf(),
        fa.wf(),
    ensures
        r.is_some() <==> spec_user_byte(*pt, *fa, va as int).is_some(),
        r.is_some() ==> {
            let (p, o) = r.unwrap();
            &&& fa.backed(p)
            &&& o < PAGE_SIZE
            &&& spec_user_byte(*pt, *fa, va as int) == Some(fa.page(p)[o as int])
            &&& p == pt@[(va as int / PAGE_SIZE as int) as u64].spec_ppn()
            &&& o == va % PAGE_SIZE
        },
{
    if va >= VPN_LIMIT * PAGE_SIZE {
        return None;
    }
    let vpn = va / PAGE_SIZE;
    match pt.translate(vpn) {
        Some(pte) => {
            let p = pte.ppn();
            if p >= fa.start && p < fa.current {
                Some((p, va % PAGE_SIZE))
            } else {
                None
            }
        }
        None => None,
    }
}

/// Reads `len` bytes of user memory at `va` through `pt`; `None` when some
/// byte of the range is not reachable.
pub fn read_user_bytes(pt: &PageTable, fa: &FrameAllocator, va: u64, len: u64) -> (r: Option<Vec<u8>>)
    requires
        pt.wf(),
        fa.wf(),
        va + len <= u64::MAX,
    ensures
        r.is_some() <==> spec_user_range_ok(*pt, *fa, va as int, len as int),
        r.is_some() ==> r.unwrap()@ == spec_user_bytes(*pt, *fa, va as int, len as nat),
{
    let mut out: Vec<u8> = Vec::new();
    let mut i: u64 = 0;
    while i < len
        invariant
            pt.wf(),
            fa.wf(),
            va + len <= u64::MAX,
            i <= len,
            out@.len() == i,
            forall|k: int| 0 <= k < i ==> (#[trigger] spec_user_byte(*pt, *fa, va + k)).is_some(),
            forall|k: int| 0 <= k < i ==> out@[k] == spec_user_byte(*pt, *fa, va + k).unwrap(),
        decreases len - i,
    {
        match locate(pt, fa, va + i) {
            Some((p, o)) => {
                let b = fa.read_byte(p, o);
                out.push(b);
            }
            None => {
                assert(spec_user_byte(*pt, *fa, va + i).is_none());
                return None;
            }
        }
        i += 1;
    }
    assert(out@ =~= spec_user_bytes(*pt, *fa, va as int, len as nat));
    Some(out)
}

/// Writes `data` into user memory at `va` through `pt`. `false`, with
/// nothing written, when some byte of the range is not reachable.
pub fn write_user_bytes(pt: &PageTable, fa: &mut FrameAllocator, va: u64, data: &[u8]) -> (ok: bool)
    requires
        pt.wf(),
        old(fa).wf(),
        va + data@.len() <= u64::MAX,
    ensures
        final(fa).wf(),
        final(fa).start == old(fa).start,
        final(fa).current == old(fa).current,
        final(fa).end == old(fa).end,
        final(fa).recycled == old(fa).recycled,
        final(fa).out() == old(fa).out(),
        ok <==> spec_user_range_ok(*pt, *old(fa), va as int, data@.len() as int),
        ok ==> spec_user_range_ok(*pt, *final(fa), va as int, data@.len() as int),
        ok && spec_no_alias(*pt, va as int, data@.len() as int)
            ==> spec_user_bytes(*pt, *final(fa), va as int, data@.len()) == data@,
        !ok ==> *final(fa) == *old(fa),
        forall|a: int| (#[trigger] spec_user_byte(*pt, *old(fa), a)).is_some() && spec_apart(*pt, a, va as int, data@.len() as int)
            ==> spec_user_byte(*pt, *final(fa), a) == spec_user_byte(*pt, *old(fa), a),
{
    let len = data.len() as u64;
    let mut i: u64 = 0;
    while i < len
        invariant
            pt.wf(),
            fa.wf(),
            len == data@.len(),
            va + len <= u64::MAX,
            i <= len,
            forall|k: int| 0 <= k < i ==> (#[trigger] spec_user_byte(*pt, *fa, va + k)).is_some(),
        decreases len - i,
    {
        if locate(pt, fa, va + i).is_none() {
            return false;
        }
        i += 1;
    }
    let ghost fa0 = *fa;
    assert(fa0 == *old(fa));
    let mut j: u64 = 0;
    while j < len
        invariant
            pt.wf(),
            fa.wf(),
            fa0.wf(),
            len == data@.len(),
            va + len <= u64::MAX,
            j <= len,
            fa.start == fa0.start,
            fa.current == fa0.current,
            fa.end == fa0.end,
            fa.recycled == fa0.recycled,
            fa.out() == fa0.out(),
            forall|k: int| 0 <= k < len ==> (#[trigger] spec_user_byte(*pt, *fa, va + k)).is_some(),
            spec_no_alias(*pt, va as int, len as int) ==>
                forall|k: int| 0 <= k < j ==> spec_user_byte(*pt, *fa, va + k) == Some(data@[k]),
            forall|k: int| 0 <= k < len ==> (#[trigger] spec_user_byte(*pt, fa0, va + k)).is_some(),
            fa0 == *old(fa),
            forall|a: int| #[trigger] spec_user_byte(*pt, fa0, a).is_some() && spec_apart(*pt, a, va as int, len as int)
                ==> spec_user_byte(*pt, *fa, a) == spec_user_byte(*pt, fa0, a),
        decreases len - j,
    {
        let (p, o) = locate(pt, fa, va + j).unwrap();
        let ghost before = *fa;
        fa.write_byte(p, o, data[j as usize]);
        proof {
            assert forall|k: int| 0 <= k < len implies (#[trigger] spec_user_byte(*pt, *fa, va + k)).is_some() by {
                assert(spec_user_byte(*pt, before, va + k).is_some());
            }
            assert forall|a: int| #[trigger] spec_user_byte(*pt, fa0, a).is_some() && spec_apart(*pt, a, va as int, len as int)
                implies spec_user_byte(*pt, *fa, a) == spec_user_byte(*pt, fa0, a) by {
                assert(spec_user_byte(*pt, before, a) == spec_user_byte(*pt, fa0, a));
                assert(spec_frame_of(*pt, va + j) == p);
                let pa = spec_frame_of(*pt, a);
                if pa == p {
                    assert(a % PAGE_SIZE as int != (va + j) % PAGE_SIZE as int);
                }
            }
            if spec_no_alias(*pt, va as int, len as int) {
                assert forall|k: int| 0 <= k <= j implies spec_user_byte(*pt, *fa, va + k) == Some(data@[k]) by {
                    assert(spec_user_byte(*pt, before, va + k).is_some());
                    if k < j {
                        assert(spec_frame_of(*pt, va + j) == p);
                        if spec_frame_of(*pt, va + k) == p {
                            assert((va + k) % PAGE_SIZE as int != (va + j) % PAGE_SIZE as int);
                        }
                    }
                }
            }
        }
        j += 1;
    }
    proof {
        if spec_no_alias(*pt, va as int, len as int) {
            assert(spec_user_bytes(*pt, *fa, va as int, data@.len()) =~= data@);
        }
    }
    true
}

} // verus!

verus! {

/// One piece of a user buffer: bytes `[start, end)` of frame `ppn`.
#[derive(Clone, Copy, Debug, PartialEq, Eq, Structural)]
pub struct FrameSlice {
    pub ppn: u64,
    pub start: u64,
    pub end: u64,
}

/// Splits the user buffer `[va, va + len)` at page boundaries and
/// translates each piece through `pt`: the frame and the byte range of the
/// frame it occupies. `None` when a page of the buffer is not mapped.
pub fn translated_byte_buffer(pt: &PageTable, va: u64, len: u64) -> (r: Option<Vec<FrameSlice>>)
    requires
        pt.wf(),
        va as int + len as int <= VPN_LIMIT * PAGE_SIZE,
    ensures
        r.is_some() ==> {
            let v = r.unwrap()@;
            &&& forall|i: int| 0 <= i < v.len() ==> (#[trigger] v[i]).start < v[i].end <= PAGE_SIZE
            &&& forall|i: int| 0 <= i < v.len() ==> #[trigger] spec_slice_ok(*pt, va as int, v, i)
            &&& spec_prefix_len(v, v.len() as int) == len
        },
        r.is_none() ==> exists|a: int| va <= a < va + len && !#[trigger] pt@.contains_key((a / PAGE_SIZE as int) as u64),
{
    let mut v: Vec<FrameSlice> = Vec::new();
    let mut start = va;
    let end = va + len;
    while start < end
        invariant
            pt.wf(),
            va <= start <= end,
            end == va + len,
            end <= VPN_LIMIT * PAGE_SIZE,
            spec_prefix_len(v@, v@.len() as int) == start - va,
            forall|i: int| 0 <= i < v@.len() ==> (#[trigger] v@[i]).start < v@[i].end <= PAGE_SIZE,
            forall|i: int| 0 <= i < v@.len() ==> #[trigger] spec_slice_ok(*pt, va as int, v@, i),
        decreases end - start,
    {
        let vpn = start / PAGE_SIZE;
        let pte = match pt.translate(vpn) {
            Some(e) => e,
            None => {
                assert(va <= start < va + len && !pt@.contains_key((start as int / PAGE_SIZE as int) as u64));
                return None;
            }
        };
        let page_end = (vpn + 1) * PAGE_SIZE;
        let stop = if page_end < end { page_end } else { end };
        let s = FrameSlice { ppn: pte.ppn(), start: start % PAGE_SIZE, end: stop - vpn * PAGE_SIZE };
        let ghost old_v = v@;
        v.push(s);
        proof {
            assert(vpn * PAGE_SIZE <= start < (vpn + 1) * PAGE_SIZE);
            assert(start % PAGE_SIZE == start - vpn * PAGE_SIZE);
            assert(s.start < s.end <= PAGE_SIZE);
            lemma_prefix_push(old_v, s);
            assert(spec_prefix_len(v@, old_v.len() as int) == start - va) by {
                lemma_prefix_stable(old_v, s, old_v.len() as int);
            }
            assert(v@[old_v.len() as int] == s);
            assert(((va + spec_prefix_len(v@, old_v.len() as int)) / PAGE_SIZE as int) as u64 == vpn);
            assert forall|i: int| 0 <= i < old_v.len() implies spec_prefix_len(v@, i) == spec_prefix_len(old_v, i) by {
                lemma_prefix_stable(old_v, s, i);
            }
            assert forall|i: int| 0 <= i < v@.len() implies #[trigger] spec_slice_ok(*pt, va as int, v@, i) by {
                if i < old_v.len() {
                    lemma_prefix_stable(old_v, s, i);
                    assert(v@[i] == old_v[i]);
                    assert(spec_slice_ok(*pt, va as int, old_v, i));
                } else {
                    assert(i == old_v.len());
                    assert(spec_prefix_len(v@, i) == start - va);
                    assert(va + spec_prefix_len(v@, i) == start);
                    assert(pt@.contains_key(vpn));
                    assert(pte == pt@[vpn]);
                    assert(v@[i].ppn == pte.spec_ppn());
                }
            }
        }
        start = stop;
    }
    Some(v)
}

/// Piece `i` of `v` is where the user buffer at `va` continues: the frame
/// that its page maps, from the right offset.
pub open spec fn spec_slice_ok(pt: PageTable, va: int, v: Seq<FrameSlice>, i: int) -> bool {
    let a = va + spec_prefix_len(v, i);
    let vpn = (a / PAGE_SIZE as int) as u64;
    &&& pt@.contains_key(vpn)
    &&& v[i].ppn == pt@[vpn].spec_ppn()
    &&& v[i].start == a % PAGE_SIZE as int
}

/// Bytes covered by the first `n` pieces of `v`.
pub open spec fn spec_prefix_len(v: Seq<FrameSlice>, n: int) -> int
    decreases n,
{
    if n <= 0 || n > v.len() {
        0
    } else {
        spec_prefix_len(v, n - 1) + (v[n - 1].end - v[n - 1].start)
    }
}

proof fn lemma_prefix_push(v: Seq<FrameSlice>, s: FrameSlice)
    ensures
        spec_prefix_len(v.push(s), v.len() as int + 1) == spec_prefix_len(v, v.len() as int) + (s.end - s.start),
{
    lemma_prefix_stable(v, s, v.len() as int);
}

proof fn lemma_prefix_stable(v: Seq<FrameSlice>, s: FrameSlice, i: int)
    requires
        0 <= i <= v.len(),
    ensures
        spec_prefix_len(v.push(s), i) == spec_prefix_len(v, i),
    decreases i,
{
    if i > 0 {
        lemma_prefix_stable(v, s, i - 1);
        assert(v.push(s)[i - 1] == v[i - 1]);
    }
}

} // verus!
