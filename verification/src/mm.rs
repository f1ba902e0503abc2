//! Per-task address spaces: mapped virtual page regions with permissions,
//! backed by frames of a model of physical memory.

use vstd::prelude::*;

use crate::PAGE_SIZE;

verus! {

/// A permission set for a mapped region: readable, writable, executable,
/// user-accessible.  Composition is set union.
#[derive(Clone, Copy, PartialEq, Eq, Structural, Debug)]
pub struct MapPermission {
    pub r: bool,
    pub w: bool,
    pub x: bool,
    pub u: bool,
}

/// The permission set a 3-bit mmap port value denotes: bit 0 is read,
/// bit 1 is write, bit 2 is execute; task-owned mappings are always
/// user-accessible.
pub open spec fn port_permission(port: usize) -> MapPermission {
    MapPermission {
        r: port & 1 != 0,
        w: port & 2 != 0,
        x: port & 4 != 0,
        u: true,
    }
}

impl MapPermission {
    /// The union of two permission sets.
    pub fn union(self, other: MapPermission) -> (p: MapPermission)
        ensures
            p.r == (self.r || other.r),
            p.w == (self.w || other.w),
            p.x == (self.x || other.x),
            p.u == (self.u || other.u),
    {
        MapPermission {
            r: self.r || other.r,
            w: self.w || other.w,
            x: self.x || other.x,
            u: self.u || other.u,
        }
    }

    /// Decode a port bit mask into a permission set.
    pub fn from_port(port: usize) -> (p: MapPermission)
        ensures
            p == port_permission(port),
    {
        MapPermission {
            r: port & 1 != 0,
            w: port & 2 != 0,
            x: port & 4 != 0,
            u: true,
        }
    }
}

/// A mapped region of a task's address space: the half-open virtual page
/// range `[start, end)`, its permissions, and the physical frames backing it,
/// one frame per page starting at `frame_base`.
#[derive(Clone, Copy, PartialEq, Eq, Structural, Debug)]
pub struct MappedRegion {
    pub start: usize,
    pub end: usize,
    pub perm: MapPermission,
    pub frame_base: usize,
}

/// Virtual page `p` lies inside region `r`.
pub open spec fn region_contains(r: MappedRegion, p: int) -> bool {
    r.start <= p < r.end
}

/// The virtual page ranges of `a` and `b` intersect.
pub open spec fn regions_overlap(a: MappedRegion, b: MappedRegion) -> bool {
    a.start < b.end && b.start < a.end
}

/// The physical frame ranges of `a` and `b` are disjoint.
pub open spec fn frames_disjoint(a: MappedRegion, b: MappedRegion) -> bool {
    ||| a.frame_base + (a.end - a.start) <= b.frame_base
    ||| b.frame_base + (b.end - b.start) <= a.frame_base
}

/// The set of mapped virtual regions owned by one task.
pub struct AddressSpace {
    pub regions: Vec<MappedRegion>,
}

impl AddressSpace {
    /// Regions are nonempty, virtually disjoint, and backed by disjoint frames.
    pub open spec fn wf(self) -> bool {
        &&& forall|i: int|
            0 <= i < self.regions.len() ==> (#[trigger] self.regions[i]).start
                < self.regions[i].end
        &&& forall|i: int, j: int|
            0 <= i < self.regions.len() && 0 <= j < self.regions.len() && i != j
                ==> !regions_overlap(#[trigger] self.regions[i], #[trigger] self.regions[j])
        &&& forall|i: int, j: int|
            0 <= i < self.regions.len() && 0 <= j < self.regions.len() && i != j
                ==> frames_disjoint(#[trigger] self.regions[i], #[trigger] self.regions[j])
    }

    /// Every backing frame lies below `frames`.
    pub open spec fn backed_by(self, frames: int) -> bool {
        forall|i: int|
            0 <= i < self.regions.len() ==> (#[trigger] self.regions[i]).frame_base + (
            self.regions[i].end - self.regions[i].start) <= frames
    }

    /// Virtual page `p` is mapped by some region.
    pub open spec fn page_mapped(self, p: int) -> bool {
        exists|i: int| 0 <= i < self.regions.len() && region_contains(#[trigger] self.regions[i], p)
    }

    /// Every virtual page in `[l, r)` is mapped.
    pub open spec fn range_mapped(self, l: int, r: int) -> bool {
        forall|p: int| l <= p < r ==> self.page_mapped(p)
    }

    /// The physical page backing virtual page `p`, if `p` is mapped.
    pub open spec fn translate_page(self, p: int) -> Option<int> {
        if self.page_mapped(p) {
            let i = choose|i: int|
                0 <= i < self.regions.len() && region_contains(#[trigger] self.regions[i], p);
            Some(self.regions[i].frame_base + (p - self.regions[i].start))
        } else {
            None
        }
    }

    /// The permission of the region mapping virtual page `p`, if mapped.
    pub open spec fn perm_at(self, p: int) -> Option<MapPermission> {
        if self.page_mapped(p) {
            let i = choose|i: int|
                0 <= i < self.regions.len() && region_contains(#[trigger] self.regions[i], p);
            Some(self.regions[i].perm)
        } else {
            None
        }
    }

    /// Some region's virtual pages intersect `[l, r)`.
    pub open spec fn spec_conflict(self, l: int, r: int) -> bool {
        exists|i: int|
            0 <= i < self.regions.len() && (#[trigger] self.regions[i]).start < r && l
                < self.regions[i].end
    }

    /// An address space with no regions at all.
    pub fn empty() -> (a: AddressSpace)
        ensures
            a.regions@ =~= Seq::<MappedRegion>::empty(),
            a.wf(),
    {
        AddressSpace { regions: Vec::new() }
    }

    /// Index of the region containing virtual page `vpn`, if any.
    pub fn find_region(&self, vpn: usize) -> (r: Option<usize>)
        ensures
            match r {
                Some(i) => i < self.regions.len() && region_contains(
                    self.regions[i as int],
                    vpn as int,
                ),
                None => !self.page_mapped(vpn as int),
            },
    {
        let n = self.regions.len();
        let mut i: usize = 0;
        while i < n
            invariant
                i <= n,
                forall|k: int|
                    0 <= k < i ==> !region_contains(#[trigger] self.regions@[k], vpn as int),
            decreases n - i,
        {
            let reg = self.regions[i];
            if reg.start <= vpn && vpn < reg.end {
                return Some(i);
            }
            i = i + 1;
        }
        None
    }

    /// The physical page backing virtual page `vpn`, if mapped.
    pub fn translate(&self, vpn: usize) -> (r: Option<usize>)
        requires
            self.wf(),
            self.backed_by(usize::MAX as int),
        ensures
            match r {
                Some(ppn) => self.translate_page(vpn as int) == Some(ppn as int),
                None => self.translate_page(vpn as int) is None,
            },
    {
        match self.find_region(vpn) {
            Some(i) => {
                let reg = self.regions[i];
                proof {
                    lemma_translate_at(*self, i as int, vpn as int);
                }
                Some(reg.frame_base + (vpn - reg.start))
            },
            None => None,
        }
    }

    /// True if `[l, r)` intersects an existing region.
    pub fn has_conflict_with_range(&self, l: usize, r: usize) -> (b: bool)
        ensures
            b == self.spec_conflict(l as int, r as int),
    {
        let n = self.regions.len();
        let mut i: usize = 0;
        while i < n
            invariant
                i <= n,
                forall|k: int|
                    0 <= k < i ==> !((#[trigger] self.regions@[k]).start < r && l
                        < self.regions@[k].end),
            decreases n - i,
        {
            let reg = self.regions[i];
            if reg.start < r && l < reg.end {
                return true;
            }
            i = i + 1;
        }
        false
    }
}

impl AddressSpace {
    /// Create physical backing for the virtual page range `[l, r)` and
    /// record it as a new region with permission `perm`.  The caller must
    /// have ruled out a conflict with an existing region first.
    pub fn insert_framed_area(&mut self, mem: &mut PhysMem, l: usize, r: usize, perm: MapPermission)
        requires
            old(self).wf(),
            old(self).backed_by(old(mem).frames()),
            old(mem).wf(),
            l < r,
            !old(self).spec_conflict(l as int, r as int),
        ensures
            final(self).wf(),
            final(mem).wf(),
            final(self).backed_by(final(mem).frames()),
            final(self).regions@ == old(self).regions@.push(
                MappedRegion { start: l, end: r, perm, frame_base: (old(mem).frames()) as usize },
            ),
            final(mem).frames() == old(mem).frames() + (r - l),
            forall|a: int|
                0 <= a < old(mem).bytes.len() ==> final(mem).bytes[a] == old(mem).bytes[a],
            forall|p: int|
                final(self).page_mapped(p) <==> (old(self).page_mapped(p) || l <= p < r),
            forall|p: int|
                old(self).page_mapped(p) ==> final(self).translate_page(p) == old(
                    self,
                ).translate_page(p),
            forall|p: int|
                l <= p < r ==> final(self).translate_page(p) == Some(
                    old(mem).frames() + (p - l),
                ),
            forall|p: int|
                old(self).page_mapped(p) ==> final(self).perm_at(p) == old(self).perm_at(p),
            forall|p: int| l <= p < r ==> final(self).perm_at(p) == Some(perm),
    {
        let base = mem.alloc_zeroed(r - l);
        let reg = MappedRegion { start: l, end: r, perm, frame_base: base };
        self.regions.push(reg);
        proof {
            let pre = old(self).regions@;
            let post = self.regions@;
            let n = pre.len() as int;
            assert(post[n] == reg);
            assert forall|i: int, j: int|
                0 <= i < post.len() && 0 <= j < post.len() && i != j implies !regions_overlap(
                #[trigger] post[i],
                #[trigger] post[j],
            ) && frames_disjoint(#[trigger] post[i], #[trigger] post[j]) by {
                if i < n && j < n {
                    assert(!regions_overlap(pre[i], pre[j]));
                    assert(frames_disjoint(pre[i], pre[j]));
                } else if i == n {
                    assert(pre[j].frame_base + (pre[j].end - pre[j].start) <= old(mem).frames());
                } else {
                    assert(pre[i].frame_base + (pre[i].end - pre[i].start) <= old(mem).frames());
                }
            }
            assert forall|p: int| final(self).page_mapped(p) implies (old(self).page_mapped(p) || l
                <= p < r) by {
                let i = choose|i: int| 0 <= i < post.len() && region_contains(#[trigger] post[i], p);
                if i < n {
                    assert(old(self).page_mapped(p));
                }
            }
            assert forall|p: int| old(self).page_mapped(p) || l <= p < r implies final(self).page_mapped(p) by {
                if old(self).page_mapped(p) {
                    let i = choose|i: int|
                        0 <= i < pre.len() && region_contains(#[trigger] pre[i], p);
                    assert(region_contains(post[i], p));
                } else {
                    assert(region_contains(post[n], p));
                }
            }
            assert forall|p: int| old(self).page_mapped(p) implies final(self).translate_page(p)
                == old(self).translate_page(p) by {
                let i = choose|i: int| 0 <= i < pre.len() && region_contains(#[trigger] pre[i], p);
                lemma_translate_at(*old(self), i, p);
                assert(region_contains(post[i], p));
                lemma_translate_at(*final(self), i, p);
            }
            assert forall|p: int| l <= p < r implies final(self).translate_page(p) == Some(
                old(mem).frames() + (p - l),
            ) by {
                assert(region_contains(post[n], p));
                lemma_translate_at(*final(self), n, p);
            }
        }
    }
}

/// `n` is a sub-range of `o` carrying the matching slice of `o`'s frames
/// and `o`'s permission.
pub open spec fn piece_of(n: MappedRegion, o: MappedRegion) -> bool {
    &&& o.start <= n.start
    &&& n.end <= o.end
    &&& n.frame_base == o.frame_base + (n.start - o.start)
    &&& n.perm == o.perm
}

/// Pieces of virtually and physically disjoint regions are themselves
/// virtually and physically disjoint.
proof fn lemma_piece_disjoint(n1: MappedRegion, o1: MappedRegion, n2: MappedRegion, o2: MappedRegion)
    requires
        piece_of(n1, o1),
        piece_of(n2, o2),
        !regions_overlap(o1, o2),
        frames_disjoint(o1, o2),
        n1.start < n1.end,
        n2.start < n2.end,
        o1.start < o1.end,
        o2.start < o2.end,
    ensures
        !regions_overlap(n1, n2),
        frames_disjoint(n1, n2),
{
}

impl AddressSpace {
    /// Unmap exactly the virtual pages `[l, r)`.  Fails, and leaves the
    /// address space unchanged, unless every page in that span is currently
    /// mapped; on success those pages are removed, regions straddling the
    /// span being trimmed or split, with their remaining pages still backed
    /// by the same frames.
    pub fn unmap_area_exact_range(&mut self, l: usize, r: usize) -> (ret: isize)
        requires
            old(self).wf(),
            old(self).backed_by(usize::MAX as int),
            l <= r,
        ensures
            ret == 0 || ret == -1,
            (ret == 0) == old(self).range_mapped(l as int, r as int),
            ret == -1 ==> *final(self) == *old(self),
            final(self).wf(),
            forall|f: int| old(self).backed_by(f) ==> final(self).backed_by(f),
            ret == 0 ==> forall|p: int|
                final(self).page_mapped(p) <==> (old(self).page_mapped(p) && !(l <= p < r)),
            ret == 0 ==> forall|p: int|
                final(self).page_mapped(p) ==> final(self).translate_page(p) == old(
                    self,
                ).translate_page(p),
            ret == 0 ==> forall|p: int|
                final(self).page_mapped(p) ==> final(self).perm_at(p) == old(self).perm_at(p),
    {
        // First pass: the request is rejected whole unless every page of
        // the span is mapped.
        let mut p: usize = l;
        while p < r
            invariant
                l <= p <= r,
                forall|q: int| l <= q < p ==> old(self).page_mapped(q),
            decreases r - p,
        {
            match self.find_region(p) {
                Some(_) => {},
                None => {
                    proof {
                        assert(!old(self).range_mapped(l as int, r as int));
                    }
                    return -1;
                },
            }
            p = p + 1;
        }
        // Second pass: rebuild the region list, keeping only the parts of
        // each region outside the span.
        let ors = Ghost(self.regions@);
        let n = self.regions.len();
        let mut new_regions: Vec<MappedRegion> = Vec::new();
        let mut i: usize = 0;
        while i < n
            invariant
                i <= n,
                n == ors@.len(),
                self.regions@ == ors@,
                forall|k: int|
                    0 <= k < new_regions.len() ==> (#[trigger] new_regions@[k]).start
                        < new_regions@[k].end,
                forall|k: int|
                    0 <= k < new_regions.len() ==> ((#[trigger] new_regions@[k]).end <= l || r
                        <= new_regions@[k].start),
                forall|k: int|
                    0 <= k < new_regions.len() ==> exists|j: int|
                        0 <= j < i && piece_of(#[trigger] new_regions@[k], ors@[j]),
                forall|k1: int, k2: int|
                    0 <= k1 < new_regions.len() && 0 <= k2 < new_regions.len() && k1 != k2
                        ==> !regions_overlap(
                        #[trigger] new_regions@[k1],
                        #[trigger] new_regions@[k2],
                    ) && frames_disjoint(new_regions@[k1], new_regions@[k2]),
                forall|j: int, q: int|
                    0 <= j < i && #[trigger] region_contains(ors@[j], q) && !(l <= q < r)
                        ==> exists|k: int|
                        0 <= k < new_regions.len() && region_contains(
                            #[trigger] new_regions@[k],
                            q,
                        ),
            decreases n - i,
        {
            let reg = self.regions[i];
            let pre = Ghost(new_regions@);
            if reg.end <= l || r <= reg.start {
                new_regions.push(reg);
                proof {
                    assert(piece_of(reg, ors@[i as int]));
                    assert forall|k1: int, k2: int|
                        0 <= k1 < new_regions@.len() && 0 <= k2 < new_regions@.len() && k1
                            != k2 implies !regions_overlap(
                        #[trigger] new_regions@[k1],
                        #[trigger] new_regions@[k2],
                    ) && frames_disjoint(new_regions@[k1], new_regions@[k2]) by {
                        if k1 < pre@.len() && k2 < pre@.len() {
                        } else if k1 == pre@.len() {
                            let j2 = choose|j: int|
                                0 <= j < i && piece_of(#[trigger] new_regions@[k2], ors@[j]);
                            lemma_piece_disjoint(
                                new_regions@[k1],
                                ors@[i as int],
                                new_regions@[k2],
                                ors@[j2],
                            );
                        } else {
                            let j1 = choose|j: int|
                                0 <= j < i && piece_of(#[trigger] new_regions@[k1], ors@[j]);
                            lemma_piece_disjoint(
                                new_regions@[k1],
                                ors@[j1],
                                new_regions@[k2],
                                ors@[i as int],
                            );
                        }
                    }
                }
            } else {
                if reg.start < l {
                    let left = MappedRegion {
                        start: reg.start,
                        end: l,
                        perm: reg.perm,
                        frame_base: reg.frame_base,
                    };
                    new_regions.push(left);
                }
                if r < reg.end {
                    proof {
                        assert(ors@[i as int].frame_base + (ors@[i as int].end
                            - ors@[i as int].start) <= usize::MAX as int);
                    }
                    let right = MappedRegion {
                        start: r,
                        end: reg.end,
                        perm: reg.perm,
                        frame_base: reg.frame_base + (r - reg.start),
                    };
                    new_regions.push(right);
                }
                proof {
                    assert forall|k: int|
                        pre@.len() <= k < new_regions@.len() implies piece_of(
                        #[trigger] new_regions@[k],
                        ors@[i as int],
                    ) && new_regions@[k].start < new_regions@[k].end && (new_regions@[k].end <= l
                        || r <= new_regions@[k].start) by {}
                    assert forall|k1: int, k2: int|
                        0 <= k1 < new_regions@.len() && 0 <= k2 < new_regions@.len() && k1
                            != k2 implies !regions_overlap(
                        #[trigger] new_regions@[k1],
                        #[trigger] new_regions@[k2],
                    ) && frames_disjoint(new_regions@[k1], new_regions@[k2]) by {
                        if k1 < pre@.len() && k2 < pre@.len() {
                        } else if k1 >= pre@.len() && k2 >= pre@.len() {
                            assert(new_regions@[k1].end <= l || r <= new_regions@[k1].start);
                        } else if k1 >= pre@.len() {
                            let j2 = choose|j: int|
                                0 <= j < i && piece_of(#[trigger] new_regions@[k2], ors@[j]);
                            lemma_piece_disjoint(
                                new_regions@[k1],
                                ors@[i as int],
                                new_regions@[k2],
                                ors@[j2],
                            );
                        } else {
                            let j1 = choose|j: int|
                                0 <= j < i && piece_of(#[trigger] new_regions@[k1], ors@[j]);
                            lemma_piece_disjoint(
                                new_regions@[k1],
                                ors@[j1],
                                new_regions@[k2],
                                ors@[i as int],
                            );
                        }
                    }
                }
            }
            proof {
                assert forall|j: int, q: int|
                    0 <= j < i + 1 && #[trigger] region_contains(ors@[j], q) && !(l <= q
                        < r) implies exists|k: int|
                    0 <= k < new_regions@.len() && region_contains(#[trigger] new_regions@[k], q) by {
                    if j < i {
                        let k = choose|k: int|
                            0 <= k < pre@.len() && region_contains(#[trigger] pre@[k], q);
                        assert(region_contains(new_regions@[k], q));
                    } else {
                        if ors@[j].end <= l || r <= ors@[j].start {
                            assert(region_contains(new_regions@[pre@.len() as int], q));
                        } else if q < l {
                            assert(region_contains(new_regions@[pre@.len() as int], q));
                        } else {
                            assert(region_contains(new_regions@[new_regions@.len() - 1], q));
                        }
                    }
                }
            }
            i = i + 1;
        }
        self.regions = new_regions;
        proof {
            let post = self.regions@;
            assert forall|p0: int| final(self).page_mapped(p0) implies (old(self).page_mapped(p0)
                && !(l <= p0 < r)) by {
                let k = choose|k: int| 0 <= k < post.len() && region_contains(#[trigger] post[k], p0);
                let j = choose|j: int| 0 <= j < n && piece_of(#[trigger] post[k], ors@[j]);
                assert(region_contains(ors@[j], p0));
            }
            assert forall|p0: int| old(self).page_mapped(p0) && !(l <= p0 < r) implies final(self).page_mapped(p0) by {
                let j = choose|j: int| 0 <= j < n && region_contains(#[trigger] ors@[j], p0);
                assert(exists|k: int| 0 <= k < post.len() && region_contains(#[trigger] post[k], p0));
            }
            assert forall|p0: int| final(self).page_mapped(p0) implies final(self).translate_page(
                p0,
            ) == old(self).translate_page(p0) by {
                let k = choose|k: int| 0 <= k < post.len() && region_contains(#[trigger] post[k], p0);
                let j = choose|j: int| 0 <= j < n && piece_of(#[trigger] post[k], ors@[j]);
                assert(region_contains(ors@[j], p0));
                lemma_translate_at(*final(self), k, p0);
                lemma_translate_at(*old(self), j, p0);
            }
            assert forall|f: int| old(self).backed_by(f) implies final(self).backed_by(f) by {
                assert forall|k: int|
                    0 <= k < post.len() implies (#[trigger] post[k]).frame_base + (post[k].end
                        - post[k].start) <= f by {
                    let j = choose|j: int| 0 <= j < n && piece_of(#[trigger] post[k], ors@[j]);
                    assert(ors@[j].frame_base + (ors@[j].end - ors@[j].start) <= f);
                }
            }
        }
        0
    }
}

/// The model of physical memory: a flat byte store, one frame per
/// `PAGE_SIZE` bytes, grown frame by frame as regions are created.
pub struct PhysMem {
    pub bytes: Vec<u8>,
}

impl PhysMem {
    /// Memory always holds a whole number of frames.
    pub open spec fn wf(self) -> bool {
        self.bytes.len() as int % (PAGE_SIZE as int) == 0
    }

    /// Number of frames allocated so far.
    pub open spec fn frames(self) -> int {
        self.bytes.len() as int / (PAGE_SIZE as int)
    }

    /// A physical memory with no frames.
    pub fn new() -> (m: PhysMem)
        ensures
            m.wf(),
            m.frames() == 0,
            m.bytes@ =~= Seq::<u8>::empty(),
    {
        PhysMem { bytes: Vec::new() }
    }

    /// Number of allocated bytes.
    pub fn len(&self) -> (n: usize)
        ensures
            n == self.bytes.len(),
    {
        self.bytes.len()
    }

    /// Read one byte of physical memory.
    pub fn read_byte(&self, addr: usize) -> (b: u8)
        requires
            addr < self.bytes.len(),
        ensures
            b == self.bytes[addr as int],
    {
        self.bytes[addr]
    }

    /// Write one byte of physical memory.
    pub fn write_byte(&mut self, addr: usize, val: u8)
        requires
            addr < old(self).bytes.len(),
        ensures
            final(self).bytes@ == old(self).bytes@.update(addr as int, val),
    {
        self.bytes[addr] = val;
    }

    /// Claim `pages` fresh zeroed frames; returns the first new frame number.
    pub fn alloc_zeroed(&mut self, pages: usize) -> (base: usize)
        requires
            old(self).wf(),
        ensures
            final(self).wf(),
            base as int == old(self).frames(),
            final(self).frames() == old(self).frames() + pages,
            final(self).bytes.len() == old(self).bytes.len() + pages * (PAGE_SIZE as int),
            forall|a: int|
                0 <= a < old(self).bytes.len() ==> final(self).bytes[a] == old(self).bytes[a],
            forall|a: int|
                old(self).bytes.len() <= a < final(self).bytes.len() ==> final(self).bytes[a]
                    == 0u8,
    {
        proof {
            vstd::arithmetic::div_mod::lemma_fundamental_div_mod(
                self.bytes.len() as int,
                PAGE_SIZE as int,
            );
        }
        let base = self.bytes.len() / PAGE_SIZE;
        let mut done: usize = 0;
        while done < pages
            invariant
                done <= pages,
                self.bytes.len() == old(self).bytes.len() + done * (PAGE_SIZE as int),
                forall|a: int|
                    0 <= a < old(self).bytes.len() ==> self.bytes[a] == old(self).bytes[a],
                forall|a: int|
                    old(self).bytes.len() <= a < self.bytes.len() ==> self.bytes[a] == 0u8,
            decreases pages - done,
        {
            let mut b: usize = 0;
            while b < PAGE_SIZE
                invariant
                    b <= PAGE_SIZE,
                    self.bytes.len() == old(self).bytes.len() + done * (PAGE_SIZE as int) + b,
                    forall|a: int|
                        0 <= a < old(self).bytes.len() ==> self.bytes[a] == old(self).bytes[a],
                    forall|a: int|
                        old(self).bytes.len() <= a < self.bytes.len() ==> self.bytes[a] == 0u8,
                decreases PAGE_SIZE - b,
            {
                self.bytes.push(0u8);
                b = b + 1;
            }
            done = done + 1;
            proof {
                assert(done * (PAGE_SIZE as int) == (done - 1) * (PAGE_SIZE as int) + (
                PAGE_SIZE as int)) by (nonlinear_arith);
            }
        }
        proof {
            vstd::arithmetic::div_mod::lemma_fundamental_div_mod_converse(
                self.bytes.len() as int,
                PAGE_SIZE as int,
                old(self).frames() + pages as int,
                0,
            );
        }
        base
    }
}

/// A range that contains even one already-mapped page conflicts: a second
/// mapping request overlapping an existing region is always rejected.
pub proof fn lemma_mapped_overlap_conflicts(aspace: AddressSpace, l: int, r: int, p: int)
    requires
        l <= p < r,
        aspace.page_mapped(p),
    ensures
        aspace.spec_conflict(l, r),
{
    let i = choose|i: int|
        0 <= i < aspace.regions.len() && region_contains(#[trigger] aspace.regions[i], p);
    assert(aspace.regions[i].start < r && l < aspace.regions[i].end);
}

/// A nonempty span whose first page is unmapped can never be unmapped
/// whole: a second unmap of the same range is always rejected.
pub proof fn lemma_unmapped_page_fails(aspace: AddressSpace, l: int, r: int)
    requires
        l < r,
        !aspace.page_mapped(l),
    ensures
        !aspace.range_mapped(l, r),
{
}

/// Backing bounds are monotone: frames below `f1` are also below `f2`.
pub proof fn lemma_backed_by_mono(a: AddressSpace, f1: int, f2: int)
    requires
        a.backed_by(f1),
        f1 <= f2,
    ensures
        a.backed_by(f2),
{
}

/// In a well-formed address space the region containing a page determines
/// its translation.
pub proof fn lemma_translate_at(aspace: AddressSpace, i: int, p: int)
    requires
        aspace.wf(),
        0 <= i < aspace.regions.len(),
        region_contains(aspace.regions[i], p),
    ensures
        aspace.translate_page(p) == Some(
            aspace.regions[i].frame_base + (p - aspace.regions[i].start),
        ),
        aspace.perm_at(p) == Some(aspace.regions[i].perm),
{
    assert(aspace.page_mapped(p));
    let j = choose|j: int|
        0 <= j < aspace.regions.len() && region_contains(#[trigger] aspace.regions[j], p);
    if i != j {
        assert(regions_overlap(aspace.regions[i], aspace.regions[j]));
    }
}

/// Translation is injective on mapped pages: distinct virtual pages are
/// backed by distinct physical pages.
pub proof fn lemma_translate_injective(aspace: AddressSpace, p1: int, p2: int)
    requires
        aspace.wf(),
        aspace.page_mapped(p1),
        aspace.page_mapped(p2),
        p1 != p2,
    ensures
        aspace.translate_page(p1) != aspace.translate_page(p2),
{
    let i1 = choose|i: int|
        0 <= i < aspace.regions.len() && region_contains(#[trigger] aspace.regions[i], p1);
    let i2 = choose|i: int|
        0 <= i < aspace.regions.len() && region_contains(#[trigger] aspace.regions[i], p2);
    lemma_translate_at(aspace, i1, p1);
    lemma_translate_at(aspace, i2, p2);
    if i1 == i2 {
    } else {
        assert(frames_disjoint(aspace.regions[i1], aspace.regions[i2]));
    }
}

} // verus!
