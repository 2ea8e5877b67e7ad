//! The mapped-region records of one address space.
use vstd::prelude::*;
use crate::config::PAGE_SIZE;

verus! {

/// Page number of the page that holds `va`.
pub open spec fn vpn_floor(va: int) -> int {
    va / (PAGE_SIZE as int)
}

/// Page number just past the last page that `va` reaches into: `va` rounded
/// up to a page boundary, in pages.
pub open spec fn vpn_ceil(va: int) -> int {
    va / (PAGE_SIZE as int) + if va % (PAGE_SIZE as int) == 0 { 0int } else { 1int }
}

/// Permission bit: readable.
pub const PERM_R: u8 = 0x2;

/// Permission bit: writable.
pub const PERM_W: u8 = 0x4;

/// Permission bit: executable.
pub const PERM_X: u8 = 0x8;

/// Permission bit: accessible from user mode.
pub const PERM_U: u8 = 0x10;

/// A mapped region: the pages `[start_vpn, end_vpn)` with permissions `perm`.
#[derive(Clone, Copy, Debug, PartialEq, Eq, Structural)]
pub struct MapArea {
    pub start_vpn: usize,
    pub end_vpn: usize,
    pub perm: u8,
}

/// Whether area `a` shares a page with the pages `[s, e)`.
pub open spec fn area_overlaps(a: MapArea, s: int, e: int) -> bool {
    a.start_vpn < e && s < a.end_vpn
}

/// Whether some area of `areas` shares a page with the pages `[s, e)`.
pub open spec fn overlaps_any(areas: Seq<MapArea>, s: int, e: int) -> bool {
    exists|i: int| 0 <= i < areas.len() && area_overlaps(areas[i], s, e)
}

/// Whether no two areas of `areas` share a page.
pub open spec fn areas_disjoint(areas: Seq<MapArea>) -> bool {
    forall|i: int, j: int|
        0 <= i < areas.len() && 0 <= j < areas.len() && i != j ==> !area_overlaps(
            #[trigger] areas[i],
            (#[trigger] areas[j]).start_vpn as int,
            areas[j].end_vpn as int,
        )
}

/// Whether area `i` of `areas`, ended at page `e` instead, would share a
/// page with no other area.
pub open spec fn resize_fits(areas: Seq<MapArea>, i: int, e: int) -> bool {
    forall|j: int| 0 <= j < areas.len() && j != i ==> !area_overlaps(#[trigger] areas[j], areas[i].start_vpn as int, e)
}

/// Whether area `a` covers exactly the pages `[s, e)`.
pub open spec fn area_is(a: MapArea, s: int, e: int) -> bool {
    a.start_vpn == s && a.end_vpn == e
}

/// Whether some area of `areas` covers exactly the pages `[s, e)`.
pub open spec fn matches_any(areas: Seq<MapArea>, s: int, e: int) -> bool {
    exists|i: int| 0 <= i < areas.len() && area_is(areas[i], s, e)
}

/// Whether `i` is the first index of `areas` whose area covers exactly the
/// pages `[s, e)`.
pub open spec fn first_exact(areas: Seq<MapArea>, i: int, s: int, e: int) -> bool {
    0 <= i < areas.len() && area_is(areas[i], s, e) && forall|j: int|
        0 <= j < i ==> !area_is(#[trigger] areas[j], s, e)
}

/// Whether `i` is the first index of `areas` whose area starts at page `s`.
pub open spec fn first_starting_at(areas: Seq<MapArea>, i: int, s: int) -> bool {
    0 <= i < areas.len() && areas[i].start_vpn == s && forall|j: int|
        0 <= j < i ==> (#[trigger] areas[j]).start_vpn != s
}

/// Page number of the page holding `va`.
pub fn floor_vpn(va: usize) -> (r: usize)
    ensures
        r == vpn_floor(va as int),
{
    va / PAGE_SIZE
}

/// `va` rounded up to a page boundary, in pages.
pub fn ceil_vpn(va: usize) -> (r: usize)
    ensures
        r == vpn_ceil(va as int),
{
    if va % PAGE_SIZE == 0 {
        va / PAGE_SIZE
    } else {
        va / PAGE_SIZE + 1
    }
}

/// An address space as the kernel tracks it: the token of its page table and
/// the regions mapped in it. The page table and the frames behind the
/// regions are kept by the memory-management layer.
pub struct MemorySet {
    pub token: usize,
    pub areas: Vec<MapArea>,
}

impl MemorySet {
    /// An address space with the given page table and regions.
    pub fn new(token: usize, areas: Vec<MapArea>) -> (r: Self)
        ensures
            r.token == token,
            r.areas@ == areas@,
    {
        MemorySet { token, areas }
    }

    /// Token of the page table.
    pub fn token(&self) -> (r: usize)
        ensures
            r == self.token,
    {
        self.token
    }

    /// A copy with the same regions, under the page table `token`.
    pub fn copy_with_token(&self, token: usize) -> (r: Self)
        ensures
            r.token == token,
            r.areas@ == self.areas@,
    {
        let mut areas: Vec<MapArea> = Vec::new();
        let n = self.areas.len();
        let mut i: usize = 0;
        while i < n
            invariant
                n == self.areas@.len(),
                0 <= i <= n,
                areas@ == self.areas@.subrange(0, i as int),
            decreases n - i,
        {
            areas.push(self.areas[i]);
            i = i + 1;
            assert(areas@ =~= self.areas@.subrange(0, i as int));
        }
        assert(areas@ =~= self.areas@);
        MemorySet { token, areas }
    }

    /// Whether a region already mapped shares a page with the addresses
    /// `[start_va, end_va)`.
    pub fn if_overlap(&self, start_va: usize, end_va: usize) -> (r: bool)
        ensures
            r == overlaps_any(self.areas@, vpn_floor(start_va as int), vpn_ceil(end_va as int)),
    {
        let s = floor_vpn(start_va);
        let e = ceil_vpn(end_va);
        let n = self.areas.len();
        let mut i: usize = 0;
        while i < n
            invariant
                n == self.areas@.len(),
                0 <= i <= n,
                s == vpn_floor(start_va as int),
                e == vpn_ceil(end_va as int),
                forall|j: int| 0 <= j < i ==> !area_overlaps(#[trigger] self.areas@[j], s as int, e as int),
            decreases n - i,
        {
            let a = self.areas[i];
            if a.start_vpn < e && s < a.end_vpn {
                return true;
            }
            i = i + 1;
        }
        false
    }

    /// Whether a mapped region starts exactly at `start_va` and ends where
    /// `end_va` rounds up to.
    pub fn if_matched(&self, start_va: usize, end_va: usize) -> (r: bool)
        ensures
            r == (start_va as int % PAGE_SIZE as int == 0 && matches_any(
                self.areas@,
                vpn_floor(start_va as int),
                vpn_ceil(end_va as int),
            )),
    {
        if start_va % PAGE_SIZE != 0 {
            return false;
        }
        let s = floor_vpn(start_va);
        let e = ceil_vpn(end_va);
        let n = self.areas.len();
        let mut i: usize = 0;
        while i < n
            invariant
                n == self.areas@.len(),
                0 <= i <= n,
                s == vpn_floor(start_va as int),
                e == vpn_ceil(end_va as int),
                start_va as int % PAGE_SIZE as int == 0,
                forall|j: int| 0 <= j < i ==> !area_is(#[trigger] self.areas@[j], s as int, e as int),
            decreases n - i,
        {
            let a = self.areas[i];
            if a.start_vpn == s && a.end_vpn == e {
                assert(area_is(self.areas@[i as int], s as int, e as int));
                return true;
            }
            i = i + 1;
        }
        false
    }

    /// Records a framed region over the pages that `[start_va, end_va)` touches.
    pub fn insert_framed_area(&mut self, start_va: usize, end_va: usize, perm: u8)
        ensures
            final(self).token == old(self).token,
            final(self).areas@ == old(self).areas@.push(
                MapArea {
                    start_vpn: vpn_floor(start_va as int) as usize,
                    end_vpn: vpn_ceil(end_va as int) as usize,
                    perm,
                },
            ),
    {
        let a = MapArea { start_vpn: floor_vpn(start_va), end_vpn: ceil_vpn(end_va), perm };
        self.areas.push(a);
    }

    /// Removes the first region that covers exactly the pages
    /// `[start_vpn, end_vpn)`; returns whether there was one.
    pub fn remove_area(&mut self, start_vpn: usize, end_vpn: usize) -> (r: bool)
        ensures
            final(self).token == old(self).token,
            r == matches_any(old(self).areas@, start_vpn as int, end_vpn as int),
            !r ==> *final(self) == *old(self),
            r ==> exists|i: int|
                #[trigger] first_exact(old(self).areas@, i, start_vpn as int, end_vpn as int)
                    && final(self).areas@ == old(self).areas@.remove(i),
    {
        let n = self.areas.len();
        let mut i: usize = 0;
        while i < n
            invariant
                n == self.areas@.len(),
                *self == *old(self),
                0 <= i <= n,
                forall|j: int| 0 <= j < i ==> !area_is(#[trigger] self.areas@[j], start_vpn as int, end_vpn as int),
            decreases n - i,
        {
            let a = self.areas[i];
            if a.start_vpn == start_vpn && a.end_vpn == end_vpn {
                assert(first_exact(old(self).areas@, i as int, start_vpn as int, end_vpn as int));
                self.areas.remove(i);
                return true;
            }
            i = i + 1;
        }
        false
    }

    /// Whether no two regions share a page.
    pub fn regions_disjoint(&self) -> (r: bool)
        ensures
            r == areas_disjoint(self.areas@),
    {
        let n = self.areas.len();
        let mut i: usize = 0;
        while i < n
            invariant
                n == self.areas@.len(),
                0 <= i <= n,
                forall|a: int, b: int| 0 <= a < i && 0 <= b < n && a != b ==> !area_overlaps(
                    #[trigger] self.areas@[a],
                    (#[trigger] self.areas@[b]).start_vpn as int,
                    self.areas@[b].end_vpn as int,
                ),
            decreases n - i,
        {
            let mut j: usize = 0;
            while j < n
                invariant
                    n == self.areas@.len(),
                    0 <= i < n,
                    0 <= j <= n,
                    forall|a: int, b: int| 0 <= a < i && 0 <= b < n && a != b ==> !area_overlaps(
                        #[trigger] self.areas@[a],
                        (#[trigger] self.areas@[b]).start_vpn as int,
                        self.areas@[b].end_vpn as int,
                    ),
                    forall|b: int| 0 <= b < j && b != i ==> !area_overlaps(
                        self.areas@[i as int],
                        (#[trigger] self.areas@[b]).start_vpn as int,
                        self.areas@[b].end_vpn as int,
                    ),
                decreases n - j,
            {
                let a = self.areas[i];
                let b = self.areas[j];
                if j != i && a.start_vpn < b.end_vpn && b.start_vpn < a.end_vpn {
                    assert(area_overlaps(self.areas@[i as int], self.areas@[j as int].start_vpn as int, self.areas@[j as int].end_vpn as int));
                    return false;
                }
                j = j + 1;
            }
            i = i + 1;
        }
        true
    }

    /// Whether the first region that starts at the page of `start_va`,
    /// ended where `new_end_va` rounds up to, would share a page with no other
    /// region; `false` when no region starts there.
    pub fn resize_would_fit(&self, start_va: usize, new_end_va: usize) -> (r: bool)
        ensures
            r == exists|i: int| #[trigger] first_starting_at(self.areas@, i, vpn_floor(start_va as int))
                && resize_fits(self.areas@, i, vpn_ceil(new_end_va as int)),
    {
        let s = floor_vpn(start_va);
        let e = ceil_vpn(new_end_va);
        let n = self.areas.len();
        let mut i: usize = 0;
        while i < n && self.areas[i].start_vpn != s
            invariant
                n == self.areas@.len(),
                s == vpn_floor(start_va as int),
                0 <= i <= n,
                forall|j: int| 0 <= j < i ==> (#[trigger] self.areas@[j]).start_vpn != s,
            decreases n - i,
        {
            i = i + 1;
        }
        if i == n {
            return false;
        }
        assert(first_starting_at(self.areas@, i as int, s as int));
        assert forall|k: int| #[trigger] first_starting_at(self.areas@, k, s as int) implies k == i by {
            if k < i {
                assert(self.areas@[k].start_vpn != s);
            } else if k > i {
                assert(self.areas@[i as int].start_vpn != s);
            }
        }
        let mut j: usize = 0;
        while j < n
            invariant
                n == self.areas@.len(),
                0 <= i < n,
                0 <= j <= n,
                self.areas@[i as int].start_vpn == s,
                s == vpn_floor(start_va as int),
                e == vpn_ceil(new_end_va as int),
                forall|k: int| #[trigger] first_starting_at(self.areas@, k, s as int) ==> k == i,
                forall|b: int| 0 <= b < j && b != i ==> !area_overlaps(#[trigger] self.areas@[b], s as int, e as int),
            decreases n - j,
        {
            let b = self.areas[j];
            if j != i && b.start_vpn < e && s < b.end_vpn {
                assert(area_overlaps(self.areas@[j as int], s as int, e as int));
                assert(!resize_fits(self.areas@, i as int, e as int));
                return false;
            }
            j = j + 1;
        }
        true
    }

    /// Whether a region starts at the page of `start_va`.
    pub fn has_area_at(&self, start_va: usize) -> (r: bool)
        ensures
            r == (exists|i: int| 0 <= i < self.areas@.len() && self.areas@[i].start_vpn == vpn_floor(start_va as int)),
    {
        let s = floor_vpn(start_va);
        let n = self.areas.len();
        let mut i: usize = 0;
        while i < n
            invariant
                n == self.areas@.len(),
                s == vpn_floor(start_va as int),
                0 <= i <= n,
                forall|j: int| 0 <= j < i ==> (#[trigger] self.areas@[j]).start_vpn != s,
            decreases n - i,
        {
            if self.areas[i].start_vpn == s {
                assert(self.areas@[i as int].start_vpn == s);
                return true;
            }
            i = i + 1;
        }
        false
    }

    /// Moves the end of the region that starts at the page of `start_va` to
    /// where `new_end_va` rounds up to; returns whether such a region exists.
    pub fn resize_area(&mut self, start_va: usize, new_end_va: usize) -> (r: bool)
        ensures
            final(self).token == old(self).token,
            r == (exists|i: int| 0 <= i < old(self).areas@.len() && old(self).areas@[i].start_vpn == vpn_floor(start_va as int)),
            !r ==> *final(self) == *old(self),
            r ==> exists|i: int|
                #[trigger] first_starting_at(old(self).areas@, i, vpn_floor(start_va as int))
                    && final(self).areas@ == old(self).areas@.update(
                    i,
                    MapArea { end_vpn: vpn_ceil(new_end_va as int) as usize, ..old(self).areas@[i] },
                ),
    {
        let s = floor_vpn(start_va);
        let n = self.areas.len();
        let mut i: usize = 0;
        while i < n
            invariant
                n == self.areas@.len(),
                *self == *old(self),
                s == vpn_floor(start_va as int),
                0 <= i <= n,
                forall|j: int| 0 <= j < i ==> (#[trigger] self.areas@[j]).start_vpn != s,
            decreases n - i,
        {
            let a = self.areas[i];
            if a.start_vpn == s {
                let e = ceil_vpn(new_end_va);
                self.areas[i] = MapArea { start_vpn: a.start_vpn, end_vpn: e, perm: a.perm };
                assert(first_starting_at(old(self).areas@, i as int, vpn_floor(start_va as int)));
                assert(self.areas@ =~= old(self).areas@.update(
                    i as int,
                    MapArea { end_vpn: vpn_ceil(new_end_va as int) as usize, ..old(self).areas@[i as int] },
                ));
                return true;
            }
            i = i + 1;
        }
        false
    }

    /// Releases every region (the frames go back to the allocator).
    pub fn recycle_data_pages(&mut self)
        ensures
            final(self).token == old(self).token,
            final(self).areas@ == Seq::<MapArea>::empty(),
    {
        self.areas.clear();
    }
}

} // verus!
