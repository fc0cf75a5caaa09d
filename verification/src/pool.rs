//! A byte-granularity pool allocator over whole-page ranges.
//!
//! The pool owns a set of disjoint address ranges (regions) handed to it once
//! and never given back, and carves aligned blocks out of a free list. Its
//! invariant keeps every free block and every live allocation inside the owned
//! regions and pairwise disjoint, so no two live allocations ever share a byte
//! and nothing is ever handed out from memory the pool does not own.

use vstd::arithmetic::div_mod::{
    lemma_fundamental_div_mod, lemma_mod_bound, lemma_mod_multiples_basic,
};
use vstd::prelude::*;

verus! {

/// Granularity of the page source: the pool grows in whole pages.
pub const PAGE_SIZE: usize = 4096;

/// Allocation failure.
#[derive(Clone, Copy, PartialEq, Eq, Structural, Debug)]
pub enum AllocError {
    /// The request cannot be satisfied and no more pages are available.
    /// Recoverable: the caller may retry smaller or later.
    NoMemory,
    /// Growth failed while changing the address space: either the mapping
    /// service rejected the new range, or the range collides with memory the
    /// pool already owns. Fatal to the grow attempt, never retried.
    MemoryOverlap,
}

/// Size and alignment of one allocation, as the caller retains it.
#[derive(Clone, Copy, PartialEq, Eq, Structural, Debug)]
pub struct Layout {
    pub size: usize,
    pub align: usize,
}

pub open spec fn is_power_of_two(a: usize) -> bool {
    a >= 1 && (a & ((a - 1) as usize)) == 0
}

impl Layout {
    /// A valid description: nonzero size, power-of-two alignment.
    pub open spec fn wf(self) -> bool {
        self.size > 0 && self.align > 0 && is_power_of_two(self.align)
    }

    pub fn new(size: usize, align: usize) -> (r: Option<Layout>)
        ensures
            (r is Some) <==> (Layout { size, align }).wf(),
            r is Some ==> r->Some_0 == (Layout { size, align }),
    {
        if size > 0 && align > 0 && (align & (align - 1)) == 0 {
            Some(Layout { size, align })
        } else {
            None
        }
    }
}

/// `[a, a + an)` and `[b, b + bn)` share no address.
pub open spec fn ranges_disjoint(a: int, an: int, b: int, bn: int) -> bool {
    a + an <= b || b + bn <= a
}

/// `[a, a + an)` lies inside `[b, b + bn)`.
pub open spec fn range_within(a: int, an: int, b: int, bn: int) -> bool {
    b <= a && a + an <= b + bn
}

/// One contiguous address range.
#[derive(Clone, Copy, PartialEq, Eq, Structural, Debug)]
pub struct Extent {
    pub start: usize,
    pub size: usize,
}

impl Extent {
    pub open spec fn wf(self) -> bool {
        self.size > 0 && self.start + self.size <= usize::MAX
    }

    pub open spec fn end(self) -> int {
        self.start + self.size
    }

    pub open spec fn disjoint(self, other: Extent) -> bool {
        ranges_disjoint(self.start as int, self.size as int, other.start as int, other.size as int)
    }

    pub open spec fn covers(self, start: int, size: int) -> bool {
        range_within(start, size, self.start as int, self.size as int)
    }
}

/// `x` rounded up to the next multiple of `a`.
pub open spec fn spec_align_up(x: int, a: int) -> int
    recommends
        0 <= x,
        0 < a,
{
    if x % a == 0 {
        x
    } else {
        x + a - x % a
    }
}

pub proof fn lemma_align_up(x: int, a: int)
    requires
        0 <= x,
        0 < a,
    ensures
        x <= spec_align_up(x, a) < x + a,
        spec_align_up(x, a) % a == 0,
        x % a == 0 ==> spec_align_up(x, a) == x,
{
    lemma_mod_bound(x, a);
    if x % a != 0 {
        lemma_fundamental_div_mod(x, a);
        lemma_mod_multiples_basic(x / a + 1, a);
        assert(x + a - x % a == (x / a + 1) * a) by (nonlinear_arith)
            requires
                x == a * (x / a) + x % a,
        ;
    }
}

/// A multiple of `a` divided by `a` and multiplied back is itself.
pub proof fn lemma_div_of_multiple(m: int, a: int)
    requires
        0 <= m,
        0 < a,
        m % a == 0,
    ensures
        (m / a) * a == m,
{
    lemma_fundamental_div_mod(m, a);
    assert((m / a) * a == a * (m / a)) by (nonlinear_arith);
}

/// `x` rounded up to the next multiple of `a`, or `None` if that would not
/// fit the address width.
pub fn align_up_checked(x: usize, a: usize) -> (r: Option<usize>)
    requires
        a > 0,
    ensures
        (r is Some) <==> spec_align_up(x as int, a as int) <= usize::MAX,
        r is Some ==> r->Some_0 == spec_align_up(x as int, a as int),
{
    proof {
        lemma_align_up(x as int, a as int);
    }
    let m = x % a;
    if m == 0 {
        Some(x)
    } else {
        x.checked_add(a - m)
    }
}

/// A block of `l.size` bytes aligned to `l.align` fits inside `e`.
pub open spec fn fits(e: Extent, l: Layout) -> bool {
    spec_align_up(e.start as int, l.align as int) + l.size <= e.end()
}

/// `[start, start + size)` lies inside one of the extents of `rs`.
pub open spec fn covered_by(rs: Seq<Extent>, start: int, size: int) -> bool {
    exists|i: int| 0 <= i < rs.len() && (#[trigger] rs[i]).covers(start, size)
}

/// The byte pool: owned regions, a free list, and (ghost) the live
/// allocations with the layout each was made with.
pub struct DmaPool {
    regions: Vec<Extent>,
    free: Vec<Extent>,
    live: Ghost<Map<int, Layout>>,
}

impl DmaPool {
    /// The regions the pool has ever been grown by, in order of arrival.
    pub closed spec fn regions_seq(self) -> Seq<Extent> {
        self.regions@
    }

    /// The current free blocks.
    pub closed spec fn free_seq(self) -> Seq<Extent> {
        self.free@
    }

    /// The live allocations: start address to the layout it was made with.
    pub closed spec fn live_map(self) -> Map<int, Layout> {
        self.live@
    }

    /// `[start, start + size)` lies inside one owned region.
    pub open spec fn owns_range(self, start: int, size: int) -> bool {
        covered_by(self.regions_seq(), start, size)
    }

    pub open spec fn owns(self, addr: int) -> bool {
        self.owns_range(addr, 1)
    }

    /// The pool's invariant: regions are well-formed and pairwise disjoint;
    /// free blocks and live allocations are nonempty, lie inside owned
    /// regions, and are pairwise disjoint from each other and among
    /// themselves.
    pub open spec fn inv(self) -> bool {
        &&& forall|i: int|
            0 <= i < self.regions_seq().len() ==> (#[trigger] self.regions_seq()[i]).wf()
        &&& forall|i: int, j: int|
            0 <= i < self.regions_seq().len() && 0 <= j < self.regions_seq().len() && i != j ==> (
            #[trigger] self.regions_seq()[i]).disjoint(#[trigger] self.regions_seq()[j])
        &&& forall|i: int|
            0 <= i < self.free_seq().len() ==> (#[trigger] self.free_seq()[i]).wf()
                && self.owns_range(
                self.free_seq()[i].start as int,
                self.free_seq()[i].size as int,
            )
        &&& forall|i: int, j: int|
            0 <= i < self.free_seq().len() && 0 <= j < self.free_seq().len() && i != j ==> (
            #[trigger] self.free_seq()[i]).disjoint(#[trigger] self.free_seq()[j])
        &&& forall|a: int|
            #[trigger] self.live_map().contains_key(a) ==> self.live_map()[a].size > 0
                && self.owns_range(a, self.live_map()[a].size as int)
        &&& forall|a: int, i: int|
            #[trigger] self.live_map().contains_key(a) && 0 <= i < self.free_seq().len()
                ==> ranges_disjoint(
                a,
                self.live_map()[a].size as int,
                (#[trigger] self.free_seq()[i]).start as int,
                self.free_seq()[i].size as int,
            )
        &&& forall|a: int, b: int|
            #[trigger] self.live_map().contains_key(a) && #[trigger] self.live_map().contains_key(
                b,
            ) && a != b ==> ranges_disjoint(
                a,
                self.live_map()[a].size as int,
                b,
                self.live_map()[b].size as int,
            )
    }

    /// A fresh pool owning nothing.
    pub fn new() -> (r: DmaPool)
        ensures
            r.inv(),
            r.regions_seq() == Seq::<Extent>::empty(),
            r.free_seq() == Seq::<Extent>::empty(),
            r.live_map() == Map::<int, Layout>::empty(),
            forall|a: int| !r.owns(a),
    {
        DmaPool { regions: Vec::new(), free: Vec::new(), live: Ghost(Map::empty()) }
    }

    /// Adds `[start, start + size)` to the pool as one fresh region and one
    /// free block. Rejected (`MemoryOverlap`) when empty, overflowing the
    /// address width, or colliding with an already-owned region.
    #[verifier::loop_isolation(false)]
    pub fn add_region(&mut self, start: usize, size: usize) -> (r: Result<(), AllocError>)
        requires
            old(self).inv(),
        ensures
            final(self).inv(),
            final(self).live_map() == old(self).live_map(),
            forall|a: int| old(self).owns(a) ==> final(self).owns(a),
            (r is Ok) <==> (size > 0 && start + size <= usize::MAX && forall|i: int|
                0 <= i < old(self).regions_seq().len() ==> ranges_disjoint(
                    start as int,
                    size as int,
                    (#[trigger] old(self).regions_seq()[i]).start as int,
                    old(self).regions_seq()[i].size as int,
                )),
            r is Ok ==> final(self).regions_seq() == old(self).regions_seq().push(
                Extent { start, size },
            ) && final(self).free_seq() == old(self).free_seq().push(Extent { start, size }),
            r is Err ==> r->Err_0 == AllocError::MemoryOverlap && final(self).regions_seq() == old(
                self,
            ).regions_seq() && final(self).free_seq() == old(self).free_seq(),
    {
        if size == 0 {
            return Err(AllocError::MemoryOverlap);
        }
        if usize::MAX - start < size {
            return Err(AllocError::MemoryOverlap);
        }
        let e = Extent { start, size };
        let n = self.regions.len();
        let mut i: usize = 0;
        while i < n
            invariant
                i <= n,
                forall|j: int|
                    0 <= j < i ==> ranges_disjoint(
                        start as int,
                        size as int,
                        (#[trigger] self.regions_seq()[j]).start as int,
                        self.regions_seq()[j].size as int,
                    ),
            decreases n - i,
        {
            let c = self.regions[i];
            proof {
                assert(c == self.regions_seq()[i as int]);
            }
            // overlap test: neither range ends before the other starts
            if start < c.start + c.size && c.start < start + size {
                return Err(AllocError::MemoryOverlap);
            }
            i += 1;
        }
        let ghost pre = *self;
        self.regions.push(e);
        self.free.push(e);
        proof {
            assert forall|k: int| 0 <= k < self.free_seq().len() implies (
            #[trigger] self.free_seq()[k]).wf() && self.owns_range(
                self.free_seq()[k].start as int,
                self.free_seq()[k].size as int,
            ) by {
                if k < pre.free_seq().len() {
                    assert(self.free_seq()[k] == pre.free_seq()[k]);
                    let w = choose|m: int|
                        0 <= m < pre.regions_seq().len() && (#[trigger] pre.regions_seq()[m]).covers(
                            pre.free_seq()[k].start as int,
                            pre.free_seq()[k].size as int,
                        );
                    assert(self.regions_seq()[w].covers(
                        self.free_seq()[k].start as int,
                        self.free_seq()[k].size as int,
                    ));
                } else {
                    let w = self.regions_seq().len() - 1;
                    assert(self.regions_seq()[w].covers(e.start as int, e.size as int));
                }
            }
            assert forall|k: int, j: int|
                0 <= k < self.free_seq().len() && 0 <= j < self.free_seq().len() && k != j implies (
            #[trigger] self.free_seq()[k]).disjoint(#[trigger] self.free_seq()[j]) by {
                let pn = pre.free_seq().len() as int;
                if k < pn && j < pn {
                    assert(pre.free_seq()[k].disjoint(pre.free_seq()[j]));
                } else if k < pn {
                    let w = choose|m: int|
                        0 <= m < pre.regions_seq().len() && (#[trigger] pre.regions_seq()[m]).covers(
                            pre.free_seq()[k].start as int,
                            pre.free_seq()[k].size as int,
                        );
                    assert(self.free_seq()[k] == pre.free_seq()[k]);
                    assert(ranges_disjoint(
                        start as int,
                        size as int,
                        pre.regions_seq()[w].start as int,
                        pre.regions_seq()[w].size as int,
                    ));
                } else {
                    let w = choose|m: int|
                        0 <= m < pre.regions_seq().len() && (#[trigger] pre.regions_seq()[m]).covers(
                            pre.free_seq()[j].start as int,
                            pre.free_seq()[j].size as int,
                        );
                    assert(self.free_seq()[j] == pre.free_seq()[j]);
                    assert(ranges_disjoint(
                        start as int,
                        size as int,
                        pre.regions_seq()[w].start as int,
                        pre.regions_seq()[w].size as int,
                    ));
                }
            }
            assert forall|a: int| #[trigger] self.live_map().contains_key(a) implies self.live_map()[a].size
                > 0 && self.owns_range(a, self.live_map()[a].size as int) by {
                let w = choose|m: int|
                    0 <= m < pre.regions_seq().len() && (#[trigger] pre.regions_seq()[m]).covers(
                        a,
                        pre.live_map()[a].size as int,
                    );
                assert(self.regions_seq()[w].covers(a, self.live_map()[a].size as int));
            }
            assert forall|a: int, i2: int|
                #[trigger] self.live_map().contains_key(a) && 0 <= i2
                    < self.free_seq().len() implies ranges_disjoint(
                a,
                self.live_map()[a].size as int,
                (#[trigger] self.free_seq()[i2]).start as int,
                self.free_seq()[i2].size as int,
            ) by {
                if i2 == pre.free_seq().len() {
                    let w = choose|m: int|
                        0 <= m < pre.regions_seq().len() && (#[trigger] pre.regions_seq()[m]).covers(
                            a,
                            pre.live_map()[a].size as int,
                        );
                    assert(ranges_disjoint(
                        start as int,
                        size as int,
                        pre.regions_seq()[w].start as int,
                        pre.regions_seq()[w].size as int,
                    ));
                } else {
                    assert(self.free_seq()[i2] == pre.free_seq()[i2]);
                }
            }
            assert forall|a: int| old(self).owns(a) implies self.owns(a) by {
                let w = choose|m: int|
                    0 <= m < pre.regions_seq().len() && (#[trigger] pre.regions_seq()[m]).covers(
                        a,
                        1,
                    );
                assert(self.regions_seq()[w].covers(a, 1));
            }
        }
        Ok(())
    }

    /// Allocates `layout.size` bytes aligned to `layout.align` out of the free
    /// list, or reports `NoMemory` exactly when no free block can hold such a
    /// block. On success the new block lies inside the owned regions and is
    /// recorded live under its start address.
    pub fn allocate(&mut self, layout: Layout) -> (r: Result<usize, AllocError>)
        requires
            old(self).inv(),
            layout.wf(),
        ensures
            final(self).inv(),
            final(self).regions_seq() == old(self).regions_seq(),
            (r is Ok) <==> exists|i: int|
                0 <= i < old(self).free_seq().len() && fits(
                    #[trigger] old(self).free_seq()[i],
                    layout,
                ),
            r is Err ==> r->Err_0 == AllocError::NoMemory && final(self).free_seq() == old(
                self,
            ).free_seq() && final(self).live_map() == old(self).live_map(),
            r is Ok ==> ({
                let a = r->Ok_0 as int;
                &&& a % layout.align as int == 0
                &&& a + layout.size <= usize::MAX
                &&& final(self).owns_range(a, layout.size as int)
                &&& !old(self).live_map().contains_key(a)
                &&& final(self).live_map() == old(self).live_map().insert(a, layout)
            }),
            // first fit: the block carved is the aligned head of the first
            // free block that can hold the request
            r is Ok ==> exists|i: int|
                {
                    &&& 0 <= i < old(self).free_seq().len()
                    &&& #[trigger] fits(old(self).free_seq()[i], layout)
                    &&& forall|j: int|
                        0 <= j < i ==> !fits(#[trigger] old(self).free_seq()[j], layout)
                    &&& r->Ok_0 == spec_align_up(
                        old(self).free_seq()[i].start as int,
                        layout.align as int,
                    )
                },
    {
        match self.find_fit(layout) {
            None => Err(AllocError::NoMemory),
            Some((idx, astart)) => {
                let ghost pre = *self;
                proof {
                    lemma_align_up(pre.free_seq()[idx as int].start as int, layout.align as int);
                }
                let blk = self.free.swap_remove(idx);
                let bend = blk.start + blk.size;
                if astart > blk.start {
                    self.free.push(Extent { start: blk.start, size: astart - blk.start });
                }
                let aend = astart + layout.size;
                if aend < bend {
                    self.free.push(Extent { start: aend, size: bend - aend });
                }
                self.live = Ghost(self.live@.insert(astart as int, layout));
                proof {
                    lemma_carve(pre, *self, idx as int, astart as int, layout);
                }
                Ok(astart)
            },
        }
    }

    /// First free block that can hold a `layout` block, with the aligned start
    /// address inside it.
    #[verifier::loop_isolation(false)]
    fn find_fit(&self, layout: Layout) -> (r: Option<(usize, usize)>)
        requires
            self.inv(),
            layout.wf(),
        ensures
            (r is Some) <==> exists|i: int|
                0 <= i < self.free_seq().len() && fits(#[trigger] self.free_seq()[i], layout),
            r is Some ==> ({
                let (idx, astart) = r->Some_0;
                &&& 0 <= idx < self.free_seq().len()
                &&& fits(self.free_seq()[idx as int], layout)
                &&& forall|j: int| 0 <= j < idx ==> !fits(#[trigger] self.free_seq()[j], layout)
                &&& astart == spec_align_up(
                    self.free_seq()[idx as int].start as int,
                    layout.align as int,
                )
            }),
    {
        let n = self.free.len();
        let mut i: usize = 0;
        while i < n
            invariant
                i <= n,
                forall|j: int| 0 <= j < i ==> !fits(#[trigger] self.free_seq()[j], layout),
            decreases n - i,
        {
            let e = self.free[i];
            proof {
                assert(e == self.free_seq()[i as int]);
                lemma_align_up(e.start as int, layout.align as int);
            }
            match align_up_checked(e.start, layout.align) {
                Some(astart) => {
                    let bend = e.start + e.size;
                    if astart <= bend && layout.size <= bend - astart {
                        proof {
                            assert(fits(self.free_seq()[i as int], layout));
                        }
                        return Some((i, astart));
                    }
                },
                None => {},
            }
            proof {
                assert(!fits(self.free_seq()[i as int], layout));
            }
            i += 1;
        }
        None
    }

    /// Returns the block at `addr` to the free list. The caller must pass the
    /// very layout the block was allocated with: a mismatched layout is a
    /// contract violation, excluded here by precondition rather than defended
    /// against at run time (verified callers cannot reach it).
    pub fn release(&mut self, addr: usize, layout: Layout)
        requires
            old(self).inv(),
            old(self).live_map().contains_key(addr as int),
            old(self).live_map()[addr as int] == layout,
        ensures
            final(self).inv(),
            final(self).regions_seq() == old(self).regions_seq(),
            final(self).live_map() == old(self).live_map().remove(addr as int),
            final(self).free_seq() == old(self).free_seq().push(
                Extent { start: addr, size: layout.size },
            ),
    {
        self.free.push(Extent { start: addr, size: layout.size });
        let ghost pre = *old(self);
        self.live = Ghost(self.live@.remove(addr as int));
        proof {
            let e = Extent { start: addr, size: layout.size };
            let w = choose|m: int|
                0 <= m < pre.regions_seq().len() && (#[trigger] pre.regions_seq()[m]).covers(
                    addr as int,
                    pre.live_map()[addr as int].size as int,
                );
            assert(pre.regions_seq()[w].wf());
            assert forall|k: int| 0 <= k < self.free_seq().len() implies (
            #[trigger] self.free_seq()[k]).wf() && self.owns_range(
                self.free_seq()[k].start as int,
                self.free_seq()[k].size as int,
            ) by {
                if k < pre.free_seq().len() {
                    assert(self.free_seq()[k] == pre.free_seq()[k]);
                    let w2 = choose|m: int|
                        0 <= m < pre.regions_seq().len() && (#[trigger] pre.regions_seq()[m]).covers(
                            pre.free_seq()[k].start as int,
                            pre.free_seq()[k].size as int,
                        );
                    assert(self.regions_seq()[w2].covers(
                        self.free_seq()[k].start as int,
                        self.free_seq()[k].size as int,
                    ));
                } else {
                    assert(self.free_seq()[k] == e);
                    assert(self.regions_seq()[w].covers(e.start as int, e.size as int));
                }
            }
            assert forall|k: int, j: int|
                0 <= k < self.free_seq().len() && 0 <= j < self.free_seq().len() && k != j implies (
            #[trigger] self.free_seq()[k]).disjoint(#[trigger] self.free_seq()[j]) by {
                let pn = pre.free_seq().len() as int;
                if k < pn && j < pn {
                    assert(pre.free_seq()[k].disjoint(pre.free_seq()[j]));
                } else if k < pn {
                    assert(ranges_disjoint(
                        addr as int,
                        pre.live_map()[addr as int].size as int,
                        pre.free_seq()[k].start as int,
                        pre.free_seq()[k].size as int,
                    ));
                } else {
                    assert(ranges_disjoint(
                        addr as int,
                        pre.live_map()[addr as int].size as int,
                        pre.free_seq()[j].start as int,
                        pre.free_seq()[j].size as int,
                    ));
                }
            }
            assert forall|a: int, i2: int|
                #[trigger] self.live_map().contains_key(a) && 0 <= i2
                    < self.free_seq().len() implies ranges_disjoint(
                a,
                self.live_map()[a].size as int,
                (#[trigger] self.free_seq()[i2]).start as int,
                self.free_seq()[i2].size as int,
            ) by {
                assert(pre.live_map().contains_key(a) && a != addr as int);
                if i2 < pre.free_seq().len() {
                    assert(self.free_seq()[i2] == pre.free_seq()[i2]);
                } else {
                    assert(self.free_seq()[i2] == e);
                    assert(ranges_disjoint(
                        a,
                        pre.live_map()[a].size as int,
                        addr as int,
                        pre.live_map()[addr as int].size as int,
                    ));
                }
            }
        }
    }

    /// Whether `addr` lies inside memory the pool owns.
    #[verifier::loop_isolation(false)]
    pub fn owns_addr(&self, addr: usize) -> (r: bool)
        requires
            self.inv(),
        ensures
            r == self.owns(addr as int),
    {
        let n = self.regions.len();
        let mut i: usize = 0;
        while i < n
            invariant
                i <= n,
                forall|j: int|
                    0 <= j < i ==> !(#[trigger] self.regions_seq()[j]).covers(addr as int, 1),
            decreases n - i,
        {
            let c = self.regions[i];
            proof {
                assert(c == self.regions_seq()[i as int]);
            }
            if addr >= c.start && addr - c.start < c.size {
                proof {
                    assert(self.regions_seq()[i as int].covers(addr as int, 1));
                }
                return true;
            }
            i += 1;
        }
        false
    }
}

/// After carving the aligned block `[astart, astart + layout.size)` out of
/// free block `idx`, the pool invariant holds again and the bookkeeping of
/// `allocate`'s postcondition is in place.
proof fn lemma_carve(pre: DmaPool, post: DmaPool, idx: int, astart: int, layout: Layout)
    requires
        pre.inv(),
        layout.wf(),
        0 <= idx < pre.free_seq().len(),
        fits(pre.free_seq()[idx], layout),
        astart == spec_align_up(pre.free_seq()[idx].start as int, layout.align as int),
        post.regions_seq() == pre.regions_seq(),
        post.live_map() == pre.live_map().insert(astart, layout),
        ({
            let b = pre.free_seq()[idx];
            let f1 = pre.free_seq().update(idx, pre.free_seq().last()).drop_last();
            let lead = Extent { start: b.start, size: (astart - b.start) as usize };
            let tail = Extent {
                start: (astart + layout.size) as usize,
                size: (b.end() - astart - layout.size) as usize,
            };
            post.free_seq() == if astart > b.start && astart + layout.size < b.end() {
                f1.push(lead).push(tail)
            } else if astart > b.start {
                f1.push(lead)
            } else if astart + layout.size < b.end() {
                f1.push(tail)
            } else {
                f1
            }
        }),
    ensures
        post.inv(),
        astart % layout.align as int == 0,
        astart + layout.size <= usize::MAX,
        post.owns_range(astart, layout.size as int),
        !pre.live_map().contains_key(astart),
{
    let b = pre.free_seq()[idx];
    let f1 = pre.free_seq().update(idx, pre.free_seq().last()).drop_last();
    lemma_align_up(b.start as int, layout.align as int);
    assert(b.wf());
    // the new live block lies inside b
    assert(range_within(astart, layout.size as int, b.start as int, b.size as int));
    // b lies inside some region
    let rw = choose|m: int|
        0 <= m < pre.regions_seq().len() && (#[trigger] pre.regions_seq()[m]).covers(
            b.start as int,
            b.size as int,
        );
    assert(post.regions_seq()[rw].covers(astart, layout.size as int));
    // astart is not already live: it lies inside free block b, and live
    // blocks are disjoint from free blocks
    if pre.live_map().contains_key(astart) {
        assert(ranges_disjoint(
            astart,
            pre.live_map()[astart].size as int,
            b.start as int,
            b.size as int,
        ));
        assert(false);
    }
    // invariant: free blocks well-formed and inside regions
    assert forall|k: int| 0 <= k < post.free_seq().len() implies (
    #[trigger] post.free_seq()[k]).wf() && post.owns_range(
        post.free_seq()[k].start as int,
        post.free_seq()[k].size as int,
    ) by {
        if k < f1.len() {
            let m = witness_of(pre.free_seq(), idx, k);
            assert(post.free_seq()[k] == pre.free_seq()[m]);
            assert(pre.free_seq()[m].wf());
            let w = choose|m2: int|
                0 <= m2 < pre.regions_seq().len() && (#[trigger] pre.regions_seq()[m2]).covers(
                    pre.free_seq()[m].start as int,
                    pre.free_seq()[m].size as int,
                );
            assert(post.regions_seq()[w].covers(
                post.free_seq()[k].start as int,
                post.free_seq()[k].size as int,
            ));
        } else {
            // lead or tail: both lie inside b, hence inside b's region
            assert(range_within(
                post.free_seq()[k].start as int,
                post.free_seq()[k].size as int,
                b.start as int,
                b.size as int,
            ));
            assert(post.regions_seq()[rw].covers(
                post.free_seq()[k].start as int,
                post.free_seq()[k].size as int,
            ));
        }
    }
    // invariant: free blocks pairwise disjoint
    assert forall|k: int, j: int|
        0 <= k < post.free_seq().len() && 0 <= j < post.free_seq().len() && k != j implies (
    #[trigger] post.free_seq()[k]).disjoint(#[trigger] post.free_seq()[j]) by {
        if k < f1.len() && j < f1.len() {
            let mk = witness_of(pre.free_seq(), idx, k);
            let mj = witness_of(pre.free_seq(), idx, j);
            assert(mk != mj);
            assert(pre.free_seq()[mk].disjoint(pre.free_seq()[mj]));
        } else if k < f1.len() {
            let mk = witness_of(pre.free_seq(), idx, k);
            assert(pre.free_seq()[mk].disjoint(b));
            assert(range_within(
                post.free_seq()[j].start as int,
                post.free_seq()[j].size as int,
                b.start as int,
                b.size as int,
            ));
        } else if j < f1.len() {
            let mj = witness_of(pre.free_seq(), idx, j);
            assert(pre.free_seq()[mj].disjoint(b));
            assert(range_within(
                post.free_seq()[k].start as int,
                post.free_seq()[k].size as int,
                b.start as int,
                b.size as int,
            ));
        } else {
            // lead and tail: lead ends at astart, tail starts at astart + size
        }
    }
    // invariant: live blocks well-formed and inside regions
    assert forall|a: int| #[trigger] post.live_map().contains_key(a) implies post.live_map()[a].size
        > 0 && post.owns_range(a, post.live_map()[a].size as int) by {
        if a == astart {
            assert(post.regions_seq()[rw].covers(a, post.live_map()[a].size as int));
        } else {
            assert(pre.live_map().contains_key(a));
            let w = choose|m: int|
                0 <= m < pre.regions_seq().len() && (#[trigger] pre.regions_seq()[m]).covers(
                    a,
                    pre.live_map()[a].size as int,
                );
            assert(post.regions_seq()[w].covers(a, post.live_map()[a].size as int));
        }
    }
    // invariant: live blocks disjoint from free blocks
    assert forall|a: int, i2: int|
        #[trigger] post.live_map().contains_key(a) && 0 <= i2
            < post.free_seq().len() implies ranges_disjoint(
        a,
        post.live_map()[a].size as int,
        (#[trigger] post.free_seq()[i2]).start as int,
        post.free_seq()[i2].size as int,
    ) by {
        if a == astart {
            if i2 < f1.len() {
                let m = witness_of(pre.free_seq(), idx, i2);
                assert(post.free_seq()[i2] == pre.free_seq()[m]);
                assert(pre.free_seq()[m].disjoint(b));
            } else {
                // lead ends at astart; tail starts at astart + layout.size
            }
        } else {
            assert(pre.live_map().contains_key(a));
            if i2 < f1.len() {
                let m = witness_of(pre.free_seq(), idx, i2);
                assert(post.free_seq()[i2] == pre.free_seq()[m]);
                assert(ranges_disjoint(
                    a,
                    pre.live_map()[a].size as int,
                    pre.free_seq()[m].start as int,
                    pre.free_seq()[m].size as int,
                ));
            } else {
                assert(ranges_disjoint(
                    a,
                    pre.live_map()[a].size as int,
                    b.start as int,
                    b.size as int,
                ));
            }
        }
    }
    // invariant: live blocks pairwise disjoint
    assert forall|a: int, a2: int|
        #[trigger] post.live_map().contains_key(a) && #[trigger] post.live_map().contains_key(a2)
            && a != a2 implies ranges_disjoint(
        a,
        post.live_map()[a].size as int,
        a2,
        post.live_map()[a2].size as int,
    ) by {
        if a == astart {
            assert(pre.live_map().contains_key(a2));
            assert(ranges_disjoint(
                a2,
                pre.live_map()[a2].size as int,
                b.start as int,
                b.size as int,
            ));
        } else if a2 == astart {
            assert(pre.live_map().contains_key(a));
            assert(ranges_disjoint(
                a,
                pre.live_map()[a].size as int,
                b.start as int,
                b.size as int,
            ));
        } else {
            assert(pre.live_map().contains_key(a) && pre.live_map().contains_key(a2));
        }
    }
}

/// Index in the pre-`swap_remove` free list that element `k` of the
/// post-`swap_remove` list came from.
spec fn witness_of(fs: Seq<Extent>, idx: int, k: int) -> int {
    if k == idx {
        fs.len() - 1
    } else {
        k
    }
}

} // verus!
