//! The DMA-coherent allocator.
//!
//! It hands out memory that the CPU addresses through a virtual address and a
//! device addresses through a bus address, both denoting the same bytes. The
//! pool it carves from grows lazily: when a request cannot be satisfied, whole
//! pages are borrowed from the page source, remapped read-write-uncached
//! through the address-space service, and added to the pool for good — owned
//! pages are never returned (the owned set only grows), and a mapped range is
//! never remapped.

use crate::addr::AddrMap;
use crate::pool::{
    covered_by, fits, lemma_align_up, lemma_div_of_multiple, spec_align_up, AllocError, DmaPool,
    Extent, Layout, PAGE_SIZE,
};
use vstd::prelude::*;

verus! {

/// Attributes a virtual range can be remapped with.
#[derive(Clone, Copy, PartialEq, Eq, Structural, Debug)]
pub struct MappingFlags {
    pub read: bool,
    pub write: bool,
    pub uncached: bool,
}

impl MappingFlags {
    /// Read-write-uncached: what DMA-coherent memory is mapped as.
    pub fn device_coherent() -> (r: MappingFlags)
        ensures
            r == (MappingFlags { read: true, write: true, uncached: true }),
    {
        MappingFlags { read: true, write: true, uncached: true }
    }
}

/// The process-wide page allocator the pool borrows whole pages from.
/// Implemented by the embedding kernel; consumed here, not re-specified.
pub trait PageSource {
    /// How many whole pages the source can still grant.
    fn available_pages(&mut self) -> usize;

    /// Grants `num_pages` contiguous pages aligned to `align`, returning their
    /// virtual address, or fails if the source is exhausted.
    fn alloc_pages(&mut self, num_pages: usize, align: usize) -> Result<usize, AllocError>;
}

/// Changes the mapping attributes of a virtual range; fails on overlap or an
/// invalid range. Implemented by the embedding kernel's address-space service.
pub trait AddrSpaceService {
    fn protect(&mut self, vaddr: usize, size: usize, flags: MappingFlags) -> Result<(), ()>;
}

/// A coherent memory handle: the paired virtual/bus address identity of one
/// live allocation. Both addresses denote the same physical bytes; the caller
/// owns the handle exclusively until it passes it back for release together
/// with the layout it allocated with.
#[derive(Clone, Copy, PartialEq, Eq, Structural, Debug)]
pub struct DmaInfo {
    /// CPU-addressable (virtual) address of the allocation.
    pub cpu_addr: usize,
    /// The address the device uses for the same bytes.
    pub bus_addr: u64,
}

/// Whole pages needed to cover `size + 1` bytes — the one spare byte keeps the
/// pool from ever handing out a zero-length residual block at a pool boundary.
pub open spec fn spec_pages_needed(size: int) -> int {
    spec_align_up(size + 1, PAGE_SIZE as int) / (PAGE_SIZE as int)
}

/// Page count a request of `size` bytes requires from the page source, or
/// `None` when the rounded size would not fit the address width.
pub fn pages_needed(size: usize) -> (r: Option<usize>)
    ensures
        (r is Some) <==> spec_align_up(size as int + 1, PAGE_SIZE as int) <= usize::MAX,
        r is Some ==> r->Some_0 == spec_pages_needed(size as int) && r->Some_0 >= 1
            && r->Some_0 * PAGE_SIZE == spec_align_up(size as int + 1, PAGE_SIZE as int)
            && r->Some_0 * PAGE_SIZE >= size + 1,
{
    proof {
        lemma_align_up(size as int + 1, PAGE_SIZE as int);
    }
    match size.checked_add(1) {
        None => None,
        Some(s1) => match crate::pool::align_up_checked(s1, PAGE_SIZE) {
            None => None,
            Some(m) => {
                proof {
                    let mi = spec_align_up(size as int + 1, PAGE_SIZE as int);
                    lemma_div_of_multiple(mi, PAGE_SIZE as int);
                    assert(mi / (PAGE_SIZE as int) >= 1) by (nonlinear_arith)
                        requires
                            (mi / (PAGE_SIZE as int)) * (PAGE_SIZE as int) == mi,
                            mi >= 1,
                    ;
                }
                Some(m / PAGE_SIZE)
            },
        },
    }
}

/// How many pages to actually request when `want` are needed and `available`
/// remain: grow generously (at least 32 pages when they exist) to amortize
/// future allocations, but never request more than is available unless the
/// request itself demands it.
pub fn grow_amount(want: usize, available: usize) -> (r: usize)
    ensures
        r as int == vstd::math::max(
            want as int,
            vstd::math::min(32int, available as int),
        ),
        r >= want,
{
    let base = if available < 32 { available } else { 32 };
    if want > base { want } else { base }
}

/// The grow decision: `None` exactly when more pages are needed than the
/// source has left — the caller must answer `NoMemory`, never block or panic.
/// Otherwise the request put to the source is `grow_amount(want, available)`,
/// which never exceeds what is available.
pub fn grow_decision(want: usize, available: usize) -> (r: Option<usize>)
    ensures
        (r is None) <==> want > available,
        r is Some ==> r->Some_0 as int == vstd::math::max(
            want as int,
            vstd::math::min(32int, available as int),
        ) && r->Some_0 >= want && r->Some_0 <= available,
{
    if want > available {
        None
    } else {
        Some(grow_amount(want, available))
    }
}

/// The alignment handed to the page source when the pool grows: page
/// granularity, or the request's own alignment where that is larger.
pub fn grow_align(align: usize) -> (r: usize)
    ensures
        r as int == vstd::math::max(align as int, PAGE_SIZE as int),
{
    if align > PAGE_SIZE {
        align
    } else {
        PAGE_SIZE
    }
}

/// How an answer of the address-space service is surfaced: acceptance passes
/// through, and a refusal is a mapping fault — `MemoryOverlap`, fatal to the
/// grow attempt and never retried.
pub fn protect_outcome(r: Result<(), ()>) -> (res: Result<(), AllocError>)
    ensures
        (res is Ok) <==> (r is Ok),
        res is Err ==> res->Err_0 == AllocError::MemoryOverlap,
{
    match r {
        Ok(()) => Ok(()),
        Err(()) => Err(AllocError::MemoryOverlap),
    }
}

/// The DMA allocator: a byte pool over borrowed pages plus the address
/// translation of this machine.
pub struct DmaAllocator {
    pool: DmaPool,
    map: AddrMap,
}

impl DmaAllocator {
    /// The translation the allocator derives bus addresses with.
    pub closed spec fn addr_map(self) -> AddrMap {
        self.map
    }

    /// The pool the allocator carves from, as a specification value.
    pub closed spec fn pool_spec(self) -> DmaPool {
        self.pool
    }

    /// The regions the pool owns.
    pub open spec fn regions_seq(self) -> Seq<Extent> {
        self.pool_spec().regions_seq()
    }

    /// The live allocations: start address to the layout each was made with.
    pub open spec fn live_map(self) -> Map<int, Layout> {
        self.pool_spec().live_map()
    }

    /// The pool's current free blocks.
    pub open spec fn free_seq(self) -> Seq<Extent> {
        self.pool_spec().free_seq()
    }

    pub open spec fn owns_range(self, start: int, size: int) -> bool {
        covered_by(self.regions_seq(), start, size)
    }

    pub open spec fn owns(self, addr: int) -> bool {
        self.owns_range(addr, 1)
    }

    /// Well-formedness: the pool invariant holds, the translation respects
    /// page boundaries, and every owned address can be translated to a bus
    /// address.
    pub open spec fn wf(self) -> bool {
        &&& self.pool_spec().inv()
        &&& self.addr_map().wf()
        &&& forall|a: int| #[trigger] self.owns(a) ==> self.addr_map().translatable(a)
    }

    /// An empty allocator over the given address translation, which must use
    /// whole-page offsets.
    pub fn new(map: AddrMap) -> (r: DmaAllocator)
        requires
            map.wf(),
        ensures
            r.wf(),
            r.addr_map() == map,
            r.live_map() == Map::<int, Layout>::empty(),
            forall|a: int| !r.owns(a),
    {
        let pool = DmaPool::new();
        proof {
            assert(forall|a: int, s: int| !covered_by(pool.regions_seq(), a, s));
        }
        DmaAllocator { pool, map }
    }

    /// Allocates `layout` from the pool, growing it from the page source when
    /// the request cannot be satisfied as it stands.
    ///
    /// On success, the returned handle's virtual range lies inside the
    /// allocator's owned pages, is aligned as requested, and its bus address
    /// is the two-step translation (virtual to physical to bus) of its virtual
    /// address. `NoMemory` is the recoverable exhaustion answer; a mapping or
    /// overlap fault during growth surfaces as `MemoryOverlap` and the grow
    /// attempt is not retried. The owned-page set never shrinks.
    pub fn alloc_coherent<S: PageSource, A: AddrSpaceService>(
        &mut self,
        pages: &mut S,
        aspace: &mut A,
        layout: Layout,
    ) -> (r: Result<DmaInfo, AllocError>)
        requires
            old(self).wf(),
            layout.wf(),
        ensures
            final(self).wf(),
            final(self).addr_map() == old(self).addr_map(),
            forall|a: int| old(self).owns(a) ==> final(self).owns(a),
            r is Ok ==> ({
                let h = r->Ok_0;
                &&& h.cpu_addr as int % layout.align as int == 0
                &&& h.cpu_addr + layout.size <= usize::MAX
                &&& final(self).owns_range(h.cpu_addr as int, layout.size as int)
                &&& h.bus_addr as int == old(self).addr_map().bus_of_virt(h.cpu_addr as int)
                &&& !old(self).live_map().contains_key(h.cpu_addr as int)
                &&& final(self).live_map() == old(self).live_map().insert(
                    h.cpu_addr as int,
                    layout,
                )
            }),
            r is Err ==> final(self).regions_seq() == old(self).regions_seq()
                && final(self).free_seq() == old(self).free_seq()
                && final(self).live_map() == old(self).live_map()
                && (r->Err_0 == AllocError::NoMemory || r->Err_0 == AllocError::MemoryOverlap),
            // success is owed where no outside call decides: a fitting free
            // block in the pool as given is allocated without growing
            (exists|i: int|
                0 <= i < old(self).free_seq().len() && fits(
                    #[trigger] old(self).free_seq()[i],
                    layout,
                )) ==> r is Ok,
            // and conversely every failure means the pool as given had no room
            r is Err ==> !(exists|i: int|
                0 <= i < old(self).free_seq().len() && fits(
                    #[trigger] old(self).free_seq()[i],
                    layout,
                )),
    {
        // fast path: allocate from the pool as it stands
        let ghost at_entry = *self;
        match self.pool.allocate(layout) {
            Ok(a) => {
                proof {
                    lemma_wf_preserved(at_entry, *self);
                }
                return Ok(self.handle_of(a, layout));
            },
            Err(_) => {},
        }
        proof {
            lemma_wf_preserved(at_entry, *self);
        }
        // grow: whole pages covering size + 1 bytes, at least 32 when they
        // exist, but never more than are available
        let want = match pages_needed(layout.size) {
            Some(w) => w,
            None => {
                return Err(AllocError::NoMemory);
            },
        };
        let avail = pages.available_pages();
        let num = match grow_decision(want, avail) {
            None => {
                return Err(AllocError::NoMemory);
            },
            Some(n) => n,
        };
        proof {
            assert(num * PAGE_SIZE <= usize::MAX && num * PAGE_SIZE >= want * PAGE_SIZE)
                by (nonlinear_arith)
                requires
                    want * (PAGE_SIZE as int) <= usize::MAX,
                    want <= num,
                    num as int <= vstd::math::max(want as int, 32int),
                    32 * (PAGE_SIZE as int) <= usize::MAX,
                    PAGE_SIZE == 4096usize,
            ;
        }
        let expand = num * PAGE_SIZE;
        let req_align = grow_align(layout.align);
        let vaddr = match pages.alloc_pages(num, req_align) {
            Ok(v) => v,
            Err(e) => {
                return Err(e);
            },
        };
        // a grant the pool or the translation cannot take is an address-space
        // fault, fatal to the grow attempt
        if vaddr % layout.align != 0 || vaddr % PAGE_SIZE != 0 {
            return Err(AllocError::MemoryOverlap);
        }
        if usize::MAX - vaddr < expand {
            return Err(AllocError::MemoryOverlap);
        }
        let last = vaddr + expand - 1;
        if vaddr < self.map.virt_offset {
            return Err(AllocError::MemoryOverlap);
        }
        let phys_last = last - self.map.virt_offset;
        if (phys_last as u64) > u64::MAX - self.map.bus_offset {
            return Err(AllocError::MemoryOverlap);
        }
        // remap the fresh range read-write-uncached; a refusal is fatal to the
        // grow attempt (the address space may be ambiguous), never retried
        let flags = MappingFlags::device_coherent();
        match protect_outcome(aspace.protect(vaddr, expand, flags)) {
            Ok(()) => {},
            Err(e) => {
                return Err(e);
            },
        }
        let ghost pre = *self;
        match self.pool.add_region(vaddr, expand) {
            Ok(()) => {},
            Err(e) => {
                proof {
                    lemma_wf_preserved(pre, *self);
                }
                return Err(e);
            },
        }
        proof {
            // every owned address is still translatable: old regions were,
            // and the new range was checked end to end
            assert forall|a: int| #[trigger] self.owns(a) implies self.map.translatable(a) by {
                let w = choose|i: int|
                    0 <= i < self.regions_seq().len() && (#[trigger] self.regions_seq()[i]).covers(
                        a,
                        1,
                    );
                if w < pre.regions_seq().len() {
                    assert(pre.regions_seq()[w].covers(a, 1));
                    assert(pre.owns(a));
                } else {
                    assert(self.regions_seq()[w] == Extent { start: vaddr, size: expand });
                }
            }
            // the fresh block holds an aligned block of the requested layout
            let nb = Extent { start: vaddr, size: expand };
            lemma_align_up(vaddr as int, layout.align as int);
            assert(spec_align_up(vaddr as int, layout.align as int) == vaddr);
            assert(fits(nb, layout));
            let fl = self.pool.free_seq().len() as int;
            assert(self.pool.free_seq()[fl - 1] == nb);
        }
        // retry: the grown pool provably satisfies the request
        let ghost grown = *self;
        match self.pool.allocate(layout) {
            Ok(a) => {
                proof {
                    lemma_wf_preserved(grown, *self);
                    assert forall|a2: int| old(self).owns(a2) implies self.owns(a2) by {
                        assert(pre.pool_spec().owns(a2));
                        assert(grown.pool_spec().owns(a2));
                    }
                }
                Ok(self.handle_of(a, layout))
            },
            Err(_) => {
                proof {
                    assert(false);
                }
                Err(AllocError::NoMemory)
            },
        }
    }

    /// Builds the coherent handle for a block just carved at `a`.
    fn handle_of(&self, a: usize, layout: Layout) -> (r: DmaInfo)
        requires
            self.wf(),
            self.owns_range(a as int, layout.size as int),
            layout.size > 0,
        ensures
            r.cpu_addr == a,
            r.bus_addr as int == self.addr_map().bus_of_virt(a as int),
    {
        proof {
            let w = choose|i: int|
                0 <= i < self.regions_seq().len() && (#[trigger] self.regions_seq()[i]).covers(
                    a as int,
                    layout.size as int,
                );
            assert(self.regions_seq()[w].covers(a as int, 1));
            assert(self.owns(a as int));
        }
        let bus = self.map.virt_to_bus(a);
        DmaInfo { cpu_addr: a, bus_addr: bus }
    }

    /// Returns a handle's memory to the pool; nothing is unmapped and the pool
    /// never shrinks. The caller must supply the same layout it allocated
    /// with: a mismatched layout is a contract violation, excluded by
    /// precondition (verified callers cannot reach it) rather than defended
    /// against at run time.
    pub fn dealloc_coherent(&mut self, dma: DmaInfo, layout: Layout)
        requires
            old(self).wf(),
            old(self).live_map().contains_key(dma.cpu_addr as int),
            old(self).live_map()[dma.cpu_addr as int] == layout,
        ensures
            final(self).wf(),
            final(self).addr_map() == old(self).addr_map(),
            final(self).regions_seq() == old(self).regions_seq(),
            forall|a: int| old(self).owns(a) ==> final(self).owns(a),
            final(self).live_map() == old(self).live_map().remove(dma.cpu_addr as int),
            // the released range returns to the pool as one free block
            final(self).free_seq() == old(self).free_seq().push(
                Extent { start: dma.cpu_addr, size: layout.size },
            ),
    {
        let ghost at_entry = *self;
        self.pool.release(dma.cpu_addr, layout);
        proof {
            lemma_wf_preserved(at_entry, *self);
        }
    }

    /// Whether `addr` lies inside memory the allocator owns.
    pub fn owns_addr(&self, addr: usize) -> (r: bool)
        requires
            self.wf(),
        ensures
            r == self.owns(addr as int),
    {
        self.pool.owns_addr(addr)
    }

    /// The bus address the allocator would pair with virtual address `vaddr`.
    pub fn bus_addr_of(&self, vaddr: usize) -> (r: u64)
        requires
            self.wf(),
            self.owns(vaddr as int),
        ensures
            r as int == self.addr_map().bus_of_virt(vaddr as int),
    {
        self.map.virt_to_bus(vaddr)
    }
}

/// Owned addresses and their translatability survive any pool operation that
/// leaves the owned regions in place (or extends them by already-checked
/// ranges): the well-formedness of the allocator is preserved.
proof fn lemma_wf_preserved(pre: DmaAllocator, post: DmaAllocator)
    requires
        pre.addr_map().wf(),
        forall|a: int| #[trigger] pre.owns(a) ==> pre.addr_map().translatable(a),
        post.pool_spec().inv(),
        post.regions_seq() == pre.regions_seq(),
        post.addr_map() == pre.addr_map(),
    ensures
        post.wf(),
{
    assert forall|a: int| #[trigger] post.owns(a) implies post.addr_map().translatable(a) by {
        assert(pre.owns(a));
    }
}

/// Allocation correctness, stated once and for all: a handle whose virtual
/// range the allocator owns and whose bus address is the allocator's
/// translation of its virtual address maps back — through the inverse of the
/// physical-to-bus translation — to memory the allocator's pool owns.
pub proof fn lemma_handle_maps_back(d: DmaAllocator, h: DmaInfo, layout: Layout)
    requires
        d.wf(),
        layout.size > 0,
        d.owns_range(h.cpu_addr as int, layout.size as int),
        h.bus_addr as int == d.addr_map().bus_of_virt(h.cpu_addr as int),
    ensures
        d.addr_map().phys_of_bus(h.bus_addr as int) == d.addr_map().phys_of_virt(
            h.cpu_addr as int,
        ),
        d.owns(
            d.addr_map().virt_of_phys(d.addr_map().phys_of_bus(h.bus_addr as int)),
        ),
{
    d.addr_map().lemma_bus_inverts(h.cpu_addr as int);
    let w = choose|i: int|
        0 <= i < d.regions_seq().len() && (#[trigger] d.regions_seq()[i]).covers(
            h.cpu_addr as int,
            layout.size as int,
        );
    assert(d.regions_seq()[w].covers(h.cpu_addr as int, 1));
}

/// Single ownership, stated once and for all: two distinct live allocations
/// of a well-formed allocator never share a byte, so no two handles a caller
/// holds at the same time overlap.
pub proof fn lemma_live_handles_disjoint(d: DmaAllocator, a: int, b: int)
    requires
        d.wf(),
        d.live_map().contains_key(a),
        d.live_map().contains_key(b),
        a != b,
    ensures
        crate::pool::ranges_disjoint(
            a,
            d.live_map()[a].size as int,
            b,
            d.live_map()[b].size as int,
        ),
{
    assert(d.pool_spec().live_map().contains_key(a));
    assert(d.pool_spec().live_map().contains_key(b));
}

/// Page consistency, stated once and for all: two coherent handles whose
/// virtual addresses denote bytes on the same physical page carry bus
/// addresses on the same bus page — the bus derivation is deterministic per
/// physical page.
pub proof fn lemma_same_phys_page_same_bus_page(d: DmaAllocator, h1: DmaInfo, h2: DmaInfo)
    requires
        d.wf(),
        h1.bus_addr as int == d.addr_map().bus_of_virt(h1.cpu_addr as int),
        h2.bus_addr as int == d.addr_map().bus_of_virt(h2.cpu_addr as int),
        d.addr_map().phys_of_virt(h1.cpu_addr as int) / (PAGE_SIZE as int) == d.addr_map(
        ).phys_of_virt(h2.cpu_addr as int) / (PAGE_SIZE as int),
    ensures
        h1.bus_addr as int / (PAGE_SIZE as int) == h2.bus_addr as int / (PAGE_SIZE as int),
{
    d.addr_map().lemma_same_page_same_bus_page(h1.cpu_addr as int, h2.cpu_addr as int);
}

} // verus!

