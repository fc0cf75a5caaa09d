use axhal_core::addr::AddrMap;
use axhal_core::dma::{
    grow_amount, grow_decision, pages_needed, AddrSpaceService, DmaAllocator, MappingFlags,
    PageSource,
};
use axhal_core::pool::{AllocError, DmaPool, Layout};

struct MockPages {
    available: usize,
    next_addr: usize,
    calls: Vec<(usize, usize)>,
}

impl PageSource for MockPages {
    fn available_pages(&mut self) -> usize {
        self.available
    }

    fn alloc_pages(&mut self, num_pages: usize, align: usize) -> Result<usize, AllocError> {
        self.calls.push((num_pages, align));
        if num_pages > self.available {
            return Err(AllocError::NoMemory);
        }
        let rem = self.next_addr % align;
        if rem != 0 {
            self.next_addr += align - rem;
        }
        let addr = self.next_addr;
        self.next_addr += num_pages * 4096;
        self.available -= num_pages;
        Ok(addr)
    }
}

struct MockAspace {
    fail: bool,
    calls: Vec<(usize, usize)>,
}

impl AddrSpaceService for MockAspace {
    fn protect(&mut self, vaddr: usize, size: usize, _flags: MappingFlags) -> Result<(), ()> {
        self.calls.push((vaddr, size));
        if self.fail {
            Err(())
        } else {
            Ok(())
        }
    }
}

fn map() -> AddrMap {
    AddrMap { virt_offset: 0x1000, bus_offset: 0x2000 }
}

fn pages(available: usize) -> MockPages {
    MockPages { available, next_addr: 0x10_0000, calls: Vec::new() }
}

fn aspace() -> MockAspace {
    MockAspace { fail: false, calls: Vec::new() }
}

fn layout(size: usize, align: usize) -> Layout {
    Layout::new(size, align).unwrap()
}

#[test]
fn exhausted_source_returns_no_memory() {
    // available_pages() == 0 and an empty pool: the answer is NoMemory
    let mut d = DmaAllocator::new(map());
    let mut p = pages(0);
    let mut a = aspace();
    let r = d.alloc_coherent(&mut p, &mut a, layout(64, 64));
    assert_eq!(r, Err(AllocError::NoMemory));
}

#[test]
fn growth_requests_at_least_32_pages() {
    // one page needed, a hundred available: the source is asked for 32
    let mut d = DmaAllocator::new(map());
    let mut p = pages(100);
    let mut a = aspace();
    let r = d.alloc_coherent(&mut p, &mut a, layout(64, 64));
    assert!(r.is_ok());
    assert_eq!(p.calls.len(), 1);
    assert_eq!(p.calls[0], (32, 4096));
}

#[test]
fn growth_requests_exactly_what_a_large_request_needs() {
    // forty pages needed, a hundred available: the source is asked for 40
    let mut d = DmaAllocator::new(map());
    let mut p = pages(100);
    let mut a = aspace();
    let size = 40 * 4096 - 1;
    let r = d.alloc_coherent(&mut p, &mut a, layout(size, 64));
    assert!(r.is_ok());
    assert_eq!(p.calls, vec![(40, 4096)]);
}

#[test]
fn growth_never_requests_more_than_available() {
    // one page needed, only ten available: the source is asked for 10
    let mut d = DmaAllocator::new(map());
    let mut p = pages(10);
    let mut a = aspace();
    let r = d.alloc_coherent(&mut p, &mut a, layout(64, 64));
    assert!(r.is_ok());
    assert_eq!(p.calls, vec![(10, 4096)]);
}

#[test]
fn grow_amount_formula() {
    assert_eq!(grow_amount(1, 100), 32);
    assert_eq!(grow_amount(40, 100), 40);
    assert_eq!(grow_amount(5, 10), 10);
    assert_eq!(grow_amount(5, 5), 5);
    assert_eq!(grow_amount(33, 33), 33);
}

#[test]
fn grow_decision_refuses_overdraft() {
    assert_eq!(grow_decision(5, 3), None);
    assert_eq!(grow_decision(5, 5), Some(5));
    assert_eq!(grow_decision(1, 100), Some(32));
}

#[test]
fn pages_needed_covers_one_spare_byte() {
    assert_eq!(pages_needed(1), Some(1));
    assert_eq!(pages_needed(4095), Some(1));
    // a full page plus the spare byte needs a second page
    assert_eq!(pages_needed(4096), Some(2));
    assert_eq!(pages_needed(64), Some(1));
}

#[test]
fn handle_translates_and_maps_back() {
    // the bus address inverts to a virtual address the allocator owns
    let m = map();
    let mut d = DmaAllocator::new(m);
    let mut p = pages(100);
    let mut a = aspace();
    let h = d.alloc_coherent(&mut p, &mut a, layout(64, 64)).unwrap();
    assert_eq!(h.cpu_addr % 64, 0);
    assert!(d.owns_addr(h.cpu_addr));
    assert_eq!(h.bus_addr, (h.cpu_addr - m.virt_offset) as u64 + m.bus_offset);
    let phys = m.bus_to_phys(h.bus_addr);
    let virt = phys as usize + m.virt_offset;
    assert_eq!(virt, h.cpu_addr);
    assert!(d.owns_addr(virt));
}

#[test]
fn owned_pages_never_shrink() {
    let mut d = DmaAllocator::new(map());
    let mut p = pages(100);
    let mut a = aspace();
    let l = layout(64, 64);
    let h1 = d.alloc_coherent(&mut p, &mut a, l).unwrap();
    let first = h1.cpu_addr;
    assert!(d.owns_addr(first));
    d.dealloc_coherent(h1, l);
    assert!(d.owns_addr(first));
    let h2 = d.alloc_coherent(&mut p, &mut a, l).unwrap();
    assert!(d.owns_addr(first));
    assert!(d.owns_addr(h2.cpu_addr));
    d.dealloc_coherent(h2, l);
    assert!(d.owns_addr(first));
}

#[test]
fn release_makes_memory_reusable() {
    let mut d = DmaAllocator::new(map());
    let mut p = pages(1);
    let mut a = aspace();
    // one page only: fill most of it, release, allocate again
    let l = layout(2048, 64);
    let h1 = d.alloc_coherent(&mut p, &mut a, l).unwrap();
    d.dealloc_coherent(h1, l);
    let h2 = d.alloc_coherent(&mut p, &mut a, l).unwrap();
    assert!(d.owns_addr(h2.cpu_addr));
    assert_eq!(p.calls.len(), 1);
}

#[test]
fn mapping_fault_is_memory_overlap() {
    // a protect refusal during growth is fatal to the attempt, not retried
    let mut d = DmaAllocator::new(map());
    let mut p = pages(100);
    let mut a = MockAspace { fail: true, calls: Vec::new() };
    let r = d.alloc_coherent(&mut p, &mut a, layout(64, 64));
    assert_eq!(r, Err(AllocError::MemoryOverlap));
    assert_eq!(a.calls.len(), 1);
}

#[test]
fn protect_covers_the_whole_grown_range() {
    let mut d = DmaAllocator::new(map());
    let mut p = pages(100);
    let mut a = aspace();
    d.alloc_coherent(&mut p, &mut a, layout(64, 64)).unwrap();
    assert_eq!(a.calls, vec![(0x10_0000, 32 * 4096)]);
}

#[test]
fn two_live_handles_do_not_overlap() {
    let mut d = DmaAllocator::new(map());
    let mut p = pages(100);
    let mut a = aspace();
    let l = layout(128, 64);
    let h1 = d.alloc_coherent(&mut p, &mut a, l).unwrap();
    let h2 = d.alloc_coherent(&mut p, &mut a, l).unwrap();
    let (a1, a2) = (h1.cpu_addr, h2.cpu_addr);
    assert!(a1 + 128 <= a2 || a2 + 128 <= a1);
}

#[test]
fn pool_add_region_rejects_overlap() {
    let mut pool = DmaPool::new();
    assert_eq!(pool.add_region(0x1000, 0x1000), Ok(()));
    assert_eq!(pool.add_region(0x1800, 0x1000), Err(AllocError::MemoryOverlap));
    assert_eq!(pool.add_region(0x2000, 0x1000), Ok(()));
    assert_eq!(pool.add_region(0x500, 0), Err(AllocError::MemoryOverlap));
}

#[test]
fn pool_allocate_and_release() {
    let mut pool = DmaPool::new();
    let l = layout(64, 64);
    assert_eq!(pool.allocate(l), Err(AllocError::NoMemory));
    pool.add_region(0x1000, 0x1000).unwrap();
    let a = pool.allocate(l).unwrap();
    assert_eq!(a % 64, 0);
    assert!(pool.owns_addr(a));
    assert!(!pool.owns_addr(0x3000));
    pool.release(a, l);
    assert!(pool.owns_addr(a));
}

#[test]
fn pool_alignment_is_honored() {
    let mut pool = DmaPool::new();
    pool.add_region(0x1040, 0x2000).unwrap();
    let a = pool.allocate(layout(32, 1024)).unwrap();
    assert_eq!(a % 1024, 0);
    assert!(a >= 0x1040);
}

#[test]
fn layout_validation() {
    assert_eq!(Layout::new(0, 64), None);
    assert_eq!(Layout::new(8, 0), None);
    assert_eq!(Layout::new(8, 3), None);
    assert_eq!(Layout::new(8, 8), Some(Layout { size: 8, align: 8 }));
    assert_eq!(Layout::new(5, 1), Some(Layout { size: 5, align: 1 }));
}

#[test]
fn oversized_request_is_no_memory() {
    // the rounded size would overflow the address width: fail fast, no panic
    let mut d = DmaAllocator::new(map());
    let mut p = pages(usize::MAX);
    let mut a = aspace();
    let r = d.alloc_coherent(&mut p, &mut a, layout(usize::MAX - 1, 1));
    assert_eq!(r, Err(AllocError::NoMemory));
    assert!(p.calls.is_empty());
}

#[test]
fn fast_path_needs_no_pages() {
    // the pool satisfies the request even with the page source exhausted
    let mut d = DmaAllocator::new(map());
    let mut p = pages(100);
    let mut a = aspace();
    let l = layout(64, 64);
    d.alloc_coherent(&mut p, &mut a, l).unwrap();
    p.available = 0;
    let r = d.alloc_coherent(&mut p, &mut a, l);
    assert!(r.is_ok());
    assert_eq!(p.calls.len(), 1);
}
