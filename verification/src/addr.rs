//! Translation between the three address spaces a DMA-capable device lives in:
//! the CPU's virtual addresses, physical addresses, and the bus addresses the
//! device itself drives onto the interconnect.
//!
//! Both translations are linear offsets, so they are total, deterministic and
//! monotonic over the address range they are defined on; `lemma_monotonic` and
//! `lemma_bus_inverts` state those guarantees once and for all.

use crate::pool::{lemma_div_of_multiple, PAGE_SIZE};
use vstd::arithmetic::div_mod::lemma_hoist_over_denominator;
use vstd::prelude::*;

verus! {

/// Linear translation between virtual, physical and bus addresses.
///
/// A virtual address `v` denotes physical address `v - virt_offset`, and a
/// physical address `p` is seen by devices as bus address `p + bus_offset`.
#[derive(Clone, Copy, PartialEq, Eq, Structural, Debug)]
pub struct AddrMap {
    /// Virtual address of physical address zero.
    pub virt_offset: usize,
    /// Bus address of physical address zero.
    pub bus_offset: u64,
}

impl AddrMap {
    /// Well-formed translation: both offsets are whole pages, so the maps
    /// respect page boundaries — the identity of a physical page determines
    /// its bus page.
    pub open spec fn wf(self) -> bool {
        &&& self.virt_offset as int % (PAGE_SIZE as int) == 0
        &&& self.bus_offset as int % (PAGE_SIZE as int) == 0
    }

    pub open spec fn phys_of_virt(self, vaddr: int) -> int {
        vaddr - self.virt_offset
    }

    pub open spec fn virt_of_phys(self, paddr: int) -> int {
        paddr + self.virt_offset
    }

    pub open spec fn bus_of_phys(self, paddr: int) -> int {
        paddr + self.bus_offset
    }

    pub open spec fn phys_of_bus(self, bus: int) -> int {
        bus - self.bus_offset
    }

    pub open spec fn bus_of_virt(self, vaddr: int) -> int {
        self.bus_of_phys(self.phys_of_virt(vaddr))
    }

    /// The whole translation chain is defined at `vaddr`: the physical address
    /// does not underflow and the bus address fits the bus width.
    pub open spec fn translatable(self, vaddr: int) -> bool {
        &&& self.virt_offset <= vaddr
        &&& self.bus_of_virt(vaddr) <= u64::MAX
    }

    pub fn virt_to_phys(&self, vaddr: usize) -> (r: usize)
        requires
            self.virt_offset <= vaddr,
        ensures
            r == self.phys_of_virt(vaddr as int),
    {
        vaddr - self.virt_offset
    }

    pub fn phys_to_virt(&self, paddr: usize) -> (r: usize)
        requires
            paddr + self.virt_offset <= usize::MAX,
        ensures
            r == self.virt_of_phys(paddr as int),
    {
        paddr + self.virt_offset
    }

    pub fn phys_to_bus(&self, paddr: usize) -> (r: u64)
        requires
            self.bus_of_phys(paddr as int) <= u64::MAX,
        ensures
            r == self.bus_of_phys(paddr as int),
    {
        paddr as u64 + self.bus_offset
    }

    pub fn bus_to_phys(&self, bus: u64) -> (r: u64)
        requires
            self.bus_offset <= bus,
        ensures
            r == self.phys_of_bus(bus as int),
    {
        bus - self.bus_offset
    }

    pub fn virt_to_bus(&self, vaddr: usize) -> (r: u64)
        requires
            self.translatable(vaddr as int),
        ensures
            r == self.bus_of_virt(vaddr as int),
    {
        let paddr = self.virt_to_phys(vaddr);
        self.phys_to_bus(paddr)
    }

    /// The translations are monotonic: a higher virtual address never maps to
    /// a lower physical or bus address, so the same physical page always
    /// yields the same bus address and page order is preserved.
    pub proof fn lemma_monotonic(self, v1: int, v2: int)
        requires
            v1 <= v2,
        ensures
            self.phys_of_virt(v1) <= self.phys_of_virt(v2),
            self.bus_of_virt(v1) <= self.bus_of_virt(v2),
    {
    }

    /// The bus translation inverts: from the bus address of a live handle, the
    /// physical (and virtual) address it was allocated at can be recovered.
    pub proof fn lemma_bus_inverts(self, vaddr: int)
        ensures
            self.phys_of_bus(self.bus_of_virt(vaddr)) == self.phys_of_virt(vaddr),
            self.virt_of_phys(self.phys_of_virt(vaddr)) == vaddr,
    {
    }

    /// Page consistency of the bus derivation: with whole-page offsets, two
    /// virtual addresses whose physical addresses share a page get bus
    /// addresses on the same bus page.
    pub proof fn lemma_same_page_same_bus_page(self, v1: int, v2: int)
        requires
            self.wf(),
            self.phys_of_virt(v1) / (PAGE_SIZE as int) == self.phys_of_virt(v2) / (
            PAGE_SIZE as int),
        ensures
            self.bus_of_virt(v1) / (PAGE_SIZE as int) == self.bus_of_virt(v2) / (PAGE_SIZE as int),
    {
        let pg = PAGE_SIZE as int;
        let k = self.bus_offset as int / pg;
        lemma_div_of_multiple(self.bus_offset as int, pg);
        lemma_hoist_over_denominator(self.phys_of_virt(v1), k, PAGE_SIZE as nat);
        lemma_hoist_over_denominator(self.phys_of_virt(v2), k, PAGE_SIZE as nat);
    }
}

} // verus!
