//! The capability interface the vendor engine calls back into.
//!
//! The engine needs a narrow set of kernel services: mapping a BAR to a
//! CPU-addressable pointer, coherent memory of a given size, and a few hooks.
//! Everything here computes over the [`DmaAllocator`](crate::dma::DmaAllocator)
//! and the address translation; blocking (the delay callback) and the PCI
//! walk itself stay with the embedding kernel.

use crate::addr::AddrMap;
use crate::dma::{AddrSpaceService, DmaAllocator, DmaInfo, PageSource};
use crate::pool::{fits, is_power_of_two, AllocError, Extent, Layout};
use vstd::prelude::*;

verus! {

/// A callback the engine may ask for but this layer does not provide.
#[derive(Clone, Copy, PartialEq, Eq, Structural, Debug)]
pub enum CallbackError {
    /// Explicitly unsupported: the caller must not rely on it.
    Unsupported,
}

/// A base address register of the PCI endpoint, as the PCI layer reports it.
#[derive(Clone, Copy, PartialEq, Eq, Structural, Debug)]
pub enum Bar {
    Memory32 { address: u32, size: u32, prefetchable: bool },
    Memory64 { address: u64, size: u64, prefetchable: bool },
    Io { port: u32 },
}

/// The coherent-memory descriptor the engine exchanges: bus address, CPU
/// address and size of one allocation.
#[derive(Clone, Copy, PartialEq, Eq, Structural, Debug)]
pub struct EngineDma {
    pub dma_addr: u64,
    pub cpu_addr: usize,
    pub size: usize,
}

/// Maps a memory BAR to its CPU-addressable (virtual) address; an I/O BAR is
/// explicitly unsupported rather than aborting.
pub fn bar_remap(map: &AddrMap, bar: Bar) -> (r: Result<usize, CallbackError>)
    requires
        bar matches Bar::Memory32 { address, .. } ==> address + map.virt_offset <= usize::MAX,
        bar matches Bar::Memory64 { address, .. } ==> address + map.virt_offset <= usize::MAX,
    ensures
        bar matches Bar::Memory32 { address, .. } ==> r == Ok::<usize, CallbackError>(
            map.virt_of_phys(address as int) as usize,
        ),
        bar matches Bar::Memory64 { address, .. } ==> r == Ok::<usize, CallbackError>(
            map.virt_of_phys(address as int) as usize,
        ),
        bar is Io ==> r == Err::<usize, CallbackError>(CallbackError::Unsupported),
{
    match bar {
        Bar::Memory32 { address, .. } => {
            let a = address as usize;
            Ok(map.phys_to_virt(a))
        },
        Bar::Memory64 { address, .. } => {
            let a = address as usize;
            Ok(map.phys_to_virt(a))
        },
        Bar::Io { .. } => Err(CallbackError::Unsupported),
    }
}

/// Configuration-space register access is explicitly unsupported in this
/// design: a real PCI capability walk must supply it.
pub fn read_config_word(offset: i32) -> (r: Result<u16, CallbackError>)
    ensures
        r == Err::<u16, CallbackError>(CallbackError::Unsupported),
{
    let _ = offset;
    Err(CallbackError::Unsupported)
}

/// The capability-list offset handed to the engine; fixed at zero.
pub fn pci_cap_offset() -> (r: i32)
    ensures
        r == 0,
{
    0
}

/// Transmit-completion notification: a hook point, nothing to do yet.
pub fn on_xmit_completed(packets: u32, bytes: u32) {
    let _ = packets;
    let _ = bytes;
}

/// Coherent memory for the engine, with alignment equal to size — a
/// simplification that wastes padding but guarantees natural alignment for
/// any power-of-two transfer size (hence the precondition).
pub fn dma_alloc_coherent<S: PageSource, A: AddrSpaceService>(
    dma: &mut DmaAllocator,
    pages: &mut S,
    aspace: &mut A,
    size: usize,
) -> (r: Result<EngineDma, AllocError>)
    requires
        old(dma).wf(),
        size > 0,
        is_power_of_two(size),
    ensures
        final(dma).wf(),
        final(dma).addr_map() == old(dma).addr_map(),
        forall|a: int| old(dma).owns(a) ==> final(dma).owns(a),
        r is Ok ==> ({
            let h = r->Ok_0;
            &&& h.size == size
            &&& h.cpu_addr as int % size as int == 0
            &&& final(dma).owns_range(h.cpu_addr as int, size as int)
            &&& h.dma_addr as int == old(dma).addr_map().bus_of_virt(h.cpu_addr as int)
            &&& final(dma).live_map() == old(dma).live_map().insert(
                h.cpu_addr as int,
                Layout { size, align: size },
            )
        }),
        r is Err ==> final(dma).regions_seq() == old(dma).regions_seq()
            && final(dma).free_seq() == old(dma).free_seq()
            && final(dma).live_map() == old(dma).live_map()
            && (r->Err_0 == AllocError::NoMemory || r->Err_0 == AllocError::MemoryOverlap),
        // success is owed where the pool as given already has room
        (exists|i: int|
            0 <= i < old(dma).free_seq().len() && fits(
                #[trigger] old(dma).free_seq()[i],
                Layout { size, align: size },
            )) ==> r is Ok,
        r is Err ==> !(exists|i: int|
            0 <= i < old(dma).free_seq().len() && fits(
                #[trigger] old(dma).free_seq()[i],
                Layout { size, align: size },
            )),
{
    let layout = match Layout::new(size, size) {
        Some(l) => l,
        None => {
            proof {
                assert(false);
            }
            return Err(AllocError::NoMemory);
        },
    };
    match dma.alloc_coherent(pages, aspace, layout) {
        Ok(h) => Ok(EngineDma { dma_addr: h.bus_addr, cpu_addr: h.cpu_addr, size }),
        Err(e) => Err(e),
    }
}

/// Releases an engine allocation, reconstructing the handle and the
/// size-equals-alignment layout it was made with.
pub fn dma_free_coherent(dma: &mut DmaAllocator, info: EngineDma)
    requires
        old(dma).wf(),
        old(dma).live_map().contains_key(info.cpu_addr as int),
        old(dma).live_map()[info.cpu_addr as int] == (Layout { size: info.size, align: info.size }),
    ensures
        final(dma).wf(),
        final(dma).addr_map() == old(dma).addr_map(),
        final(dma).regions_seq() == old(dma).regions_seq(),
        forall|a: int| old(dma).owns(a) ==> final(dma).owns(a),
        final(dma).live_map() == old(dma).live_map().remove(info.cpu_addr as int),
        // the released range returns to the pool as one free block
        final(dma).free_seq() == old(dma).free_seq().push(
            Extent { start: info.cpu_addr, size: info.size },
        ),
{
    let handle = DmaInfo { cpu_addr: info.cpu_addr, bus_addr: info.dma_addr };
    let layout = Layout { size: info.size, align: info.size };
    dma.dealloc_coherent(handle, layout);
}

} // verus!
