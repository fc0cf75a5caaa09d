//! Hardware-abstraction core for a unikernel.
//!
//! The crate provides the memory-ownership and buffer-lifecycle contracts that
//! device drivers built on this layer rely on:
//!
//! - [`addr`]: translation between virtual, physical and bus addresses;
//! - [`pool`]: a byte-granularity pool allocator over page ranges;
//! - [`dma`]: the DMA-coherent allocator, growing lazily from a page source;
//! - [`nic`]: a network-device adapter over a vendor engine;
//! - [`callback`]: the capability interface the vendor engine calls back into;
//! - [`power`]: PSCI power-off method selection;
//! - [`cli`]: the line editor of the interactive shell;
//! - [`mp`]: per-CPU bring-up bookkeeping and secondary-CPU boot commands.
//!
//! Hardware itself (page tables, PCI configuration space, the device registers)
//! is reached only through trait interfaces that the embedding kernel
//! implements; everything on this side of those interfaces is verified.

pub mod addr;
pub mod callback;
pub mod cli;
pub mod dma;
pub mod mp;
pub mod nic;
pub mod pool;
pub mod power;
