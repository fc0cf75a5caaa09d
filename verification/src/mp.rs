//! Multi-processor bring-up bookkeeping.
//!
//! The platform performs the actual power-on of a core; this module decides
//! and verifies what the platform is asked to do: which CPU index to start and
//! where its boot stack ends (as a physical address), and it records which
//! CPUs have had their CPU-local data initialized.

use crate::addr::AddrMap;
use vstd::prelude::*;

verus! {

/// Which CPUs have had their CPU-local data structures set up.
pub struct CpuLocals {
    /// The primary core, once initialized.
    pub primary: Option<usize>,
    /// Secondary cores, in initialization order.
    pub secondary: Vec<usize>,
}

impl CpuLocals {
    /// Before any core is brought up.
    pub fn new() -> (r: CpuLocals)
        ensures
            r.primary is None,
            r.secondary@ == Seq::<usize>::empty(),
    {
        CpuLocals { primary: None, secondary: Vec::new() }
    }
}

/// Initializes CPU-local data structures for the primary core. Called as
/// early as possible: other initializations read the CPU-local data.
pub fn init_percpu(cpus: &mut CpuLocals, cpu_id: usize)
    ensures
        final(cpus).primary == Some(cpu_id),
        final(cpus).secondary == old(cpus).secondary,
{
    cpus.primary = Some(cpu_id);
}

/// Initializes CPU-local data structures for a secondary core. Called as
/// early as possible on that core.
pub fn init_percpu_secondary(cpus: &mut CpuLocals, cpu_id: usize)
    ensures
        final(cpus).primary == old(cpus).primary,
        final(cpus).secondary@ == old(cpus).secondary@.push(cpu_id),
{
    cpus.secondary.push(cpu_id);
}

/// Layout of the statically reserved secondary boot stacks: one stack of
/// `stack_size` bytes per secondary core, `smp - 1` of them in a row starting
/// at virtual address `base`.
#[derive(Clone, Copy, PartialEq, Eq, Structural, Debug)]
pub struct BootStacks {
    pub base: usize,
    pub stack_size: usize,
    pub smp: usize,
}

/// What the platform is asked to do to start one secondary core: power on the
/// CPU at `cpu_idx` with its stack pointer at the physical address
/// `stack_top_phys`.
#[derive(Clone, Copy, PartialEq, Eq, Structural, Debug)]
pub struct BootRequest {
    pub cpu_idx: usize,
    pub stack_top_phys: usize,
}

/// Builds the boot request for one secondary core: the stack top is the end
/// of that core's slot in the boot-stack array, translated to a physical
/// address.
pub fn start_secondary_cpu(
    map: &AddrMap,
    stacks: BootStacks,
    cpu_idx: usize,
    second_cpu_idx: usize,
) -> (r: BootRequest)
    requires
        stacks.smp >= 2,
        second_cpu_idx < stacks.smp - 1,
        stacks.base + (second_cpu_idx + 1) * stacks.stack_size <= usize::MAX,
        map.virt_offset <= stacks.base,
    ensures
        r.cpu_idx == cpu_idx,
        r.stack_top_phys == map.phys_of_virt(
            stacks.base + (second_cpu_idx + 1) * stacks.stack_size,
        ),
{
    let stack_top = stacks.base + (second_cpu_idx + 1) * stacks.stack_size;
    let stack_top_phys = map.virt_to_phys(stack_top);
    BootRequest { cpu_idx, stack_top_phys }
}

} // verus!
