use vstd::prelude::*;

use crate::bar32alloc::PciMemory32Allocator;
use crate::error::AllocError;

verus! {

/// BAR slots in a PCI function's configuration header.
pub const BAR_SLOTS: u8 = 6;

/// Where a memory BAR's region may be placed.
#[derive(Clone, Copy, Debug, PartialEq, Eq, Structural)]
pub enum MemoryBarKind {
    /// Anywhere in 32-bit space; one slot.
    Width32,
    /// Below 1 MiB.
    Below1MiB,
    /// Anywhere in 64-bit space; two consecutive slots.
    Width64,
}

/// What a BAR slot reports about itself.
#[derive(Clone, Copy, Debug, PartialEq, Eq, Structural)]
pub enum BarDescriptor {
    Memory { address_type: MemoryBarKind, prefetchable: bool, size: u32 },
    Io { size: u32 },
}

/// The register write that assigning one BAR calls for.
#[derive(Clone, Copy, Debug, PartialEq, Eq, Structural)]
pub enum BarWrite {
    /// The slot is left as it is.
    Unchanged,
    /// Write `address` into the 32-bit BAR at `index`.
    Bar32 { index: u8, address: u32 },
    /// Write `address` into the 64-bit BAR pair starting at `index`.
    Bar64 { index: u8, address: u64 },
}

/// One step of the walk over a function's BAR slots: what to write, and
/// which slot to look at next.
#[derive(Clone, Copy, Debug, PartialEq, Eq, Structural)]
pub struct BarStep {
    pub write: BarWrite,
    pub next_index: u8,
}

/// The slot after a BAR described by `bar` at `index`: a 64-bit memory BAR
/// covers two slots.
pub open spec fn next_slot(index: u8, bar: BarDescriptor) -> int {
    match bar {
        BarDescriptor::Memory { address_type: MemoryBarKind::Width64, .. } => index + 2,
        _ => index + 1,
    }
}

/// Assigning the BAR `bar` at slot `index`, with the allocator going from
/// `before` to `after`, returned `r`.
pub open spec fn bar_step_post(
    before: PciMemory32Allocator,
    index: u8,
    bar: BarDescriptor,
    after: PciMemory32Allocator,
    r: Result<BarStep, AllocError>,
) -> bool {
    match bar {
        BarDescriptor::Io { .. } => after == before && r == Ok::<BarStep, AllocError>(
            BarStep { write: BarWrite::Unchanged, next_index: (index + 1) as u8 },
        ),
        BarDescriptor::Memory { address_type: MemoryBarKind::Below1MiB, .. } => after == before && r
            == Err::<BarStep, AllocError>(AllocError::UnsupportedHardware),
        BarDescriptor::Memory { address_type, size, .. } => if size == 0 {
            after == before && r == Ok::<BarStep, AllocError>(
                BarStep { write: BarWrite::Unchanged, next_index: next_slot(index, bar) as u8 },
            )
        } else {
            PciMemory32Allocator::allocate_spec(before, size, after, before.allocate_outcome(size))
                && match before.allocate_outcome(size) {
                    Ok(addr) => r == Ok::<BarStep, AllocError>(
                        BarStep {
                            write: if address_type == MemoryBarKind::Width32 {
                                BarWrite::Bar32 { index, address: addr }
                            } else {
                                BarWrite::Bar64 { index, address: addr as u64 }
                            },
                            next_index: next_slot(index, bar) as u8,
                        },
                    ),
                    Err(e) => r == Err::<BarStep, AllocError>(e),
                }
        },
    }
}

/// Assigns address space to the BAR at slot `index`. I/O BARs and empty
/// memory BARs are left alone; a memory BAR gets a region of its size from
/// `allocator`, written back as a 32-bit address (a 64-bit BAR pair gets the
/// same value, zero-extended, as no window above 4 GiB is assumed). A BAR
/// that must lie below 1 MiB is not supported.
pub fn allocate_bar(allocator: &mut PciMemory32Allocator, index: u8, bar: BarDescriptor) -> (r:
    Result<BarStep, AllocError>)
    requires
        old(allocator).wf(),
        index < BAR_SLOTS,
    ensures
        final(allocator).wf(),
        bar_step_post(*old(allocator), index, bar, *final(allocator), r),
{
    match bar {
        BarDescriptor::Io { .. } => Ok(BarStep { write: BarWrite::Unchanged, next_index: index + 1 }),
        BarDescriptor::Memory { address_type, size, .. } => {
            let next_index: u8 = match address_type {
                MemoryBarKind::Width32 => index + 1,
                MemoryBarKind::Width64 => index + 2,
                MemoryBarKind::Below1MiB => {
                    return Err(AllocError::UnsupportedHardware);
                },
            };
            if size == 0 {
                return Ok(BarStep { write: BarWrite::Unchanged, next_index });
            }
            let a = allocator.allocate_memory_32(size);
            match a {
                Ok(address) => {
                    let write = match address_type {
                        MemoryBarKind::Width32 => BarWrite::Bar32 { index, address },
                        _ => BarWrite::Bar64 { index, address: address as u64 },
                    };
                    Ok(BarStep { write, next_index })
                },
                Err(e) => Err(e),
            }
        },
    }
}

} // verus!
