//! Hardware-resource allocation for a small PCI/VirtIO bring-up environment:
//! a bump allocator for 32-bit PCI memory BARs, the parser that picks its
//! window out of a host bridge's `ranges` table, the per-device BAR assignment
//! steps, and a 64-slot physical page pool for DMA buffers.
pub mod error;
pub mod bar32alloc;
pub mod bars;
pub mod bits;
pub mod uart;
pub mod virtio_hal;
