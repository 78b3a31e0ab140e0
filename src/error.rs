use vstd::prelude::*;

verus! {

/// The ways an allocation or bring-up step can fail. Every one of them is
/// fatal to the caller: there is no retry or degraded mode.
#[derive(Clone, Copy, Debug, PartialEq, Eq, Structural)]
pub enum AllocError {
    /// No usable 32-bit PCI window, or a malformed range table.
    ConfigurationError,
    /// The BAR window or the page pool has no room left for the request.
    AllocationExhausted,
    /// A BAR size that is not a power of two, or a page request that is out
    /// of the pool's bounds.
    InvalidArgument,
    /// A BAR address type that this code does not know how to place.
    UnsupportedHardware,
}

} // verus!
