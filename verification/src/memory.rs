//! The device RAM budget and memory footprint accounting.
use vstd::prelude::*;

verus! {

pub const DEVICE_TOTAL_RAM_BYTES: usize = 389120;
pub const DEVICE_STACK_RESERVE_BYTES: usize = 131072;
pub const DEVICE_TRANSIENT_HEADROOM_BYTES: usize = 32768;
/// What is left for persistent state once stack and transient headroom are reserved.
pub const DEVICE_PERSISTENT_BUDGET_BYTES: usize = DEVICE_TOTAL_RAM_BYTES
    - DEVICE_STACK_RESERVE_BYTES - DEVICE_TRANSIENT_HEADROOM_BYTES;

pub const DISPLAY_DRIVER_EPUB_WORKSPACE_LIMIT_BYTES: usize = 65536;
pub const SHARED_RENDER_EPUB_WORKSPACE_LIMIT_BYTES: usize = 163840;

/// Bytes a configuration uses on the device, of which heap, and bytes used
/// only on a host.
#[derive(Debug, Clone, Copy, PartialEq, Eq, Structural)]
pub struct DeviceMemoryFootprint {
    pub device_bytes: usize,
    pub device_heap_bytes: usize,
    pub host_only_bytes: usize,
}

/// `a * b`, or `usize::MAX` where the product does not fit.
pub fn saturating_mul_usize(a: usize, b: usize) -> (r: usize)
    ensures
        r == (if a * b > usize::MAX { usize::MAX as int } else { a * b }),
{
    match a.checked_mul(b) {
        Some(v) => v,
        None => usize::MAX,
    }
}

impl DeviceMemoryFootprint {
    pub fn new(device_bytes: usize) -> (r: Self)
        ensures
            r == (DeviceMemoryFootprint { device_bytes, device_heap_bytes: 0, host_only_bytes: 0 }),
    {
        Self::with_breakdown(device_bytes, 0, 0)
    }

    pub fn with_breakdown(device_bytes: usize, device_heap_bytes: usize, host_only_bytes: usize) -> (r: Self)
        ensures
            r == (DeviceMemoryFootprint { device_bytes, device_heap_bytes, host_only_bytes }),
    {
        Self { device_bytes, device_heap_bytes, host_only_bytes }
    }

    pub fn with_host_overhead(device_bytes: usize, host_only_bytes: usize) -> (r: Self)
        ensures
            r == (DeviceMemoryFootprint { device_bytes, device_heap_bytes: 0, host_only_bytes }),
    {
        Self::with_breakdown(device_bytes, 0, host_only_bytes)
    }

    /// Whether the device bytes stay within the persistent budget.
    pub fn fits_device_budget(self) -> (r: bool)
        ensures
            r == (self.device_bytes <= DEVICE_PERSISTENT_BUDGET_BYTES),
    {
        self.device_bytes <= DEVICE_PERSISTENT_BUDGET_BYTES
    }

    /// The budget left over, or 0 when the footprint exceeds it.
    pub fn remaining_device_bytes(self) -> (r: usize)
        ensures
            r == (if self.device_bytes <= DEVICE_PERSISTENT_BUDGET_BYTES {
                DEVICE_PERSISTENT_BUDGET_BYTES - self.device_bytes
            } else {
                0
            }),
    {
        DEVICE_PERSISTENT_BUDGET_BYTES.saturating_sub(self.device_bytes)
    }

    /// The share of the budget used, in thousandths (saturating).
    pub fn used_device_permille(self) -> (r: usize)
        ensures
            r == (if self.device_bytes * 1000 > usize::MAX { usize::MAX as int } else {
                self.device_bytes * 1000 }) / (DEVICE_PERSISTENT_BUDGET_BYTES as int),
    {
        saturating_mul_usize(self.device_bytes, 1000) / DEVICE_PERSISTENT_BUDGET_BYTES
    }
}

} // verus!
