//! The virtio MMIO transport: a 4 KiB window of device registers.
use vstd::prelude::*;

verus! {

/// The magic at offset 0 of a virtio MMIO window, "virt".
pub const VIRTIO_MAGIC: u32 = 0x7472_6976;
/// The MMIO transport version the firmware drives.
pub const VIRTIO_VERSION: u32 = 0x2;
/// Size of the register window.
pub const MMIO_WINDOW_SIZE: u64 = 4096;

/// A virtio device's registers at MMIO address `base`.
pub struct VirtioMMIOTransport {
    pub base: u64,
}

/// What the identification registers say of a device expected to be of
/// type `device_type`: `Some(step)` names the first check that fails (0:
/// magic, 1: version, 2: device type), `None` where all pass.
pub open spec fn failed_check(magic: u32, version: u32, device: u32, device_type: u32) -> Option<u8> {
    if magic != VIRTIO_MAGIC {
        Some(0)
    } else if version != VIRTIO_VERSION {
        Some(1)
    } else if device != device_type {
        Some(2)
    } else {
        None
    }
}

impl VirtioMMIOTransport {
    pub fn new(base: u64) -> (r: VirtioMMIOTransport)
        ensures
            r.base == base,
    {
        VirtioMMIOTransport { base }
    }

    /// Which check of the identification registers fails (see
    /// `failed_check`).
    pub fn check_identity(magic: u32, version: u32, device: u32, device_type: u32) -> (r: Option<u8>)
        ensures
            r == failed_check(magic, version, device, device_type),
    {
        if magic != VIRTIO_MAGIC {
            Some(0)
        } else if version != VIRTIO_VERSION {
            Some(1)
        } else if device != device_type {
            Some(2)
        } else {
            None
        }
    }

    /// The 64-bit feature set from its two 32-bit halves.
    pub fn features_from_halves(low: u32, high: u32) -> (r: u64)
        ensures
            r == high as int * 0x1_0000_0000 + low as int,
    {
        (high as u64) * 0x1_0000_0000 + low as u64
    }

    /// The two 32-bit halves (low, high) in which a 64-bit value is written.
    pub fn halves(value: u64) -> (r: (u32, u32))
        ensures
            r.0 == value % 0x1_0000_0000,
            r.1 == value / 0x1_0000_0000,
    {
        ((value % 0x1_0000_0000) as u32, (value / 0x1_0000_0000) as u32)
    }
}

} // verus!
