//! A 16550-style UART reached through MMIO: bytes are written to its first
//! register as they are.
use vstd::prelude::*;

verus! {

/// A UART at MMIO address `base`, 8 bytes of registers.
pub struct UartMmio {
    pub base: u64,
}

impl UartMmio {
    pub fn new(base: u64) -> (r: UartMmio)
        ensures
            r.base == base,
    {
        UartMmio { base }
    }

    /// The UART needs no setup.
    pub fn init(&mut self)
        ensures
            *final(self) == *old(self),
    {
    }
}

} // verus!
