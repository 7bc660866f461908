//! The memory map of the riscv64 virtual machine.
use core::ops::Range;
use vstd::prelude::*;

verus! {

/// The memory that the SBI firmware keeps.
pub fn reserved_range() -> (r: Range<usize>)
    ensures
        r.start == 0x8000_0000,
        r.end == 0x8020_0000,
{
    0x8000_0000..0x8020_0000
}

} // verus!
