//! The firmware's own memory: named ranges with their use.
use vstd::prelude::*;

verus! {

/// What a range of the firmware's memory holds.
#[derive(Clone, Copy, Debug, PartialEq, Eq, Structural)]
pub enum MemoryAttribute {
    Code,
    Data,
    Unusable,
}

/// A named range `start..end` of memory.
#[derive(Clone, Copy, Debug)]
pub struct MemoryDescriptor {
    pub name: &'static str,
    pub start: usize,
    pub end: usize,
    pub attribute: MemoryAttribute,
}

/// Size of a page in bytes.
pub const PAGE_SIZE: usize = 0x1000;

impl MemoryDescriptor {
    /// The first address of the range, which starts a page.
    pub fn range_start(&self) -> (r: usize)
        requires
            self.start % PAGE_SIZE == 0,
        ensures
            r == self.start,
    {
        self.start
    }

    /// The address past the range, which starts a page.
    pub fn range_end(&self) -> (r: usize)
        requires
            self.end % PAGE_SIZE == 0,
        ensures
            r == self.end,
    {
        self.end
    }

    /// The number of pages in the range.
    pub fn page_count(&self) -> (r: usize)
        requires
            self.start % PAGE_SIZE == 0,
            self.end % PAGE_SIZE == 0,
            self.start <= self.end,
        ensures
            r == (self.end - self.start) / PAGE_SIZE as int,
            r * PAGE_SIZE == self.end - self.start,
    {
        (self.range_end() - self.range_start()) / PAGE_SIZE
    }
}

} // verus!
