//! A file whose content is a range of memory.
use vstd::prelude::*;
use crate::block::SECTOR_SIZE;
use crate::fat::{Error, Read};

verus! {

/// A file over the bytes of `memory`, read from `position` on.
pub struct MemoryFile<'a> {
    pub memory: &'a [u8],
    pub size: u32,
    pub position: u32,
}

impl<'a> MemoryFile<'a> {
    /// A file over `memory`, read from its start.
    pub fn new(memory: &'a [u8]) -> (r: MemoryFile<'a>)
        requires
            memory@.len() <= u32::MAX,
        ensures
            r.memory@ == memory@,
            r.size == memory@.len(),
            r.position == 0,
    {
        MemoryFile { memory, size: memory.len() as u32, position: 0 }
    }
}

impl<'a> Read for MemoryFile<'a> {
    open spec fn ready(&self) -> bool {
        self.size == self.memory@.len() && self.position <= self.size
    }

    open spec fn content(&self) -> Seq<u8> {
        self.memory@
    }

    open spec fn cursor(&self) -> int {
        self.position as int
    }

    /// Memory never fails to be read.
    open spec fn faultless(&self) -> bool {
        true
    }

    /// Memory has no device to fail.
    open spec fn reliable(&self) -> bool {
        true
    }

    open spec fn file_size(&self) -> u32 {
        self.size
    }

    fn get_size(&self) -> (r: u32)
        ensures
            r == self.size,
    {
        self.size
    }

    /// Copies the next sector of the file, or what is left of it, to the
    /// start of `data`.
    fn read(&mut self, data: &mut [u8]) -> (r: Result<u32, Error>)
        ensures
            ({
                let n = if old(self).size - old(self).position < 512 {
                    old(self).size - old(self).position
                } else {
                    512
                };
                &&& r == Ok::<u32, Error>(n as u32)
                &&& final(self).memory == old(self).memory
                &&& final(self).size == old(self).size
                &&& final(self).position == old(self).position + n
                &&& final(data)@ == old(self).memory@.subrange(
                    old(self).position as int,
                    old(self).position + n,
                ) + old(data)@.skip(n)
            }),
    {
        proof {
            assert(self.ready() == (self.size == self.memory@.len() && self.position <= self.size));
        }
        let left = self.size - self.position;
        let n: u32 = if left < 512 {
            left
        } else {
            512
        };
        let ghost orig = data@;
        let start = self.position as usize;
        let mut k: usize = 0;
        while k < n as usize
            invariant
                data@.len() == SECTOR_SIZE,
                orig.len() == SECTOR_SIZE,
                n <= 512,
                start + n <= self.memory@.len(),
                self.memory@.len() <= u32::MAX,
                k <= n,
                forall|i: int| 0 <= i < SECTOR_SIZE ==> #[trigger] data@[i] == if i < k {
                    self.memory@[start + i]
                } else {
                    orig[i]
                },
            decreases n - k,
        {
            data[k] = self.memory[start + k];
            k = k + 1;
        }
        assert(data@ =~= self.memory@.subrange(start as int, start + n) + orig.skip(n as int));
        self.position = self.position + n;
        proof {
            assert(self.content() == self.memory@);
            assert(old(self).content() == old(self).memory@);
            assert(self.cursor() == self.position);
            assert(old(self).cursor() == old(self).position);
            assert(data@.take(n as int) =~= self.memory@.subrange(start as int, start + n));
            assert(self.faultless());
        }
        Ok(n)
    }

    /// Moves to byte `position`, which must start a sector within the file.
    fn seek(&mut self, position: u32) -> (r: Result<(), Error>)
        ensures
            final(self).memory == old(self).memory,
            final(self).size == old(self).size,
            position % 512 != 0 ==> r == Err::<(), Error>(Error::InvalidOffset) && *final(self) == *old(self),
            position % 512 == 0 && position >= old(self).size ==> r == Err::<(), Error>(Error::EndOfFile)
                && *final(self) == *old(self),
            position % 512 == 0 && position < old(self).size ==> r == Ok::<(), Error>(()) && final(self).position
                == position,
    {
        if position % 512 != 0 {
            return Err(Error::InvalidOffset);
        }
        if position >= self.size {
            return Err(Error::EndOfFile);
        }
        self.position = position;
        Ok(())
    }
}

} // verus!
