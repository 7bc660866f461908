//! Physical memory outside the firmware's own data: where kernels, initial
//! ramdisks and command lines are loaded, and where boot protocols leave
//! their tables.
use vstd::prelude::*;
use crate::bytes::le;

verus! {

/// Physical memory that bytes can be written to.
pub trait PhysicalMemory {
    /// The bytes of the memory, by address. A memory that does not define
    /// it keeps the default, which states none: the contract of
    /// `write_bytes` then says nothing of what a write does.
    closed spec fn bytes(&self) -> Option<spec_fn(int) -> u8> {
        None
    }

    /// Writes `data` at physical address `addr`.
    fn write_bytes(&mut self, addr: u64, data: &[u8])
        ensures
            old(self).bytes() matches Some(m) ==> final(self).bytes() == Some(written(m, addr as int, data@)),
    ;
}

/// The bytes `m` once `data` is written at address `addr`.
pub open spec fn written(m: spec_fn(int) -> u8, addr: int, data: Seq<u8>) -> spec_fn(int) -> u8 {
    |a: int|
        if addr <= a < addr + data.len() {
            data[a - addr]
        } else {
            m(a)
        }
}

/// Writing `a` and then `b` right after it writes `a + b`.
pub proof fn lemma_written_concat(m: spec_fn(int) -> u8, addr: int, a: Seq<u8>, b: Seq<u8>)
    ensures
        written(written(m, addr, a), addr + a.len(), b) == written(m, addr, a + b),
{
    assert(written(written(m, addr, a), addr + a.len(), b) =~= written(m, addr, a + b));
}

/// Whether memory `after` holds what `before` held outside `lo..hi`, where
/// `before` states its bytes.
pub open spec fn changes_only<M: PhysicalMemory>(before: M, after: M, lo: int, hi: int) -> bool {
    before.bytes() matches Some(m) ==> (after.bytes() matches Some(m2) && forall|a: int|
        !(lo <= a < hi) ==> #[trigger] m2(a) == m(a))
}

/// Physical memory that bytes can be read from.
pub trait MemoryRead {
    /// The byte at physical address `addr`. A memory that does not define it
    /// keeps the default, which states no byte: the contract of `read_bytes`
    /// then says nothing of what a read gives back.
    closed spec fn byte(&self, addr: int) -> Option<u8> {
        None
    }

    /// Reads `data.len()` bytes from physical address `addr` on.
    fn read_bytes(&self, addr: u64, data: &mut [u8])
        requires
            addr + old(data)@.len() <= u64::MAX + 1,
        ensures
            final(data)@.len() == old(data)@.len(),
            forall|i: int|
                #![trigger final(data)@[i]]
                0 <= i < final(data)@.len() && self.byte(addr + i) is Some ==> final(data)@[i] == self.byte(addr + i)->0,
    ;
}

/// Whether memory `m` states every byte it holds.
pub open spec fn described<M: MemoryRead>(m: &M) -> bool {
    forall|a: int| #[trigger] m.byte(a) is Some
}

/// The bytes of memory `m`, zero where it states none.
pub open spec fn memory<M: MemoryRead>(m: &M) -> spec_fn(int) -> u8 {
    |a: int|
        match m.byte(a) {
            Some(b) => b,
            None => 0u8,
        }
}

/// The `n` bytes of `mem` from address `a` on.
pub open spec fn window(mem: spec_fn(int) -> u8, a: int, n: nat) -> Seq<u8> {
    Seq::new(n, |i: int| mem(a + i))
}

/// The little-endian number held by the `n` bytes of `mem` at address `a`.
pub open spec fn word(mem: spec_fn(int) -> u8, a: int, n: nat) -> int {
    le(window(mem, a, n), 0, n)
}

/// Reads the little-endian number of `n` bytes at address `addr`.
pub fn read_le<M: MemoryRead>(m: &M, addr: u64, n: usize) -> (r: u64)
    requires
        1 <= n <= 8,
        addr + n <= u64::MAX + 1,
    ensures
        described(m) ==> r == word(memory(m), addr as int, n as nat),
{
    let mut buf: Vec<u8> = Vec::new();
    while buf.len() < n
        invariant
            buf@.len() <= n,
        decreases n - buf@.len(),
    {
        buf.push(0);
    }
    m.read_bytes(addr, buf.as_mut_slice());
    let r = crate::bytes::get_le(buf.as_slice(), 0, n);
    proof {
        if described(m) {
            assert forall|i: int| 0 <= i < n implies buf@[i] == memory(m)(addr + i) by {
                assert(m.byte(addr + i) is Some);
            }
            assert(buf@ =~= window(memory(m), addr as int, n as nat));
        }
    }
    r
}

} // verus!
