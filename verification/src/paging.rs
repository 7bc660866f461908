//! The identity mapping of the first 4 GiB with 2 MiB pages, as x86-64
//! page tables.
use vstd::prelude::*;

verus! {

/// How many GiB the identity mapping covers.
pub const ADDRESS_SPACE_GIB: usize = 4;
/// Entries in a page table.
pub const TABLE_ENTRIES: usize = 512;
/// Size of a page table in bytes.
pub const TABLE_SIZE: u64 = 0x1000;
/// Size of a huge page mapped by an L2 entry.
pub const HUGE_PAGE_SIZE: u64 = 0x20_0000;
/// Entry flag: the entry is present.
pub const PRESENT: u64 = 0x1;
/// Entry flag: the mapping is writable.
pub const WRITABLE: u64 = 0x2;
/// Entry flag: the entry maps a huge page.
pub const HUGE_PAGE: u64 = 0x80;

/// The page table entry that points at the 4 KiB-aligned `addr` with
/// `flags` (what `x86_64`'s `PageTableEntry::set_addr` stores).
pub open spec fn entry(addr: int, flags: int) -> int {
    addr + flags
}

/// Sets up the page tables.
pub struct Manager;

impl Manager {
    /// Fills the tables of the identity mapping: the L2 tables `l2s` (four
    /// tables one after the other, at `l2s_addr`) map 2 MiB pages in turn,
    /// the first four entries of the L3 table `l3` (at `l3_addr`) point at
    /// the L2 tables, and the first entry of the L4 table `l4` at the L3
    /// table. The other entries are left as they are.
    pub fn setup(&mut self, l4: &mut [u64], l3: &mut [u64], l2s: &mut [u64], l3_addr: u64, l2s_addr: u64)
        requires
            old(l4)@.len() == TABLE_ENTRIES,
            old(l3)@.len() == TABLE_ENTRIES,
            old(l2s)@.len() == ADDRESS_SPACE_GIB * TABLE_ENTRIES,
            l3_addr % TABLE_SIZE == 0,
            l3_addr < 0x1_0000_0000_0000,
            l2s_addr % TABLE_SIZE == 0,
            l2s_addr < 0x1_0000_0000_0000,
        ensures
            final(l2s)@.len() == old(l2s)@.len(),
            final(l3)@.len() == TABLE_ENTRIES,
            final(l4)@.len() == TABLE_ENTRIES,
            forall|k: int|
                0 <= k < ADDRESS_SPACE_GIB * TABLE_ENTRIES ==> final(l2s)@[k] == entry(
                    k * HUGE_PAGE_SIZE,
                    PRESENT + WRITABLE + HUGE_PAGE,
                ),
            forall|i: int|
                0 <= i < ADDRESS_SPACE_GIB ==> final(l3)@[i] == entry(l2s_addr + i * TABLE_SIZE, PRESENT + WRITABLE),
            forall|i: int| ADDRESS_SPACE_GIB <= i < TABLE_ENTRIES ==> final(l3)@[i] == old(l3)@[i],
            final(l4)@[0] == entry(l3_addr as int, PRESENT + WRITABLE),
            forall|i: int| 1 <= i < TABLE_ENTRIES ==> final(l4)@[i] == old(l4)@[i],
    {
        let pt_flags = PRESENT | WRITABLE;
        let huge_flags = pt_flags | HUGE_PAGE;
        assert(pt_flags == 3 && huge_flags == 0x83) by (bit_vector)
            requires
                pt_flags == 1u64 | 2u64,
                huge_flags == pt_flags | 0x80u64,
        ;
        let mut next_addr: u64 = 0;
        let mut k: usize = 0;
        let n = l2s.len();
        while k < n
            invariant
                n == ADDRESS_SPACE_GIB * TABLE_ENTRIES,
                l2s@.len() == n,
                k <= n,
                next_addr == k * HUGE_PAGE_SIZE,
                huge_flags == 0x83,
                forall|j: int| 0 <= j < k ==> l2s@[j] == entry(j * HUGE_PAGE_SIZE, PRESENT + WRITABLE + HUGE_PAGE),
            decreases n - k,
        {
            let v = next_addr | huge_flags;
            assert(v == next_addr + 0x83) by (bit_vector)
                requires
                    v == next_addr | 0x83u64,
                    next_addr % 0x20_0000 == 0,
            ;
            l2s[k] = v;
            next_addr = next_addr + HUGE_PAGE_SIZE;
            k = k + 1;
        }
        let mut i: usize = 0;
        while i < ADDRESS_SPACE_GIB
            invariant
                l3@.len() == TABLE_ENTRIES,
                i <= ADDRESS_SPACE_GIB,
                l2s_addr % TABLE_SIZE == 0,
                l2s_addr < 0x1_0000_0000_0000,
                pt_flags == 3,
                forall|j: int| 0 <= j < i ==> l3@[j] == entry(l2s_addr + j * TABLE_SIZE, PRESENT + WRITABLE),
                forall|j: int| i <= j < TABLE_ENTRIES ==> l3@[j] == old(l3)@[j],
            decreases ADDRESS_SPACE_GIB - i,
        {
            let a = l2s_addr + (i as u64) * TABLE_SIZE;
            let v = a | pt_flags;
            assert(a % 0x1000 == 0) by (nonlinear_arith)
                requires
                    a == l2s_addr + (i as u64) * 0x1000,
                    l2s_addr % 0x1000 == 0,
            ;
            assert(v == a + 3) by (bit_vector)
                requires
                    v == a | 3u64,
                    a % 0x1000 == 0,
            ;
            l3[i] = v;
            i = i + 1;
        }
        let v = l3_addr | pt_flags;
        assert(v == l3_addr + 3) by (bit_vector)
            requires
                v == l3_addr | 3u64,
                l3_addr % 0x1000 == 0,
        ;
        l4[0] = v;
    }
}

} // verus!
