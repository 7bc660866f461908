//! Where an initial ramdisk is placed.
use vstd::prelude::*;
use crate::boot::{E820Entry, Params, RAM_TYPE};
use crate::bzimage::{align_2m, initrd_best, initrd_candidate, initrd_max_start, initrd_spec, TWO_MIB};

verus! {

/// An initial ramdisk placed by `initrd_best` starts on a 2 MiB boundary,
/// no higher than `max_start`, and ends within one of the RAM entries.
pub proof fn lemma_best_placement(entries: Seq<E820Entry>, size: int, max_start: int)
    requires
        0 <= size,
        max_start % (TWO_MIB as int) == 0,
    ensures
        initrd_best(entries, size, max_start) matches Some(a) ==> {
            &&& a % (TWO_MIB as int) == 0
            &&& a <= max_start
            &&& exists|i: int|
                0 <= i < entries.len() && #[trigger] entries[i].entry_type == RAM_TYPE && a + size <= entries[i].addr
                    + entries[i].size
        },
    decreases entries.len(),
{
    if entries.len() > 0 {
        let prev = initrd_best(entries.drop_last(), size, max_start);
        lemma_best_placement(entries.drop_last(), size, max_start);
        let e = entries.last();
        match initrd_candidate(e, size, max_start) {
            Some(p) => {
                let top = align_2m(e.addr + e.size - size);
                assert(top % (TWO_MIB as int) == 0);
                assert(entries[entries.len() - 1] == e);
            },
            None => {},
        }
        if prev is Some {
            let a = prev->Some_0;
            let i = choose|i: int|
                0 <= i < entries.drop_last().len() && #[trigger] entries.drop_last()[i].entry_type == RAM_TYPE && a
                    + size <= entries.drop_last()[i].addr + entries.drop_last()[i].size;
            assert(entries[i] == entries.drop_last()[i]);
        }
    }
}

/// Law: the initial ramdisk that `load_initrd` places starts on a 2 MiB
/// boundary, ends below the kernel's limit (and 4 GiB), and ends within a
/// RAM entry of the memory map.
pub proof fn law_initrd_placement(p: Params, size: int)
    requires
        p.wf(),
        0 <= size,
    ensures
        initrd_spec(p, size) matches Some(a) ==> {
            let limit: int = if p.hdr.initrd_addr_max == 0 {
                0x37FF_FFFF
            } else {
                p.hdr.initrd_addr_max as int
            };
            &&& a % (TWO_MIB as int) == 0
            &&& a + size <= limit + 1
            &&& a + size <= 0x1_0000_0000
            &&& exists|i: int|
                0 <= i < p.entry_count() && #[trigger] p.table()[i].entry_type == RAM_TYPE && a + size
                    <= p.table()[i].addr + p.table()[i].size
        },
{
    match initrd_max_start(p.hdr, size) {
        None => {},
        Some(m) => {
            let entries = p.table().take(p.entry_count() as int);
            lemma_best_placement(entries, size, m);
            if initrd_best(entries, size, m) is Some {
                let a = initrd_best(entries, size, m)->Some_0;
                let i = choose|i: int|
                    0 <= i < entries.len() && #[trigger] entries[i].entry_type == RAM_TYPE && a + size
                        <= entries[i].addr + entries[i].size;
                assert(entries[i] == p.table()[i]);
            }
        },
    }
}

} // verus!
