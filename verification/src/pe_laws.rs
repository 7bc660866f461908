//! What applying base relocations does to an image.
use vstd::prelude::*;
use crate::bytes::{le, lemma_le_bounds, lemma_le_bytes_len, lemma_le_of_le_bytes, lemma_pow256_8};
use crate::pe::{reloc_blocks, reloc_entries, write_le};

verus! {

/// The type of a relocation entry: its top four bits.
pub open spec fn entry_type(entry: int) -> int {
    entry / 4096
}

/// The type of a 64-bit relocation (IMAGE_REL_BASED_DIR64).
pub open spec fn dir64_type() -> int {
    10
}

/// The relocation entry at byte `j` of the block at `base` of `img` lies
/// in the image and is not a DIR64 relocation.
pub open spec fn other_type_entry(img: Seq<u8>, base: int, j: int) -> bool {
    base + j + 2 <= img.len() && entry_type(le(img, base + j, 2)) != dir64_type()
}

/// An entry whose type is not DIR64 (such as the ABSOLUTE entries that pad
/// a block to four bytes) moves nothing: applying the entries from it on
/// gives what applying them from the next entry on gives, on the same
/// image.
pub proof fn law_reloc_skips_other_types(img: Seq<u8>, base: int, page: int, k: int, end: int, diff: int)
    requires
        0 <= base,
        0 <= k < end,
        base + k + 2 <= img.len(),
        entry_type(le(img, base + k, 2)) != dir64_type(),
    ensures
        reloc_entries(img, base, page, k, end, diff) == reloc_entries(img, base, page, k + 2, end, diff),
{
}

/// A block none of whose entries is a DIR64 relocation leaves the image as
/// it is.
pub proof fn law_reloc_block_without_dir64(img: Seq<u8>, base: int, page: int, k: int, end: int, diff: int)
    requires
        0 <= base,
        0 <= k,
        forall|j: int| k <= j < end && (j - k) % 2 == 0 ==> #[trigger] other_type_entry(img, base, j),
    ensures
        reloc_entries(img, base, page, k, end, diff) == Some(img),
    decreases end + 2 - k,
{
    if k < end {
        assert(other_type_entry(img, base, k));
        assert forall|j: int| k + 2 <= j < end && (j - (k + 2)) % 2 == 0 implies #[trigger] other_type_entry(
            img,
            base,
            j,
        ) by {
            assert((j - k) % 2 == 0) by (nonlinear_arith)
                requires
                    (j - (k + 2)) % 2 == 0,
            ;
            assert(k <= j < end && (j - k) % 2 == 0);
        }
        law_reloc_block_without_dir64(img, base, page, k + 2, end, diff);
    }
}

/// A relocation table of one block, none of whose entries is a DIR64
/// relocation (a block of padding only), leaves the image as it is.
pub proof fn law_relocate_padding_only(img: Seq<u8>, rva: int, size: int, diff: int)
    requires
        0 <= rva,
        rva + 8 <= img.len(),
        8 <= size,
        le(img, rva + 4, 4) == size,
        forall|j: int| 8 <= j < size && j % 2 == 0 ==> #[trigger] other_type_entry(img, rva, j),
    ensures
        reloc_blocks(img, rva, 0, size, diff) == Some(img),
{
    assert forall|j: int| 8 <= j < size && (j - 8) % 2 == 0 implies #[trigger] other_type_entry(img, rva, j) by {
        assert(j % 2 == 0) by (nonlinear_arith)
            requires
                (j - 8) % 2 == 0,
        ;
        assert(8 <= j < size && j % 2 == 0);
    }
    law_reloc_block_without_dir64(img, rva, le(img, rva, 4), 8, size, diff);
    assert(reloc_blocks(img, rva, size, 0, diff) == Some(img));
}

/// A DIR64 entry adds the difference, modulo 2^64, to the 64-bit value at
/// the block's page plus the entry's offset, and changes no other byte of
/// the image; the entries after it then apply to the image so changed.
pub proof fn law_reloc_dir64_moves_value(img: Seq<u8>, base: int, page: int, k: int, end: int, diff: int)
    requires
        0 <= base,
        0 <= page,
        0 <= diff,
        0 <= k < end,
        base + k + 2 <= img.len(),
        entry_type(le(img, base + k, 2)) == dir64_type(),
        page + le(img, base + k, 2) % 4096 <= u32::MAX,
        page + le(img, base + k, 2) % 4096 + 8 <= img.len(),
    ensures
        ({
            let loc = page + le(img, base + k, 2) % 4096;
            exists|moved: Seq<u8>|
                {
                    &&& reloc_entries(img, base, page, k, end, diff) == #[trigger] reloc_entries(
                        moved,
                        base,
                        page,
                        k + 2,
                        end,
                        diff,
                    )
                    &&& moved.len() == img.len()
                    &&& le(moved, loc, 8) == (le(img, loc, 8) + diff) % 0x1_0000_0000_0000_0000
                    &&& forall|p: int| 0 <= p < img.len() && (p < loc || loc + 8 <= p) ==> moved[p] == img[p]
                }
        }),
{
    let loc = page + le(img, base + k, 2) % 4096;
    lemma_le_bounds(img, base + k, 2);
    lemma_le_bounds(img, loc, 8);
    lemma_pow256_8();
    let value = (le(img, loc, 8) + diff) % 0x1_0000_0000_0000_0000;
    let moved = write_le(img, loc, value, 8);
    lemma_le_bytes_len(value, 8);
    assert(moved.subrange(loc, loc + 8) =~= crate::bytes::le_bytes(value, 8));
    lemma_le_of_le_bytes(value, 8, moved, loc);
    assert(reloc_entries(img, base, page, k, end, diff) == reloc_entries(moved, base, page, k + 2, end, diff));
    assert forall|p: int| 0 <= p < img.len() && (p < loc || loc + 8 <= p) implies moved[p] == img[p] by {
        if p < loc {
            assert(moved[p] == img.take(loc)[p]);
        } else {
            assert(moved[p] == img.skip(loc + 8)[p - loc - 8]);
        }
    }
}

} // verus!
