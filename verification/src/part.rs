//! GUID partition tables: finding the header.
use vstd::prelude::*;
use crate::block::{sector_buf, sized, SectorRead, SECTOR_SIZE};
use crate::bytes::{get_le, le};

verus! {

#[derive(Clone, Copy, Debug, PartialEq, Eq, Structural)]
pub enum Error {
    BlockError,
    HeaderNotFound,
    NoEFIPartition,
}

/// The signature of a GPT header, "EFI PART".
pub const GPT_SIGNATURE: u64 = 0x5452415020494645;

/// Checks that sector 1 of `r` holds a GPT header.
pub fn find_header<D: SectorRead>(r: &D) -> (res: Result<(), Error>)
    ensures
        res != Err::<(), Error>(Error::BlockError) && sized(r) ==> (res is Ok <==> le(r.sector(1), 0, 8) == GPT_SIGNATURE),
        res is Err ==> res == Err::<(), Error>(Error::BlockError) || res == Err::<(), Error>(Error::HeaderNotFound),
        r.reads(1) ==> res != Err::<(), Error>(Error::BlockError),
        res == Err::<(), Error>(Error::BlockError) ==> !r.reads(1),
{
    let mut data = sector_buf();
    match r.read(1, data.as_mut_slice()) {
        Ok(_) => {},
        Err(_) => {
            return Err(Error::BlockError);
        },
    }
    proof {
        if sized(r) {
            assert(r.sector(1).len() == SECTOR_SIZE);
        }
    }
    if get_le(data.as_slice(), 0, 8) != GPT_SIGNATURE {
        return Err(Error::HeaderNotFound);
    }
    Ok(())
}

/// Where the partition table starts: a field of the GPT header.
pub const GPT_FIRST_PART_LBA: usize = 72;
/// How many entries the partition table has: a field of the GPT header.
pub const GPT_PART_COUNT: usize = 80;
/// The size of a partition entry; a sector holds four.
pub const PART_ENTRY_SIZE: u64 = 128;

/// The type GUID of an EFI system partition,
/// C12A7328-F81F-11D2-BA4B-00A0C93EC93B, as its bytes lie on disk.
pub open spec fn efi_partition_guid() -> Seq<u8> {
    seq![0x28u8, 0x73, 0x2a, 0xc1, 0x1f, 0xf8, 0xd2, 0x11, 0xba, 0x4b, 0x00, 0xa0, 0xc9, 0x3e, 0xc9, 0x3b]
}

/// The bytes of entry `i` of the partition table that starts at sector
/// `lba` of `d`.
pub open spec fn part_entry<D: SectorRead>(d: &D, lba: int, i: int) -> Seq<u8> {
    d.sector((lba + i / 4) as u64).subrange((i % 4) * 128, (i % 4) * 128 + 128)
}

/// The first entry, from entry `i` on and below `count`, whose type is the
/// EFI system partition; `None` where there is none before the table
/// reaches past the last sector number.
pub open spec fn first_efi_entry<D: SectorRead>(d: &D, lba: int, count: int, i: int) -> Option<int>
    decreases count - i,
{
    if i < 0 || i >= count || lba + i / 4 > u64::MAX {
        None
    } else if part_entry(d, lba, i).subrange(0, 16) == efi_partition_guid() {
        Some(i)
    } else {
        first_efi_entry(d, lba, count, i + 1)
    }
}

/// What looking up the EFI system partition of `d` gives, where every read
/// succeeds: the first and last sector of the first entry of the GPT
/// partition table whose type is the EFI system partition.
pub open spec fn efi_partition<D: SectorRead>(d: &D) -> Result<(u64, u64), Error> {
    let h = d.sector(1);
    if le(h, 0, 8) != GPT_SIGNATURE {
        Err(Error::HeaderNotFound)
    } else {
        let lba = le(h, GPT_FIRST_PART_LBA as int, 8);
        match first_efi_entry(d, lba, le(h, GPT_PART_COUNT as int, 4), 0) {
            Some(i) => Ok((le(part_entry(d, lba, i), 32, 8) as u64, le(part_entry(d, lba, i), 40, 8) as u64)),
            None => Err(Error::NoEFIPartition),
        }
    }
}

/// Whether the 16 bytes at `o` of `s` are the EFI system partition's type.
fn is_efi_guid(s: &[u8], o: usize) -> (r: bool)
    requires
        o + 16 <= s.len(),
    ensures
        r == (s@.subrange(o as int, o + 16) == efi_partition_guid()),
{
    let g: [u8; 16] = [0x28, 0x73, 0x2a, 0xc1, 0x1f, 0xf8, 0xd2, 0x11, 0xba, 0x4b, 0x00, 0xa0, 0xc9, 0x3e, 0xc9, 0x3b];
    assert(g@ =~= efi_partition_guid());
    let mut k: usize = 0;
    while k < 16
        invariant
            k <= 16,
            o + 16 <= s.len(),
            g@ == efi_partition_guid(),
            forall|j: int| 0 <= j < k ==> s@[o + j] == g@[j],
        decreases 16 - k,
    {
        if s[o + k] != g[k] {
            assert(s@.subrange(o as int, o + 16)[k as int] != efi_partition_guid()[k as int]);
            return false;
        }
        k = k + 1;
    }
    assert(s@.subrange(o as int, o + 16) =~= efi_partition_guid());
    true
}

/// Finds the EFI system partition of `r` through its GPT partition table:
/// the first and last sector of the first entry of that type.
pub fn find_efi_partition<D: SectorRead>(r: &D) -> (res: Result<(u64, u64), Error>)
    ensures
        res != Err::<(u64, u64), Error>(Error::BlockError) && sized(r) ==> res == efi_partition(r),
        (forall|s: u64| #[trigger] r.reads(s)) ==> res != Err::<(u64, u64), Error>(Error::BlockError),
{
    let mut data = sector_buf();
    match r.read(1, data.as_mut_slice()) {
        Ok(_) => {},
        Err(_) => {
            return Err(Error::BlockError);
        },
    }
    proof {
        if sized(r) {
            assert(r.sector(1).len() == SECTOR_SIZE);
        }
    }
    if get_le(data.as_slice(), 0, 8) != GPT_SIGNATURE {
        return Err(Error::HeaderNotFound);
    }
    assert(le(data@, 0, 8) == GPT_SIGNATURE);
    let lba = get_le(data.as_slice(), GPT_FIRST_PART_LBA, 8);
    let count = get_le(data.as_slice(), GPT_PART_COUNT, 4);
    proof {
        crate::bytes::lemma_le_bounds(data@, GPT_PART_COUNT as int, 4);
        reveal_with_fuel(crate::bytes::pow256, 5);
    }
    let ghost h = data@;
    let mut sector = sector_buf();
    let mut i: u64 = 0;
    while i < count
        invariant
            i <= count,
            count <= u32::MAX,
            sector@.len() == SECTOR_SIZE,
            sized(r) ==> h == r.sector(1),
            le(h, 0, 8) == GPT_SIGNATURE,
            lba == le(h, GPT_FIRST_PART_LBA as int, 8),
            count == le(h, GPT_PART_COUNT as int, 4),
            sized(r) ==> first_efi_entry(r, lba as int, count as int, 0) == first_efi_entry(
                r,
                lba as int,
                count as int,
                i as int,
            ),
            i % 4 != 0 ==> lba + i / 4 <= u64::MAX,
            i % 4 != 0 && sized(r) ==> sector@ == r.sector((lba + i / 4) as u64),
        decreases count - i,
    {
        if i % 4 == 0 {
            if lba > u64::MAX - i / 4 {
                proof {
                    if sized(r) {
                        assert(first_efi_entry(r, lba as int, count as int, i as int) is None);
                        assert(h == r.sector(1));
                    }
                }
                return Err(Error::NoEFIPartition);
            }
            match r.read(lba + i / 4, sector.as_mut_slice()) {
                Ok(_) => {},
                Err(_) => {
                    return Err(Error::BlockError);
                },
            }
            proof {
                if sized(r) {
                    assert(r.sector((lba + i / 4) as u64).len() == SECTOR_SIZE);
                }
            }
        }
        let o = ((i % 4) * 128) as usize;
        if is_efi_guid(sector.as_slice(), o) {
            let first = get_le(sector.as_slice(), o + 32, 8);
            let last = get_le(sector.as_slice(), o + 40, 8);
            proof {
                if sized(r) {
                    let e = part_entry(r, lba as int, i as int);
                    assert(e =~= sector@.subrange(o as int, o + 128));
                    assert(e.subrange(0, 16) =~= sector@.subrange(o as int, o + 16));
                    lemma_le_sub(sector@, o as int, o + 128, 32, 8);
                    lemma_le_sub(sector@, o as int, o + 128, 40, 8);
                    assert(sector@ == r.sector((lba + i / 4) as u64));
                    assert(first_efi_entry(r, lba as int, count as int, i as int) == Some(i as int));
                    assert(h == r.sector(1));
                    assert(le(h, 0, 8) == GPT_SIGNATURE);
                    assert(first_efi_entry(r, le(h, GPT_FIRST_PART_LBA as int, 8), le(h, GPT_PART_COUNT as int, 4), 0)
                        == Some(i as int));
                    assert(efi_partition(r) == Ok::<(u64, u64), Error>((first, last)));
                }
            }
            return Ok((first, last));
        }
        proof {
            if sized(r) {
                let e = part_entry(r, lba as int, i as int);
                assert(e.subrange(0, 16) =~= sector@.subrange(o as int, o + 16));
            }
        }
        i = i + 1;
    }
    Err(Error::NoEFIPartition)
}

/// A little-endian number read from window `[o, e)` of `b` is the one
/// read from `b` at the same place.
proof fn lemma_le_sub(b: Seq<u8>, o: int, e: int, i: int, n: nat)
    requires
        0 <= o <= e <= b.len(),
        0 <= i,
        o + i + n <= e,
    ensures
        le(b.subrange(o, e), i, n) == le(b, o + i, n),
    decreases n,
{
    if n > 0 {
        lemma_le_sub(b, o, e, i + 1, (n - 1) as nat);
    }
}

} // verus!
