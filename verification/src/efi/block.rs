//! The EFI block I/O view of a disk and of its partitions: what the media
//! reports, the device path of each, and reading whole blocks.
use vstd::prelude::*;
use crate::block::{sector_buf, sized, Error, SectorRead, SECTOR_SIZE};
use crate::bytes::{le_bytes, zeros};

verus! {

/// What the block I/O protocol reports of the medium.
#[derive(Clone, Copy, Debug, PartialEq, Eq, Structural)]
pub struct Media {
    pub media_id: u32,
    pub removable_media: bool,
    pub media_present: bool,
    pub logical_partition: bool,
    pub read_only: bool,
    pub write_caching: bool,
    pub block_size: u32,
    pub io_align: u32,
    pub last_block: u64,
    pub lowest_aligned_lba: u64,
    pub logical_blocks_per_physical_block: u32,
    pub optimal_transfer_length_granularity: u32,
}

/// The medium of a read-only disk of `capacity` sectors of 512 bytes.
pub fn media(capacity: u64) -> (r: Media)
    requires
        capacity > 0,
    ensures
        r == (Media {
            media_id: 0,
            removable_media: false,
            media_present: true,
            logical_partition: false,
            read_only: true,
            write_caching: false,
            block_size: 512,
            io_align: 0,
            last_block: (capacity - 1) as u64,
            lowest_aligned_lba: 0,
            logical_blocks_per_physical_block: 1,
            optimal_transfer_length_granularity: 1,
        }),
{
    Media {
        media_id: 0,
        removable_media: false,
        media_present: true,
        logical_partition: false,
        read_only: true,
        write_caching: false,
        block_size: SECTOR_SIZE as u32,
        io_align: 0,
        last_block: capacity - 1,
        lowest_aligned_lba: 0,
        logical_blocks_per_physical_block: 1,
        optimal_transfer_length_granularity: 1,
    }
}

/// An end node padded to the 42 bytes of a hard drive node.
pub open spec fn end_hard_drive_node() -> Seq<u8> {
    seq![0x7fu8, 0xff, 4, 0] + zeros(38)
}

/// The hard drive node of GPT partition `number`, from `start` to `last`,
/// with the unique GUID `uuid`.
pub open spec fn hard_drive_node(number: u32, start: u64, last: u64, uuid: Seq<u8>) -> Seq<u8> {
    seq![0x04u8, 0x01, 42, 0] + le_bytes(number as int, 4) + le_bytes(start as int, 8) + le_bytes(
        last - start + 1,
        8,
    ) + uuid + seq![0x02u8, 0x02]
}

/// The device path of the whole disk (partition 0) or of partition
/// `number`: the controller node, a hard drive node for a partition (an end
/// node for the whole disk), then an end node, each hard drive or end node
/// taking 42 bytes.
pub open spec fn block_path_bytes(number: u32, start: u64, last: u64, uuid: Seq<u8>) -> Seq<u8> {
    seq![0x01u8, 0x05, 8, 0] + zeros(4) + if number == 0 {
        end_hard_drive_node()
    } else {
        hard_drive_node(number, start, last, uuid)
    } + end_hard_drive_node()
}

fn push_end_hard_drive_node(v: &mut Vec<u8>)
    ensures
        final(v)@ == old(v)@ + end_hard_drive_node(),
{
    let ghost v0 = v@;
    v.push(0x7f);
    v.push(0xff);
    v.push(4);
    v.push(0);
    crate::bytes::push_zeros(v, 38);
    assert(v@ =~= v0 + end_hard_drive_node());
}

/// The device path of the whole disk (partition 0) or of GPT partition
/// `number`, from LBA `start` to LBA `last` with the unique GUID `uuid`.
pub fn block_device_path(number: u32, start: u64, last: u64, uuid: &[u8]) -> (r: Vec<u8>)
    requires
        uuid@.len() == 16,
        number != 0 ==> start <= last < u64::MAX,
    ensures
        r@ == block_path_bytes(number, start, last, uuid@),
        r@.len() == 92,
{
    let mut r: Vec<u8> = Vec::new();
    r.push(0x01);
    r.push(0x05);
    r.push(8);
    r.push(0);
    crate::bytes::push_zeros(&mut r, 4);
    let ghost head = r@;
    if number == 0 {
        push_end_hard_drive_node(&mut r);
    } else {
        r.push(0x04);
        r.push(0x01);
        r.push(42);
        r.push(0);
        crate::bytes::push_le(&mut r, number as u64, 4);
        crate::bytes::push_le(&mut r, start, 8);
        crate::bytes::push_le(&mut r, last - start + 1, 8);
        crate::common::append_bytes(&mut r, uuid);
        r.push(0x02);
        r.push(0x02);
        assert(r@ =~= head + hard_drive_node(number, start, last, uuid@));
    }
    let ghost mid = r@;
    push_end_hard_drive_node(&mut r);
    proof {
        crate::bytes::lemma_le_bytes_len(number as int, 4);
        crate::bytes::lemma_le_bytes_len(start as int, 8);
        crate::bytes::lemma_le_bytes_len(last - start + 1, 8);
    }
    assert(r@ =~= block_path_bytes(number, start, last, uuid@));
    r
}

proof fn lemma_skip_more(a: Seq<u8>, b: Seq<u8>, x: int, y: int)
    requires
        a.len() == b.len(),
        0 <= x <= y <= a.len(),
        a.skip(x) == b.skip(x),
    ensures
        a.skip(y) == b.skip(y),
{
    assert forall|k: int| 0 <= k < a.len() - y implies a.skip(y)[k] == b.skip(y)[k] by {
        assert(a.skip(x)[y - x + k] == b.skip(x)[y - x + k]);
    }
    assert(a.skip(y) =~= b.skip(y));
}

/// Reads the whole blocks that fit in `buffer` from block `start` of the
/// partition that starts at `start_lba` on `device`; a failed read stops
/// with an error. The bytes after the last whole block stay as they were.
pub fn read_blocks<D: SectorRead>(device: &D, start_lba: u64, start: u64, buffer: &mut [u8]) -> (r: Result<
    (),
    Error,
>)
    requires
        start_lba + start + old(buffer)@.len() / 512 <= u64::MAX,
    ensures
        final(buffer)@.len() == old(buffer)@.len(),
        final(buffer)@.skip((old(buffer)@.len() / 512 * 512) as int) == old(buffer)@.skip(
            (old(buffer)@.len() / 512 * 512) as int,
        ),
        old(buffer)@.len() < 512 ==> r is Ok,
        r is Ok && sized(device) ==> forall|i: int|
            0 <= i < old(buffer)@.len() / 512 ==> #[trigger] final(buffer)@.subrange(512 * i, 512 * i + 512)
                == device.sector((start_lba + start + i) as u64),
{
    let len = buffer.len();
    let blocks = len / 512;
    let ghost orig = buffer@;
    let mut data = sector_buf();
    let mut i: usize = 0;
    while i < blocks
        invariant
            len == buffer@.len(),
            len == orig.len(),
            orig == old(buffer)@,
            blocks == len / 512,
            i <= blocks,
            start_lba + start + blocks <= u64::MAX,
            data@.len() == SECTOR_SIZE,
            buffer@.skip(512 * i) == orig.skip(512 * i),
            sized(device) ==> forall|j: int|
                0 <= j < i ==> #[trigger] buffer@.subrange(512 * j, 512 * j + 512) == device.sector(
                    (start_lba + start + j) as u64,
                ),
        decreases blocks - i,
    {
        let sector = start_lba + start + i as u64;
        match device.read(sector, data.as_mut_slice()) {
            Ok(()) => {},
            Err(e) => {
                proof {
                    assert(512 * i <= len / 512 * 512) by (nonlinear_arith)
                        requires
                            i <= len / 512,
                    ;
                    lemma_skip_more(buffer@, orig, 512 * i, len / 512 * 512);
                }
                return Err(e);
            },
        }
        proof {
            if sized(device) {
                assert(device.sector(sector).len() == SECTOR_SIZE);
            }
        }
        let ghost before = buffer@;
        let base = 512 * i;
        let mut k: usize = 0;
        while k < 512
            invariant
                len == buffer@.len(),
                base == 512 * i,
                i < blocks,
                blocks == len / 512,
                base + 512 <= len,
                data@.len() == SECTOR_SIZE,
                k <= 512,
                forall|m: int| 0 <= m < len ==> #[trigger] buffer@[m] == if base <= m < base + k {
                    data@[m - base]
                } else {
                    before[m]
                },
            decreases 512 - k,
        {
            buffer[base + k] = data[k];
            k = k + 1;
        }
        proof {
            assert(buffer@.subrange(512 * i, 512 * i + 512) =~= data@);
            assert forall|j: int| 0 <= j < i implies #[trigger] buffer@.subrange(512 * j, 512 * j + 512)
                == before.subrange(512 * j, 512 * j + 512) by {
                assert(buffer@.subrange(512 * j, 512 * j + 512) =~= before.subrange(512 * j, 512 * j + 512));
            }
            assert(buffer@.skip(512 * (i + 1)) =~= before.skip(512 * (i + 1)));
            lemma_skip_more(before, orig, 512 * i, 512 * (i + 1));
        }
        i = i + 1;
    }
    proof {
        lemma_skip_more(buffer@, orig, 512 * i, len / 512 * 512);
    }
    Ok(())
}

} // verus!
