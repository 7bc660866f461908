//! The EFI file protocol over the FAT filesystem: reading a file into a
//! caller's buffer, and listing a directory one file information record at
//! a time.
use vstd::prelude::*;
use crate::block::{sector_buf, SectorRead, SECTOR_SIZE};
use crate::bytes::le_bytes;
use crate::common::strip_nuls;
use crate::fat::directory::{blank_lfn, blank_name, dir_scan, scan_budget, Directory, Node};
use crate::fat::name_to_str_spec;
use crate::fat::le32;
use crate::fat::{Error as FatError, Read};

verus! {

/// Size of an EFI file information record: three sizes, three times, the
/// attribute and 256 UCS-2 code units of name.
pub const FILE_INFO_SIZE: usize = 592;
/// Attribute of a directory.
pub const ATTRIBUTE_DIRECTORY: u64 = 0x10;
/// Attribute of a file.
pub const ATTRIBUTE_ARCHIVE: u64 = 0x20;

/// Why a read through the file protocol fails.
#[derive(Clone, Copy, Debug, PartialEq, Eq, Structural)]
pub enum ReadError {
    /// The buffer needs this many bytes.
    BufferTooSmall(usize),
    /// The filesystem failed.
    Device,
}

/// The bytes of record `b` once a file information record for a file of
/// `size` bytes (a directory where `directory` holds) named `name` is
/// written into it: the sizes, the attribute and the name's code units;
/// the times and the rest of the name stay as they were.
pub open spec fn with_file_info(b: Seq<u8>, size: u32, directory: bool, name: Seq<u8>) -> Seq<u8> {
    let attribute = if directory { ATTRIBUTE_DIRECTORY } else { ATTRIBUTE_ARCHIVE };
    let fields = le_bytes(FILE_INFO_SIZE as int, 8) + le_bytes(size as int, 8) + le_bytes(size as int, 8);
    Seq::new(
        b.len(),
        |i: int|
            if i < 24 {
                fields[i]
            } else if 72 <= i < 80 {
                le_bytes(attribute as int, 8)[i - 72]
            } else if 80 <= i < 80 + 2 * name.len() {
                if (i - 80) % 2 == 0 {
                    name[(i - 80) / 2]
                } else {
                    0u8
                }
            } else {
                b[i]
            },
    )
}

/// Writes the `n` bytes of `src` into `dst` at `at`.
fn put_bytes(dst: &mut [u8], at: usize, src: &[u8])
    requires
        at + src@.len() <= old(dst)@.len(),
    ensures
        final(dst)@.len() == old(dst)@.len(),
        forall|i: int|
            0 <= i < final(dst)@.len() ==> #[trigger] final(dst)@[i] == if at <= i < at + src@.len() {
                src@[i - at]
            } else {
                old(dst)@[i]
            },
{
    let ghost orig = dst@;
    let n = dst.len();
    let mut k: usize = 0;
    while k < src.len()
        invariant
            n == dst@.len(),
            at + src@.len() <= dst@.len(),
            dst@.len() == orig.len(),
            k <= src@.len(),
            forall|i: int|
                0 <= i < dst@.len() ==> #[trigger] dst@[i] == if at <= i < at + k {
                    src@[i - at]
                } else {
                    orig[i]
                },
        decreases src@.len() - k,
    {
        dst[at + k] = src[k];
        k = k + 1;
    }
}

/// Writes into `buf` the file information record of a file of `size`
/// bytes, a directory where `directory` holds, named `name` (ASCII, at
/// most 128 bytes).
pub fn fill_file_info(buf: &mut [u8], size: u32, directory: bool, name: &[u8])
    requires
        old(buf)@.len() >= FILE_INFO_SIZE,
        name@.len() <= 128,
    ensures
        final(buf)@ == with_file_info(old(buf)@, size, directory, name@),
{
    let ghost orig = buf@;
    let mut fields: Vec<u8> = Vec::new();
    crate::bytes::push_le(&mut fields, FILE_INFO_SIZE as u64, 8);
    crate::bytes::push_le(&mut fields, size as u64, 8);
    crate::bytes::push_le(&mut fields, size as u64, 8);
    proof {
        crate::bytes::lemma_le_bytes_len(FILE_INFO_SIZE as int, 8);
        crate::bytes::lemma_le_bytes_len(size as int, 8);
    }
    put_bytes(buf, 0, fields.as_slice());
    let attribute = if directory { ATTRIBUTE_DIRECTORY } else { ATTRIBUTE_ARCHIVE };
    let mut attr: Vec<u8> = Vec::new();
    crate::bytes::push_le(&mut attr, attribute, 8);
    proof {
        crate::bytes::lemma_le_bytes_len(attribute as int, 8);
    }
    put_bytes(buf, 72, attr.as_slice());
    let mut units: Vec<u8> = Vec::new();
    let mut k: usize = 0;
    while k < name.len()
        invariant
            k <= name@.len(),
            units@.len() == 2 * k,
            forall|i: int| 0 <= i < 2 * k ==> #[trigger] units@[i] == if i % 2 == 0 { name@[i / 2] } else { 0u8 },
        decreases name@.len() - k,
    {
        units.push(name[k]);
        units.push(0);
        k = k + 1;
    }
    put_bytes(buf, 80, units.as_slice());
    assert(buf@ =~= with_file_info(orig, size, directory, name@));
}

/// Reads what is left of `f` into `buf`, sector by sector, until the
/// bytes read reach the buffer's length; returns how many were read. A
/// buffer shorter than the file is refused with the size needed, and `f`
/// is then left as it was. A read that fails, gives nothing, or would pass
/// the end of the buffer fails the whole.
pub fn read_file<R: Read>(f: &mut R, buf: &mut [u8]) -> (r: Result<usize, ReadError>)
    requires
        old(f).ready(),
    ensures
        final(f).ready(),
        final(buf)@.len() == old(buf)@.len(),
        old(buf)@.len() < old(f).file_size() ==> r == Err::<usize, ReadError>(
            ReadError::BufferTooSmall(old(f).file_size() as usize),
        ) && *final(f) == *old(f) && final(buf)@ == old(buf)@,
        r matches Ok(n) ==> n <= old(buf)@.len(),
        final(f).content() == old(f).content(),
        r matches Ok(n) ==> (0 <= old(f).cursor() <= old(f).content().len() ==> old(f).cursor() + n
            <= old(f).content().len() && final(buf)@.take(n as int) == old(f).content().subrange(
            old(f).cursor(),
            old(f).cursor() + n,
        )),
        r matches Err(e) ==> e == ReadError::Device || old(buf)@.len() < old(f).file_size(),
        old(f).faultless() && 0 <= old(f).cursor() < old(f).content().len() && old(buf)@.len() == old(f).content().len()
            - old(f).cursor() && old(buf)@.len() >= old(f).file_size() ==> r == Ok::<usize, ReadError>(
            old(buf)@.len() as usize,
        ),
{
    let size = buf.len();
    let file_size = f.get_size();
    if (size as u64) < (file_size as u64) {
        return Err(ReadError::BufferTooSmall(file_size as usize));
    }
    let mut data = sector_buf();
    let mut current: usize = 0;
    let mut remaining: usize = size;
    let ghost c0 = f.cursor();
    let ghost content = f.content();
    let ghost inside = 0 <= c0 <= content.len();
    loop
        invariant
            f.ready(),
            f.content() == content,
            content == old(f).content(),
            c0 == old(f).cursor(),
            inside == (0 <= c0 <= content.len()),
            inside ==> f.cursor() == c0 + current && c0 + current <= content.len(),
            inside ==> buf@.take(current as int) == content.subrange(c0, c0 + current),
            size == buf@.len(),
            size == old(buf)@.len(),
            size >= old(f).file_size(),
            data@.len() == SECTOR_SIZE,
            current <= size,
            current + remaining == size,
            old(f).faultless() ==> f.faultless(),
            old(f).faultless() && 0 <= c0 < content.len() && size == content.len() - c0 ==> f.cursor() == c0 + current
                && remaining > 0,
        decreases remaining,
    {
        let bytes_read = match f.read(data.as_mut_slice()) {
            Ok(n) => n as usize,
            Err(_) => {
                return Err(ReadError::Device);
            },
        };
        if bytes_read == 0 || bytes_read > size - current {
            return Err(ReadError::Device);
        }
        let part = vstd::slice::slice_subrange(data.as_slice(), 0, bytes_read);
        let ghost before = buf@;
        put_bytes(buf, current, part);
        proof {
            if inside {
                assert(part@ == content.subrange(c0 + current, c0 + current + bytes_read));
                assert(buf@.take(current + bytes_read) =~= content.subrange(c0, c0 + current + bytes_read)) by {
                    assert forall|i: int| 0 <= i < current + bytes_read implies #[trigger] buf@.take(
                        current + bytes_read,
                    )[i] == content.subrange(c0, c0 + current + bytes_read)[i] by {
                        if i < current {
                            assert(before.take(current as int)[i] == content.subrange(c0, c0 + current)[i]);
                        }
                    }
                }
            }
        }
        current = current + bytes_read;
        if remaining <= bytes_read {
            return Ok(current);
        }
        remaining = remaining - bytes_read;
    }
}

/// What listing a directory gives next.
#[derive(Clone, Copy, Debug, PartialEq, Eq, Structural)]
pub enum Listing {
    /// The directory has no more entries.
    End,
    /// The record of the next entry was written.
    Entry,
}

/// `b` with the file information record of directory record `rec`: its
/// size (512 for a directory), its kind and its short name as text.
pub open spec fn listing_record(b: Seq<u8>, rec: Seq<u8>) -> Seq<u8> {
    let directory = rec[11] & 0x10 == 0x10;
    let size: u32 = if directory {
        512
    } else {
        le32(rec, 28) as u32
    };
    with_file_info(b, size, directory, strip_nuls(name_to_str_spec(rec.subrange(0, 11), blank_name())))
}

/// Writes the file information record of the next entry of `d` into
/// `buf`; the entry is taken from the directory even where the buffer is
/// too short for its record.
pub fn read_directory<D: SectorRead>(d: &mut Directory<'_, D>, buf: &mut [u8]) -> (r: Result<Listing, ReadError>)
    requires
        old(d).filesystem.wf(),
    ensures
        final(d).filesystem == old(d).filesystem,
        final(buf)@.len() == old(buf)@.len(),
        old(buf)@.len() < FILE_INFO_SIZE ==> final(buf)@ == old(buf)@,
        r matches Err(ReadError::BufferTooSmall(n)) ==> n == FILE_INFO_SIZE,
        ({
            let out = dir_scan(old(d).filesystem, old(d).pos(), blank_lfn(), scan_budget(old(d).filesystem) as nat);
            r != Err::<Listing, ReadError>(ReadError::Device) ==> {
                &&& final(d).pos() == out.1
                &&& match out.0 {
                    Err(e) => e == FatError::EndOfFile && r == Ok::<Listing, ReadError>(Listing::End),
                    Ok((rec, l)) => if old(buf)@.len() < FILE_INFO_SIZE {
                        r == Err::<Listing, ReadError>(ReadError::BufferTooSmall(FILE_INFO_SIZE))
                    } else {
                        r == Ok::<Listing, ReadError>(Listing::Entry) && final(buf)@ == listing_record(old(buf)@, rec)
                    },
                }
            }
        }),
        ({
            let out = dir_scan(old(d).filesystem, old(d).pos(), blank_lfn(), scan_budget(old(d).filesystem) as nat);
            old(d).filesystem.sound() && (out.0 is Ok || out.0 == Err::<(Seq<u8>, Seq<u16>), FatError>(
                FatError::EndOfFile,
            )) ==> r != Err::<Listing, ReadError>(ReadError::Device)
        }),
{
    let (node, name) = match d.next_node() {
        Ok(entry) => entry,
        Err(FatError::EndOfFile) => {
            return Ok(Listing::End);
        },
        Err(_) => {
            return Err(ReadError::Device);
        },
    };
    if buf.len() < FILE_INFO_SIZE {
        return Err(ReadError::BufferTooSmall(FILE_INFO_SIZE));
    }
    proof {
        crate::common::lemma_leading_pads(name@, false);
        crate::common::lemma_trailing_pads(name@, false);
    }
    let stripped = crate::common::ascii_strip(name.as_slice());
    if stripped.len() > 128 {
        return Err(ReadError::Device);
    }
    let (directory, size) = match &node {
        Node::Directory(_) => (true, node.get_size()),
        Node::File(f) => (false, f.get_size()),
    };
    fill_file_info(buf, size, directory, stripped);
    Ok(Listing::Entry)
}

} // verus!
