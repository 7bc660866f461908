//! Loading a PE32+ executable (an EFI application) into memory: its
//! headers, its sections, and the base relocations that move it to where
//! it is loaded.
use vstd::prelude::*;
use crate::block::{sector_buf, SECTOR_SIZE};
use crate::bytes::{copy_at, get_le, le, le_bytes, lemma_le_bounds, lemma_le_bytes_len, lemma_pow256_8, pow256, push_zeros, zeros};
use crate::fat::Read;
use crate::mem::{changes_only, written, PhysicalMemory};

verus! {

pub struct Loader<'a, R: Read> {
    file: &'a mut R,
    machine: u16,
    num_sections: u16,
    image_base: u64,
    image_size: u32,
}

#[derive(Clone, Copy, Debug, PartialEq, Eq, Structural)]
pub enum Error {
    FileError,
    InvalidExecutable,
}

/// The machine type of x86-64 executables.
pub const MACHINE_X86_64: u16 = 0x8664;
/// The machine type of aarch64 executables.
pub const MACHINE_AARCH64: u16 = 0xaa64;
/// The magic of a PE32+ optional header.
pub const OPTIONAL_HEADER_MAGIC: u16 = 0x20b;
/// The bytes of the file that hold the headers read before loading.
pub const PE_HEADER_BYTES: usize = 1024;
/// The size of a section header.
pub const SECTION_HEADER_SIZE: usize = 40;

/// Where a section goes in the image and where its data is in the file.
#[derive(Clone, Copy, Debug, PartialEq, Eq, Structural)]
pub struct Section {
    pub virt_size: u32,
    pub virt_address: u32,
    pub raw_size: u32,
    pub raw_offset: u32,
}

/// What the headers of an executable say.
#[derive(Clone, Copy, Debug, PartialEq, Eq, Structural)]
pub struct PeInfo {
    pub num_sections: u16,
    pub entry_point: u32,
    pub image_base: u64,
    pub image_size: u32,
    pub size_of_headers: u32,
    pub num_data_dirs: u32,
    pub reloc_rva: u32,
    pub reloc_size: u32,
    /// Where the section table starts in the headers.
    pub sections_offset: u32,
}

/// What the first 1024 bytes `d` of an executable for `machine` say: the
/// DOS magic "MZ", the offset of the PE header (within the first sector),
/// the "PE" signature, the machine, the PE32+ magic and the section table,
/// which must lie within these bytes.
pub open spec fn pe_parse(d: Seq<u8>, machine: u16) -> Result<PeInfo, Error> {
    let pe = le(d, 0x3c, 4);
    if le(d, 0, 2) != 0x5a4d || pe >= 512 {
        Err(Error::InvalidExecutable)
    } else if le(d, pe, 4) != 0x4550 || le(d, pe + 4, 2) != machine {
        Err(Error::InvalidExecutable)
    } else {
        let opt = pe + 24;
        let num = le(d, pe + 6, 2);
        let sections_offset = opt + le(d, pe + 20, 2);
        if le(d, opt, 2) != OPTIONAL_HEADER_MAGIC || sections_offset + num * 40 > PE_HEADER_BYTES {
            Err(Error::InvalidExecutable)
        } else {
            Ok(
                PeInfo {
                    num_sections: num as u16,
                    entry_point: le(d, opt + 16, 4) as u32,
                    image_base: le(d, opt + 24, 8) as u64,
                    image_size: le(d, opt + 56, 4) as u32,
                    size_of_headers: le(d, opt + 60, 4) as u32,
                    num_data_dirs: le(d, opt + 108, 4) as u32,
                    reloc_rva: le(d, opt + 152, 4) as u32,
                    reloc_size: le(d, opt + 156, 4) as u32,
                    sections_offset: sections_offset as u32,
                },
            )
        }
    }
}

/// Section header `i` of the headers `d`.
pub open spec fn section_at(d: Seq<u8>, info: PeInfo, i: int) -> Section {
    let o = info.sections_offset + 40 * i;
    Section {
        virt_size: le(d, o + 8, 4) as u32,
        virt_address: le(d, o + 12, 4) as u32,
        raw_size: le(d, o + 16, 4) as u32,
        raw_offset: le(d, o + 20, 4) as u32,
    }
}

/// `b` with the `n` little-endian bytes of `x` at `o`.
pub open spec fn write_le(b: Seq<u8>, o: int, x: int, n: nat) -> Seq<u8> {
    b.take(o) + le_bytes(x, n) + b.skip(o + n)
}

/// Where the image is loaded: at its preferred base, or at `load_addr`
/// where it has none.
pub open spec fn load_address(info: PeInfo, load_addr: u64) -> u64 {
    if info.image_base != 0 {
        info.image_base
    } else {
        load_addr
    }
}

/// The relocation entries of a block, from byte `k` of it, applied to image
/// `img`: each 16-bit entry of type 10 adds `diff` (modulo 2^64) to the
/// 64-bit value at `page` plus its offset. The block lies at `base` in the
/// image and ends at byte `end` of it; `None` where an entry or a value to
/// move lies outside the image.
pub open spec fn reloc_entries(img: Seq<u8>, base: int, page: int, k: int, end: int, diff: int) -> Option<Seq<u8>>
    decreases end + 2 - k,
{
    if k >= end {
        Some(img)
    } else if base + k + 2 > img.len() {
        None
    } else {
        let entry = le(img, base + k, 2);
        if entry / 4096 == 10 {
            let loc = page + entry % 4096;
            if loc > u32::MAX || loc + 8 > img.len() {
                None
            } else {
                let moved = (le(img, loc, 8) + diff) % 0x1_0000_0000_0000_0000;
                reloc_entries(write_le(img, loc, moved, 8), base, page, k + 2, end, diff)
            }
        } else {
            reloc_entries(img, base, page, k + 2, end, diff)
        }
    }
}

/// The relocation blocks of the table at `rva` in image `img`, from byte
/// `offset` of the table on, with `remaining` bytes of it left; `None`
/// where a block header lies outside the image, or a block is empty or
/// longer than what is left.
pub open spec fn reloc_blocks(img: Seq<u8>, rva: int, offset: int, remaining: int, diff: int) -> Option<Seq<u8>>
    decreases remaining,
{
    if remaining <= 0 {
        Some(img)
    } else if rva + offset + 8 > img.len() {
        None
    } else {
        let page = le(img, rva + offset, 4);
        let size = le(img, rva + offset + 4, 4);
        if size <= 0 || size > remaining {
            None
        } else {
            match reloc_entries(img, rva + offset, page, 8, size, diff) {
                None => None,
                Some(img2) => reloc_blocks(img2, rva, offset + size, remaining - size, diff),
            }
        }
    }
}

/// `img` with `b` in place of its bytes from `at` on.
pub open spec fn with_bytes(img: Seq<u8>, at: int, b: Seq<u8>) -> Seq<u8> {
    img.take(at) + b + img.skip(at + b.len())
}

/// Where the headers copied into the image end: their size rounded up to
/// whole sectors.
pub open spec fn headers_end(info: PeInfo) -> int {
    (info.size_of_headers + 511) / 512 * 512
}

/// Number of bytes of section `s` that come from the file.
pub open spec fn section_data_len(s: Section) -> int {
    if s.raw_size < s.virt_size {
        s.raw_size as int
    } else {
        s.virt_size as int
    }
}

/// Image `img` once section `s` is placed in it: zeroed, then filled with
/// its data from the file content `c` where that data starts on a sector.
pub open spec fn place_section(img: Seq<u8>, c: Seq<u8>, s: Section) -> Seq<u8> {
    let zeroed = with_bytes(img, s.virt_address as int, zeros(s.virt_size as nat));
    if s.raw_offset % 512 == 0 {
        with_bytes(
            zeroed,
            s.virt_address as int,
            c.subrange(s.raw_offset as int, s.raw_offset + section_data_len(s)),
        )
    } else {
        zeroed
    }
}

/// Image `img` once the first `i` sections of the headers `hdr` are placed.
pub open spec fn place_sections(img: Seq<u8>, c: Seq<u8>, hdr: Seq<u8>, info: PeInfo, i: int) -> Seq<u8>
    decreases i,
{
    if i <= 0 {
        img
    } else {
        place_section(place_sections(img, c, hdr, info, i - 1), c, section_at(hdr, info, i - 1))
    }
}

/// Whether the image is relocated: it has a relocation table, and that
/// table lies in a section whose data starts on a sector.
pub open spec fn relocates(hdr: Seq<u8>, info: PeInfo) -> bool {
    &&& info.num_data_dirs >= 5
    &&& info.reloc_rva != 0
    &&& info.reloc_size != 0
    &&& forall|j: int|
        0 <= j < info.num_sections ==> #[trigger] section_at(hdr, info, j).virt_address == info.reloc_rva
            ==> section_at(hdr, info, j).raw_offset % 512 == 0
}

/// The image that the file content `c`, whose headers say `info`, becomes
/// at `address`: zeroed, its headers copied, its sections placed and its
/// base relocations applied; `None` where the relocations do not apply.
pub open spec fn pe_image(c: Seq<u8>, hdr: Seq<u8>, info: PeInfo, address: u64) -> Option<Seq<u8>> {
    let start = with_bytes(zeros(info.image_size as nat), 0, c.subrange(0, headers_end(info)));
    let placed = place_sections(start, c, hdr, info, info.num_sections as int);
    if relocates(hdr, info) {
        reloc_blocks(placed, info.reloc_rva as int, 0, info.reloc_size as int, address - info.image_base)
    } else {
        Some(placed)
    }
}

/// Loading the file content `c`, whose headers `d` say `info`, at
/// `address` gets through every check: the entry point is an address, the
/// copied headers and each section fit in the image, the data of each
/// section that starts on a sector starts within the file, and the base
/// relocations apply.
pub open spec fn pe_loads(c: Seq<u8>, d: Seq<u8>, info: PeInfo, address: u64) -> bool {
    &&& address + info.entry_point <= u64::MAX
    &&& headers_end(info) <= info.image_size
    &&& forall|i: int|
        0 <= i < info.num_sections ==> #[trigger] section_at(d, info, i).virt_address + section_at(
            d,
            info,
            i,
        ).virt_size <= info.image_size
    &&& forall|i: int|
        0 <= i < info.num_sections ==> #[trigger] section_at(d, info, i).raw_offset % 512 == 0 ==> section_at(
            d,
            info,
            i,
        ).raw_offset < c.len()
    &&& pe_image(c, d, info, address) is Some
}

/// The file content `c` holds every byte that loading reads from it: the
/// headers and the data of each section that starts on a sector.
pub open spec fn pe_covered(c: Seq<u8>, hdr: Seq<u8>, info: PeInfo) -> bool {
    &&& headers_end(info) <= c.len()
    &&& forall|i: int|
        0 <= i < info.num_sections ==> #[trigger] section_at(hdr, info, i).raw_offset % 512 == 0
            ==> section_at(hdr, info, i).raw_offset + section_data_len(section_at(hdr, info, i)) <= c.len()
}

proof fn lemma_headers_step(off: int, soh: int)
    requires
        0 <= off < soh,
        off % 512 == 0,
    ensures
        off + 512 <= (soh + 511) / 512 * 512,
{
    assert(off + 512 <= (soh + 511) / 512 * 512) by (nonlinear_arith)
        requires
            0 <= off < soh,
            off % 512 == 0,
    ;
}

proof fn lemma_headers_done(off: int, soh: int)
    requires
        0 <= soh <= off <= soh + 511,
        off % 512 == 0,
    ensures
        off == (soh + 511) / 512 * 512,
{
    assert(off == (soh + 511) / 512 * 512) by (nonlinear_arith)
        requires
            0 <= soh <= off <= soh + 511,
            off % 512 == 0,
    ;
}

/// The section table of headers that parse lies within them.
pub proof fn lemma_sections_within(d: Seq<u8>, machine: u16)
    requires
        pe_parse(d, machine) is Ok,
    ensures
        pe_parse(d, machine)->Ok_0.sections_offset + 40 * pe_parse(d, machine)->Ok_0.num_sections
            <= PE_HEADER_BYTES,
{
    let pe = le(d, 0x3c, 4);
    lemma_pow256_8();
    lemma_le_bounds(d, 0x3c, 4);
    lemma_le_bounds(d, pe + 6, 2);
    lemma_le_bounds(d, pe + 20, 2);
    let num = le(d, pe + 6, 2);
    let so = pe + 24 + le(d, pe + 20, 2);
    assert(0 <= so <= PE_HEADER_BYTES);
    assert(0 <= num < 0x1_0000);
    assert((so as u32) as int == so);
    assert((num as u16) as int == num);
}

/// Reads section header `i` from the headers `d`.
pub fn section_header(d: &[u8], info: &PeInfo, i: u16) -> (s: Section)
    requires
        d@.len() == PE_HEADER_BYTES,
        i < info.num_sections,
        info.sections_offset + 40 * info.num_sections <= PE_HEADER_BYTES,
    ensures
        s == section_at(d@, *info, i as int),
{
    let o = info.sections_offset as usize + 40 * i as usize;
    Section {
        virt_size: get_le(d, o + 8, 4) as u32,
        virt_address: get_le(d, o + 12, 4) as u32,
        raw_size: get_le(d, o + 16, 4) as u32,
        raw_offset: get_le(d, o + 20, 4) as u32,
    }
}

/// Reads the headers of an executable for `machine` from its first 1024
/// bytes.
pub fn parse_headers(d: &[u8], machine: u16) -> (r: Result<PeInfo, Error>)
    requires
        d@.len() == PE_HEADER_BYTES,
    ensures
        r == pe_parse(d@, machine),
{
    if get_le(d, 0, 2) != 0x5a4d {
        return Err(Error::InvalidExecutable);
    }
    let pe = get_le(d, 0x3c, 4);
    if pe >= 512 {
        return Err(Error::InvalidExecutable);
    }
    let pe = pe as usize;
    if get_le(d, pe, 4) != 0x4550 || get_le(d, pe + 4, 2) != machine as u64 {
        return Err(Error::InvalidExecutable);
    }
    let opt = pe + 24;
    proof {
        lemma_pow256_8();
        lemma_le_bounds(d@, pe + 6, 2);
        lemma_le_bounds(d@, pe + 20, 2);
    }
    let num = get_le(d, pe + 6, 2);
    let sections_offset = opt as u64 + get_le(d, pe + 20, 2);
    if get_le(d, opt, 2) != OPTIONAL_HEADER_MAGIC as u64 || sections_offset + num * 40 > PE_HEADER_BYTES as u64 {
        return Err(Error::InvalidExecutable);
    }
    proof {
        lemma_le_bounds(d@, opt + 24, 8);
        lemma_pow256_8();
    }
    Ok(
        PeInfo {
            num_sections: num as u16,
            entry_point: get_le(d, opt + 16, 4) as u32,
            image_base: get_le(d, opt + 24, 8),
            image_size: get_le(d, opt + 56, 4) as u32,
            size_of_headers: get_le(d, opt + 60, 4) as u32,
            num_data_dirs: get_le(d, opt + 108, 4) as u32,
            reloc_rva: get_le(d, opt + 152, 4) as u32,
            reloc_size: get_le(d, opt + 156, 4) as u32,
            sections_offset: sections_offset as u32,
        },
    )
}

/// Writes the `n` little-endian bytes of `x` at `o` in `b`.
pub fn put_le(b: &mut [u8], o: usize, x: u64, n: usize)
    requires
        o + n <= old(b)@.len(),
        n <= 8,
    ensures
        final(b)@ == write_le(old(b)@, o as int, x as int, n as nat),
        final(b)@.len() == old(b)@.len(),
{
    let blen = b.len();
    let ghost orig = b@;
    let ghost full = le_bytes(x as int, n as nat);
    proof {
        lemma_le_bytes_len(x as int, n as nat);
    }
    let mut cur = x;
    let mut k: usize = 0;
    assert(full.skip(0) =~= full);
    while k < n
        invariant
            k <= n <= 8,
            o + n <= orig.len(),
            blen == orig.len(),
            b@.len() == orig.len(),
            full.len() == n,
            full.skip(k as int) == le_bytes(cur as int, (n - k) as nat),
            forall|i: int| 0 <= i < orig.len() ==> #[trigger] b@[i] == if o <= i < o + k {
                full[i - o]
            } else {
                orig[i]
            },
        decreases n - k,
    {
        proof {
            assert(le_bytes(cur as int, (n - k) as nat) == seq![(cur % 256) as u8] + le_bytes(
                (cur / 256) as int,
                (n - k - 1) as nat,
            ));
            assert(full[k as int] == full.skip(k as int)[0]);
            assert(full.skip(k + 1) =~= full.skip(k as int).skip(1));
            assert((seq![(cur % 256) as u8] + le_bytes((cur / 256) as int, (n - k - 1) as nat)).skip(1) =~= le_bytes(
                (cur / 256) as int,
                (n - k - 1) as nat,
            ));
        }
        b[o + k] = (cur % 256) as u8;
        cur = cur / 256;
        k = k + 1;
    }
    proof {
        lemma_le_bytes_len(x as int, n as nat);
    }
    assert(b@ =~= write_le(orig, o as int, x as int, n as nat));
}

/// Applies the relocation entries of the block at `base` of image `img`,
/// from byte 8 to byte `end` of the block.
#[verifier::rlimit(40)]
fn relocate_block(img: &mut [u8], base: u64, page: u64, end: u64, diff: u64) -> (r: Result<(), Error>)
    requires
        page <= u32::MAX,
        end <= u32::MAX,
        base <= u64::MAX - 0x2_0000_0000,
    ensures
        final(img)@.len() == old(img)@.len(),
        match reloc_entries(old(img)@, base as int, page as int, 8, end as int, diff as int) {
            Some(i) => r is Ok && final(img)@ == i,
            None => r == Err::<(), Error>(Error::InvalidExecutable),
        },
{
    let ulen = img.len();
    let len = ulen as u64;
    let mut k: u64 = 8;
    proof {
        lemma_pow256_8();
    }
    while k < end
        invariant
            page <= u32::MAX,
            end <= u32::MAX,
            base <= u64::MAX - 0x2_0000_0000,
            8 <= k,
            k <= end + 1 || k == 8,
            ulen == img@.len(),
            len == ulen,
            img@.len() == old(img)@.len(),
            reloc_entries(old(img)@, base as int, page as int, 8, end as int, diff as int) == reloc_entries(
                img@,
                base as int,
                page as int,
                k as int,
                end as int,
                diff as int,
            ),
            pow256(2) == 0x1_0000,
            pow256(8) == 0x1_0000_0000_0000_0000,
        decreases end + 2 - k,
    {
        let ghost cur = img@;
        if base + k + 2 > len {
            assert(reloc_entries(cur, base as int, page as int, k as int, end as int, diff as int) is None);
            return Err(Error::InvalidExecutable);
        }
        let at = (base + k) as usize;
        let entry = get_le(img, at, 2);
        proof {
            lemma_le_bounds(cur, at as int, 2);
        }
        if entry / 4096 == 10 {
            let loc = page + entry % 4096;
            if loc > u32::MAX as u64 || loc + 8 > len {
                assert(reloc_entries(cur, base as int, page as int, k as int, end as int, diff as int) is None);
                return Err(Error::InvalidExecutable);
            }
            let value = get_le(img, loc as usize, 8);
            proof {
                lemma_le_bounds(cur, loc as int, 8);
            }
            let moved = value.wrapping_add(diff);
            assert(moved == (value + diff) % 0x1_0000_0000_0000_0000);
            put_le(img, loc as usize, moved, 8);
            assert(reloc_entries(cur, base as int, page as int, k as int, end as int, diff as int) == reloc_entries(
                img@,
                base as int,
                page as int,
                k + 2,
                end as int,
                diff as int,
            ));
        } else {
            assert(reloc_entries(cur, base as int, page as int, k as int, end as int, diff as int) == reloc_entries(
                img@,
                base as int,
                page as int,
                k + 2,
                end as int,
                diff as int,
            ));
        }
        k = k + 2;
    }
    Ok(())
}

/// Applies the base relocation table of `size` bytes at `rva` of image
/// `img`, adding `diff` to each 64-bit value that it lists.
pub fn relocate(img: &mut [u8], rva: u32, size: u32, diff: u64) -> (r: Result<(), Error>)
    ensures
        final(img)@.len() == old(img)@.len(),
        match reloc_blocks(old(img)@, rva as int, 0, size as int, diff as int) {
            Some(i) => r is Ok && final(img)@ == i,
            None => r == Err::<(), Error>(Error::InvalidExecutable),
        },
{
    let ulen = img.len();
    let len = ulen as u64;
    let mut offset: u64 = 0;
    let mut remaining: u64 = size as u64;
    proof {
        lemma_pow256_8();
    }
    while remaining > 0
        invariant
            offset + remaining == size,
            ulen == img@.len(),
            len == ulen,
            img@.len() == old(img)@.len(),
            reloc_blocks(old(img)@, rva as int, 0, size as int, diff as int) == reloc_blocks(
                img@,
                rva as int,
                offset as int,
                remaining as int,
                diff as int,
            ),
            pow256(4) == 0x1_0000_0000,
        decreases remaining,
    {
        let base = rva as u64 + offset;
        if base + 8 > len {
            return Err(Error::InvalidExecutable);
        }
        let b_at = base as usize;
        assert(b_at == base);
        let page = get_le(img, b_at, 4);
        let bsize = get_le(img, b_at + 4, 4);
        proof {
            lemma_le_bounds(img@, b_at as int, 4);
            lemma_le_bounds(img@, b_at + 4, 4);
        }
        if bsize == 0 || bsize > remaining {
            return Err(Error::InvalidExecutable);
        }
        match relocate_block(img, base, page, bsize, diff) {
            Ok(()) => {},
            Err(e) => {
                return Err(e);
            },
        }
        offset = offset + bsize;
        remaining = remaining - bsize;
    }
    Ok(())
}

impl<'a, R: Read> Loader<'a, R> {
    /// The machine type that the loader accepts.
    pub closed spec fn machine(&self) -> u16 {
        self.machine
    }

    /// The file being loaded.
    pub closed spec fn source(&self) -> &'a mut R {
        self.file
    }

    /// A loader of x86-64 executables from `file`.
    pub fn new(file: &'a mut R) -> (l: Loader<'a, R>)
        ensures
            l.machine() == MACHINE_X86_64,
            *l.source() == *old(file),
    {
        Loader { file, machine: MACHINE_X86_64, num_sections: 0, image_base: 0, image_size: 0 }
    }

    /// A loader of executables for `machine` from `file`.
    pub fn with_machine(file: &'a mut R, machine: u16) -> (l: Loader<'a, R>)
        ensures
            l.machine() == machine,
            *l.source() == *old(file),
    {
        Loader { file, machine, num_sections: 0, image_base: 0, image_size: 0 }
    }

    /// Loads the executable, whose file is at its start, at its preferred
    /// base or else at `load_addr`: its headers, its sections (zeroed, then
    /// filled with their data where it starts on a sector), and its base
    /// relocations. Returns the entry point, the address and the size of
    /// the image. Where the file holds the headers at the reader's position
    /// and every byte that loading reads, memory then holds the image that
    /// `pe_image` describes; from a reader that does not fail, loading then
    /// succeeds wherever `pe_loads` holds, and headers that do not parse
    /// answer their error.
    #[verifier::rlimit(60)]
    pub fn load<M: PhysicalMemory>(&mut self, load_addr: u64, mem: &mut M) -> (r: Result<(u64, u64, u64), Error>)
        requires
            old(self).source().ready(),
        ensures
            final(self).source().ready(),
            final(self).machine() == old(self).machine(),
            r is Err ==> *final(mem) == *old(mem),
            r matches Ok((entry, addr, size)) ==> changes_only(*old(mem), *final(mem), addr as int, addr + size),
            r matches Ok((entry, addr, size)) ==> exists|d: Seq<u8>|
                {
                    &&& d.len() == PE_HEADER_BYTES
                    &&& #[trigger] pe_parse(d, old(self).machine()) matches Ok(info)
                    &&& addr == load_address(info, load_addr)
                    &&& entry == addr + info.entry_point
                    &&& size == info.image_size
                },
            ({
                let c = old(self).source().content();
                let c0 = old(self).source().cursor();
                let d = c.subrange(c0, c0 + PE_HEADER_BYTES);
                r matches Ok((entry, addr, size)) ==> (0 <= c0 && c0 + PE_HEADER_BYTES <= c.len() ==> {
                    &&& pe_parse(d, old(self).machine()) matches Ok(info)
                    &&& addr == load_address(info, load_addr)
                    &&& entry == addr + info.entry_point
                    &&& size == info.image_size
                    &&& pe_covered(c, d, info) ==> {
                        &&& pe_image(c, d, info, addr) is Some
                        &&& old(mem).bytes() matches Some(m) ==> final(mem).bytes() == Some(
                            written(m, addr as int, pe_image(c, d, info, addr)->0),
                        )
                    }
                })
            }),
            ({
                let c = old(self).source().content();
                let c0 = old(self).source().cursor();
                let d = c.subrange(c0, c0 + PE_HEADER_BYTES);
                old(self).source().faultless() && 0 <= c0 && c0 + PE_HEADER_BYTES <= c.len() ==> match pe_parse(
                    d,
                    old(self).machine(),
                ) {
                    Err(e) => r == Err::<(u64, u64, u64), Error>(e),
                    Ok(info) => pe_covered(c, d, info) && pe_loads(c, d, info, load_address(info, load_addr)) ==> r is Ok,
                }
            }),
            ({
                let c = old(self).source().content();
                let c0 = old(self).source().cursor();
                let d = c.subrange(c0, c0 + PE_HEADER_BYTES);
                0 <= c0 && c0 + PE_HEADER_BYTES <= c.len() ==> match pe_parse(d, old(self).machine()) {
                    Err(e) => r == Err::<(u64, u64, u64), Error>(Error::FileError) || r == Err::<(u64, u64, u64), Error>(e),
                    Ok(info) => pe_covered(c, d, info) && pe_loads(c, d, info, load_address(info, load_addr)) ==> r is Ok
                        || r == Err::<(u64, u64, u64), Error>(Error::FileError),
                }
            }),
    {
        let ghost c = self.file.content();
        let ghost c0 = self.file.cursor();
        let ghost covered_hdr = 0 <= c0 && c0 + PE_HEADER_BYTES <= c.len();
        let mut hdr: Vec<u8> = Vec::new();
        let mut buf = sector_buf();
        match self.file.read(buf.as_mut_slice()) {
            Ok(_) => {},
            Err(_) => {
                return Err(Error::FileError);
            },
        }
        proof {
            if covered_hdr {
                assert(buf@ =~= c.subrange(c0, c0 + 512));
            }
        }
        crate::common::append_bytes(&mut hdr, buf.as_slice());
        match self.file.read(buf.as_mut_slice()) {
            Ok(_) => {},
            Err(_) => {
                return Err(Error::FileError);
            },
        }
        proof {
            if covered_hdr {
                assert(buf@ =~= c.subrange(c0 + 512, c0 + 1024));
            }
        }
        crate::common::append_bytes(&mut hdr, buf.as_slice());
        proof {
            if covered_hdr {
                assert(hdr@ =~= c.subrange(c0, c0 + PE_HEADER_BYTES));
            }
        }
        let info = match parse_headers(hdr.as_slice(), self.machine) {
            Ok(i) => i,
            Err(e) => {
                return Err(e);
            },
        };
        self.num_sections = info.num_sections;
        self.image_base = info.image_base;
        self.image_size = info.image_size;
        proof {
            lemma_sections_within(hdr@, self.machine);
        }
        let ghost covered = pe_covered(c, hdr@, info);
        let ghost good = covered_hdr && covered && pe_loads(
            c,
            hdr@,
            info,
            load_address(info, load_addr),
        );
        let address = if info.image_base != 0 {
            info.image_base
        } else {
            load_addr
        };
        let entry = match address.checked_add(info.entry_point as u64) {
            Some(e) => e,
            None => {
                return Err(Error::InvalidExecutable);
            },
        };
        let image_size = info.image_size as usize;
        let mut image: Vec<u8> = Vec::new();
        push_zeros(&mut image, image_size);
        let ghost blank = image@;
        // Copy the headers to the start of the image.
        match self.file.seek(0) {
            Ok(_) => {},
            Err(_) => {
                return Err(Error::FileError);
            },
        }
        let mut off: u64 = 0;
        assert(blank.take(0) + c.subrange(0, 0) + blank.skip(0) =~= blank);
        assert(good && old(self).file.faultless() ==> self.file.faultless());
        while off < info.size_of_headers as u64
            invariant
                self.file.ready(),
                self.file.content() == c,
                self.machine == old(self).machine,
                pe_parse(hdr@, old(self).machine()) == Ok::<PeInfo, Error>(info),
                hdr@.len() == PE_HEADER_BYTES,
                info.sections_offset + 40 * info.num_sections <= PE_HEADER_BYTES,
                image@.len() == image_size,
                image_size == info.image_size,
                blank == zeros(image_size as nat),
                buf@.len() == SECTOR_SIZE,
                off <= info.size_of_headers + 511,
                off % 512 == 0,
                covered == pe_covered(c, hdr@, info),
                covered ==> headers_end(info) <= c.len(),
                covered ==> self.file.cursor() == off,
                covered ==> image@ == with_bytes(blank, 0, c.subrange(0, off as int)),
                good == (covered_hdr && covered && pe_loads(
                    c,
                    hdr@,
                    info,
                    load_address(info, load_addr),
                )),
                good && old(self).file.faultless() ==> self.file.faultless(),
                address == load_address(info, load_addr),
                c == old(self).file.content(),
                c0 == old(self).file.cursor(),
                covered_hdr == (0 <= c0 && c0 + PE_HEADER_BYTES <= c.len()),
                covered_hdr ==> hdr@ == c.subrange(c0, c0 + PE_HEADER_BYTES),
            decreases info.size_of_headers + 512 - off,
        {
            proof {
                if good {
                    lemma_headers_step(off as int, info.size_of_headers as int);
                }
            }
            if off + 512 > image_size as u64 {
                return Err(Error::InvalidExecutable);
            }
            let ghost before = image@;
            match self.file.read(buf.as_mut_slice()) {
                Ok(_) => {},
                Err(_) => {
                    return Err(Error::FileError);
                },
            }
            proof {
                if covered {
                    lemma_headers_step(off as int, info.size_of_headers as int);
                    assert(buf@ =~= c.subrange(off as int, off + 512));
                }
            }
            copy_at(&mut image, off as usize, buf.as_slice(), 512);
            proof {
                if covered {
                    assert(image@ =~= with_bytes(blank, 0, c.subrange(0, off + 512)));
                }
            }
            off = off + 512;
        }
        proof {
            if covered {
                lemma_headers_done(off as int, info.size_of_headers as int);
            }
        }
        let ghost start = image@;
        assert(covered ==> start == with_bytes(blank, 0, c.subrange(0, headers_end(info))));
        // Zero each section, then fill it with its data.
        let mut i: u16 = 0;
        while i < info.num_sections
            invariant
                self.file.ready(),
                self.file.content() == c,
                self.machine == old(self).machine,
                pe_parse(hdr@, old(self).machine()) == Ok::<PeInfo, Error>(info),
                hdr@.len() == PE_HEADER_BYTES,
                info.sections_offset + 40 * info.num_sections <= PE_HEADER_BYTES,
                image@.len() == image_size,
                image_size == info.image_size,
                buf@.len() == SECTOR_SIZE,
                i <= info.num_sections,
                covered == pe_covered(c, hdr@, info),
                covered ==> image@ == place_sections(start, c, hdr@, info, i as int),
                good == (covered_hdr && covered && pe_loads(
                    c,
                    hdr@,
                    info,
                    load_address(info, load_addr),
                )),
                good && old(self).file.faultless() ==> self.file.faultless(),
                address == load_address(info, load_addr),
                c == old(self).file.content(),
                c0 == old(self).file.cursor(),
                covered_hdr == (0 <= c0 && c0 + PE_HEADER_BYTES <= c.len()),
                covered_hdr ==> hdr@ == c.subrange(c0, c0 + PE_HEADER_BYTES),
            decreases info.num_sections - i,
        {
            let s = section_header(hdr.as_slice(), &info, i);
            proof {
                if good {
                    assert(s.virt_address + s.virt_size <= info.image_size);
                    assert(s.raw_offset % 512 == 0 ==> s.raw_offset < c.len());
                }
            }
            if s.virt_address as u64 + s.virt_size as u64 > image_size as u64 {
                return Err(Error::InvalidExecutable);
            }
            let va = s.virt_address as usize;
            let vs = s.virt_size as usize;
            let ghost prev = image@;
            let mut z: usize = 0;
            while z < vs
                invariant
                    image@.len() == image_size,
                    prev.len() == image_size,
                    va + vs <= image_size,
                    z <= vs,
                    image@ == with_bytes(prev, va as int, zeros(z as nat)),
                decreases vs - z,
            {
                image.set(va + z, 0);
                z = z + 1;
                assert(image@ =~= with_bytes(prev, va as int, zeros(z as nat)));
            }
            let ghost zeroed = image@;
            if s.raw_offset % 512 == 0 {
                match self.file.seek(s.raw_offset) {
                    Ok(_) => {},
                    Err(_) => {
                        return Err(Error::FileError);
                    },
                }
                let size = if s.raw_size < s.virt_size {
                    s.raw_size
                } else {
                    s.virt_size
                } as usize;
                proof {
                    if covered {
                        assert(section_at(hdr@, info, i as int).raw_offset % 512 == 0);
                    }
                }
                let mut so: usize = 0;
                proof {
                    if covered {
                        assert(zeroed.take(va as int) + c.subrange(s.raw_offset as int, s.raw_offset as int)
                            + zeroed.skip(va as int) =~= zeroed);
                    }
                }
                while so < size
                    invariant
                        self.file.ready(),
                        self.file.content() == c,
                        self.machine == old(self).machine,
                        image@.len() == image_size,
                        zeroed.len() == image_size,
                        buf@.len() == SECTOR_SIZE,
                        va + vs <= image_size,
                        size <= vs,
                        size == section_data_len(s),
                        so <= size,
                        covered ==> s.raw_offset + size <= c.len(),
                        covered && so < size ==> self.file.cursor() == s.raw_offset + so,
                        good && old(self).file.faultless() ==> self.file.faultless(),
                        covered == pe_covered(c, hdr@, info),
                        hdr@.len() == PE_HEADER_BYTES,
                        info.sections_offset + 40 * info.num_sections <= PE_HEADER_BYTES,
                        pe_parse(hdr@, old(self).machine()) == Ok::<PeInfo, Error>(info),
                        good == (covered_hdr && covered && pe_loads(
                            c,
                            hdr@,
                            info,
                            load_address(info, load_addr),
                        )),
                        address == load_address(info, load_addr),
                        c == old(self).file.content(),
                        c0 == old(self).file.cursor(),
                        covered_hdr == (0 <= c0 && c0 + PE_HEADER_BYTES <= c.len()),
                        covered_hdr ==> hdr@ == c.subrange(c0, c0 + PE_HEADER_BYTES),
                        covered ==> image@ == with_bytes(
                            zeroed,
                            va as int,
                            c.subrange(s.raw_offset as int, s.raw_offset + so),
                        ),
                    decreases size - so,
                {
                    let rem = if size - so < 512 {
                        size - so
                    } else {
                        512
                    };
                    match self.file.read(buf.as_mut_slice()) {
                        Ok(_) => {},
                        Err(_) => {
                            return Err(Error::FileError);
                        },
                    }
                    proof {
                        if covered {
                            let at = s.raw_offset + so;
                            assert(buf@.take(rem as int) =~= c.subrange(at, at + rem));
                        }
                    }
                    copy_at(&mut image, va + so, buf.as_slice(), rem);
                    proof {
                        if covered {
                            assert(image@ =~= with_bytes(
                                zeroed,
                                va as int,
                                c.subrange(s.raw_offset as int, s.raw_offset + so + rem),
                            ));
                        }
                    }
                    so = so + rem;
                }
            }
            proof {
                if covered {
                    assert(image@ =~= place_section(prev, c, s));
                }
            }
            i = i + 1;
        }
        let ghost placed = image@;
        // Move the image from its preferred base to where it is.
        let diff = address.wrapping_sub(info.image_base);
        assert(diff == address - info.image_base);
        if info.num_data_dirs >= 5 && info.reloc_rva != 0 && info.reloc_size != 0 {
            let mut loaded = true;
            let mut j: u16 = 0;
            while j < info.num_sections
                invariant
                    hdr@.len() == PE_HEADER_BYTES,
                    info.sections_offset + 40 * info.num_sections <= PE_HEADER_BYTES,
                    j <= info.num_sections,
                    loaded == forall|k: int|
                        0 <= k < j ==> #[trigger] section_at(hdr@, info, k).virt_address == info.reloc_rva
                            ==> section_at(hdr@, info, k).raw_offset % 512 == 0,
                decreases info.num_sections - j,
            {
                let s = section_header(hdr.as_slice(), &info, j);
                if s.virt_address == info.reloc_rva && s.raw_offset % 512 != 0 {
                    loaded = false;
                }
                j = j + 1;
            }
            if loaded {
                proof {
                    if good {
                        assert(relocates(hdr@, info));
                        assert(image@ == placed);
                        assert(reloc_blocks(image@, info.reloc_rva as int, 0, info.reloc_size as int, diff as int)
                            is Some);
                    }
                }
                match relocate(image.as_mut_slice(), info.reloc_rva, info.reloc_size, diff) {
                    Ok(()) => {},
                    Err(e) => {
                        return Err(e);
                    },
                }
            }
        }
        proof {
            if covered {
                assert(pe_image(c, hdr@, info, address) == Some(image@));
            }
        }
        let ghost m0 = *mem;
        mem.write_bytes(address, image.as_slice());
        proof {
            if m0.bytes() is Some {
                let m = m0.bytes()->0;
                let m2 = mem.bytes()->0;
                assert forall|a: int| !(address <= a < address + info.image_size) implies #[trigger] m2(a) == m(a) by {}
            }
        }
        assert(pe_parse(hdr@, self.machine) matches Ok(i) && i == info);
        Ok((entry, address, info.image_size as u64))
    }
}

} // verus!
