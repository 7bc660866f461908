//! Directories of a FAT filesystem: their records, long names, and the
//! lookup of paths.
use vstd::prelude::*;
use crate::block::{sector_buf, SectorRead, SECTOR_SIZE};
use crate::common::{low_byte, ucs2_len_spec, ucs2_as_ascii_length};
use super::{
    absolute, absolute_bytes, cluster_first_sector, compare_name, le16, le32, name_matches,
    name_to_str_bytes, read_u16, read_u32, DirectoryEntry, Error, FatType, File, FileType,
    Filesystem, Geometry, Read,
};
use crate::common::{ascii_len_spec, nul_index, strip_pads};
use vstd::string::StringSliceAdditionalSpecFns;

verus! {

/// Record `i` (32 bytes) of sector `b`.
pub open spec fn record(b: Seq<u8>, i: int) -> Seq<u8> {
    b.subrange(32 * i, 32 * i + 32)
}

/// The sequence number, from 1, of long-name record `r`.
pub open spec fn lfn_seq(r: Seq<u8>) -> int {
    (r[0] & 0x1f) as int
}

/// Character `j` (of 13) of long-name record `r`: five at byte 1, six at
/// byte 14, two at byte 28.
pub open spec fn lfn_char(r: Seq<u8>, j: int) -> u16 {
    let o = if j < 5 {
        1 + 2 * j
    } else if j < 11 {
        4 + 2 * j
    } else {
        6 + 2 * j
    };
    le16(r, o) as u16
}

/// The long-name buffer once long-name record `r` is placed in it: its 13
/// characters at the slot its sequence number gives.
pub open spec fn lfn_fill(lfn: Seq<u16>, r: Seq<u8>) -> Seq<u16> {
    let slot = (lfn_seq(r) - 1) * 13;
    Seq::new(lfn.len(), |k: int| if slot <= k < slot + 13 { lfn_char(r, k - slot) } else { lfn[k] })
}

/// An empty long-name buffer.
pub open spec fn blank_lfn() -> Seq<u16> {
    Seq::new(260, |k: int| 0u16)
}

/// The ASCII long name that a long-name buffer gives: the low bytes up to
/// the first zero low byte, then zeros.
pub open spec fn long_name_of(lfn: Seq<u16>) -> Seq<u8> {
    Seq::new(255, |k: int| if k < ucs2_len_spec(lfn) { low_byte(lfn[k]) } else { 0u8 })
}

/// Whether `de` is the entry that record `r` describes, with the long name
/// gathered in `lfn`.
pub open spec fn entry_is(de: DirectoryEntry, r: Seq<u8>, lfn: Seq<u16>) -> bool {
    &&& de.name@ == r.subrange(0, 11)
    &&& de.long_name@ == long_name_of(lfn)
    &&& de.file_type == (if r[11] & 0x10 == 0x10 {
        FileType::Directory
    } else {
        FileType::File
    })
    &&& de.size == le32(r, 28)
    &&& de.cluster == le16(r, 20) * 65536 + le16(r, 26)
}

/// What the records of a sector give, from record `i` on.
pub enum SectorScan {
    /// A file or directory at this record, with the long name gathered.
    Entry(int, Seq<u16>),
    /// The record that ends the directory.
    End,
    /// A long-name record whose sequence number is out of range.
    BadName,
    /// No entry in the rest of the sector; the long name gathered so far.
    More(Seq<u16>),
}

/// The records of sector `b` from record `i` on: unused records are
/// skipped, long-name records are gathered into `lfn`.
pub open spec fn scan_sector(b: Seq<u8>, i: int, lfn: Seq<u16>) -> SectorScan
    decreases 16 - i,
{
    if i < 0 || i >= 16 {
        SectorScan::More(lfn)
    } else {
        let r = record(b, i);
        if r[0] == 0 {
            SectorScan::End
        } else if r[0] == 0xe5 {
            scan_sector(b, i + 1, lfn)
        } else if r[11] == 0x0f {
            if lfn_seq(r) == 0 || lfn_seq(r) > 20 {
                SectorScan::BadName
            } else {
                scan_sector(b, i + 1, lfn_fill(lfn, r))
            }
        } else {
            SectorScan::Entry(i, lfn)
        }
    }
}

/// Where a directory read stands: its cluster (none for the FAT12/16 root
/// directory), the sector within the cluster, and the record within the
/// sector.
pub type DirPos = (Option<u32>, u32, int);

/// The entry that the next read of a directory at `pos` gives (the record
/// and the long name gathered before it), with the position it leaves;
/// `fuel` bounds the sectors read, past which the read gives `Unsupported`.
pub open spec fn dir_scan<D: SectorRead>(
    fs: &Filesystem<D>,
    pos: DirPos,
    lfn: Seq<u16>,
    fuel: nat,
) -> (Result<(Seq<u8>, Seq<u16>), Error>, DirPos)
    decreases fuel,
{
    let (c, s, o) = pos;
    if fuel == 0 {
        (Err(Error::Unsupported), pos)
    } else {
        let moved: Result<DirPos, Error> = match c {
            Some(cl) => if s >= fs.geometry().sectors_per_cluster {
                match fs.link(cl) {
                    Ok(n) => Ok((Some(n), 0u32, 0int)),
                    Err(e) => Err(e),
                }
            } else {
                Ok(pos)
            },
            None => Ok(pos),
        };
        match moved {
            Err(e) => (Err(e), pos),
            Ok(p2) => {
                let (c2, s2, o2) = p2;
                let n: Option<int> = match c2 {
                    Some(cl) => match cluster_first_sector(fs.geometry(), cl) {
                        Some(f) => if f + s2 <= u32::MAX {
                            Some(f + s2)
                        } else {
                            None
                        },
                        None => None,
                    },
                    None => Some(s2 as int),
                };
                match n {
                    None => (Err(Error::Unsupported), p2),
                    Some(sec) => if !fs.readable(sec) {
                        (Err(Error::BlockError), p2)
                    } else {
                        match scan_sector(fs.disk()(sec), o2, lfn) {
                            SectorScan::Entry(i, l) => (Ok((record(fs.disk()(sec), i), l)), (c2, s2, i + 1)),
                            SectorScan::End => (Err(Error::EndOfFile), p2),
                            SectorScan::BadName => (Err(Error::Unsupported), p2),
                            SectorScan::More(l) => if s2 == u32::MAX {
                                (Err(Error::Unsupported), p2)
                            } else {
                                dir_scan(fs, (c2, (s2 + 1) as u32, 0int), l, (fuel - 1) as nat)
                            },
                        }
                    },
                }
            },
        }
    }
}

/// The number of sectors that one read of a directory may go through: two
/// more than the filesystem has, so that only a cluster chain that loops
/// runs out of it.
pub open spec fn scan_budget<D: SectorRead>(fs: &Filesystem<D>) -> u64 {
    if fs.spec_start() > fs.spec_last() {
        1
    } else if fs.spec_last() - fs.spec_start() >= u64::MAX - 2 {
        u64::MAX
    } else {
        (fs.spec_last() - fs.spec_start() + 2) as u64
    }
}

/// The number of entries that one lookup in a directory may go through:
/// sixteen for each sector of the budget.
pub open spec fn entry_budget<D: SectorRead>(fs: &Filesystem<D>) -> u64 {
    if scan_budget(fs) >= u64::MAX / 16 {
        u64::MAX
    } else {
        (scan_budget(fs) * 16) as u64
    }
}

/// A directory being read: its filesystem and the position reached.
pub struct Directory<'a, D: SectorRead> {
    pub filesystem: &'a Filesystem<'a, D>,
    pub cluster: Option<u32>,
    pub sector: u32,
    pub offset: usize,
}

/// A file or a directory.
pub enum Node<'a, D: SectorRead> {
    File(super::File<'a, D>),
    Directory(Directory<'a, D>),
}

enum Scan {
    Entry(usize),
    End,
    BadName,
    More,
}

fn blank_lfn_buf() -> (v: Vec<u16>)
    ensures
        v@ == blank_lfn(),
{
    let mut v: Vec<u16> = Vec::new();
    while v.len() < 260
        invariant
            v@.len() <= 260,
            forall|i: int| 0 <= i < v@.len() ==> v@[i] == 0,
        decreases 260 - v@.len(),
    {
        v.push(0);
    }
    assert(v@ =~= blank_lfn());
    v
}

/// The ASCII long name of a long-name buffer.
fn lfn_to_ascii(lfn: &[u16]) -> (out: Vec<u8>)
    ensures
        out@ == long_name_of(lfn@),
{
    let n = ucs2_as_ascii_length(lfn);
    proof {
        crate::common::lemma_ucs2_len_bounds(lfn@);
    }
    let mut out: Vec<u8> = Vec::new();
    let mut k: usize = 0;
    while k < 255
        invariant
            n == ucs2_len_spec(lfn@),
            n <= lfn@.len(),
            k <= 255,
            out@.len() == k,
            forall|i: int| 0 <= i < k ==> #[trigger] out@[i] == long_name_of(lfn@)[i],
        decreases 255 - k,
    {
        let b = if k < n {
            (lfn[k] & 0xff) as u8
        } else {
            0u8
        };
        out.push(b);
        k = k + 1;
    }
    assert(out@ =~= long_name_of(lfn@));
    out
}

/// Places long-name record `data[b..b + 32]` in the long-name buffer.
fn apply_lfn(lfn: &mut Vec<u16>, data: &[u8], b: usize)
    requires
        old(lfn)@.len() == 260,
        data@.len() == SECTOR_SIZE,
        b + 32 <= SECTOR_SIZE,
        1 <= lfn_seq(data@.subrange(b as int, b + 32)) <= 20,
    ensures
        final(lfn)@ == lfn_fill(old(lfn)@, data@.subrange(b as int, b + 32)),
{
    let ghost r = data@.subrange(b as int, b + 32);
    let ghost orig = lfn@;
    let s = (data[b] & 0x1f) as usize;
    assert(s == lfn_seq(r));
    let slot = (s - 1) * 13;
    let mut j: usize = 0;
    while j < 13
        invariant
            r == data@.subrange(b as int, b + 32),
            data@.len() == SECTOR_SIZE,
            b + 32 <= SECTOR_SIZE,
            slot == (lfn_seq(r) - 1) * 13,
            slot + 13 <= 260,
            j <= 13,
            lfn@.len() == 260,
            orig.len() == 260,
            forall|k: int| 0 <= k < 260 ==> #[trigger] lfn@[k] == if slot <= k < slot + j {
                lfn_char(r, k - slot)
            } else {
                orig[k]
            },
        decreases 13 - j,
    {
        let o: usize = if j < 5 {
            1 + 2 * j
        } else if j < 11 {
            4 + 2 * j
        } else {
            6 + 2 * j
        };
        let v = read_u16(data, b + o);
        assert(v == lfn_char(r, j as int));
        lfn.set(slot + j, v);
        j = j + 1;
    }
    assert(lfn@ =~= lfn_fill(orig, r));
}

/// Goes through the records of a sector from record `start` on.
fn scan_records(data: &[u8], start: usize, lfn: &mut Vec<u16>) -> (r: Scan)
    requires
        data@.len() == SECTOR_SIZE,
        old(lfn)@.len() == 260,
    ensures
        final(lfn)@.len() == 260,
        match scan_sector(data@, start as int, old(lfn)@) {
            SectorScan::Entry(i, l) => r == Scan::Entry(i as usize) && final(lfn)@ == l && 0 <= i < 16,
            SectorScan::End => r == Scan::End,
            SectorScan::BadName => r == Scan::BadName,
            SectorScan::More(l) => r == Scan::More && final(lfn)@ == l,
        },
{
    let mut i = start;
    let mut res = Scan::More;
    let mut done = false;
    while i < 16 && !done
        invariant
            data@.len() == SECTOR_SIZE,
            lfn@.len() == 260,
            !done ==> scan_sector(data@, start as int, old(lfn)@) == scan_sector(data@, i as int, lfn@),
            done ==> match scan_sector(data@, start as int, old(lfn)@) {
                SectorScan::Entry(k, l) => res == Scan::Entry(k as usize) && lfn@ == l && 0 <= k < 16,
                SectorScan::End => res == Scan::End,
                SectorScan::BadName => res == Scan::BadName,
                SectorScan::More(l) => false,
            },
            !done ==> res == Scan::More,
        decreases 16 - i + (if done { 0int } else { 1int }),
    {
        let b = i * 32;
        let ghost r = record(data@, i as int);
        assert(r[0] == data@[b as int]);
        assert(r[11] == data@[b + 11]);
        let first = data[b];
        if first == 0 {
            res = Scan::End;
            done = true;
        } else if first == 0xe5 {
            i = i + 1;
        } else if data[b + 11] == 0x0f {
            let s = first & 0x1f;
            assert(s == lfn_seq(r));
            if s == 0 || s > 20 {
                res = Scan::BadName;
                done = true;
            } else {
                apply_lfn(lfn, data, b);
                i = i + 1;
            }
        } else {
            res = Scan::Entry(i);
            done = true;
        }
    }
    res
}

/// The entry that record `i` of `data` describes.
fn entry_at(data: &[u8], i: usize, lfn: &[u16]) -> (de: DirectoryEntry)
    requires
        data@.len() == SECTOR_SIZE,
        i < 16,
    ensures
        entry_is(de, record(data@, i as int), lfn@),
        de.name@.len() == 11,
        de.long_name@.len() == 255,
{
    let b = i * 32;
    let ghost r = record(data@, i as int);
    let mut name: Vec<u8> = Vec::new();
    let mut k: usize = 0;
    while k < 11
        invariant
            data@.len() == SECTOR_SIZE,
            b == i * 32,
            i < 16,
            r == record(data@, i as int),
            k <= 11,
            name@ == r.subrange(0, k as int),
        decreases 11 - k,
    {
        name.push(data[b + k]);
        k = k + 1;
        assert(name@ =~= r.subrange(0, k as int));
    }
    let flags = data[b + 11];
    let high = read_u16(data, b + 20) as u32;
    let low = read_u16(data, b + 26) as u32;
    let size = read_u32(data, b + 28);
    assert(high == le16(r, 20) && low == le16(r, 26) && size == le32(r, 28));
    let file_type = if flags & 0x10 == 0x10 {
        FileType::Directory
    } else {
        FileType::File
    };
    DirectoryEntry { name, long_name: lfn_to_ascii(lfn), file_type, size, cluster: high * 65536 + low }
}

impl<'a, D: SectorRead> Filesystem<'a, D> {
    /// The sector budget of one read of a directory.
    pub fn scan_budget(&self) -> (r: u64)
        ensures
            r == scan_budget(self),
    {
        if self.start > self.last {
            1
        } else if self.last - self.start >= u64::MAX - 2 {
            u64::MAX
        } else {
            self.last - self.start + 2
        }
    }
}

impl<'a, D: SectorRead> Directory<'a, D> {
    /// Where the directory read stands.
    pub open spec fn pos(&self) -> DirPos {
        (self.cluster, self.sector, self.offset as int)
    }

    /// Returns the next entry and moves past it; `EndOfFile` after the last
    /// one.
    pub fn next_entry(&mut self) -> (r: Result<DirectoryEntry, Error>)
        requires
            old(self).filesystem.wf(),
        ensures
            final(self).filesystem == old(self).filesystem,
            ({
                let out = dir_scan(old(self).filesystem, old(self).pos(), blank_lfn(), scan_budget(old(self).filesystem) as nat);
                r != Err::<DirectoryEntry, Error>(Error::BlockError) ==> {
                    &&& final(self).pos() == out.1
                    &&& match r {
                        Ok(de) => out.0 matches Ok((rec, l)) && entry_is(de, rec, l) && de.name@.len() == 11
                            && de.long_name@.len() == 255,
                        Err(e) => out.0 == Err::<(Seq<u8>, Seq<u16>), Error>(e),
                    }
                }
            }),
            old(self).filesystem.sound() ==> r != Err::<DirectoryEntry, Error>(Error::BlockError),
    {
        let fs = self.filesystem;
        let spc = fs.geom.sectors_per_cluster;
        let mut lfn = blank_lfn_buf();
        let mut fuel = fs.scan_budget();
        let mut data = sector_buf();
        let ghost out = dir_scan(fs, self.pos(), lfn@, fuel as nat);
        loop
            invariant
                self.filesystem == fs,
                fs == old(self).filesystem,
                fs.wf(),
                spc == fs.geometry().sectors_per_cluster,
                lfn@.len() == 260,
                data@.len() == SECTOR_SIZE,
                out == dir_scan(fs, self.pos(), lfn@, fuel as nat),
                out == dir_scan(old(self).filesystem, old(self).pos(), blank_lfn(), scan_budget(old(self).filesystem) as nat),
            decreases fuel,
        {
            if fuel == 0 {
                return Err(Error::Unsupported);
            }
            let ghost p0 = self.pos();
            let ghost l0 = lfn@;
            if let Some(c) = self.cluster {
                if self.sector >= spc {
                    match fs.next_cluster(c) {
                        Ok(n) => {
                            self.cluster = Some(n);
                            self.sector = 0;
                            self.offset = 0;
                        },
                        Err(e) => {
                            return Err(e);
                        },
                    }
                }
            }
            let sector: u32 = match self.cluster {
                Some(c) => match fs.first_sector_of_cluster(c) {
                    Some(f) => {
                        if f as u64 + self.sector as u64 > 0xffff_ffff {
                            return Err(Error::Unsupported);
                        }
                        f + self.sector
                    },
                    None => {
                        return Err(Error::Unsupported);
                    },
                },
                None => self.sector,
            };
            match fs.read_sector(sector as u64, data.as_mut_slice()) {
                Ok(_) => {},
                Err(_) => {
                    return Err(Error::BlockError);
                },
            }
            match scan_records(data.as_slice(), self.offset, &mut lfn) {
                Scan::Entry(i) => {
                    let de = entry_at(data.as_slice(), i, lfn.as_slice());
                    self.offset = i + 1;
                    return Ok(de);
                },
                Scan::End => {
                    return Err(Error::EndOfFile);
                },
                Scan::BadName => {
                    return Err(Error::Unsupported);
                },
                Scan::More => {
                    if self.sector == u32::MAX {
                        return Err(Error::Unsupported);
                    }
                    self.sector = self.sector + 1;
                    self.offset = 0;
                    fuel = fuel - 1;
                },
            }
        }
    }

    /// Goes back to the first record of the sector reached; only offset 0
    /// is supported.
    pub fn seek(&mut self, offset: u32) -> (r: Result<(), Error>)
        ensures
            final(self).filesystem == old(self).filesystem,
            offset != 0 ==> r == Err::<(), Error>(Error::Unsupported) && *final(self) == *old(self),
            offset == 0 ==> r is Ok && final(self).pos() == (old(self).cluster, old(self).sector, 0int),
    {
        if offset != 0 {
            return Err(Error::Unsupported);
        }
        self.offset = 0;
        Ok(())
    }
}

/// Index of the first `c` in `s`.
pub open spec fn first_index(s: Seq<u8>, c: u8) -> Option<int>
    decreases s.len(),
{
    if s.len() == 0 {
        None
    } else if s[0] == c {
        Some(0)
    } else {
        match first_index(s.drop_first(), c) {
            Some(i) => Some(i + 1),
            None => None,
        }
    }
}

pub proof fn lemma_first_index(s: Seq<u8>, c: u8, k: int)
    requires
        0 <= k <= s.len(),
        forall|j: int| 0 <= j < k ==> s[j] != c,
        k == s.len() || s[k] == c,
    ensures
        first_index(s, c) == if k < s.len() {
            Some(k)
        } else {
            None::<int>
        },
    decreases k,
{
    if k > 0 {
        assert forall|j: int| 0 <= j < k - 1 implies s.drop_first()[j] != c by {
            assert(s.drop_first()[j] == s[j + 1]);
        }
        if k < s.len() {
            assert(s.drop_first()[k - 1] == s[k]);
        }
        lemma_first_index(s.drop_first(), c, k - 1);
    }
}

/// Where the first component of `rest` ends: at its first `/`, or, where
/// there is none, at its first `\`.
pub open spec fn separator(rest: Seq<u8>) -> Option<int> {
    match first_index(rest, 47u8) {
        Some(x) => Some(x),
        None => first_index(rest, 92u8),
    }
}

/// The first component of path `res`, after its leading separator, and
/// the rest of the path from the separator that ends it (empty for the
/// last component).
pub open spec fn next_component(res: Seq<u8>) -> (Seq<u8>, Seq<u8>) {
    let rest = res.skip(1);
    match separator(rest) {
        Some(x) => if 0 <= x < rest.len() {
            (rest.take(x), res.skip(x + 1))
        } else {
            (rest, Seq::empty())
        },
        None => (rest, Seq::empty()),
    }
}

/// The path that a lookup from a directory goes down: an absolute path as
/// it is, a relative one with `/` before its text (up to its first NUL),
/// NUL-padded to 256 bytes.
pub open spec fn start_path(path: Seq<u8>) -> Seq<u8> {
    if absolute(path) {
        path
    } else {
        let len = ascii_len_spec(path);
        Seq::new(256, |k: int| if k == 0 {
            47u8
        } else if k <= len {
            path[k - 1]
        } else {
            0u8
        })
    }
}

/// The entry named `name` in a directory read from `pos` on: entries are
/// read one after another until one matches; the end of the directory gives
/// `NotFound`; `fuel` bounds the entries read.
pub open spec fn lookup<D: SectorRead>(fs: &Filesystem<D>, pos: DirPos, name: Seq<u8>, fuel: nat) -> Result<
    (Seq<u8>, Seq<u16>),
    Error,
>
    decreases fuel,
{
    if fuel == 0 {
        Err(Error::Unsupported)
    } else {
        let out = dir_scan(fs, pos, blank_lfn(), scan_budget(fs) as nat);
        match out.0 {
            Err(e) => if e == Error::EndOfFile {
                Err(Error::NotFound)
            } else {
                Err(e)
            },
            Ok((rec, l)) => if name_matches(name, rec.subrange(0, 11), long_name_of(l)) {
                Ok((rec, l))
            } else {
                lookup(fs, out.1, name, (fuel - 1) as nat)
            },
        }
    }
}

/// The first cluster that directory record `r` gives.
pub open spec fn record_cluster(r: Seq<u8>) -> u32 {
    (le16(r, 20) * 65536 + le16(r, 26)) as u32
}

/// A directory read from the start of `cluster`.
pub open spec fn dir_at<'a, D: SectorRead>(fs: &'a Filesystem<'a, D>, cluster: u32) -> Directory<'a, D> {
    Directory { filesystem: fs, cluster: Some(cluster), sector: 0, offset: 0 }
}

/// A file from its start.
pub open spec fn file_at<'a, D: SectorRead>(fs: &'a Filesystem<'a, D>, cluster: u32, size: u32) -> File<'a, D> {
    File { filesystem: fs, start_cluster: cluster, active_cluster: cluster, sector_offset: 0, size, position: 0 }
}

/// What path `res` names, from the directory at `pos`: each component is
/// looked up in turn; a file ends the walk, whatever follows it; an empty
/// component gives `NotFound`.
pub open spec fn walk<'a, D: SectorRead>(fs: &'a Filesystem<'a, D>, pos: DirPos, res: Seq<u8>) -> Result<
    Node<'a, D>,
    Error,
>
    decreases res.len(),
{
    let (sub, rest) = next_component(res);
    if res.len() == 0 || sub.len() == 0 {
        Err(Error::NotFound)
    } else {
        match lookup(fs, (pos.0, pos.1, 0int), sub, entry_budget(fs) as nat) {
            Err(e) => Err(e),
            Ok((rec, l)) => {
                let cl = record_cluster(rec);
                if rec[11] & 0x10 == 0x10 {
                    if rest.len() == 0 {
                        Ok(Node::Directory(dir_at(fs, cl)))
                    } else if rest.len() < res.len() {
                        walk(fs, (Some(cl), 0u32, 0int), rest)
                    } else {
                        Err(Error::NotFound)
                    }
                } else {
                    Ok(Node::File(file_at(fs, cl, le32(rec, 28) as u32)))
                }
            },
        }
    }
}

/// Where the root directory starts: after the allocation tables for
/// FAT12/16, at the root cluster for FAT32.
pub open spec fn root_pos(g: Geometry) -> Option<DirPos> {
    match g.fat_type {
        FatType::FAT12 | FatType::FAT16 => Some((None, (g.first_data_sector - g.root_dir_sectors) as u32, 0int)),
        FatType::FAT32 => Some((Some(g.root_cluster), 0u32, 0int)),
        FatType::Unknown => None,
    }
}

/// The first `c` in `s` from index `from` on, as an index past `from`.
fn find_byte(s: &[u8], from: usize, c: u8) -> (r: Option<usize>)
    requires
        from <= s@.len(),
    ensures
        match first_index(s@.skip(from as int), c) {
            Some(i) => r == Some(i as usize) && 0 <= i < s@.len() - from,
            None => r is None,
        },
{
    let mut k = from;
    while k < s.len() && s[k] != c
        invariant
            from <= k <= s@.len(),
            forall|j: int| from <= j < k ==> s@[j] != c,
        decreases s@.len() - k,
    {
        k = k + 1;
    }
    proof {
        lemma_first_index(s@.skip(from as int), c, k - from);
    }
    if k < s.len() {
        Some(k - from)
    } else {
        None
    }
}

/// The path that a lookup goes down (see `start_path`).
fn start_path_buf(path: &[u8]) -> (res: Vec<u8>)
    requires
        ascii_len_spec(path@) < 256,
    ensures
        res@ == start_path(path@),
{
    if absolute_bytes(path) {
        let mut v: Vec<u8> = Vec::new();
        crate::common::append_bytes(&mut v, path);
        assert(v@ =~= path@);
        return v;
    }
    let len = nul_index(path);
    proof {
        crate::common::lemma_ascii_len_bounds(path@);
    }
    let mut v: Vec<u8> = Vec::new();
    let mut k: usize = 0;
    while k < 256
        invariant
            !absolute(path@),
            len == ascii_len_spec(path@),
            len < 256,
            len <= path@.len(),
            k <= 256,
            v@.len() == k,
            forall|i: int| 0 <= i < k ==> #[trigger] v@[i] == start_path(path@)[i],
        decreases 256 - k,
    {
        let b = if k == 0 {
            47u8
        } else if k <= len {
            path[k - 1]
        } else {
            0u8
        };
        v.push(b);
        k = k + 1;
    }
    assert(v@ =~= start_path(path@));
    v
}

impl<'a, D: SectorRead> Filesystem<'a, D> {
    /// The entry budget of one lookup in a directory.
    pub fn entry_budget(&self) -> (r: u64)
        ensures
            r == entry_budget(self),
    {
        let b = self.scan_budget();
        if b >= u64::MAX / 16 {
            u64::MAX
        } else {
            b * 16
        }
    }

    /// The root directory, read from its start; `Unsupported` before the
    /// filesystem is initialised.
    pub fn root(&self) -> (r: Result<Directory<'_, D>, Error>)
        requires
            self.geometry().fat_type == FatType::Unknown || self.geometry().first_data_sector
                >= self.geometry().root_dir_sectors,
        ensures
            match root_pos(self.geometry()) {
                Some(p) => r matches Ok(d) && d.filesystem == self && d.pos() == p,
                None => r == Err::<Directory<'_, D>, Error>(Error::Unsupported),
            },
    {
        match self.geom.fat_type {
            FatType::FAT12 | FatType::FAT16 => Ok(
                Directory {
                    filesystem: self,
                    cluster: None,
                    sector: self.geom.first_data_sector - self.geom.root_dir_sectors,
                    offset: 0,
                },
            ),
            FatType::FAT32 => Ok(
                Directory { filesystem: self, cluster: Some(self.geom.root_cluster), sector: 0, offset: 0 },
            ),
            FatType::Unknown => Err(Error::Unsupported),
        }
    }

    /// The file of `size` bytes that starts at `cluster`.
    pub fn get_file(&self, cluster: u32, size: u32) -> (f: File<'_, D>)
        ensures
            f == file_at(self, cluster, size),
    {
        File { filesystem: self, start_cluster: cluster, active_cluster: cluster, sector_offset: 0, size, position: 0 }
    }

    /// The directory that starts at `cluster`.
    pub fn get_directory(&self, cluster: u32) -> (d: Directory<'_, D>)
        ensures
            d == dir_at(self, cluster),
    {
        Directory { filesystem: self, cluster: Some(cluster), sector: 0, offset: 0 }
    }

    /// Opens the file or directory at absolute path `path`.
    pub fn open(&self, path: &str) -> (r: Result<Node<'_, D>, Error>)
        requires
            self.wf(),
            self.geometry().fat_type != FatType::Unknown,
            absolute(path.spec_bytes()),
            path.spec_bytes().len() <= 256,
            ascii_len_spec(path.spec_bytes()) < 256,
        ensures
            r != Err::<Node<'_, D>, Error>(Error::BlockError) ==> r == walk(
                self,
                root_pos(self.geometry()).unwrap(),
                path.spec_bytes(),
            ),
            self.sound() ==> r != Err::<Node<'_, D>, Error>(Error::BlockError),
    {
        self.open_bytes(path.as_bytes())
    }

    /// Opens the file or directory at absolute path `path`, given as bytes.
    pub fn open_bytes(&self, path: &[u8]) -> (r: Result<Node<'_, D>, Error>)
        requires
            self.wf(),
            self.geometry().fat_type != FatType::Unknown,
            absolute(path@),
            path@.len() <= 256,
            ascii_len_spec(path@) < 256,
        ensures
            r != Err::<Node<'_, D>, Error>(Error::BlockError) ==> r == walk(
                self,
                root_pos(self.geometry()).unwrap(),
                path@,
            ),
            self.sound() ==> r != Err::<Node<'_, D>, Error>(Error::BlockError),
    {
        let root = match self.root() {
            Ok(d) => d,
            Err(e) => {
                return Err(e);
            },
        };
        self.open_from(&root, path)
    }

    /// Looks `path` up from directory `from`, or from the root where it is
    /// absolute.
    fn open_from(&self, from: &Directory<'_, D>, path: &[u8]) -> (r: Result<Node<'_, D>, Error>)
        requires
            self.wf(),
            from.filesystem == self,
            path@.len() <= 256,
        ensures
            r != Err::<Node<'_, D>, Error>(Error::BlockError) ==> (ascii_len_spec(path@) >= 256 ==> r
                == Err::<Node<'_, D>, Error>(Error::Unsupported)) && (ascii_len_spec(path@) < 256 ==> r
                == walk(self, from.pos(), start_path(path@))),
            self.sound() ==> r != Err::<Node<'_, D>, Error>(Error::BlockError),
    {
        proof {
            crate::common::lemma_ascii_len_bounds(path@);
        }
        if nul_index(path) >= 256 {
            return Err(Error::Unsupported);
        }
        let res = start_path_buf(path);
        let ghost target = walk(self, from.pos(), res@);
        let n = res.len();
        let mut start: usize = 0;
        let mut cur = Directory { filesystem: self, cluster: from.cluster, sector: from.sector, offset: from.offset };
        let ghost budget = entry_budget(self);
        assert(res@.skip(0) =~= res@);
        loop
            invariant
                ascii_len_spec(path@) < 256,
                target == walk(self, from.pos(), start_path(path@)),
                self.wf(),
                cur.filesystem == self,
                n == res@.len(),
                n <= 256,
                start < n,
                budget == entry_budget(self),
                target == walk(self, cur.pos(), res@.skip(start as int)),
            decreases n - start,
        {
            let ghost seq_res = res@.skip(start as int);
            match cur.seek(0) {
                Ok(()) => {},
                Err(e) => {
                    return Err(e);
                },
            }
            let sep = match find_byte(res.as_slice(), start + 1, 47u8) {
                Some(x) => Some(x),
                None => find_byte(res.as_slice(), start + 1, 92u8),
            };
            proof {
                assert(seq_res.skip(1) =~= res@.skip(start + 1));
            }
            let (sub_end, last) = match sep {
                Some(x) => (start + 1 + x, false),
                None => (n, true),
            };
            if sub_end == start + 1 {
                assert(next_component(seq_res).0.len() == 0);
                return Err(Error::NotFound);
            }
            let sub = vstd::slice::slice_subrange(res.as_slice(), start + 1, sub_end);
            assert(sub@ =~= next_component(seq_res).0);
            let ghost lpos = cur.pos();
            let mut fuel = self.entry_budget();
            loop
                invariant_except_break
                    lookup(self, lpos, sub@, budget as nat) == lookup(self, cur.pos(), sub@, fuel as nat),
                invariant
                    self.wf(),
                    cur.filesystem == self,
                    sub@.len() <= 255,
                    n == res@.len(),
                    n <= 256,
                    start < sub_end <= n,
                    budget == entry_budget(self),
                    seq_res == res@.skip(start as int),
                    seq_res.len() > 0,
                    sub@.len() > 0,
                    lpos == (lpos.0, lpos.1, 0int),
                    target == walk(self, lpos, seq_res),
                    next_component(seq_res).0 == sub@,
                    last == (next_component(seq_res).1.len() == 0),
                    !last ==> next_component(seq_res).1 == res@.skip(sub_end as int) && sub_end < n,
                    ascii_len_spec(path@) < 256,
                    target == walk(self, from.pos(), start_path(path@)),
                ensures
                    cur.filesystem == self,
                    !last,
                    target == walk(self, cur.pos(), res@.skip(sub_end as int)),
                decreases fuel,
            {
                if fuel == 0 {
                    return Err(Error::Unsupported);
                }
                let ghost before = cur.pos();
                let ghost lk = lookup(self, before, sub@, fuel as nat);
                let ghost out = dir_scan(self, before, blank_lfn(), scan_budget(self) as nat);
                assert(lk == match out.0 {
                    Err(e) => if e == Error::EndOfFile {
                        Err(Error::NotFound)
                    } else {
                        Err(e)
                    },
                    Ok((rec, l)) => if name_matches(sub@, rec.subrange(0, 11), long_name_of(l)) {
                        Ok((rec, l))
                    } else {
                        lookup(self, out.1, sub@, (fuel - 1) as nat)
                    },
                });
                match cur.next_entry() {
                    Err(e) => {
                        if e == Error::EndOfFile {
                            return Err(Error::NotFound);
                        }
                        return Err(e);
                    },
                    Ok(de) => {
                        if compare_name(sub, &de) {
                            let ghost rec = out.0->Ok_0.0;
                            let ghost l = out.0->Ok_0.1;
                            assert(lk == Ok::<(Seq<u8>, Seq<u16>), Error>((rec, l)));
                            assert(record_cluster(rec) == de.cluster);
                            match de.file_type {
                                FileType::Directory => {
                                    if last {
                                        return Ok(Node::Directory(self.get_directory(de.cluster)));
                                    }
                                    cur = self.get_directory(de.cluster);
                                    break;
                                },
                                FileType::File => {
                                    return Ok(Node::File(self.get_file(de.cluster, de.size)));
                                },
                            }
                        }
                    },
                }
                fuel = fuel - 1;
            }
            start = sub_end;
        }
    }
}


/// An 8.3 name of 11 bytes fits the 11 bytes that `name_to_str` writes.
proof fn lemma_short_name_fits(s: Seq<u8>)
    requires
        s.len() == 11,
    ensures
        ascii_len_spec(strip_pads(s, true)) <= 11,
        ({
            let t = strip_pads(s, true);
            t == seq![46u8] || t == seq![46u8, 46u8] || ascii_len_spec(t) > 12 ==> ascii_len_spec(t) == t.len()
        }),
{
    crate::common::lemma_leading_pads(s, true);
    crate::common::lemma_trailing_pads(s, true);
    let t = strip_pads(s, true);
    crate::common::lemma_ascii_len_bounds(t);
    if t == seq![46u8] {
        crate::common::lemma_ascii_len_is(t, 1);
    }
    if t == seq![46u8, 46u8] {
        crate::common::lemma_ascii_len_is(t, 2);
    }
}

/// The eleven zero bytes that `next_node` writes a name into.
pub open spec fn blank_name() -> Seq<u8> {
    Seq::new(11, |k: int| 0u8)
}

/// The node that directory record `r` names.
pub open spec fn node_of<'a, D: SectorRead>(fs: &'a Filesystem<'a, D>, r: Seq<u8>) -> Node<'a, D> {
    if r[11] & 0x10 == 0x10 {
        Node::Directory(dir_at(fs, record_cluster(r)))
    } else {
        Node::File(file_at(fs, record_cluster(r), le32(r, 28) as u32))
    }
}

impl<'a, D: SectorRead> Directory<'a, D> {
    /// The next entry as a file or directory, with its name as text (see
    /// `name_to_str`).
    pub fn next_node(&mut self) -> (r: Result<(Node<'a, D>, Vec<u8>), Error>)
        requires
            old(self).filesystem.wf(),
        ensures
            final(self).filesystem == old(self).filesystem,
            ({
                let out = dir_scan(old(self).filesystem, old(self).pos(), blank_lfn(), scan_budget(old(self).filesystem) as nat);
                r != Err::<(Node<'a, D>, Vec<u8>), Error>(Error::BlockError) ==> {
                    &&& final(self).pos() == out.1
                    &&& match r {
                        Ok((node, name)) => out.0 matches Ok((rec, l)) && node == node_of(old(self).filesystem, rec)
                            && name@ == super::name_to_str_spec(rec.subrange(0, 11), blank_name()),
                        Err(e) => out.0 == Err::<(Seq<u8>, Seq<u16>), Error>(e),
                    }
                }
            }),
            old(self).filesystem.sound() ==> r != Err::<(Node<'a, D>, Vec<u8>), Error>(Error::BlockError),
            r matches Ok((_, name)) ==> name@.len() == 11,
    {
        let de = match self.next_entry() {
            Ok(de) => de,
            Err(e) => {
                return Err(e);
            },
        };
        let mut name: Vec<u8> = Vec::new();
        while name.len() < 11
            invariant
                name@.len() <= 11,
                forall|i: int| 0 <= i < name@.len() ==> name@[i] == 0,
            decreases 11 - name@.len(),
        {
            name.push(0);
        }
        assert(name@ =~= blank_name());
        proof {
            lemma_short_name_fits(de.name@);
        }
        name_to_str_bytes(de.name.as_slice(), name.as_mut_slice());
        let fs = self.filesystem;
        match de.file_type {
            FileType::Directory => Ok((Node::Directory(fs.get_directory(de.cluster)), name)),
            FileType::File => Ok((Node::File(fs.get_file(de.cluster, de.size)), name)),
        }
    }

    /// Opens `path`: from the root where it is absolute, else from this
    /// directory.
    pub fn open(&self, path: &str) -> (r: Result<Node<'a, D>, Error>)
        requires
            self.filesystem.wf(),
            self.filesystem.geometry().fat_type != FatType::Unknown,
            path.spec_bytes().len() <= 256,
            ascii_len_spec(path.spec_bytes()) < 256,
        ensures
            r != Err::<Node<'a, D>, Error>(Error::BlockError) ==> r == walk(
                self.filesystem,
                if absolute(path.spec_bytes()) {
                    root_pos(self.filesystem.geometry()).unwrap()
                } else {
                    self.pos()
                },
                start_path(path.spec_bytes()),
            ),
            self.filesystem.sound() ==> r != Err::<Node<'a, D>, Error>(Error::BlockError),
    {
        let fs = self.filesystem;
        let root = match fs.root() {
            Ok(d) => d,
            Err(e) => {
                return Err(e);
            },
        };
        let bytes = path.as_bytes();
        if absolute_bytes(bytes) {
            fs.open_from(&root, bytes)
        } else {
            fs.open_from(self, bytes)
        }
    }
}

impl<'a, D: SectorRead> Read for Node<'a, D> {
    open spec fn ready(&self) -> bool {
        match self {
            Node::File(f) => f.wf(),
            Node::Directory(_) => true,
        }
    }

    open spec fn content(&self) -> Seq<u8> {
        match self {
            Node::File(f) => f.content(),
            Node::Directory(_) => Seq::empty(),
        }
    }

    open spec fn cursor(&self) -> int {
        match self {
            Node::File(f) => f.cursor(),
            Node::Directory(_) => 0,
        }
    }

    /// A file or directory reads through its device, which may fail.
    /// A file as its own reads allow; a directory refuses to be read.
    open spec fn faultless(&self) -> bool {
        match self {
            Node::File(f) => f.faultless(),
            Node::Directory(_) => false,
        }
    }

    /// A file is as reliable as its filesystem; a directory refuses to be
    /// read, which is no failure of the device.
    open spec fn reliable(&self) -> bool {
        match self {
            Node::File(f) => f.filesystem.sound(),
            Node::Directory(_) => true,
        }
    }

    open spec fn file_size(&self) -> u32 {
        match self {
            Node::File(f) => f.size,
            Node::Directory(_) => 512,
        }
    }

    /// Reads the next sector of a file; a directory refuses.
    fn read(&mut self, data: &mut [u8]) -> (r: Result<u32, Error>)
        ensures
            *old(self) is Directory ==> r == Err::<u32, Error>(Error::Unsupported) && *final(self) == *old(self)
                && final(data)@ == old(data)@,
            *old(self) is File <==> *final(self) is File,
    {
        let r = match self {
            Node::File(file) => file.read(data),
            Node::Directory(_) => Err(Error::Unsupported),
        };
        proof {
            match *old(self) {
                Node::File(f) => {
                    assert(old(self).content() == f.content());
                    assert(old(self).cursor() == f.cursor());
                    assert(self.content() == self->File_0.content());
                    assert(self.cursor() == self->File_0.cursor());
                    assert(old(self).faultless() == f.faultless());
                    assert(self.faultless() == self->File_0.faultless());
                },
                Node::Directory(_) => {},
            }
        }
        r
    }

    /// Seeks in a file or a directory.
    fn seek(&mut self, position: u32) -> (r: Result<(), Error>)
        ensures
            *old(self) is File <==> *final(self) is File,
            *old(self) is File ==> {
                &&& position % 512 != 0 ==> r == Err::<(), Error>(Error::InvalidOffset) && *final(self) == *old(self)
                &&& position % 512 == 0 && position >= old(self)->File_0.size ==> r == Err::<(), Error>(
                    Error::EndOfFile,
                ) && *final(self) == *old(self)
                &&& r is Ok ==> final(self)->File_0.position == position
            },
            *old(self) is Directory ==> {
                &&& position != 0 ==> r == Err::<(), Error>(Error::Unsupported) && *final(self) == *old(self)
                &&& position == 0 ==> r is Ok && final(self)->Directory_0.pos() == (
                    old(self)->Directory_0.cluster,
                    old(self)->Directory_0.sector,
                    0int,
                )
            },
    {
        match self {
            Node::File(file) => file.seek(position),
            Node::Directory(directory) => directory.seek(position),
        }
    }

    /// The size of a file; 512 for a directory.
    fn get_size(&self) -> (r: u32)
        ensures
            r == match self {
                Node::File(f) => f.size,
                Node::Directory(_) => 512u32,
            },
    {
        match self {
            Node::File(file) => file.get_size(),
            Node::Directory(_) => 512,
        }
    }
}

/// What a walk finds is a file ready to be read, or a directory, of the
/// filesystem walked.
pub proof fn lemma_walk_nodes<'a, D: SectorRead>(fs: &'a Filesystem<'a, D>, pos: DirPos, res: Seq<u8>)
    requires
        fs.wf(),
    ensures
        walk(fs, pos, res) matches Ok(n) ==> match n {
            Node::File(f) => f.wf() && f.filesystem == fs && f.position == 0,
            Node::Directory(d) => d.filesystem == fs,
        },
    decreases res.len(),
{
    let (sub, rest) = next_component(res);
    if res.len() != 0 && sub.len() != 0 {
        match lookup(fs, (pos.0, pos.1, 0int), sub, entry_budget(fs) as nat) {
            Err(e) => {},
            Ok((rec, l)) => {
                let cl = record_cluster(rec);
                if rec[11] & 0x10 == 0x10 && rest.len() != 0 && rest.len() < res.len() {
                    lemma_walk_nodes(fs, (Some(cl), 0u32, 0int), rest);
                }
            },
        }
    }
}

} // verus!
