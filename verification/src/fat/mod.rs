//! FAT12/16/32: the boot sector, the allocation table, directories, files
//! and paths.
use vstd::prelude::*;
use vstd::string::StringSliceAdditionalSpecFns;
use crate::block::{sector_buf, sized, SectorRead, SECTOR_SIZE};
use crate::common::{ascii_len_spec, nul_index, strip_pads, trim_padding, low_byte, ucs2_len_spec};

pub mod directory;

pub use directory::{Directory, Node};

verus! {

#[derive(Clone, Copy, Debug, PartialEq, Eq, Structural)]
pub enum Error {
    BlockError,
    Unsupported,
    NotFound,
    EndOfFile,
    InvalidOffset,
}

#[derive(Clone, Copy, Debug, PartialEq, Eq, Structural)]
pub enum FatType {
    Unknown,
    FAT12,
    FAT16,
    FAT32,
}

/// Little-endian 16-bit value at offset `o` of `b`.
pub open spec fn le16(b: Seq<u8>, o: int) -> int {
    b[o] + 256 * b[o + 1]
}

/// Little-endian 32-bit value at offset `o` of `b`.
pub open spec fn le32(b: Seq<u8>, o: int) -> int {
    b[o] + 256 * b[o + 1] + 65536 * b[o + 2] + 16777216 * b[o + 3]
}

pub fn read_u16(b: &[u8], o: usize) -> (r: u16)
    requires
        o + 2 <= b@.len(),
    ensures
        r == le16(b@, o as int),
{
    b[o] as u16 + (b[o + 1] as u16) * 256
}

pub fn read_u32(b: &[u8], o: usize) -> (r: u32)
    requires
        o + 4 <= b@.len(),
    ensures
        r == le32(b@, o as int),
{
    b[o] as u32 + (b[o + 1] as u32) * 256 + (b[o + 2] as u32) * 65536 + (b[o + 3] as u32) * 16777216
}

/// The layout of a FAT filesystem, as its boot sector gives it.
#[derive(Clone, Copy, Debug, PartialEq, Eq, Structural)]
pub struct Geometry {
    pub bytes_per_sector: u32,
    pub sectors: u32,
    pub fat_type: FatType,
    pub clusters: u32,
    pub sectors_per_fat: u32,
    pub sectors_per_cluster: u32,
    pub fat_count: u32,
    pub root_dir_sectors: u32,
    pub first_fat_sector: u32,
    pub first_data_sector: u32,
    pub data_sector_count: u32,
    pub data_cluster_count: u32,
    pub root_cluster: u32,
}

/// Clusters below this count make a FAT12 filesystem.
pub const FAT12_MAX: u32 = 0xff5;
/// Clusters below this count, and not below `FAT12_MAX`, make a FAT16
/// filesystem.
pub const FAT16_MAX: u32 = 0xfff5;

/// The type that a count of clusters gives a filesystem.
pub open spec fn fat_type_of(clusters: int) -> FatType {
    if clusters < FAT12_MAX {
        FatType::FAT12
    } else if clusters < FAT16_MAX {
        FatType::FAT16
    } else {
        FatType::FAT32
    }
}

/// The layout that boot sector `b` describes; `None` where it cannot be
/// computed: no bytes per sector or sectors per cluster, a root directory
/// of more than 65535 bytes, or more sectors before the data than there are.
pub open spec fn boot_geometry(b: Seq<u8>) -> Option<Geometry> {
    let bps = le16(b, 11);
    let spc = b[13] as int;
    let reserved = le16(b, 14);
    let fat_count = b[16] as int;
    let rdc = le16(b, 17);
    let legacy_sectors = le16(b, 19);
    let sectors = if legacy_sectors == 0 {
        le32(b, 32)
    } else {
        legacy_sectors
    };
    if spc == 0 || bps == 0 {
        None
    } else {
        let clusters = sectors / spc;
        let fat_type = fat_type_of(clusters);
        let is32 = fat_type == FatType::FAT32;
        let spf = if is32 {
            le32(b, 36)
        } else {
            le16(b, 22)
        };
        let rds = if is32 {
            0
        } else {
            (rdc * 32 + bps - 1) / bps
        };
        let fds = reserved + fat_count * spf + rds;
        if (!is32 && rdc * 32 > 0xffff) || fds > sectors {
            None
        } else {
            Some(
                Geometry {
                    bytes_per_sector: bps as u32,
                    sectors: sectors as u32,
                    fat_type,
                    clusters: clusters as u32,
                    sectors_per_fat: spf as u32,
                    sectors_per_cluster: spc as u32,
                    fat_count: fat_count as u32,
                    root_dir_sectors: rds as u32,
                    first_fat_sector: reserved as u32,
                    first_data_sector: fds as u32,
                    data_sector_count: (sectors - fds) as u32,
                    data_cluster_count: ((sectors - fds) / bps) as u32,
                    root_cluster: if is32 {
                        le32(b, 44) as u32
                    } else {
                        0
                    },
                },
            )
        }
    }
}

/// Reads the layout of a filesystem from its boot sector.
pub fn parse_boot_sector(b: &[u8]) -> (r: Option<Geometry>)
    requires
        b@.len() == SECTOR_SIZE,
    ensures
        r == boot_geometry(b@),
{
    let bps = read_u16(b, 11) as u32;
    let spc = b[13] as u32;
    let reserved = read_u16(b, 14) as u32;
    let fat_count = b[16] as u32;
    let rdc = read_u16(b, 17) as u32;
    let legacy_sectors = read_u16(b, 19);
    let sectors = if legacy_sectors == 0 {
        read_u32(b, 32)
    } else {
        legacy_sectors as u32
    };
    if spc == 0 || bps == 0 {
        return None;
    }
    let clusters = sectors / spc;
    let fat_type = if clusters < FAT12_MAX {
        FatType::FAT12
    } else if clusters < FAT16_MAX {
        FatType::FAT16
    } else {
        FatType::FAT32
    };
    let is32 = fat_type == FatType::FAT32;
    let spf = if is32 {
        read_u32(b, 36)
    } else {
        read_u16(b, 22) as u32
    };
    if !is32 && rdc * 32 > 0xffff {
        return None;
    }
    let rds: u32 = if is32 {
        0
    } else {
        (rdc * 32 + bps - 1) / bps
    };
    proof {
        assert((fat_count as u64) * (spf as u64) <= 255 * 0xffff_ffff) by (nonlinear_arith)
            requires fat_count <= 255, spf <= 0xffff_ffff;
    }
    let fds = reserved as u64 + (fat_count as u64) * (spf as u64) + rds as u64;
    if fds > sectors as u64 {
        return None;
    }
    let fds = fds as u32;
    let root_cluster = if is32 {
        read_u32(b, 44)
    } else {
        0
    };
    Some(
        Geometry {
            bytes_per_sector: bps,
            sectors,
            fat_type,
            clusters,
            sectors_per_fat: spf,
            sectors_per_cluster: spc,
            fat_count,
            root_dir_sectors: rds,
            first_fat_sector: reserved,
            first_data_sector: fds,
            data_sector_count: sectors - fds,
            data_cluster_count: (sectors - fds) / bps,
            root_cluster,
        },
    )
}

/// Whether `path` starts at the root: with `/` or `\`.
pub fn is_absolute_path(path: &str) -> (r: bool)
    ensures
        r == absolute(path.spec_bytes()),
{
    absolute_bytes(path.as_bytes())
}

/// Whether path `p` starts with `/` or `\`.
pub open spec fn absolute(p: Seq<u8>) -> bool {
    p.len() > 0 && (p[0] == 47u8 || p[0] == 92u8)
}

pub(crate) fn absolute_bytes(path: &[u8]) -> (r: bool)
    ensures
        r == absolute(path@),
{
    path.len() > 0 && (path[0] == 47u8 || path[0] == 92u8)
}


/// A FAT filesystem on sectors `start..=last` of a device.
pub struct Filesystem<'a, D: SectorRead> {
    device: &'a D,
    start: u64,
    last: u64,
    geom: Geometry,
}

/// The layout of a filesystem that has not been read yet.
pub open spec fn blank_geometry() -> Geometry {
    Geometry {
        bytes_per_sector: 0,
        sectors: 0,
        fat_type: FatType::Unknown,
        clusters: 0,
        sectors_per_fat: 0,
        sectors_per_cluster: 0,
        fat_count: 0,
        root_dir_sectors: 0,
        first_fat_sector: 0,
        first_data_sector: 0,
        data_sector_count: 0,
        data_cluster_count: 0,
        root_cluster: 0,
    }
}

/// The allocation table sector that holds the entry of `cluster`; `None`
/// where the entry cannot be located (the type is unknown, the sector size
/// zero, or the entry past what a sector or the table can address).
pub open spec fn link_sector(g: Geometry, cluster: u32) -> Option<int> {
    let bps = g.bytes_per_sector as int;
    let c = cluster as int;
    let off = if g.fat_type == FatType::FAT12 {
        c + c / 2
    } else if g.fat_type == FatType::FAT16 {
        c * 2
    } else {
        c * 4
    };
    if g.fat_type == FatType::Unknown || bps == 0 || off > u32::MAX {
        None
    } else {
        let sector = g.first_fat_sector + off / bps;
        if sector > u32::MAX || off % bps >= 512 {
            None
        } else {
            Some(sector)
        }
    }
}

/// The next cluster of the chain that `cluster` belongs to, as the
/// allocation table on `disk` gives it: the table entry of `cluster`, or
/// `EndOfFile` where the entry ends the chain; `Unsupported` where the entry
/// cannot be located in a 512-byte sector or the type is unknown.
pub open spec fn cluster_link(g: Geometry, disk: spec_fn(int) -> Seq<u8>, cluster: u32) -> Result<u32, Error> {
    let bps = g.bytes_per_sector as int;
    let c = cluster as int;
    let off = if g.fat_type == FatType::FAT12 {
        c + c / 2
    } else if g.fat_type == FatType::FAT16 {
        c * 2
    } else {
        c * 4
    };
    if g.fat_type == FatType::Unknown || bps == 0 || off > u32::MAX {
        Err(Error::Unsupported)
    } else {
        let sector = g.first_fat_sector + off / bps;
        let o = off % bps;
        if sector > u32::MAX || o >= 512 {
            Err(Error::Unsupported)
        } else if g.fat_type == FatType::FAT12 {
            let lo = disk(sector)[o];
            let hi = if o < 511 {
                disk(sector)[o + 1]
            } else {
                disk(sector + 1)[0]
            };
            let raw = (lo + 256 * hi) as u16;
            let v = if c % 2 == 0 {
                raw & 0xfff
            } else {
                raw >> 4
            };
            if v >= 0xff8 {
                Err(Error::EndOfFile)
            } else {
                Ok(v as u32)
            }
        } else if g.fat_type == FatType::FAT16 {
            let v = le16(disk(sector), (o / 2) * 2);
            if v >= 0xfff8 {
                Err(Error::EndOfFile)
            } else {
                Ok(v as u32)
            }
        } else {
            let v = (le32(disk(sector), (o / 4) * 4) as u32) & 0x0fff_ffff;
            if v >= 0x0fff_fff8 {
                Err(Error::EndOfFile)
            } else {
                Ok(v)
            }
        }
    }
}

/// The first sector of data cluster `cluster`; `None` for the clusters
/// below 2, which hold no data, and where the sector is past 32 bits.
pub open spec fn cluster_first_sector(g: Geometry, cluster: u32) -> Option<u32> {
    let s = (cluster - 2) * g.sectors_per_cluster + g.first_data_sector;
    if cluster < 2 || s > u32::MAX {
        None
    } else {
        Some(s as u32)
    }
}

impl<'a, D: SectorRead> Filesystem<'a, D> {
    pub closed spec fn spec_device(&self) -> &'a D {
        self.device
    }

    pub closed spec fn spec_start(&self) -> u64 {
        self.start
    }

    pub closed spec fn spec_last(&self) -> u64 {
        self.last
    }

    pub closed spec fn geometry(&self) -> Geometry {
        self.geom
    }

    /// The device states the content of its sectors, and the layout is the
    /// blank one, or one with clusters of at least one sector and the root
    /// directory before the data.
    pub open spec fn wf(&self) -> bool {
        &&& sized(self.spec_device())
        &&& self.geometry().fat_type == FatType::Unknown || (self.geometry().sectors_per_cluster >= 1
            && self.geometry().first_data_sector >= self.geometry().root_dir_sectors)
    }

    /// Sector `n` of the filesystem.
    pub open spec fn disk(&self) -> spec_fn(int) -> Seq<u8> {
        |n: int| self.spec_device().sector((self.spec_start() + n) as u64)
    }

    /// Whether sector `n` lies within the filesystem.
    pub open spec fn readable(&self, n: int) -> bool {
        self.spec_start() + n <= self.spec_last()
    }

    /// Whether no read of the filesystem can fail: the device reads every
    /// sector, and the filesystem holds every sector number that its
    /// allocation tables and directories can name (below `SECTOR_REACH`),
    /// so that no read lies past its end.
    pub open spec fn sound(&self) -> bool {
        &&& self.spec_start() <= self.spec_last()
        &&& self.spec_last() - self.spec_start() >= SECTOR_REACH
        &&& forall|n: u64| #[trigger] self.spec_device().reads(n)
    }

    /// The filesystem on `device` from sector `start` to sector `last`,
    /// laid out as `geom`.
    pub closed spec fn mounted_fs(device: &'a D, start: u64, last: u64, geom: Geometry) -> Filesystem<'a, D> {
        Filesystem { device, start, last, geom }
    }

    /// What a filesystem mounted from its parts is made of.
    pub proof fn lemma_mounted_fs(device: &'a D, start: u64, last: u64, geom: Geometry)
        ensures
            Self::mounted_fs(device, start, last, geom).spec_device() == device,
            Self::mounted_fs(device, start, last, geom).spec_start() == start,
            Self::mounted_fs(device, start, last, geom).spec_last() == last,
            Self::mounted_fs(device, start, last, geom).geometry() == geom,
    {
    }

    /// A filesystem is its device, its bounds and its layout.
    pub proof fn lemma_same(a: Filesystem<'a, D>, b: Filesystem<'a, D>)
        requires
            a.spec_device() == b.spec_device(),
            a.spec_start() == b.spec_start(),
            a.spec_last() == b.spec_last(),
            a.geometry() == b.geometry(),
        ensures
            a == b,
    {
    }

    /// The next cluster after `cluster` in its chain.
    pub open spec fn link(&self, cluster: u32) -> Result<u32, Error> {
        cluster_link(self.geometry(), self.disk(), cluster)
    }

    pub fn new(device: &'a D, start: u64, last: u64) -> (fs: Filesystem<'a, D>)
        ensures
            fs.spec_device() == device,
            fs.spec_start() == start,
            fs.spec_last() == last,
            fs.geometry() == blank_geometry(),
            fs.wf() == sized(device),
    {
        Filesystem {
            device,
            start,
            last,
            geom: Geometry {
                bytes_per_sector: 0,
                sectors: 0,
                fat_type: FatType::Unknown,
                clusters: 0,
                sectors_per_fat: 0,
                sectors_per_cluster: 0,
                fat_count: 0,
                root_dir_sectors: 0,
                first_fat_sector: 0,
                first_data_sector: 0,
                data_sector_count: 0,
                data_cluster_count: 0,
                root_cluster: 0,
            },
        }
    }

    pub fn sectors(&self) -> (r: u32)
        ensures
            r == self.geometry().sectors,
    {
        self.geom.sectors
    }

    pub fn fat_type(&self) -> (r: FatType)
        ensures
            r == self.geometry().fat_type,
    {
        self.geom.fat_type
    }

    pub fn sectors_per_cluster(&self) -> (r: u32)
        ensures
            r == self.geometry().sectors_per_cluster,
    {
        self.geom.sectors_per_cluster
    }

    /// Reads the layout of the filesystem from its boot sector.
    pub fn init(&mut self) -> (r: Result<(), Error>)
        requires
            old(self).wf(),
        ensures
            final(self).wf(),
            final(self).spec_device() == old(self).spec_device(),
            final(self).spec_start() == old(self).spec_start(),
            final(self).spec_last() == old(self).spec_last(),
            r is Ok ==> boot_geometry(old(self).disk()(0)) == Some(final(self).geometry()),
            r is Err ==> final(self).geometry() == old(self).geometry(),
            r == Err::<(), Error>(Error::Unsupported) ==> boot_geometry(old(self).disk()(0)) is None,
            r is Err ==> r == Err::<(), Error>(Error::BlockError) || r == Err::<(), Error>(Error::Unsupported),
            !old(self).readable(0) ==> r == Err::<(), Error>(Error::BlockError),
            old(self).reads(0) ==> r != Err::<(), Error>(Error::BlockError),
    {
        let mut data = sector_buf();
        match self.read_sector(0, data.as_mut_slice()) {
            Ok(_) => {},
            Err(_) => return Err(Error::BlockError),
        }
        match parse_boot_sector(data.as_slice()) {
            None => Err(Error::Unsupported),
            Some(g) => {
                self.geom = g;
                Ok(())
            },
        }
    }

    /// The next cluster after `cluster` in its chain, read from the
    /// allocation table.
    pub fn next_cluster(&self, cluster: u32) -> (r: Result<u32, Error>)
        ensures
            r != Err::<u32, Error>(Error::BlockError) && sized(self.spec_device()) ==> r == self.link(cluster),
            link_sector(self.geometry(), cluster) is None ==> r == Err::<u32, Error>(Error::Unsupported),
            link_sector(self.geometry(), cluster) matches Some(sec) && !self.readable(sec) ==> r == Err::<u32, Error>(
                Error::BlockError,
            ),
            r == Err::<u32, Error>(Error::BlockError) ==> link_sector(self.geometry(), cluster) is Some,
            self.sound() ==> r != Err::<u32, Error>(Error::BlockError),
    {
        let g = self.geom;
        let bps = g.bytes_per_sector as u64;
        let c = cluster as u64;
        let off: u64 = match g.fat_type {
            FatType::FAT12 => c + c / 2,
            FatType::FAT16 => c * 2,
            FatType::FAT32 => c * 4,
            FatType::Unknown => return Err(Error::Unsupported),
        };
        if bps == 0 || off > 0xffff_ffff {
            return Err(Error::Unsupported);
        }
        let sector = g.first_fat_sector as u64 + off / bps;
        let o = (off % bps) as usize;
        if sector > 0xffff_ffff || o >= 512 {
            return Err(Error::Unsupported);
        }
        let mut data = sector_buf();
        match self.read_sector(sector, data.as_mut_slice()) {
            Ok(_) => {},
            Err(_) => return Err(Error::BlockError),
        }
        match g.fat_type {
            FatType::FAT12 => {
                let lo = data[o];
                let hi = if o < 511 {
                    data[o + 1]
                } else {
                    let mut next = sector_buf();
                    match self.read_sector(sector + 1, next.as_mut_slice()) {
                        Ok(_) => {},
                        Err(_) => return Err(Error::BlockError),
                    }
                    next[0]
                };
                let raw: u16 = lo as u16 + (hi as u16) * 256;
                let v = if cluster % 2 == 0 {
                    raw & 0xfff
                } else {
                    raw >> 4
                };
                if v >= 0xff8 {
                    Err(Error::EndOfFile)
                } else {
                    Ok(v as u32)
                }
            },
            FatType::FAT16 => {
                let v = read_u16(data.as_slice(), (o / 2) * 2);
                if v >= 0xfff8 {
                    Err(Error::EndOfFile)
                } else {
                    Ok(v as u32)
                }
            },
            _ => {
                let v = read_u32(data.as_slice(), (o / 4) * 4) & 0x0fff_ffff;
                if v >= 0x0fff_fff8 {
                    Err(Error::EndOfFile)
                } else {
                    Ok(v)
                }
            },
        }
    }

    /// The first sector of data cluster `cluster`.
    pub fn first_sector_of_cluster(&self, cluster: u32) -> (r: Option<u32>)
        ensures
            r == cluster_first_sector(self.geometry(), cluster),
    {
        if cluster < 2 {
            return None;
        }
        proof {
            assert((cluster - 2) * self.geom.sectors_per_cluster <= 0xffff_ffff * 0xffff_ffff) by (nonlinear_arith)
                requires 0 <= cluster - 2 <= 0xffff_ffff, 0 <= self.geom.sectors_per_cluster <= 0xffff_ffff;
            assert(0 <= (cluster - 2) * self.geom.sectors_per_cluster) by (nonlinear_arith)
                requires 0 <= cluster - 2, 0 <= self.geom.sectors_per_cluster;
        }
        let s = ((cluster - 2) as u128) * (self.geom.sectors_per_cluster as u128) + self.geom.first_data_sector as u128;
        if s > 0xffff_ffff {
            None
        } else {
            Some(s as u32)
        }
    }
}

impl<'a, D: SectorRead> SectorRead for Filesystem<'a, D> {
    open spec fn sector(&self, sector: u64) -> Seq<u8> {
        self.spec_device().sector((self.spec_start() + sector) as u64)
    }

    open spec fn reads(&self, sector: u64) -> bool {
        self.readable(sector as int) && self.spec_device().reads((self.spec_start() + sector) as u64)
    }

    /// Reads sector `sector` of the filesystem; sectors past its end are
    /// refused.
    fn read(&self, sector: u64, data: &mut [u8]) -> (r: Result<(), crate::block::Error>)
        ensures
            !self.readable(sector as int) ==> r == Err::<(), crate::block::Error>(crate::block::Error::BlockIOError),
    {
        if self.start > self.last || sector > self.last - self.start {
            Err(crate::block::Error::BlockIOError)
        } else {
            self.device.read(self.start + sector, data)
        }
    }
}

impl<'a, D: SectorRead> Filesystem<'a, D> {
    /// Reads sector `sector` of the filesystem; sectors past its end are
    /// refused.
    pub fn read_sector(&self, sector: u64, data: &mut [u8]) -> (r: Result<(), crate::block::Error>)
        requires
            old(data)@.len() == SECTOR_SIZE,
        ensures
            final(data)@.len() == SECTOR_SIZE,
            r is Ok && sized(self.spec_device()) ==> final(data)@ == self.disk()(sector as int),
            !self.readable(sector as int) ==> r == Err::<(), crate::block::Error>(crate::block::Error::BlockIOError),
            self.reads(sector) ==> r is Ok,
    {
        if self.start > self.last || sector > self.last - self.start {
            Err(crate::block::Error::BlockIOError)
        } else {
            let r = self.device.read(self.start + sector, data);
            proof {
                if sized(self.spec_device()) {
                    assert(self.spec_device().sector((self.start + sector) as u64).len() == SECTOR_SIZE);
                }
            }
            r
        }
    }
}


/// The sector numbers that reading a FAT filesystem can name: a 32-bit
/// cluster's first sector plus a sector within the cluster stays below.
pub const SECTOR_REACH: u64 = 0x2_0000_0000;

/// A file: its cluster chain, the cluster and sector reached, its size and
/// the position reached.
pub struct File<'a, D: SectorRead> {
    pub filesystem: &'a Filesystem<'a, D>,
    pub start_cluster: u32,
    pub active_cluster: u32,
    pub sector_offset: u64,
    pub size: u32,
    pub position: u32,
}

/// One sector further along a cluster chain from cluster `a`, sector `o`
/// of it.
pub open spec fn chain_step<D: SectorRead>(fs: &Filesystem<D>, a: u32, o: u64) -> Result<(u32, u64), Error> {
    if o == fs.geometry().sectors_per_cluster {
        match fs.link(a) {
            Ok(n) => Ok((n, 1u64)),
            Err(e) => Err(e),
        }
    } else {
        Ok((a, (o + 1) as u64))
    }
}

/// `n` sectors further along a cluster chain.
pub open spec fn chain_walk<D: SectorRead>(fs: &Filesystem<D>, a: u32, o: u64, n: nat) -> Result<(u32, u64), Error>
    decreases n,
{
    if n == 0 {
        Ok((a, o))
    } else {
        match chain_step(fs, a, o) {
            Ok((a2, o2)) => chain_walk(fs, a2, o2, (n - 1) as nat),
            Err(e) => Err(e),
        }
    }
}

/// One more sector along a chain is one step after the others.
pub proof fn lemma_walk_succ<D: SectorRead>(fs: &Filesystem<D>, a: u32, o: u64, n: nat)
    ensures
        chain_walk(fs, a, o, n + 1) == match chain_walk(fs, a, o, n) {
            Ok((a2, o2)) => chain_step(fs, a2, o2),
            Err(e) => Err(e),
        },
    decreases n,
{
    if n > 0 {
        match chain_step(fs, a, o) {
            Ok((a2, o2)) => {
                lemma_walk_succ(fs, a2, o2, (n - 1) as nat);
                assert(chain_walk(fs, a, o, n + 1) == chain_walk(fs, a2, o2, n));
            },
            Err(_) => {},
        }
    } else {
        reveal_with_fuel(chain_walk, 2);
    }
}

/// Byte `i` of the file whose chain starts at cluster `start`: byte
/// `i % 512` of the sector that the chain reaches in `i / 512 + 1` steps.
pub open spec fn file_byte<D: SectorRead>(fs: &Filesystem<D>, start: u32, i: int) -> u8 {
    match chain_walk(fs, start, 0, (i / 512 + 1) as nat) {
        Ok((c, o)) => match cluster_first_sector(fs.geometry(), c) {
            Some(first) => fs.disk()(first + o - 1)[i % 512],
            None => 0u8,
        },
        Err(_) => 0u8,
    }
}

/// Whether the chain of the file of `size` bytes that starts at cluster
/// `start` reaches, for each sector of the file, a cluster that holds data.
pub open spec fn chain_intact<D: SectorRead>(fs: &Filesystem<D>, start: u32, size: u32) -> bool {
    forall|k: nat|
        #![trigger chain_walk(fs, start, 0, k)]
        1 <= k && (k - 1) * 512 < size ==> (chain_walk(fs, start, 0, k) matches Ok((c, _))
            && cluster_first_sector(fs.geometry(), c) is Some)
}

/// Walking `m` sectors and then `n` more is walking `m + n`.
pub proof fn lemma_walk_add<D: SectorRead>(fs: &Filesystem<D>, a: u32, o: u64, m: nat, n: nat)
    ensures
        chain_walk(fs, a, o, m + n) == match chain_walk(fs, a, o, m) {
            Ok((a2, o2)) => chain_walk(fs, a2, o2, n),
            Err(e) => Err(e),
        },
    decreases m,
{
    if m > 0 {
        match chain_step(fs, a, o) {
            Ok((a2, o2)) => {
                lemma_walk_add(fs, a2, o2, (m - 1) as nat, n);
                assert((m + n - 1) as nat == (m - 1) as nat + n);
            },
            Err(_) => {},
        }
    }
}

/// The `size` bytes of the file whose chain starts at cluster `start`.
pub open spec fn file_bytes<D: SectorRead>(fs: &Filesystem<D>, start: u32, size: u32) -> Seq<u8> {
    Seq::new(size as nat, |i: int| file_byte(fs, start, i))
}

impl<'a, D: SectorRead> File<'a, D> {
    /// Sector offsets stay within a cluster, the position is on a sector
    /// boundary unless it is the end of the file, and on a boundary the
    /// cluster and sector reached are those that the chain reaches there.
    pub open spec fn wf(&self) -> bool {
        &&& self.filesystem.wf()
        &&& self.sector_offset <= self.filesystem.geometry().sectors_per_cluster
        &&& self.position <= self.size
        &&& (self.position % 512 == 0 || self.position == self.size)
        &&& (self.position % 512 == 0 ==> chain_walk(
            self.filesystem,
            self.start_cluster,
            0,
            (self.position / 512) as nat,
        ) == Ok::<(u32, u64), Error>((self.active_cluster, self.sector_offset)))
    }
}

/// Something that is read sector by sector: a file, or a directory that
/// refuses to be.
pub trait Read {
    /// Whether the reader is in a state to be read from.
    spec fn ready(&self) -> bool;

    /// The bytes that the reader holds.
    spec fn content(&self) -> Seq<u8>;

    /// Where the reader stands in its bytes.
    spec fn cursor(&self) -> int;

    /// Whether the reader cannot fail within its bytes: its reads then
    /// succeed before the end and answer no error but `EndOfFile` there,
    /// and a seek to the start of a sector within its bytes succeeds.
    spec fn faultless(&self) -> bool;

    /// Whether the reader's device never fails it: its reads, seeks and
    /// loads then never answer `BlockError`.
    spec fn reliable(&self) -> bool;

    /// Reads the next sector into `data` (512 bytes) and returns how many of
    /// its bytes count.
    fn read(&mut self, data: &mut [u8]) -> (r: Result<u32, Error>)
        requires
            old(self).ready(),
            old(data)@.len() == SECTOR_SIZE,
        ensures
            final(self).ready(),
            final(self).file_size() == old(self).file_size(),
            final(self).content() == old(self).content(),
            final(data)@.len() == SECTOR_SIZE,
            r is Err ==> final(self).cursor() == old(self).cursor(),
            r matches Ok(n) ==> n <= 512,
            r matches Ok(n) ==> {
                let len = old(self).content().len();
                let at = old(self).cursor();
                &&& 0 <= at <= len
                &&& n == if len - at < 512 { len - at } else { 512 }
                &&& final(self).cursor() == at + n
                &&& final(data)@.take(n as int) == old(self).content().subrange(at, at + n)
            },
            old(self).faultless() ==> final(self).faultless(),
            old(self).faultless() && old(self).cursor() < old(self).content().len() ==> r is Ok,
            old(self).faultless() && r is Err ==> r == Err::<u32, Error>(Error::EndOfFile),
            old(self).reliable() ==> final(self).reliable() && r != Err::<u32, Error>(Error::BlockError),
    ;

    /// Moves to byte `offset`.
    fn seek(&mut self, offset: u32) -> (r: Result<(), Error>)
        requires
            old(self).ready(),
        ensures
            final(self).ready(),
            final(self).file_size() == old(self).file_size(),
            final(self).content() == old(self).content(),
            r is Ok ==> final(self).cursor() == offset,
            old(self).faultless() ==> final(self).faultless(),
            old(self).faultless() && offset % 512 == 0 && offset < old(self).content().len() ==> r is Ok,
            old(self).reliable() ==> final(self).reliable() && r != Err::<(), Error>(Error::BlockError),
    ;

    /// The size in bytes.
    spec fn file_size(&self) -> u32;

    /// The size in bytes.
    fn get_size(&self) -> (r: u32)
        ensures
            r == self.file_size(),
    ;

    /// Loads the rest of the reader into `mem`, sector by sector; the last,
    /// partial sector of `mem` must be exactly what is left. Where the
    /// reader holds enough bytes, `mem` then holds them.
    fn load_file(&mut self, mem: &mut [u8]) -> (r: Result<(), Error>)
        requires
            old(self).ready(),
        ensures
            final(self).ready(),
            final(self).file_size() == old(self).file_size(),
            final(self).content() == old(self).content(),
            final(mem)@.len() == old(mem)@.len(),
            r is Ok && 0 <= old(self).cursor() && old(self).cursor() + old(mem)@.len() <= old(self).content().len()
                ==> final(mem)@
                == old(self).content().subrange(old(self).cursor(), old(self).cursor() + old(mem)@.len()),
            old(self).faultless() ==> final(self).faultless(),
            old(self).faultless() && 0 <= old(self).cursor() && old(self).cursor() + old(mem)@.len()
                <= old(self).content().len() && (old(mem)@.len() % 512 == 0 || old(self).cursor() + old(mem)@.len()
                == old(self).content().len()) ==> r is Ok,
            old(self).reliable() ==> final(self).reliable() && r != Err::<(), Error>(Error::BlockError),
    {
        let n = mem.len();
        let ghost c0 = self.cursor();
        let ghost content = self.content();
        let ghost enough = 0 <= c0 && c0 + n <= content.len();
        let mut buf = sector_buf();
        let mut off: usize = 0;
        while n - off >= 512
            invariant
                self.ready(),
                self.file_size() == old(self).file_size(),
                self.content() == content,
                content == old(self).content(),
                c0 == old(self).cursor(),
                enough == (0 <= c0 && c0 + n <= content.len()),
                mem@.len() == n,
                n == old(mem)@.len(),
                off <= n,
                buf@.len() == SECTOR_SIZE,
                enough ==> self.cursor() == c0 + off,
                enough ==> mem@.take(off as int) == content.subrange(c0, c0 + off),
                old(self).faultless() ==> self.faultless(),
                old(self).reliable() ==> self.reliable(),
                off % 512 == 0,
            decreases n - off,
        {
            let nr = match self.read(buf.as_mut_slice()) {
                Ok(v) => v,
                Err(e) => {
                    return Err(e);
                },
            };
            proof {
                if enough {
                    assert(nr == 512);
                    assert(buf@.take(512) == content.subrange(c0 + off, c0 + off + 512));
                }
            }
            let ghost before = mem@;
            let mut k: usize = 0;
            while k < 512
                invariant
                    mem@.len() == n,
                    before.len() == n,
                    off + 512 <= n,
                    buf@.len() == SECTOR_SIZE,
                    k <= 512,
                    forall|i: int| 0 <= i < n ==> #[trigger] mem@[i] == if off <= i < off + k {
                        buf@[i - off]
                    } else {
                        before[i]
                    },
                decreases 512 - k,
            {
                mem[off + k] = buf[k];
                k = k + 1;
            }
            proof {
                if enough {
                    assert(mem@.take(off + 512) =~= content.subrange(c0, c0 + off + 512)) by {
                        assert forall|i: int| 0 <= i < off + 512 implies #[trigger] mem@.take(off + 512)[i] == content.subrange(
                            c0,
                            c0 + off + 512,
                        )[i] by {
                            if i < off {
                                assert(before.take(off as int)[i] == content.subrange(c0, c0 + off)[i]);
                            } else {
                                assert(buf@.take(512)[i - off] == content.subrange(c0 + off, c0 + off + 512)[i - off]);
                            }
                        }
                    }
                }
            }
            off = off + 512;
        }
        if off == n {
            proof {
                if enough {
                    assert(mem@ =~= mem@.take(off as int));
                }
            }
            return Ok(());
        }
        proof {
            assert(n % 512 != 0) by (nonlinear_arith)
                requires
                    off % 512 == 0,
                    off < n,
                    n - off < 512,
            ;
        }
        let bytes = match self.read(buf.as_mut_slice()) {
            Ok(b) => b as usize,
            Err(e) => {
                return Err(e);
            },
        };
        if bytes != n - off {
            return Err(Error::EndOfFile);
        }
        proof {
            if enough {
                assert(buf@.take(bytes as int) == content.subrange(c0 + off, c0 + off + bytes));
            }
        }
        let ghost before = mem@;
        let mut k: usize = 0;
        while k < bytes
            invariant
                mem@.len() == n,
                before.len() == n,
                off + bytes == n,
                bytes <= 512,
                buf@.len() == SECTOR_SIZE,
                k <= bytes,
                forall|i: int| 0 <= i < n ==> #[trigger] mem@[i] == if off <= i < off + k {
                    buf@[i - off]
                } else {
                    before[i]
                },
            decreases bytes - k,
        {
            mem[off + k] = buf[k];
            k = k + 1;
        }
        proof {
            if enough {
                assert(mem@ =~= content.subrange(c0, c0 + n)) by {
                    assert forall|i: int| 0 <= i < n implies #[trigger] mem@[i] == content.subrange(c0, c0 + n)[i] by {
                        if i < off {
                            assert(before.take(off as int)[i] == content.subrange(c0, c0 + off)[i]);
                        } else {
                            assert(buf@.take(bytes as int)[i - off] == content.subrange(c0 + off, c0 + off + bytes)[i
                                - off]);
                        }
                    }
                }
            }
        }
        Ok(())
    }
}

impl<'a, D: SectorRead> Read for File<'a, D> {
    open spec fn ready(&self) -> bool {
        self.wf()
    }

    /// A file reads through its device, which may fail.
    /// A file cannot fail on a sound filesystem where its chain is intact.
    open spec fn faultless(&self) -> bool {
        self.filesystem.sound() && chain_intact(self.filesystem, self.start_cluster, self.size)
    }

    open spec fn reliable(&self) -> bool {
        self.filesystem.sound()
    }

    open spec fn content(&self) -> Seq<u8> {
        file_bytes(self.filesystem, self.start_cluster, self.size)
    }

    open spec fn cursor(&self) -> int {
        self.position as int
    }

    open spec fn file_size(&self) -> u32 {
        self.size
    }

    fn get_size(&self) -> (r: u32)
        ensures
            r == self.size,
    {
        self.size
    }

    /// Reads the next sector of the file into `data` and returns how many of
    /// its bytes belong to the file.
    #[verifier::rlimit(40)]
    fn read(&mut self, data: &mut [u8]) -> (r: Result<u32, Error>)
        ensures
            final(self).filesystem == old(self).filesystem,
            final(self).start_cluster == old(self).start_cluster,
            final(self).size == old(self).size,
            old(self).position >= old(self).size ==> r == Err::<u32, Error>(Error::EndOfFile) && *final(self)
                == *old(self),
            r matches Ok(n) ==> {
                &&& old(self).position < old(self).size
                &&& n == if old(self).size - old(self).position < 512 {
                    old(self).size - old(self).position
                } else {
                    512
                }
                &&& final(self).position == old(self).position + n
                &&& chain_step(old(self).filesystem, old(self).active_cluster, old(self).sector_offset) == Ok::<
                    (u32, u64),
                    Error,
                >((final(self).active_cluster, final(self).sector_offset))
                &&& cluster_first_sector(old(self).filesystem.geometry(), final(self).active_cluster) matches Some(
                    first,
                ) && final(data)@ == old(self).filesystem.disk()(first + final(self).sector_offset - 1)
            },
            r matches Err(e) ==> e == Error::EndOfFile || e == Error::BlockError || e == Error::Unsupported,
            r matches Err(e) ==> e != Error::BlockError && old(self).position < old(self).size ==> *final(self)
                == *old(self) && (chain_step(
                old(self).filesystem,
                old(self).active_cluster,
                old(self).sector_offset,
            ) == Err::<(u32, u64), Error>(e) || (e == Error::Unsupported && (chain_step(
                old(self).filesystem,
                old(self).active_cluster,
                old(self).sector_offset,
            ) matches Ok((a, _)) && cluster_first_sector(old(self).filesystem.geometry(), a) is None))),
            old(self).filesystem.sound() ==> r != Err::<u32, Error>(Error::BlockError),
    {
        proof {
            assert(self.ready() == self.wf());
            if self.faultless() && self.position < self.size {
                let k = (self.position / 512) as nat;
                assert(self.position % 512 == 0);
                lemma_walk_succ(self.filesystem, self.start_cluster, 0, k);
                assert(k * 512 < self.size) by (nonlinear_arith)
                    requires
                        k == self.position / 512,
                        self.position % 512 == 0,
                        self.position < self.size,
                ;
                assert(((k + 1) as nat - 1) * 512 < self.size);
                assert(chain_walk(self.filesystem, self.start_cluster, 0, (k + 1) as nat) matches Ok((c, _))
                    && cluster_first_sector(self.filesystem.geometry(), c) is Some);
                assert(chain_step(self.filesystem, self.active_cluster, self.sector_offset) matches Ok((c, _))
                    && cluster_first_sector(self.filesystem.geometry(), c) is Some);
            }
        }
        if self.position >= self.size {
            return Err(Error::EndOfFile);
        }
        let spc = self.filesystem.geom.sectors_per_cluster;
        let mut active = self.active_cluster;
        let mut offset = self.sector_offset;
        if offset == spc as u64 {
            match self.filesystem.next_cluster(active) {
                Err(e) => {
                    return Err(e);
                },
                Ok(cluster) => {
                    active = cluster;
                    offset = 0;
                },
            }
        }
        let cluster_start = match self.filesystem.first_sector_of_cluster(active) {
            Some(s) => s,
            None => return Err(Error::Unsupported),
        };
        let r = match self.filesystem.read_sector(cluster_start as u64 + offset, data) {
            Err(_) => Err(Error::BlockError),
            Ok(()) => {
                self.active_cluster = active;
                self.sector_offset = offset + 1;
                if (self.position as u64 + 512) > self.size as u64 {
                    let bytes_read = self.size - self.position;
                    self.position = self.size;
                    Ok(bytes_read)
                } else {
                    self.position = self.position + 512;
                    Ok(512)
                }
            },
        };
        proof {
            assert(self.file_size() == self.size);
            assert(self.content() == file_bytes(self.filesystem, self.start_cluster, self.size));
            assert(old(self).content() == file_bytes(old(self).filesystem, old(self).start_cluster, old(self).size));
            assert(self.cursor() == self.position);
            assert(old(self).cursor() == old(self).position);
            if r is Ok {
                let fs = self.filesystem;
                let k = (old(self).position / 512) as nat;
                assert(old(self).position % 512 == 0);
                lemma_walk_succ(fs, self.start_cluster, 0, k);
                assert(chain_walk(fs, self.start_cluster, 0, k + 1) == Ok::<(u32, u64), Error>(
                    (self.active_cluster, self.sector_offset),
                ));
                let first = cluster_first_sector(fs.geometry(), self.active_cluster)->0;
                let n = r.unwrap();
                let at = old(self).position as int;
                assert forall|j: int| 0 <= j < n implies #[trigger] data@[j] == old(self).content()[at + j] by {
                    assert((at + j) / 512 == k) by (nonlinear_arith)
                        requires
                            at == 512 * k,
                            0 <= j < 512,
                    ;
                    assert((at + j) % 512 == j) by (nonlinear_arith)
                        requires
                            at == 512 * k,
                            0 <= j < 512,
                    ;
                }
                assert(data@.take(n as int) =~= old(self).content().subrange(at, at + n));
                if self.position % 512 == 0 {
                    assert(self.position == old(self).position + 512);
                    assert((self.position / 512) as nat == k + 1);
                }
            }
        }
        r
    }

    /// Moves to byte `position`, which must start a sector within the file.
    fn seek(&mut self, position: u32) -> (r: Result<(), Error>)
        ensures
            final(self).filesystem == old(self).filesystem,
            final(self).start_cluster == old(self).start_cluster,
            final(self).size == old(self).size,
            position % 512 != 0 ==> r == Err::<(), Error>(Error::InvalidOffset) && *final(self) == *old(self),
            position % 512 == 0 && position >= old(self).size ==> r == Err::<(), Error>(Error::EndOfFile)
                && *final(self) == *old(self),
            r is Ok ==> final(self).position == position && Ok::<(u32, u64), Error>(
                (final(self).active_cluster, final(self).sector_offset),
            ) == if position < old(self).position {
                chain_walk(old(self).filesystem, old(self).start_cluster, 0, (position / 512) as nat)
            } else {
                chain_walk(
                    old(self).filesystem,
                    old(self).active_cluster,
                    old(self).sector_offset,
                    ((position - old(self).position) / 512) as nat,
                )
            },
            r matches Err(e) ==> e != Error::BlockError && position % 512 == 0 && position < old(self).size
                ==> (if position < old(self).position {
                chain_walk(old(self).filesystem, old(self).start_cluster, 0, (position / 512) as nat)
            } else {
                chain_walk(
                    old(self).filesystem,
                    old(self).active_cluster,
                    old(self).sector_offset,
                    ((position - old(self).position) / 512) as nat,
                )
            }) == Err::<(u32, u64), Error>(e),
            old(self).filesystem.sound() ==> r != Err::<(), Error>(Error::BlockError),
    {
        if position % 512 != 0 {
            return Err(Error::InvalidOffset);
        }
        if position >= self.size {
            return Err(Error::EndOfFile);
        }
        let ghost target = if position < self.position {
            chain_walk(self.filesystem, self.start_cluster, 0, (position / 512) as nat)
        } else {
            chain_walk(self.filesystem, self.active_cluster, self.sector_offset, ((position - self.position) / 512) as nat)
        };
        // Beyond, reset to zero and come back
        if position < self.position {
            self.position = 0;
            self.sector_offset = 0;
            self.active_cluster = self.start_cluster;
        }
        let spc = self.filesystem.geom.sectors_per_cluster;
        // Like read but without reading, follow cluster chain if we reach end of cluster
        while self.position < position
            invariant
                self.wf(),
                self.filesystem == old(self).filesystem,
                self.start_cluster == old(self).start_cluster,
                self.size == old(self).size,
                spc == self.filesystem.geometry().sectors_per_cluster,
                position % 512 == 0,
                position < self.size,
                self.position % 512 == 0,
                self.position <= position,
                target == chain_walk(self.filesystem, self.active_cluster, self.sector_offset, ((position - self.position) / 512) as nat),
                target == if position < old(self).position {
                    chain_walk(old(self).filesystem, old(self).start_cluster, 0, (position / 512) as nat)
                } else {
                    chain_walk(
                        old(self).filesystem,
                        old(self).active_cluster,
                        old(self).sector_offset,
                        ((position - old(self).position) / 512) as nat,
                    )
                },
            decreases position - self.position,
        {
            proof {
                assert((position - self.position) / 512 >= 1);
            }
            let ghost p0 = self.position;
            proof {
                lemma_walk_succ(self.filesystem, self.start_cluster, 0, (p0 / 512) as nat);
            }
            if self.sector_offset == spc as u64 {
                match self.filesystem.next_cluster(self.active_cluster) {
                    Err(e) => {
                        proof {
                            let k = ((position - self.position) / 512) as nat;
                            if e != Error::BlockError {
                                assert(chain_step(self.filesystem, self.active_cluster, self.sector_offset) == Err::<(u32, u64), Error>(e));
                                assert(chain_walk(self.filesystem, self.active_cluster, self.sector_offset, k) == Err::<(u32, u64), Error>(e));
                            }
                        }
                        return Err(e);
                    },
                    Ok(cluster) => {
                        self.active_cluster = cluster;
                        self.sector_offset = 0;
                    },
                }
            }
            self.sector_offset = self.sector_offset + 1;
            self.position = self.position + 512;
            proof {
                assert((position - self.position) / 512 == (position - (self.position - 512)) / 512 - 1);
                assert((self.position / 512) as nat == (p0 / 512) as nat + 1);
            }
        }
        Ok(())
    }
}


#[derive(Clone, Copy, Debug, PartialEq, Eq, Structural)]
pub enum FileType {
    File,
    Directory,
}

/// An entry of a directory: its 8.3 name, its long name as ASCII (NUL
/// padded), its type, size and first cluster.
pub struct DirectoryEntry {
    pub name: Vec<u8>,
    pub long_name: Vec<u8>,
    pub file_type: FileType,
    pub size: u32,
    pub cluster: u32,
}

impl DirectoryEntry {
    pub fn is_file(&self) -> (r: bool)
        ensures
            r == (self.file_type == FileType::File),
    {
        match self.file_type {
            FileType::File => true,
            FileType::Directory => false,
        }
    }

    pub fn long_name(&self) -> (r: Vec<u8>)
        ensures
            r@ == self.long_name@,
    {
        self.long_name.clone()
    }
}

/// `b` in upper case, where it is an ASCII letter.
pub open spec fn upper(b: u8) -> u8 {
    if 97 <= b <= 122 {
        (b - 32) as u8
    } else {
        b
    }
}

pub fn to_upper(b: u8) -> (r: u8)
    ensures
        r == upper(b),
{
    if 97 <= b && b <= 122 {
        b - 32
    } else {
        b
    }
}

/// Whether positions `a` to `b` of the 8.3 name `dn` are padding spaces.
pub open spec fn spaces(dn: Seq<u8>, a: int, b: int) -> bool {
    forall|k: int| a <= k < b ==> #[trigger] dn[k] == 32
}

/// Whether name `t`, from byte `j` on, matches the 8.3 name `dn` from
/// position `i` on: what the name leaves of the base name and of the
/// extension must be padding.
pub open spec fn short_match(t: Seq<u8>, j: int, i: int, dn: Seq<u8>) -> bool
    decreases t.len() - j,
{
    if j < 0 || j >= t.len() {
        spaces(dn, i, 11)
    } else if i == 11 {
        false
    } else if t[j] == 0 {
        spaces(dn, i, 11)
    } else if t[j] == 46 {
        spaces(dn, i, 8) && short_match(t, j + 1, 8, dn)
    } else if upper(t[j]) != upper(dn[i]) {
        false
    } else {
        short_match(t, j + 1, i + 1, dn)
    }
}

fn spaces_exec(dn: &[u8], a: usize, b: usize) -> (r: bool)
    requires
        b <= dn@.len(),
    ensures
        r == spaces(dn@, a as int, b as int),
{
    let mut k = a;
    while k < b
        invariant
            a <= k,
            b <= dn@.len(),
            forall|x: int| a <= x < k ==> dn@[x] == 32,
        decreases b - k,
    {
        if dn[k] != 32 {
            return false;
        }
        k = k + 1;
    }
    true
}

/// Whether `name`, stripped of NUL bytes, names the 8.3 name `dn`, where
/// the dot is not stored and gaps are padded with spaces; letters match in
/// either case.
pub open spec fn short_name_matches(name: Seq<u8>, dn: Seq<u8>) -> bool {
    let t = strip_pads(name, false);
    ascii_len_spec(t) <= 12 && short_match(t, 0, 0, dn)
}

/// Do a case-insensitive match on the name with the 8.3 format that you get
/// from FAT: the whole base name and extension, the dot not stored and the
/// gaps padded with spaces.
pub fn compare_short_name(name: &str, de: &DirectoryEntry) -> (r: bool)
    requires
        de.name@.len() == 11,
    ensures
        r == short_name_matches(name.spec_bytes(), de.name@),
{
    compare_short_name_bytes(name.as_bytes(), de)
}

pub(crate) fn compare_short_name_bytes(name: &[u8], de: &DirectoryEntry) -> (r: bool)
    requires
        de.name@.len() == 11,
    ensures
        r == short_name_matches(name@, de.name@),
{
    let t = trim_padding(name, false);
    if nul_index(t) > 12 {
        return false;
    }
    let mut i: usize = 0;
    let mut j: usize = 0;
    while j < t.len()
        invariant
            de.name@.len() == 11,
            t@ == strip_pads(name@, false),
            ascii_len_spec(t@) <= 12,
            j <= t@.len(),
            i <= 11,
            short_match(t@, 0, 0, de.name@) == short_match(t@, j as int, i as int, de.name@),
        decreases t@.len() - j,
    {
        let a = t[j];
        if i == 11 {
            return false;
        }
        if a == 0 {
            return spaces_exec(de.name.as_slice(), i, 11);
        }
        if a == 46 {
            if i < 8 && !spaces_exec(de.name.as_slice(), i, 8) {
                return false;
            }
            i = 8;
            j = j + 1;
            continue;
        }
        let b = de.name[i];
        if to_upper(a) != to_upper(b) {
            return false;
        }
        i = i + 1;
        j = j + 1;
    }
    spaces_exec(de.name.as_slice(), i, 11)
}

/// Whether `name` is the 8.3 name of `de`, or starts its long name.
pub open spec fn name_matches(name: Seq<u8>, de_name: Seq<u8>, long_name: Seq<u8>) -> bool {
    short_name_matches(name, de_name) || long_name.take(name.len() as int) == name
}

pub fn compare_name(name: &[u8], de: &DirectoryEntry) -> (r: bool)
    requires
        de.name@.len() == 11,
        de.long_name@.len() == 255,
        name@.len() <= 255,
    ensures
        r == name_matches(name@, de.name@, de.long_name@),
{
    if compare_short_name_bytes(name, de) {
        return true;
    }
    let mut k: usize = 0;
    while k < name.len()
        invariant
            name@.len() <= 255,
            de.long_name@.len() == 255,
            !short_name_matches(name@, de.name@),
            k <= name@.len(),
            forall|x: int| 0 <= x < k ==> de.long_name@[x] == name@[x],
        decreases name@.len() - k,
    {
        if de.long_name[k] != name[k] {
            assert(de.long_name@.take(name@.len() as int)[k as int] != name@[k as int]);
            return false;
        }
        k = k + 1;
    }
    assert(de.long_name@.take(name@.len() as int) =~= name@);
    true
}

/// What `name_to_str` writes, from output position `j` and input position
/// `i` on.
pub open spec fn short_to_dotted(t: Seq<u8>, len: int, out: Seq<u8>, j: int, i: int) -> Seq<u8>
    decreases out.len() - j,
{
    if j < 0 || j >= out.len() || i < 0 || i >= t.len() {
        out
    } else if t[i] == 0 {
        out
    } else {
        let b: u8 = if t[i] == 32 { 46 } else { t[i] };
        let i2 = if t[i] == 32 { 8 } else { i + 1 };
        let out2 = out.update(j, b);
        if i2 >= len {
            out2
        } else {
            short_to_dotted(t, len, out2, j + 1, i2)
        }
    }
}

/// The text that `name_to_str` makes of `input` in `out`: `.`, `..` and
/// names longer than 12 bytes are copied; an 8.3 name gets its dot.
pub open spec fn name_to_str_spec(input: Seq<u8>, out: Seq<u8>) -> Seq<u8> {
    let t = strip_pads(input, true);
    let len = ascii_len_spec(t);
    if t.len() == 0 {
        out
    } else if t == seq![46u8] || t == seq![46u8, 46u8] || len > 12 {
        t.take(len) + out.skip(len)
    } else {
        short_to_dotted(t, len, out, 0, 0)
    }
}

/// Writes the 8.3 name `input` (padded with spaces and NUL bytes) into
/// `output` as text with its dot.
pub fn name_to_str(input: &str, output: &mut [u8])
    requires
        ascii_len_spec(strip_pads(input.spec_bytes(), true)) <= old(output)@.len(),
        ({
            let t = strip_pads(input.spec_bytes(), true);
            t == seq![46u8] || t == seq![46u8, 46u8] || ascii_len_spec(t) > 12 ==> ascii_len_spec(t) == t.len()
        }),
    ensures
        final(output)@ == name_to_str_spec(input.spec_bytes(), old(output)@),
{
    name_to_str_bytes(input.as_bytes(), output)
}

pub(crate) fn name_to_str_bytes(input: &[u8], output: &mut [u8])
    requires
        ascii_len_spec(strip_pads(input@, true)) <= old(output)@.len(),
        ({
            let t = strip_pads(input@, true);
            t == seq![46u8] || t == seq![46u8, 46u8] || ascii_len_spec(t) > 12 ==> ascii_len_spec(t) == t.len()
        }),
    ensures
        final(output)@ == name_to_str_spec(input@, old(output)@),
        final(output)@.len() == old(output)@.len(),
{
    let t = trim_padding(input, true);
    let len = nul_index(t);
    proof {
        crate::common::lemma_ascii_len_bounds(t@);
        crate::common::lemma_leading_pads(input@, true);
        crate::common::lemma_trailing_pads(input@, true);
    }
    if t.len() == 0 {
        return;
    }
    let ghost orig = output@;
    let is_dots = (t.len() == 1 && t[0] == 46) || (t.len() == 2 && t[0] == 46 && t[1] == 46);
    proof {
        assert(is_dots == (t@ == seq![46u8] || t@ == seq![46u8, 46u8])) by {
            if t@ == seq![46u8] {
                assert(t@.len() == 1);
            }
            if t@ == seq![46u8, 46u8] {
                assert(t@.len() == 2);
            }
            if t@.len() == 1 && t@[0] == 46 {
                assert(t@ =~= seq![46u8]);
            }
            if t@.len() == 2 && t@[0] == 46 && t@[1] == 46 {
                assert(t@ =~= seq![46u8, 46u8]);
            }
        }
    }
    if is_dots || len > 12 {
        let mut k: usize = 0;
        while k < len
            invariant
                len <= output@.len(),
                len == t@.len(),
                output@.len() == orig.len(),
                k <= len,
                forall|x: int| 0 <= x < output@.len() ==> #[trigger] output@[x] == if x < k {
                    t@[x]
                } else {
                    orig[x]
                },
            decreases len - k,
        {
            output[k] = t[k];
            k = k + 1;
        }
        assert(output@ =~= t@.take(len as int) + orig.skip(len as int));
        return;
    }
    proof {
        assert(t@[0] != 0 && t@[0] != 32);
        assert(len >= 1);
    }
    let mut i: usize = 0;
    let mut j: usize = 0;
    let mut done = false;
    while j < output.len() && !done
        invariant
            len <= t@.len(),
            len >= 1,
            !done ==> i < len,
            j <= output@.len(),
            output@.len() == orig.len(),
            !done ==> short_to_dotted(t@, len as int, orig, 0, 0) == short_to_dotted(t@, len as int, output@, j as int, i as int),
            done ==> short_to_dotted(t@, len as int, orig, 0, 0) == output@,
        decreases output@.len() - j + (if done { 0int } else { 1int }),
    {
        let c = t[i];
        if c == 0 {
            done = true;
        } else {
            let b = if c == 32 {
                i = 8;
                46u8
            } else {
                i = i + 1;
                c
            };
            output[j] = b;
            if i >= len {
                done = true;
            } else {
                j = j + 1;
            }
        }
    }
}

/// The byte counts that reading a file of `size` bytes from position `at`
/// gives, one read at a time until its end, as `Read::read` answers them:
/// a sector's worth each, and what is left at the end.
pub open spec fn read_counts(size: int, at: int) -> Seq<int>
    decreases size - at,
{
    if at >= size {
        Seq::empty()
    } else {
        let n = if size - at < 512 {
            size - at
        } else {
            512
        };
        seq![n] + read_counts(size, at + n)
    }
}

/// The sum of `s`.
pub open spec fn total(s: Seq<int>) -> int
    decreases s.len(),
{
    if s.len() == 0 {
        0
    } else {
        s[0] + total(s.drop_first())
    }
}

/// Reading from position `at` until the end of the file, as after a seek
/// to `at`, reads what is left of it: the counts sum to `size - at`.
pub proof fn law_reads_cover_rest(size: int, at: int)
    requires
        0 <= at <= size,
    ensures
        total(read_counts(size, at)) == size - at,
    decreases size - at,
{
    if at < size {
        let n = if size - at < 512 {
            size - at
        } else {
            512
        };
        law_reads_cover_rest(size, at + n);
        let s = read_counts(size, at);
        assert(s.drop_first() =~= read_counts(size, at + n));
    }
}

} // verus!
