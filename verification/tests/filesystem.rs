use std::collections::HashMap;

use hypervisor_fw::block::{Error as BlockError, SectorRead};
use hypervisor_fw::boot_select::{boot_from_disk, BootChoice, BootError};
use hypervisor_fw::bootinfo::{EntryType, Info, MemoryEntry};
use hypervisor_fw::layout::MemoryDescriptor;
use hypervisor_fw::part::{find_efi_partition, Error as PartError};
use hypervisor_fw::fat::{
    compare_short_name, name_to_str, DirectoryEntry, Error, FatType, File, FileType, Filesystem, Node,
    Read,
};
use hypervisor_fw::common::ascii_strip;
use hypervisor_fw::efi::mem_file::MemoryFile;
use hypervisor_fw::loader::{default_entry_path, default_entry_pattern, parse_entry};
use hypervisor_fw::mem::PhysicalMemory;
use hypervisor_fw::pe::Loader;

/// A disk held in memory; sectors never written read as zeros.
struct FakeDisk {
    sectors: HashMap<u64, Vec<u8>>,
    len: u64,
}

impl FakeDisk {
    fn len(&self) -> u64 {
        self.len
    }

    fn write(&mut self, offset: u64, bytes: &[u8]) {
        for (i, b) in bytes.iter().enumerate() {
            let pos = offset + i as u64;
            let s = self.sectors.entry(pos / 512).or_insert_with(|| vec![0u8; 512]);
            s[(pos % 512) as usize] = *b;
        }
    }
}

impl SectorRead for FakeDisk {
    fn read(&self, sector: u64, data: &mut [u8]) -> Result<(), BlockError> {
        if sector >= self.len {
            return Err(BlockError::BlockIOError);
        }
        match self.sectors.get(&sector) {
            Some(s) => data.copy_from_slice(s),
            None => data.iter_mut().for_each(|b| *b = 0),
        }
        Ok(())
    }
}

#[derive(Clone, Copy, PartialEq)]
enum Kind {
    Fat12,
    Fat16,
    Fat32,
}

/// Lays out a FAT filesystem on a `FakeDisk`: boot sector, two tables,
/// the root directory and clusters given out in order from `first_free`.
struct Builder {
    disk: FakeDisk,
    kind: Kind,
    spc: u64,
    reserved: u64,
    spf: u64,
    root_dir_sectors: u64,
    first_data: u64,
    next_cluster: u32,
    root_cluster: u32,
    root_entries: Vec<[u8; 32]>,
}

fn short_name(name: &str) -> [u8; 11] {
    let mut out = [b' '; 11];
    if name.len() == 11 && !name.contains('.') {
        out.copy_from_slice(name.as_bytes());
        return out;
    }
    if name == "." || name == ".." {
        out[..name.len()].copy_from_slice(name.as_bytes());
        return out;
    }
    let (base, ext) = match name.rfind('.') {
        Some(i) => (&name[..i], &name[i + 1..]),
        None => (name, ""),
    };
    for (i, b) in base.bytes().take(8).enumerate() {
        out[i] = b.to_ascii_uppercase();
    }
    for (i, b) in ext.bytes().take(3).enumerate() {
        out[8 + i] = b.to_ascii_uppercase();
    }
    out
}

fn dir_record(name: &[u8; 11], directory: bool, cluster: u32, size: u32) -> [u8; 32] {
    let mut r = [0u8; 32];
    r[..11].copy_from_slice(name);
    r[11] = if directory { 0x10 } else { 0x20 };
    r[20..22].copy_from_slice(&((cluster >> 16) as u16).to_le_bytes());
    r[26..28].copy_from_slice(&(cluster as u16).to_le_bytes());
    r[28..32].copy_from_slice(&size.to_le_bytes());
    r
}

/// The long-name records for `name`, in the order they are stored (last
/// part first).
fn lfn_records(name: &str) -> Vec<[u8; 32]> {
    let mut chars: Vec<u16> = name.encode_utf16().collect();
    chars.push(0);
    while chars.len() % 13 != 0 {
        chars.push(0xffff);
    }
    let parts = chars.len() / 13;
    let mut out = Vec::new();
    for p in (0..parts).rev() {
        let mut r = [0u8; 32];
        r[0] = (p as u8 + 1) | if p == parts - 1 { 0x40 } else { 0 };
        r[11] = 0x0f;
        let c = &chars[p * 13..p * 13 + 13];
        let offsets = [1, 3, 5, 7, 9, 14, 16, 18, 20, 22, 24, 28, 30];
        for (j, o) in offsets.iter().enumerate() {
            r[*o..*o + 2].copy_from_slice(&c[j].to_le_bytes());
        }
        out.push(r);
    }
    out
}

impl Builder {
    fn new(kind: Kind, sectors: u64, spc: u64) -> Builder {
        let clusters = sectors / spc;
        let entry_bits = match kind {
            Kind::Fat12 => 12,
            Kind::Fat16 => 16,
            Kind::Fat32 => 32,
        };
        let spf = (clusters * entry_bits / 8) / 512 + 1;
        let reserved = if kind == Kind::Fat32 { 32 } else { 1 };
        let root_dir_sectors = if kind == Kind::Fat32 { 0 } else { 32 };
        let first_data = reserved + 2 * spf + root_dir_sectors;
        let mut b = Builder {
            disk: FakeDisk { sectors: HashMap::new(), len: sectors },
            kind,
            spc,
            reserved,
            spf,
            root_dir_sectors,
            first_data,
            next_cluster: 2,
            root_cluster: 0,
            root_entries: Vec::new(),
        };
        let mut boot = [0u8; 512];
        boot[11..13].copy_from_slice(&512u16.to_le_bytes());
        boot[13] = spc as u8;
        boot[14..16].copy_from_slice(&(reserved as u16).to_le_bytes());
        boot[16] = 2;
        if kind != Kind::Fat32 {
            boot[17..19].copy_from_slice(&512u16.to_le_bytes());
            boot[22..24].copy_from_slice(&(spf as u16).to_le_bytes());
        } else {
            boot[36..40].copy_from_slice(&(spf as u32).to_le_bytes());
        }
        if sectors < 0x10000 {
            boot[19..21].copy_from_slice(&(sectors as u16).to_le_bytes());
        } else {
            boot[32..36].copy_from_slice(&(sectors as u32).to_le_bytes());
        }
        boot[510] = 0x55;
        boot[511] = 0xaa;
        b.disk.write(0, &boot);
        b.set_fat(0, 0x0fff_fff8);
        b.set_fat(1, 0x0fff_ffff);
        if kind == Kind::Fat32 {
            let root = b.alloc_chain(1);
            b.root_cluster = root;
            b.disk.write(44, &root.to_le_bytes());
        }
        b
    }

    fn set_fat(&mut self, cluster: u32, value: u32) {
        for copy in 0..2 {
            let base = (self.reserved + copy * self.spf) * 512;
            match self.kind {
                Kind::Fat12 => {
                    let off = base + (cluster as u64 * 3) / 2;
                    let mut cur = [0u8; 2];
                    for (i, c) in cur.iter_mut().enumerate() {
                        let pos = off + i as u64;
                        *c = self
                            .disk
                            .sectors
                            .get(&(pos / 512))
                            .map(|s| s[(pos % 512) as usize])
                            .unwrap_or(0);
                    }
                    let old = u16::from_le_bytes(cur);
                    let v = (value & 0xfff) as u16;
                    let new = if cluster % 2 == 0 { (old & 0xf000) | v } else { (old & 0x000f) | (v << 4) };
                    self.disk.write(off, &new.to_le_bytes());
                }
                Kind::Fat16 => self.disk.write(base + cluster as u64 * 2, &(value as u16).to_le_bytes()),
                Kind::Fat32 => self.disk.write(base + cluster as u64 * 4, &value.to_le_bytes()),
            }
        }
    }

    fn end_mark(&self) -> u32 {
        match self.kind {
            Kind::Fat12 => 0xfff,
            Kind::Fat16 => 0xffff,
            Kind::Fat32 => 0x0fff_ffff,
        }
    }

    /// Gives out `n` clusters (at least one) as a chain and returns the first.
    fn alloc_chain(&mut self, n: u64) -> u32 {
        let n = n.max(1) as u32;
        let first = self.next_cluster;
        for i in 0..n {
            let c = first + i;
            let next = if i + 1 == n { self.end_mark() } else { c + 1 };
            self.set_fat(c, next);
        }
        self.next_cluster += n;
        first
    }

    fn cluster_offset(&self, cluster: u32) -> u64 {
        (self.first_data + (cluster as u64 - 2) * self.spc) * 512
    }

    fn write_chain(&mut self, first: u32, bytes: &[u8]) {
        let csize = (self.spc * 512) as usize;
        for (i, chunk) in bytes.chunks(csize).enumerate() {
            let off = self.cluster_offset(first + i as u32);
            self.disk.write(off, chunk);
        }
    }

    /// Adds a file under its long name `long`, with 8.3 name `short`.
    fn add_long_file(&mut self, dir: &mut Vec<[u8; 32]>, long: &str, short: &str, content: &[u8]) -> u32 {
        dir.append(&mut lfn_records(long));
        self.add_file(dir, short, content)
    }

    fn add_file(&mut self, dir: &mut Vec<[u8; 32]>, name: &str, content: &[u8]) -> u32 {
        let csize = self.spc * 512;
        let cluster = self.alloc_chain((content.len() as u64 + csize - 1) / csize);
        self.write_chain(cluster, content);
        dir.push(dir_record(&short_name(name), false, cluster, content.len() as u32));
        cluster
    }

    /// Writes directory `entries`, after "." and ".." (which points at
    /// `parent`), into a cluster chain.
    fn write_dir(&mut self, parent: u32, entries: &[[u8; 32]]) -> u32 {
        let csize = self.spc * 512;
        let total = (entries.len() as u64 + 3) * 32;
        let cluster = self.alloc_chain((total + csize - 1) / csize);
        let mut bytes = Vec::new();
        bytes.extend_from_slice(&dir_record(&short_name("."), true, cluster, 0));
        bytes.extend_from_slice(&dir_record(&short_name(".."), true, parent, 0));
        for e in entries {
            bytes.extend_from_slice(e);
        }
        self.write_chain(cluster, &bytes);
        cluster
    }

    fn finish(mut self) -> FakeDisk {
        let mut bytes = Vec::new();
        for e in &self.root_entries {
            bytes.extend_from_slice(e);
        }
        if self.kind == Kind::Fat32 {
            let root = self.root_cluster;
            let csize = (self.spc * 512) as usize;
            assert!(bytes.len() <= csize);
            let off = self.cluster_offset(root);
            self.disk.write(off, &bytes);
        } else {
            let off = (self.first_data - self.root_dir_sectors) * 512;
            self.disk.write(off, &bytes);
        }
        self.disk
    }
}

fn content(len: usize) -> Vec<u8> {
    (0..len).map(|i| (i % 251) as u8).collect()
}

/// A filesystem with /A/B/C holding files named after their sizes, 2^n and
/// 2^n - 1 for n from 9 to 15, and a file with a long name at the root.
fn test_image(kind: Kind) -> FakeDisk {
    let (sectors, spc) = match kind {
        Kind::Fat12 => (4000, 1),
        Kind::Fat16 => (40000, 1),
        Kind::Fat32 => (70000, 1),
    };
    let mut b = Builder::new(kind, sectors, spc);
    let mut c_entries = Vec::new();
    for n in 9..16 {
        for o in 0..2 {
            let v = 2u32.pow(n) - o;
            b.add_file(&mut c_entries, &format!("{}", v), &content(v as usize));
        }
    }
    // Directories are written after what they hold, so their ".." entries
    // point at cluster 0 (the root); nothing here follows them.
    let c = b.write_dir(0, &c_entries);
    let b_dir = b.write_dir(0, &[dir_record(&short_name("C"), true, c, 0)]);
    let a = b.write_dir(0, &[dir_record(&short_name("B"), true, b_dir, 0)]);
    b.root_entries.push(dir_record(&short_name("A"), true, a, 0));
    let mut lfn = lfn_records("longfilenametest");
    let mut root_files = Vec::new();
    b.add_file(&mut root_files, "LONGFI~1", b"long name");
    b.root_entries.append(&mut lfn);
    b.root_entries.append(&mut root_files);
    b.finish()
}

fn open_file<'a>(fs: &'a Filesystem<'a, FakeDisk>, path: &str) -> File<'a, FakeDisk> {
    match fs.open(path).expect("Error opening file") {
        Node::File(f) => f,
        Node::Directory(_) => panic!("not a file"),
    }
}

#[test]
fn test_fat_file_reads() {
    for kind in [Kind::Fat12, Kind::Fat16, Kind::Fat32] {
        let d = test_image(kind);
        for n in 9..16 {
            for o in 0..2 {
                let v = 2u32.pow(n) - o;
                let len = d.len();
                let mut fs = Filesystem::new(&d, 0, len);
                fs.init().expect("Error initialising filesystem");
                let path = format!("/A/B/C/{}", v);
                let mut f = open_file(&fs, &path);

                assert_eq!(f.size, v);

                let mut bytes_so_far = 0;
                loop {
                    let mut data: [u8; 512] = [0; 512];
                    match f.read(&mut data) {
                        Ok(bytes) => {
                            bytes_so_far += bytes;
                        }
                        Err(Error::EndOfFile) => {
                            break;
                        }
                        Err(e) => panic!("{:?}", e),
                    }
                }

                assert_eq!(bytes_so_far, f.size);
            }
        }
    }
}

#[test]
fn test_fat_file_seek() {
    for kind in [Kind::Fat12, Kind::Fat16, Kind::Fat32] {
        let d = test_image(kind);
        for n in 9..16 {
            for o in 0..2 {
                let v = 2u32.pow(n) - o;
                let len = d.len();
                let mut fs = Filesystem::new(&d, 0, len);
                fs.init().expect("Error initialising filesystem");
                let path = format!("/A/B/C/{}", v);
                let mut f = open_file(&fs, &path);

                assert_eq!(f.size, v);

                let mut bytes_so_far = 0;
                loop {
                    let mut data: [u8; 512] = [0; 512];
                    match f.read(&mut data) {
                        Ok(bytes) => {
                            bytes_so_far += bytes;
                        }
                        Err(Error::EndOfFile) => {
                            break;
                        }
                        Err(e) => panic!("{:?}", e),
                    }
                }

                assert_eq!(bytes_so_far, f.size);

                f.seek(0).expect("expect seek to work");
                bytes_so_far = 0;
                loop {
                    let mut data: [u8; 512] = [0; 512];
                    match f.read(&mut data) {
                        Ok(bytes) => {
                            bytes_so_far += bytes;
                        }
                        Err(Error::EndOfFile) => {
                            break;
                        }
                        Err(e) => panic!("{:?}", e),
                    }
                }

                assert_eq!(bytes_so_far, f.size);

                if f.size > 512 && f.size % 2 == 0 {
                    f.seek(f.size / 2).expect("expect seek to work");
                    bytes_so_far = f.size / 2;
                    loop {
                        let mut data: [u8; 512] = [0; 512];
                        match f.read(&mut data) {
                            Ok(bytes) => {
                                bytes_so_far += bytes;
                            }
                            Err(Error::EndOfFile) => {
                                break;
                            }
                            Err(e) => panic!("{:?}", e),
                        }
                    }
                    assert_eq!(bytes_so_far, f.size);
                }
            }
        }
    }
}

/// A FAT16 partition like the EFI partition of the Clear Linux image: its
/// size in sectors, 16 sectors a cluster, and the boot loader at
/// `\EFI\BOOT\BOOTX64.EFI` starting at cluster 166.
fn efi_partition() -> FakeDisk {
    let mut b = Builder::new(Kind::Fat16, 1_046_528, 16);
    // Clusters before the boot loader hold other files of the partition.
    let filler = b.alloc_chain(164);
    assert_eq!(filler, 2);
    let mut boot_entries = Vec::new();
    let loader = b.add_file(&mut boot_entries, "BOOTX64.EFI", &content(92789));
    assert_eq!(loader, 166);
    let boot = b.write_dir(0, &boot_entries);
    let efi = b.write_dir(0, &[dir_record(&short_name("BOOT"), true, boot, 0)]);
    b.root_entries.push(dir_record(&short_name("EFI"), true, efi, 0));
    b.finish()
}

#[test]
fn test_fat_init() {
    let d = with_gpt(efi_partition(), EFI_PARTITION_TYPE);
    let (start, end) = find_efi_partition(&d).unwrap();
    let mut f = Filesystem::new(&d, start, end);
    match f.init() {
        Ok(()) => {
            assert_eq!(f.sectors(), 1_046_528);
            assert_eq!(f.fat_type(), FatType::FAT16);
        }
        Err(e) => panic!("{:?}", e),
    }
}

#[test]
fn test_fat_open() {
    let d = with_gpt(efi_partition(), EFI_PARTITION_TYPE);
    let (start, end) = find_efi_partition(&d).unwrap();
    let mut f = Filesystem::new(&d, start, end);
    match f.init() {
        Ok(()) => {
            let file = match f.open("\\EFI\\BOOT\\BOOTX64.EFI").unwrap() {
                Node::File(file) => file,
                Node::Directory(_) => panic!("not a file"),
            };

            assert_eq!(file.active_cluster, 166);
            assert_eq!(file.size, 92789);
        }
        Err(e) => panic!("{:?}", e),
    }
}

#[test]
fn test_fat_list_root() {
    for kind in [Kind::Fat12, Kind::Fat16, Kind::Fat32] {
        let disk = test_image(kind);
        let len = disk.len();
        let mut fs = Filesystem::new(&disk, 0, len);
        fs.init().expect("Error initialising filesystem");
        let mut d = fs.root().unwrap();
        let de = d.next_entry().unwrap();
        assert_eq!(&de.name, b"A          ");
    }
}

#[test]
fn test_fat_list_recurse() {
    for kind in [Kind::Fat12, Kind::Fat16, Kind::Fat32] {
        let disk = test_image(kind);
        let len = disk.len();
        let mut fs = Filesystem::new(&disk, 0, len);
        fs.init().expect("Error initialising filesystem");

        let mut d = fs.root().unwrap();
        let de = d.next_entry().unwrap();
        assert_eq!(&de.name, b"A          ");

        let mut d = fs.get_directory(de.cluster);
        let de = d.next_entry().unwrap();
        assert_eq!(&de.name, b".          ");
        let de = d.next_entry().unwrap();
        assert_eq!(&de.name, b"..         ");
        let de = d.next_entry().unwrap();
        assert_eq!(&de.name, b"B          ");
        assert!(d.next_entry().is_err());

        let mut d = fs.get_directory(de.cluster);
        let de = d.next_entry().unwrap();
        assert_eq!(&de.name, b".          ");
        let de = d.next_entry().unwrap();
        assert_eq!(&de.name, b"..         ");
        let de = d.next_entry().unwrap();
        assert_eq!(&de.name, b"C          ");
        assert!(d.next_entry().is_err());
    }
}

#[test]
fn test_fat_long_file_name() {
    for kind in [Kind::Fat12, Kind::Fat16, Kind::Fat32] {
        let d = test_image(kind);
        let len = d.len();
        let mut fs = Filesystem::new(&d, 0, len);
        fs.init().expect("Error initialising filesystem");

        assert!(fs.open("/longfilenametest").is_ok());
    }
}

fn entry_named(name: &[u8; 11]) -> DirectoryEntry {
    DirectoryEntry {
        name: name.to_vec(),
        long_name: vec![0u8; 255],
        file_type: FileType::File,
        size: 0,
        cluster: 0,
    }
}

#[test]
fn test_compare_short_name() {
    let de = entry_named(b"X       ABC");
    assert!(compare_short_name("X.abc", &de));
    let de = entry_named(b"ABCDEFGHIJK");
    assert!(compare_short_name("abcdefgh.ijk", &de));
}

#[test]
fn test_name_to_str() {
    let mut s = [0_u8; 11];
    name_to_str("X       ABC", &mut s);
    assert_eq!(ascii_strip(&s), b"X.ABC");
    let mut s = [0_u8; 11];
    name_to_str(".", &mut s);
    assert_eq!(ascii_strip(&s), b".");
    let mut s = [0_u8; 11];
    name_to_str("..", &mut s);
    assert_eq!(ascii_strip(&s), b"..");
    let mut s = [0_u8; 11];
    name_to_str("ABCDEFGHIJK", &mut s);
    assert_eq!(ascii_strip(&s), b"ABCDEFGHIJK");
}

const CLEAR_CMDLINE: &str = "root=PARTUUID=ae06d187-e9fc-4d3b-9e5b-8e6ff28e894f console=tty0 console=ttyS0,115200n8 console=hvc0 quiet init=/usr/lib/systemd/systemd-bootchart initcall_debug tsc=reliable no_timer_check noreplace-smp cryptomgr.notests rootfstype=ext4,btrfs,xfs kvm-intel.nested=1 rw";

/// A minimal PE32+ executable for x86-64: one section, entry point at
/// 0x4000, an image of 110592 bytes and no preferred base.
fn pe_image() -> Vec<u8> {
    let mut d = vec![0u8; 0x600];
    d[0..2].copy_from_slice(b"MZ");
    d[0x3c..0x40].copy_from_slice(&0x80u32.to_le_bytes());
    d[0x80..0x84].copy_from_slice(b"PE\0\0");
    d[0x84..0x86].copy_from_slice(&0x8664u16.to_le_bytes());
    d[0x86..0x88].copy_from_slice(&1u16.to_le_bytes());
    d[0x94..0x96].copy_from_slice(&0xf0u16.to_le_bytes());
    let opt = 0x98;
    d[opt..opt + 2].copy_from_slice(&0x20bu16.to_le_bytes());
    d[opt + 16..opt + 20].copy_from_slice(&0x4000u32.to_le_bytes());
    d[opt + 56..opt + 60].copy_from_slice(&110_592u32.to_le_bytes());
    d[opt + 60..opt + 64].copy_from_slice(&0x400u32.to_le_bytes());
    d[opt + 108..opt + 112].copy_from_slice(&16u32.to_le_bytes());
    let sec = opt + 0xf0;
    d[sec..sec + 5].copy_from_slice(b".text");
    d[sec + 8..sec + 12].copy_from_slice(&0x1000u32.to_le_bytes());
    d[sec + 12..sec + 16].copy_from_slice(&0x1000u32.to_le_bytes());
    d[sec + 16..sec + 20].copy_from_slice(&0x200u32.to_le_bytes());
    d[sec + 20..sec + 24].copy_from_slice(&0x400u32.to_le_bytes());
    for (i, b) in d[0x400..0x600].iter_mut().enumerate() {
        *b = i as u8;
    }
    d
}

/// The EFI partition of a Clear Linux image, as far as the tests read it:
/// the boot loader configuration, its entry and the EFI boot loader.
fn clear_partition() -> FakeDisk {
    let mut b = Builder::new(Kind::Fat16, 1_046_528, 16);
    let mut entries = Vec::new();
    let entry = format!(
        "title Clear Linux OS\nlinux /EFI/org.clearlinux/kernel-org.clearlinux.kvm.5.0.6-318\noptions {}\n",
        CLEAR_CMDLINE
    );
    b.add_long_file(&mut entries, "Clear-linux-kvm-5.0.6-318.conf", "CLEAR-~1.CON", entry.as_bytes());
    let entries_dir = b.write_dir(0, &entries);
    let mut loader = Vec::new();
    b.add_long_file(&mut loader, "loader.conf", "LOADER.CON", b"timeout 5\ndefault Clear-linux-kvm-5.0.6-318\n");
    loader.push(dir_record(&short_name("ENTRIES"), true, entries_dir, 0));
    let loader_dir = b.write_dir(0, &loader);
    let mut boot = Vec::new();
    b.add_file(&mut boot, "BOOTX64 EFI", &pe_image());
    let boot_dir = b.write_dir(0, &boot);
    let efi = b.write_dir(0, &[dir_record(&short_name("BOOT"), true, boot_dir, 0)]);
    b.root_entries.push(dir_record(&short_name("LOADER"), true, loader_dir, 0));
    b.root_entries.push(dir_record(&short_name("EFI"), true, efi, 0));
    b.finish()
}

#[test]
fn test_default_entry() {
    let d = with_gpt(clear_partition(), EFI_PARTITION_TYPE);
    let (start, end) = find_efi_partition(&d).unwrap();
    let mut fs = Filesystem::new(&d, start, end);
    fs.init().expect("Error initialising filesystem");

    let mut f = open_file(&fs, "/loader/loader.conf");
    let s = default_entry_pattern(&mut f).unwrap();
    let s = ascii_strip(&s);
    assert_eq!(s, b"Clear-linux-kvm-5.0.6-318");

    let default_entry_path = default_entry_path(&fs).unwrap();
    let default_entry_path = ascii_strip(&default_entry_path);

    assert_eq!(
        default_entry_path,
        format!("/loader/entries/{}.conf", std::str::from_utf8(s).unwrap()).as_bytes()
    );

    let mut f = match fs.open_bytes(default_entry_path).unwrap() {
        Node::File(f) => f,
        Node::Directory(_) => panic!("not a file"),
    };
    let entry = parse_entry(&mut f).unwrap();
    let s = ascii_strip(&entry.bzimage_path);
    assert_eq!(s, b"/EFI/org.clearlinux/kernel-org.clearlinux.kvm.5.0.6-318");
    let s = ascii_strip(&entry.cmdline);
    assert_eq!(s, CLEAR_CMDLINE.as_bytes());
}

/// Memory that keeps what is written to it.
struct FakeMemory {
    writes: Vec<(u64, Vec<u8>)>,
}

impl PhysicalMemory for FakeMemory {
    fn write_bytes(&mut self, addr: u64, data: &[u8]) {
        self.writes.push((addr, data.to_vec()));
    }
}

#[test]
fn test_loader() {
    let d = with_gpt(clear_partition(), EFI_PARTITION_TYPE);
    let (start, end) = find_efi_partition(&d).unwrap();
    let mut f = Filesystem::new(&d, start, end);
    f.init().unwrap();
    let mut file = f.open("/EFI/BOOT/BOOTX64 EFI").unwrap();
    let mut l = Loader::new(&mut file);

    let fake_mem: u64 = 0x4000_0000;
    let mut mem = FakeMemory { writes: Vec::new() };

    let (entry, addr, size) = l.load(fake_mem, &mut mem).expect("expect loading success");
    assert_eq!(entry, fake_mem + 0x4000);
    assert_eq!(addr, fake_mem);
    assert_eq!(size, 110_592);

    // The headers and the section's data are where the image says.
    assert_eq!(mem.writes.len(), 1);
    let (at, image) = &mem.writes[0];
    assert_eq!(*at, fake_mem);
    assert_eq!(image.len(), 110_592);
    assert_eq!(&image[0..2], b"MZ");
    assert_eq!(image[0x1000 + 5], 5);
    assert_eq!(image[0x1000 + 0x1ff], 0xff);
    assert_eq!(image[0x1000 + 0x200], 0);
}

#[test]
fn test_loader_from_memory_file() {
    let image = pe_image();
    let mut file = MemoryFile::new(&image);
    let mut l = Loader::new(&mut file);
    let mut mem = FakeMemory { writes: Vec::new() };
    let (entry, addr, size) = l.load(0x10_0000, &mut mem).expect("expect loading success");
    assert_eq!((entry, addr, size), (0x10_4000, 0x10_0000, 110_592));
}


use hypervisor_fw::efi::file::{read_directory, read_file, Listing, ReadError};

#[test]
fn efi_file_read_whole() {
    let disk = test_image(Kind::Fat16);
    let len = disk.len();
    let mut fs = Filesystem::new(&disk, 0, len);
    fs.init().unwrap();
    let mut f = open_file(&fs, "/A/B/C/1023");
    let mut small = vec![0u8; 100];
    assert_eq!(read_file(&mut f, &mut small), Err(ReadError::BufferTooSmall(1023)));
    let mut buf = vec![0xffu8; 1023];
    assert_eq!(read_file(&mut f, &mut buf), Ok(1023));
    assert_eq!(&buf[..], &content(1023)[..]);
    // Reading goes on until the buffer is full: past the end of the file
    // the read fails.
    let mut f = open_file(&fs, "/A/B/C/1023");
    let mut buf = vec![0xffu8; 2048];
    assert_eq!(read_file(&mut f, &mut buf), Err(ReadError::Device));
}

#[test]
fn efi_file_read_from_memory() {
    let data = content(1300);
    let mut f = MemoryFile::new(&data);
    let mut buf = vec![0u8; 1300];
    assert_eq!(read_file(&mut f, &mut buf), Ok(1300));
    assert_eq!(buf, data);
}

#[test]
fn efi_directory_listed() {
    let disk = test_image(Kind::Fat12);
    let len = disk.len();
    let mut fs = Filesystem::new(&disk, 0, len);
    fs.init().unwrap();
    let mut d = fs.root().unwrap();
    let mut small = vec![0u8; 10];
    assert_eq!(read_directory(&mut d, &mut small), Err(ReadError::BufferTooSmall(592)));
    // The entry refused above was taken: the next is the file.
    let mut buf = vec![0xaau8; 600];
    assert_eq!(read_directory(&mut d, &mut buf), Ok(Listing::Entry));
    assert_eq!(&buf[0..8], &592u64.to_le_bytes());
    assert_eq!(&buf[8..16], &9u64.to_le_bytes());
    assert_eq!(&buf[16..24], &9u64.to_le_bytes());
    assert_eq!(&buf[24..72], &[0xaau8; 48][..]);
    assert_eq!(&buf[72..80], &0x20u64.to_le_bytes());
    assert_eq!(&buf[80..96], &[b'L', 0, b'O', 0, b'N', 0, b'G', 0, b'F', 0, b'I', 0, b'~', 0, b'1', 0]);
    assert_eq!(read_directory(&mut d, &mut buf), Ok(Listing::End));
}

#[test]
fn efi_directory_record_for_directory() {
    let disk = test_image(Kind::Fat32);
    let len = disk.len();
    let mut fs = Filesystem::new(&disk, 0, len);
    fs.init().unwrap();
    let mut d = fs.root().unwrap();
    let mut buf = vec![0u8; 592];
    assert_eq!(read_directory(&mut d, &mut buf), Ok(Listing::Entry));
    assert_eq!(&buf[8..16], &512u64.to_le_bytes());
    assert_eq!(&buf[72..80], &0x10u64.to_le_bytes());
    assert_eq!(&buf[80..84], &[b'A', 0, 0, 0]);
}

/// A boot protocol with no memory map, that loads kernels at 0x4000_0000.
struct BootInfo;

impl Info for BootInfo {
    fn name(&self) -> &str {
        "test"
    }
    fn rsdp_addr(&self) -> Option<u64> {
        None
    }
    fn cmdline(&self) -> &[u8] {
        b""
    }
    fn num_entries(&self) -> usize {
        0
    }
    fn entry(&self, _idx: usize) -> MemoryEntry {
        MemoryEntry { addr: 0, size: 0, entry_type: EntryType::Ram }
    }
    fn kernel_load_addr(&self) -> u64 {
        0x4000_0000
    }
    fn memory_layout(&self) -> &'static [MemoryDescriptor] {
        &[]
    }
}

/// A FAT32 filesystem with the EFI boot loader, but no boot loader
/// configuration.
fn efi_only_fs() -> FakeDisk {
    let mut b = Builder::new(Kind::Fat32, 70000, 1);
    let mut boot_entries = Vec::new();
    b.add_file(&mut boot_entries, "BOOTX64.EFI", &pe_image());
    let boot = b.write_dir(0, &boot_entries);
    let efi = b.write_dir(0, &[dir_record(&short_name("BOOT"), true, boot, 0)]);
    b.root_entries.push(dir_record(&short_name("EFI"), true, efi, 0));
    b.finish()
}

/// The type GUID of an EFI system partition, as it lies on disk.
const EFI_PARTITION_TYPE: [u8; 16] =
    [0x28, 0x73, 0x2a, 0xc1, 0x1f, 0xf8, 0xd2, 0x11, 0xba, 0x4b, 0x00, 0xa0, 0xc9, 0x3e, 0xc9, 0x3b];
/// The type GUID of a Linux filesystem partition, as it lies on disk.
const LINUX_PARTITION_TYPE: [u8; 16] =
    [0xaf, 0x3d, 0xc6, 0x0f, 0x83, 0x84, 0x72, 0x47, 0x8e, 0x79, 0x3d, 0x69, 0xd8, 0x47, 0x7d, 0xe4];
/// Where the partition starts on a disk built by `with_gpt`.
const PART_START: u64 = 40;

/// A disk with a GPT partition table of eight entries from sector 2: a
/// Linux partition first, and as entry 5 one of type `part_type` that
/// holds `inner`.
fn with_gpt(inner: FakeDisk, part_type: [u8; 16]) -> FakeDisk {
    let mut disk = FakeDisk { sectors: HashMap::new(), len: inner.len + PART_START };
    for (s, data) in inner.sectors {
        disk.sectors.insert(s + PART_START, data);
    }
    disk.write(512, b"EFI PART");
    disk.write(512 + 72, &2u64.to_le_bytes());
    disk.write(512 + 80, &8u32.to_le_bytes());
    disk.write(2 * 512, &LINUX_PARTITION_TYPE);
    disk.write(2 * 512 + 32, &1000u64.to_le_bytes());
    disk.write(2 * 512 + 40, &2000u64.to_le_bytes());
    let e = 3 * 512 + 128;
    disk.write(e, &part_type);
    disk.write(e + 32, &PART_START.to_le_bytes());
    disk.write(e + 40, &(PART_START + inner.len - 1).to_le_bytes());
    disk
}

#[test]
fn efi_partition_found_in_table() {
    let inner = efi_only_fs();
    let len = inner.len;
    let disk = with_gpt(inner, EFI_PARTITION_TYPE);
    assert_eq!(find_efi_partition(&disk), Ok((PART_START, PART_START + len - 1)));
    let other = with_gpt(efi_only_fs(), LINUX_PARTITION_TYPE);
    assert_eq!(find_efi_partition(&other), Err(PartError::NoEFIPartition));
    assert_eq!(find_efi_partition(&efi_only_fs()), Err(PartError::HeaderNotFound));
}

#[test]
fn boot_falls_back_to_efi_loader() {
    let disk = with_gpt(efi_only_fs(), EFI_PARTITION_TYPE);
    let mut mem = FakeMemory { writes: Vec::new() };
    match boot_from_disk(&disk, &BootInfo, 0x4000_0000, &mut mem) {
        Ok(BootChoice::Efi { entry, load_addr, size }) => {
            assert_eq!(entry, 0x4000_4000);
            assert_eq!(load_addr, 0x4000_0000);
            assert_eq!(size, 110_592);
        }
        Ok(BootChoice::Kernel(_)) => panic!("no boot loader configuration, so no kernel"),
        Err(e) => panic!("boot failed: {:?}", e),
    }
    assert_eq!(mem.writes.len(), 1);
    assert_eq!(&mem.writes[0].1[0..2], b"MZ");
}

#[test]
fn boot_needs_partition_table() {
    let disk = efi_only_fs();
    let mut mem = FakeMemory { writes: Vec::new() };
    match boot_from_disk(&disk, &BootInfo, 0x4000_0000, &mut mem) {
        Err(BootError::Partition(PartError::HeaderNotFound)) => {}
        Err(e) => panic!("unexpected error {:?}", e),
        Ok(_) => panic!("a disk without a GPT header is refused"),
    }
    assert!(mem.writes.is_empty());
}

#[test]
fn boot_needs_efi_partition() {
    let disk = with_gpt(efi_only_fs(), LINUX_PARTITION_TYPE);
    let mut mem = FakeMemory { writes: Vec::new() };
    match boot_from_disk(&disk, &BootInfo, 0x4000_0000, &mut mem) {
        Err(BootError::Partition(PartError::NoEFIPartition)) => {}
        Err(e) => panic!("unexpected error {:?}", e),
        Ok(_) => panic!("a disk without an EFI system partition is refused"),
    }
}

#[test]
fn boot_needs_filesystem() {
    let disk = with_gpt(FakeDisk { sectors: HashMap::new(), len: 64 }, EFI_PARTITION_TYPE);
    let mut mem = FakeMemory { writes: Vec::new() };
    match boot_from_disk(&disk, &BootInfo, 0x4000_0000, &mut mem) {
        Err(BootError::Fat(Error::Unsupported)) => {}
        Err(e) => panic!("unexpected error {:?}", e),
        Ok(_) => panic!("a disk without a filesystem is refused"),
    }
}

#[test]
fn boot_reports_unreadable_disk() {
    let disk = FakeDisk { sectors: HashMap::new(), len: 1 };
    let mut mem = FakeMemory { writes: Vec::new() };
    match boot_from_disk(&disk, &BootInfo, 0x4000_0000, &mut mem) {
        Err(BootError::Partition(PartError::BlockError)) => {}
        Err(e) => panic!("unexpected error {:?}", e),
        Ok(_) => panic!("a disk that cannot be read is refused"),
    }
}

#[test]
fn short_name_needs_whole_name() {
    let de = entry_named(b"XYZ     ABC");
    assert!(!compare_short_name("X.abc", &de));
    assert!(!compare_short_name("XYZ", &de));
    assert!(compare_short_name("xyz.abc", &de));
}

/// A bzImage with one setup sector and a kernel of three sectors, whose
/// command line room is 2048 bytes.
fn small_bzimage() -> Vec<u8> {
    let mut img = vec![0u8; 1024 + 3 * 512];
    img[0x1f1] = 1;
    img[0x1fe..0x200].copy_from_slice(&0xaa55u16.to_le_bytes());
    img[0x202..0x206].copy_from_slice(b"HdrS");
    img[0x206..0x208].copy_from_slice(&0x20cu16.to_le_bytes());
    img[0x234] = 1;
    img[0x238..0x23c].copy_from_slice(&2048u32.to_le_bytes());
    for (i, b) in img[1024..].iter_mut().enumerate() {
        *b = (i % 251) as u8;
    }
    img
}

/// A FAT32 filesystem whose default entry boots `/vmlinuz` with options
/// "quiet", and which also holds the EFI boot loader.
fn entry_fs() -> FakeDisk {
    let mut b = Builder::new(Kind::Fat32, 70000, 1);
    let mut entries = Vec::new();
    b.add_long_file(&mut entries, "linux.conf", "LINUX.CON", b"title Linux\nlinux /vmlinuz\noptions quiet\n");
    let entries_dir = b.write_dir(0, &entries);
    let mut loader = Vec::new();
    b.add_long_file(&mut loader, "loader.conf", "LOADER.CON", b"default linux*\n");
    loader.push(dir_record(&short_name("ENTRIES"), true, entries_dir, 0));
    let loader_dir = b.write_dir(0, &loader);
    let mut boot = Vec::new();
    b.add_file(&mut boot, "BOOTX64.EFI", &pe_image());
    let boot_dir = b.write_dir(0, &boot);
    let efi = b.write_dir(0, &[dir_record(&short_name("BOOT"), true, boot_dir, 0)]);
    b.root_entries.push(dir_record(&short_name("LOADER"), true, loader_dir, 0));
    b.root_entries.push(dir_record(&short_name("EFI"), true, efi, 0));
    let mut root_files = Vec::new();
    b.add_file(&mut root_files, "VMLINUZ", &small_bzimage());
    b.root_entries.append(&mut root_files);
    b.finish()
}

#[test]
fn boot_prefers_default_entry() {
    let disk = with_gpt(entry_fs(), EFI_PARTITION_TYPE);
    let mut mem = FakeMemory { writes: Vec::new() };
    match boot_from_disk(&disk, &BootInfo, 0x4000_0000, &mut mem) {
        Ok(BootChoice::Kernel(k)) => {
            assert_eq!(k.params.hdr.type_of_loader, 0xff);
            assert_eq!(k.params.hdr.code32_start, 0x20_0000);
            assert_eq!(k.params.hdr.cmd_line_ptr, 0x4b000);
            assert_eq!(k.cmdline_len, 6);
        }
        Ok(BootChoice::Efi { .. }) => panic!("the default entry loads, so it is booted"),
        Err(e) => panic!("boot failed: {:?}", e),
    }
    // The kernel proper, then the command line: a space, the options, a NUL.
    let (last, kernel) = mem.writes.split_last().unwrap();
    assert_eq!(last, &(0x4b000, b" quiet\0".to_vec()));
    assert_eq!(kernel[0].0, 0x20_0000);
    assert_eq!(kernel.iter().map(|w| w.1.len()).sum::<usize>(), 3 * 512);
}
