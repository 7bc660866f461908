use std::collections::HashMap;

use hypervisor_fw::boot::{E820Entry, Header};
use hypervisor_fw::bootinfo::{EntryType, Info, MemoryEntry};
use hypervisor_fw::bzimage::{Error, Kernel, CMDLINE_START, KERNEL_LOCATION};
use hypervisor_fw::efi::mem_file::MemoryFile;
use hypervisor_fw::layout::MemoryDescriptor;
use hypervisor_fw::mem::PhysicalMemory;

/// Sparse physical memory.
struct FakeMemory {
    bytes: HashMap<u64, u8>,
}

impl FakeMemory {
    fn new() -> FakeMemory {
        FakeMemory { bytes: HashMap::new() }
    }

    fn get(&self, addr: u64, len: usize) -> Vec<u8> {
        (0..len as u64).map(|i| *self.bytes.get(&(addr + i)).unwrap_or(&0)).collect()
    }
}

impl PhysicalMemory for FakeMemory {
    fn write_bytes(&mut self, addr: u64, data: &[u8]) {
        for (i, b) in data.iter().enumerate() {
            self.bytes.insert(addr + i as u64, *b);
        }
    }
}

/// A boot protocol with a fixed memory map.
struct TestInfo {
    entries: Vec<MemoryEntry>,
}

impl Info for TestInfo {
    fn name(&self) -> &str {
        "test"
    }
    fn rsdp_addr(&self) -> Option<u64> {
        Some(0xf_5a40)
    }
    fn cmdline(&self) -> &[u8] {
        b"console=ttyS0"
    }
    fn num_entries(&self) -> usize {
        self.entries.len()
    }
    fn entry(&self, idx: usize) -> MemoryEntry {
        self.entries[idx]
    }
    fn kernel_load_addr(&self) -> u64 {
        0x20_0000
    }
    fn memory_layout(&self) -> &'static [MemoryDescriptor] {
        &[]
    }
}

fn test_info() -> TestInfo {
    TestInfo {
        entries: vec![
            MemoryEntry { addr: 0, size: 0x9fc00, entry_type: EntryType::Ram },
            MemoryEntry { addr: 0x9fc00, size: 0x400, entry_type: EntryType::Reserved },
            MemoryEntry { addr: 0x10_0000, size: 0x7ff0_0000, entry_type: EntryType::Ram },
        ],
    }
}

/// A bzImage with one setup sector and a kernel of three sectors.
fn bzimage(version: u16, relocatable: u8) -> Vec<u8> {
    let mut img = vec![0u8; 1024 + 3 * 512];
    img[0x1f1] = 1;
    img[0x1fe..0x200].copy_from_slice(&0xaa55u16.to_le_bytes());
    img[0x202..0x206].copy_from_slice(b"HdrS");
    img[0x206..0x208].copy_from_slice(&version.to_le_bytes());
    img[0x234] = relocatable;
    img[0x238..0x23c].copy_from_slice(&2048u32.to_le_bytes());
    for (i, b) in img[1024..].iter_mut().enumerate() {
        *b = (i % 251) as u8;
    }
    img
}

#[test]
fn bzimage_header_checked() {
    let mut h = Header::zeroed();
    assert_eq!(Kernel::check_header(&h), Err(Error::MagicMissing));
    h.boot_flag = 0xaa55;
    h.header = 0x5372_6448;
    assert_eq!(Kernel::check_header(&h), Err(Error::NotRelocatable));
    h.version = 0x205;
    assert_eq!(Kernel::check_header(&h), Err(Error::NotRelocatable));
    h.relocatable_kernel = 1;
    assert_eq!(Kernel::check_header(&h), Ok(()));
}

#[test]
fn bzimage_zero_page_from_info() {
    let k = Kernel::new(&test_info());
    assert_eq!(k.params.acpi_rsdp_addr, 0xf_5a40);
    assert_eq!(k.params.num_entries(), 3);
    assert_eq!(k.params.e820_entry(2), E820Entry { addr: 0x10_0000, size: 0x7ff0_0000, entry_type: 1 });
    assert_eq!(k.params.e820_entry(1).entry_type, 2);
    assert_eq!(k.cmdline_len, 0);
}

#[test]
fn bzimage_kernel_loaded() {
    let img = bzimage(0x20f, 1);
    let mut f = MemoryFile::new(&img);
    let mut mem = FakeMemory::new();
    let mut k = Kernel::new(&test_info());
    k.load_kernel(&mut f, &mut mem).unwrap();
    assert_eq!(mem.get(KERNEL_LOCATION, 3 * 512), img[1024..].to_vec());
    assert_eq!(mem.bytes.len(), 3 * 512);
    assert_eq!(k.params.hdr.type_of_loader, 0xff);
    assert_eq!(k.params.hdr.code32_start, 0x20_0000);
    assert_eq!(k.params.hdr.cmd_line_ptr, CMDLINE_START as u32);
    assert_eq!(k.params.hdr.version, 0x20f);
}

#[test]
fn bzimage_kernel_refused() {
    let img = bzimage(0x204, 1);
    let mut f = MemoryFile::new(&img);
    let mut mem = FakeMemory::new();
    let mut k = Kernel::new(&test_info());
    assert_eq!(k.load_kernel(&mut f, &mut mem), Err(Error::NotRelocatable));
    assert!(mem.bytes.is_empty());
    let mut img = bzimage(0x20f, 1);
    img[0x202] = b'X';
    let mut f = MemoryFile::new(&img);
    assert_eq!(k.load_kernel(&mut f, &mut mem), Err(Error::MagicMissing));
}

#[test]
fn bzimage_initrd_placed() {
    let k = Kernel::new(&test_info());
    // Below the default limit of 0x37ffffff, on a 2 MiB boundary.
    assert_eq!(k.initrd_addr(0x100_0000), Some(0x3700_0000));
    assert_eq!(k.initrd_addr(0x1000), Some(0x37e0_0000));
    // Too large for any RAM entry.
    assert_eq!(k.initrd_addr(0x9000_0000), None);
}

#[test]
fn bzimage_initrd_loaded() {
    let img = bzimage(0x20f, 1);
    let mut f = MemoryFile::new(&img);
    let mut mem = FakeMemory::new();
    let mut k = Kernel::new(&test_info());
    k.load_kernel(&mut f, &mut mem).unwrap();
    let initrd: Vec<u8> = (0..1300u32).map(|i| (i % 7) as u8).collect();
    let mut f = MemoryFile::new(&initrd);
    k.load_initrd(&mut f, &mut mem).unwrap();
    assert_eq!(k.params.hdr.ramdisk_image, 0x37e0_0000);
    assert_eq!(k.params.hdr.ramdisk_size, 1300);
    assert_eq!(mem.get(0x37e0_0000, 1300), initrd);
}

#[test]
fn bzimage_cmdline_appended() {
    let img = bzimage(0x20f, 1);
    let mut f = MemoryFile::new(&img);
    let mut mem = FakeMemory::new();
    let mut k = Kernel::new(&test_info());
    k.load_kernel(&mut f, &mut mem).unwrap();
    k.append_cmdline(b"console=ttyS0", &mut mem);
    k.append_cmdline(b"", &mut mem);
    k.append_cmdline(b"quiet", &mut mem);
    assert_eq!(k.cmdline_len, 20);
    assert_eq!(mem.get(CMDLINE_START, 21), b" console=ttyS0 quiet\0".to_vec());
}
