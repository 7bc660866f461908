use std::collections::HashMap;

use hypervisor_fw::bootinfo::{EntryType, MemoryEntry};
use hypervisor_fw::coreboot::{find_header, find_rsdp, parse_info, parse_memmap, Error, StartInfo};
use hypervisor_fw::mem::MemoryRead;

/// Sparse physical memory; bytes never written read as zero.
struct FakeMemory {
    bytes: HashMap<u64, u8>,
}

impl FakeMemory {
    fn new() -> FakeMemory {
        FakeMemory { bytes: HashMap::new() }
    }

    fn put(&mut self, addr: u64, data: &[u8]) {
        for (i, b) in data.iter().enumerate() {
            self.bytes.insert(addr + i as u64, *b);
        }
    }

    fn put_u32(&mut self, addr: u64, v: u32) {
        self.put(addr, &v.to_le_bytes());
    }

    fn put_u64(&mut self, addr: u64, v: u64) {
        self.put(addr, &v.to_le_bytes());
    }

    /// A coreboot table header at `addr` with `entries` records.
    fn header(&mut self, addr: u64, entries: u32) {
        self.put(addr, b"LBIO");
        self.put_u32(addr + 4, 24);
        self.put_u32(addr + 20, entries);
    }

    fn memmap_entry(&mut self, addr: u64, start: u64, size: u64, entry_type: u32) {
        self.put_u64(addr, start);
        self.put_u64(addr + 8, size);
        self.put_u32(addr + 16, entry_type);
    }
}

impl MemoryRead for FakeMemory {
    fn read_bytes(&self, addr: u64, data: &mut [u8]) {
        for (i, b) in data.iter_mut().enumerate() {
            *b = *self.bytes.get(&(addr + i as u64)).unwrap_or(&0);
        }
    }
}

/// A coreboot table at 0x500: a record of another kind, then the memory
/// map with two RAM ranges; the RSDP in the first KiB of the EBDA.
fn coreboot_memory() -> FakeMemory {
    let mut m = FakeMemory::new();
    m.header(0x500, 2);
    m.put_u32(0x518, 0x10);
    m.put_u32(0x51c, 16);
    m.put_u32(0x528, 0x01);
    m.put_u32(0x52c, 8 + 2 * 20);
    m.memmap_entry(0x530, 0, 0x9fc00, 1);
    m.memmap_entry(0x544, 0x10_0000, 0x7ff0_0000, 1);
    m.put(0x40e, &0x9fc0u16.to_le_bytes());
    m.put(0x9fd0, b"RSD PTR ");
    m
}

#[test]
fn coreboot_header_found() {
    let m = coreboot_memory();
    assert_eq!(find_header(&m, 0, 0x1000), Some(0x500));
    assert_eq!(find_header(&m, 0xf0000, 0x1000), None);
    // Only addresses 16 bytes apart from the start are looked at.
    assert_eq!(find_header(&m, 8, 0x1000), None);
}

#[test]
fn coreboot_rsdp_found() {
    let m = coreboot_memory();
    assert_eq!(find_rsdp(&m, 0x9fc0, 0x400), Some(0x9fd0));
    assert_eq!(find_rsdp(&m, 0xe0000, 0x20000), None);
}

#[test]
fn coreboot_memmap_record() {
    assert_eq!(parse_memmap(0x528, 48), (0x530, 2));
    let m = coreboot_memory();
    assert_eq!(parse_info(&m, 0, 0x1000, 16), Some((0x530, 2)));
}

#[test]
fn coreboot_forward_followed() {
    let mut m = FakeMemory::new();
    m.header(0x500, 1);
    m.put_u32(0x518, 0x11);
    m.put_u32(0x51c, 16);
    m.put_u64(0x520, 0x7fff_0000);
    m.header(0x7fff_0000, 1);
    m.put_u32(0x7fff_0018, 0x01);
    m.put_u32(0x7fff_001c, 8 + 20);
    assert_eq!(parse_info(&m, 0, 0x1000, 16), Some((0x7fff_0020, 1)));
    // Forward records that loop are given up on.
    let mut m = FakeMemory::new();
    m.header(0x500, 1);
    m.put_u32(0x518, 0x11);
    m.put_u32(0x51c, 16);
    m.put_u64(0x520, 0x500);
    assert_eq!(parse_info(&m, 0, 0x1000, 16), None);
}

#[test]
fn coreboot_start_info() {
    let m = coreboot_memory();
    let info = StartInfo::probe(&m, 0x20_0000, &[]).unwrap();
    assert_eq!(info.name(), "coreboot");
    assert_eq!(info.rsdp_addr(), Some(0x9fd0));
    assert_eq!(info.cmdline().len(), 0);
    assert_eq!(info.num_entries(), 2);
    assert_eq!(info.entry(0), Some(MemoryEntry { addr: 0, size: 0x9fc00, entry_type: EntryType::Ram }));
    assert_eq!(
        info.entry(1),
        Some(MemoryEntry { addr: 0x10_0000, size: 0x7ff0_0000, entry_type: EntryType::Ram })
    );
    assert_eq!(info.kernel_load_addr(), 0x20_0000);
}

#[test]
fn coreboot_unknown_entry_type() {
    let mut m = coreboot_memory();
    m.memmap_entry(0x544, 0x10_0000, 0x1000, 99);
    let info = StartInfo::probe(&m, 0x20_0000, &[]).unwrap();
    assert_eq!(info.entry(1), None);
}

#[test]
fn coreboot_not_found() {
    let m = FakeMemory::new();
    assert_eq!(StartInfo::probe(&m, 0x20_0000, &[]).err(), Some(Error::TableNotFound));
    let mut m = coreboot_memory();
    m.put(0x9fd0, b"XXXXXXXX");
    assert_eq!(StartInfo::probe(&m, 0x20_0000, &[]).err(), Some(Error::RsdpNotFound));
    // The RSDP may also lie in the BIOS area.
    m.put(0xf_5a40, b"RSD PTR ");
    assert_eq!(StartInfo::probe(&m, 0x20_0000, &[]).unwrap().rsdp_addr(), Some(0xf_5a40));
}
