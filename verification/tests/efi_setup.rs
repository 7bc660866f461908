use hypervisor_fw::bootinfo::{EntryType, MemoryEntry};
use hypervisor_fw::efi::allocator::{
    Allocator, MemoryDescriptor as EfiDescriptor, CONVENTIONAL_MEMORY, LOADER_CODE, MEMORY_WB, RUNTIME_SERVICES_CODE,
    RUNTIME_SERVICES_DATA, UNUSABLE_MEMORY,
};
use hypervisor_fw::efi::device_path::DevicePath;
use hypervisor_fw::efi::{allocator_requests, populate_allocator, Request};
use hypervisor_fw::layout::{MemoryAttribute, MemoryDescriptor};

fn ucs2(s: &str) -> Vec<u8> {
    let mut v = Vec::new();
    for b in s.bytes() {
        v.push(b);
        v.push(0);
    }
    v.push(0);
    v.push(0);
    v
}

fn padded(s: &[u8]) -> Vec<u8> {
    let mut v = s.to_vec();
    v.resize(256, 0);
    v
}

#[test]
fn device_path_file_parsed() {
    // A vendor node to skip, then the file path node.
    let mut b = vec![0x01, 0x04, 20, 0];
    b.extend_from_slice(&[0u8; 16]);
    let name = ucs2("\\EFI\\BOOT\\BOOTX64.EFI");
    b.extend_from_slice(&[0x04, 0x04]);
    b.extend_from_slice(&((4 + name.len()) as u16).to_le_bytes());
    b.extend_from_slice(&name);
    b.extend_from_slice(&[0x7f, 0xff, 4, 0]);
    match DevicePath::parse(&b) {
        DevicePath::File(p) => assert_eq!(p, padded(b"\\EFI\\BOOT\\BOOTX64.EFI")),
        other => panic!("unexpected {:?}", other),
    }
}

#[test]
fn device_path_memory_parsed() {
    let mut b = vec![0x01, 0x03, 24, 0];
    b.extend_from_slice(&2u32.to_le_bytes());
    b.extend_from_slice(&0x10_0000u64.to_le_bytes());
    b.extend_from_slice(&0x20_0000u64.to_le_bytes());
    b.extend_from_slice(&[0x7f, 0xff, 4, 0]);
    match DevicePath::parse(&b) {
        DevicePath::Memory(t, s, e) => assert_eq!((t, s, e), (2, 0x10_0000, 0x20_0000)),
        other => panic!("unexpected {:?}", other),
    }
}

#[test]
fn device_path_unsupported() {
    assert!(matches!(DevicePath::parse(&[0x7f, 0xff, 4, 0]), DevicePath::Unsupported));
    // A node of length zero would be walked forever.
    assert!(matches!(DevicePath::parse(&[0x03, 0x01, 0, 0, 0x7f, 0xff, 4, 0]), DevicePath::Unsupported));
    assert!(matches!(DevicePath::parse(&[0x03, 0x01]), DevicePath::Unsupported));
}

#[test]
fn device_path_file_generated() {
    let path = padded(b"\\EFI\\BOOT\\BOOTX64.EFI");
    let b = DevicePath::File(path.clone()).generate();
    assert_eq!(b.len(), 2 * 516);
    assert_eq!(&b[0..4], &[0x04, 0x04, 0x04, 0x02]);
    assert_eq!(&b[4..8], &[b'\\', 0, b'E', 0]);
    assert_eq!(&b[516..520], &[0x7f, 0xff, 4, 0]);
    match DevicePath::parse(&b) {
        DevicePath::File(p) => assert_eq!(p, path),
        other => panic!("unexpected {:?}", other),
    }
}

#[test]
fn device_path_memory_generated() {
    let b = DevicePath::Memory(2, 0x1000, 0x5000).generate();
    assert_eq!(b.len(), 48);
    assert_eq!(&b[0..8], &[0x01, 0x03, 24, 0, 2, 0, 0, 0]);
    assert_eq!(&b[24..28], &[0x7f, 0xff, 4, 0]);
    match DevicePath::parse(&b) {
        DevicePath::Memory(t, s, e) => assert_eq!((t, s, e), (2, 0x1000, 0x5000)),
        other => panic!("unexpected {:?}", other),
    }
}

fn memory_map() -> Vec<MemoryEntry> {
    vec![
        MemoryEntry { addr: 0, size: 0x9fc00, entry_type: EntryType::Ram },
        MemoryEntry { addr: 0x9fc00, size: 0x400, entry_type: EntryType::Reserved },
        MemoryEntry { addr: 0x10_0000, size: 0x7ff0_0000, entry_type: EntryType::Ram },
    ]
}

fn firmware_layout() -> Vec<MemoryDescriptor> {
    vec![
        MemoryDescriptor { name: "Code", start: 0x10_0000, end: 0x14_0000, attribute: MemoryAttribute::Code },
        MemoryDescriptor { name: "Data", start: 0x14_0000, end: 0x16_0000, attribute: MemoryAttribute::Data },
    ]
}

#[test]
fn allocator_requests_in_order() {
    let fdt = MemoryEntry { addr: 0x4000_0000, size: 0x1001, entry_type: EntryType::Reserved };
    let r = allocator_requests(&memory_map(), &firmware_layout(), Some(fdt), 0x20_0000, 0x3_0000);
    assert_eq!(
        r,
        vec![
            Request::Initial { memory_type: CONVENTIONAL_MEMORY, page_count: 0x9f, address: 0, attributes: MEMORY_WB },
            Request::Initial {
                memory_type: CONVENTIONAL_MEMORY,
                page_count: 0x7ff00,
                address: 0x10_0000,
                attributes: MEMORY_WB,
            },
            Request::Allocate { memory_type: RUNTIME_SERVICES_CODE, page_count: 0x40, address: 0x10_0000 },
            Request::Allocate { memory_type: RUNTIME_SERVICES_DATA, page_count: 0x20, address: 0x14_0000 },
            Request::Allocate { memory_type: UNUSABLE_MEMORY, page_count: 2, address: 0x4000_0000 },
            Request::Allocate { memory_type: LOADER_CODE, page_count: 0x30, address: 0x20_0000 },
        ]
    );
}

#[test]
fn allocator_populated() {
    let mut a = Allocator::new(4096);
    let r = populate_allocator(&mut a, &memory_map(), &firmware_layout(), None, 0x20_0000, 0x3_0000);
    assert_eq!(r.len(), 5);
    let mut out = vec![EfiDescriptor::empty(); 16];
    let n = a.get_descriptors(&mut out);
    let ds = &out[..n];
    let code = ds.iter().find(|d| d.physical_start == 0x10_0000).unwrap();
    assert_eq!((code.memory_type, code.number_of_pages), (RUNTIME_SERVICES_CODE, 0x40));
    let data = ds.iter().find(|d| d.physical_start == 0x14_0000).unwrap();
    assert_eq!((data.memory_type, data.number_of_pages), (RUNTIME_SERVICES_DATA, 0x20));
    let image = ds.iter().find(|d| d.physical_start == 0x20_0000).unwrap();
    assert_eq!((image.memory_type, image.number_of_pages), (LOADER_CODE, 0x30));
    let low = ds.iter().find(|d| d.physical_start == 0).unwrap();
    assert_eq!((low.memory_type, low.number_of_pages), (CONVENTIONAL_MEMORY, 0x9f));
}

use hypervisor_fw::block::{Error as BlockError, SectorRead};
use hypervisor_fw::efi::block::{block_device_path, media, read_blocks};
use hypervisor_fw::efi::{configuration_tables, efi_time, Time};

/// A disk whose sector `n` holds the byte `n` throughout.
struct PatternDisk {
    sectors: u64,
}

impl SectorRead for PatternDisk {
    fn read(&self, sector: u64, data: &mut [u8]) -> Result<(), BlockError> {
        if sector >= self.sectors {
            return Err(BlockError::BlockIOError);
        }
        data.iter_mut().for_each(|b| *b = sector as u8);
        Ok(())
    }
}

#[test]
fn efi_blocks_read() {
    let disk = PatternDisk { sectors: 64 };
    let mut buf = vec![0xeeu8; 3 * 512 + 7];
    read_blocks(&disk, 10, 5, &mut buf).unwrap();
    assert!(buf[..512].iter().all(|b| *b == 15));
    assert!(buf[512..1024].iter().all(|b| *b == 16));
    assert!(buf[1024..1536].iter().all(|b| *b == 17));
    assert!(buf[1536..].iter().all(|b| *b == 0xee));
    let mut buf = vec![0u8; 2 * 512];
    assert_eq!(read_blocks(&disk, 60, 3, &mut buf), Err(BlockError::BlockIOError));
}

#[test]
fn efi_block_media() {
    let m = media(2048);
    assert_eq!(m.last_block, 2047);
    assert_eq!(m.block_size, 512);
    assert!(m.read_only && m.media_present && !m.removable_media);
}

#[test]
fn efi_block_device_paths() {
    let whole = block_device_path(0, 0, 0, &[0u8; 16]);
    assert_eq!(whole.len(), 92);
    assert_eq!(&whole[0..8], &[1, 5, 8, 0, 0, 0, 0, 0]);
    assert_eq!(&whole[8..12], &[0x7f, 0xff, 4, 0]);
    let uuid: Vec<u8> = (1..=16).collect();
    let part = block_device_path(1, 2048, 4095, &uuid);
    assert_eq!(part.len(), 92);
    assert_eq!(&part[8..12], &[4, 1, 42, 0]);
    assert_eq!(&part[12..16], &1u32.to_le_bytes());
    assert_eq!(&part[16..24], &2048u64.to_le_bytes());
    assert_eq!(&part[24..32], &2048u64.to_le_bytes());
    assert_eq!(&part[32..48], &uuid[..]);
    assert_eq!(&part[48..50], &[2, 2]);
    assert_eq!(&part[50..54], &[0x7f, 0xff, 4, 0]);
}

#[test]
fn efi_configuration_tables() {
    let t = configuration_tables(Some(0x4000_0000), Some(0xf_5a40), 0x1234, true);
    assert_eq!(t.len(), 2);
    assert_eq!(t[0].table, 0x4000_0000);
    assert_eq!(&t[0].guid[..4], &0xb1b621d5u32.to_le_bytes());
    assert_eq!(t[1].table, 0xf_5a40);
    assert_eq!(
        t[1].guid,
        vec![0x71, 0xe8, 0x68, 0x88, 0xf1, 0xe4, 0xd3, 0x11, 0xbc, 0x22, 0x00, 0x80, 0xc7, 0x3c, 0x88, 0x81]
    );
    let t = configuration_tables(Some(0x4000_0000), None, 0x1234, false);
    assert_eq!(t.len(), 1);
    assert_eq!(t[0].table, 0x1234);
    assert_eq!(&t[0].guid[..4], &0x678a_9665u32.to_le_bytes());
}

#[test]
fn efi_clock_time() {
    assert_eq!(
        efi_time((15, 5, 15), (3, 25, 45)),
        Time { year: 2015, month: 5, day: 15, hour: 3, minute: 25, second: 45, nanosecond: 0, timezone: 0, daylight: 0 }
    );
}
