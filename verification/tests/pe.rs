use std::collections::HashMap;

use hypervisor_fw::efi::allocator::{Allocator, Status, CONVENTIONAL_MEMORY, LOADER_CODE};
use hypervisor_fw::efi::mem_file::MemoryFile;
use hypervisor_fw::efi::services::load_from_file;
use hypervisor_fw::mem::PhysicalMemory;
use hypervisor_fw::pe::{put_le, relocate, Error, Loader, MACHINE_X86_64};

/// An image of two pages whose relocation table, at 0x1000, lists two
/// 64-bit values of the first page and an entry to skip.
fn image() -> Vec<u8> {
    let mut img = vec![0u8; 0x2000];
    img[0x10..0x18].copy_from_slice(&0x1_4000_0010u64.to_le_bytes());
    img[0x20..0x28].copy_from_slice(&0x1_4000_2000u64.to_le_bytes());
    // Block: page 0, 8 + 3 * 2 bytes.
    img[0x1000..0x1004].copy_from_slice(&0u32.to_le_bytes());
    img[0x1004..0x1008].copy_from_slice(&14u32.to_le_bytes());
    img[0x1008..0x100a].copy_from_slice(&0xa010u16.to_le_bytes());
    img[0x100a..0x100c].copy_from_slice(&0xa020u16.to_le_bytes());
    img[0x100c..0x100e].copy_from_slice(&0x0000u16.to_le_bytes());
    img
}

#[test]
fn pe_relocations_applied() {
    let mut img = image();
    let before = img.clone();
    relocate(&mut img, 0x1000, 14, 0x1000).unwrap();
    assert_eq!(&img[0x10..0x18], &0x1_4000_1010u64.to_le_bytes());
    assert_eq!(&img[0x20..0x28], &0x1_4000_3000u64.to_le_bytes());
    assert_eq!(&img[0x100..], &before[0x100..]);
}

#[test]
fn pe_relocations_wrap() {
    let mut img = image();
    // Moving the image down: the difference wraps around.
    relocate(&mut img, 0x1000, 14, 0u64.wrapping_sub(0x10)).unwrap();
    assert_eq!(&img[0x10..0x18], &0x1_4000_0000u64.to_le_bytes());
}

#[test]
fn pe_relocation_outside_image() {
    let mut img = image();
    img[0x100a..0x100c].copy_from_slice(&0xaffcu16.to_le_bytes());
    img[0x1000..0x1004].copy_from_slice(&0x1000u32.to_le_bytes());
    assert_eq!(relocate(&mut img, 0x1000, 14, 0x1000), Err(Error::InvalidExecutable));
}

#[test]
fn pe_put_le() {
    let mut b = vec![0u8; 8];
    put_le(&mut b, 2, 0x0102_0304, 4);
    assert_eq!(b, vec![0, 0, 4, 3, 2, 1, 0, 0]);
}

struct FakeMemory {
    bytes: HashMap<u64, u8>,
}

impl PhysicalMemory for FakeMemory {
    fn write_bytes(&mut self, addr: u64, data: &[u8]) {
        for (i, b) in data.iter().enumerate() {
            self.bytes.insert(addr + i as u64, *b);
        }
    }
}

/// An executable of 0x800 bytes: headers of 0x200 bytes, an image of
/// 0x3000 bytes, entry point 0x1010, and one section of 0x1800 bytes at
/// 0x1000 whose first 0x400 bytes come from offset 0x400 of the file.
fn executable() -> Vec<u8> {
    let mut f = vec![0u8; 0x800];
    f[0..2].copy_from_slice(b"MZ");
    f[0x3c..0x40].copy_from_slice(&0x80u32.to_le_bytes());
    f[0x80..0x84].copy_from_slice(b"PE\0\0");
    f[0x84..0x86].copy_from_slice(&MACHINE_X86_64.to_le_bytes());
    f[0x86..0x88].copy_from_slice(&1u16.to_le_bytes());
    f[0x94..0x96].copy_from_slice(&0xf0u16.to_le_bytes());
    let opt = 0x98;
    f[opt..opt + 2].copy_from_slice(&0x20bu16.to_le_bytes());
    f[opt + 16..opt + 20].copy_from_slice(&0x1010u32.to_le_bytes());
    f[opt + 56..opt + 60].copy_from_slice(&0x3000u32.to_le_bytes());
    f[opt + 60..opt + 64].copy_from_slice(&0x200u32.to_le_bytes());
    let s = opt + 0xf0;
    f[s + 8..s + 12].copy_from_slice(&0x1800u32.to_le_bytes());
    f[s + 12..s + 16].copy_from_slice(&0x1000u32.to_le_bytes());
    f[s + 16..s + 20].copy_from_slice(&0x400u32.to_le_bytes());
    f[s + 20..s + 24].copy_from_slice(&0x400u32.to_le_bytes());
    for i in 0x400..0x800 {
        f[i] = (i % 251 + 1) as u8;
    }
    f
}

fn expected_image(file: &[u8]) -> Vec<u8> {
    let mut img = vec![0u8; 0x3000];
    img[..0x200].copy_from_slice(&file[..0x200]);
    img[0x1000..0x1400].copy_from_slice(&file[0x400..0x800]);
    img
}

#[test]
fn pe_image_loaded_from_file() {
    let file = executable();
    let mut reader = MemoryFile::new(&file);
    let mut mem = FakeMemory { bytes: HashMap::new() };
    // Stale bytes inside the image are overwritten.
    mem.write_bytes(0x10_2000, &[0xff; 16]);
    let mut loader = Loader::new(&mut reader);
    let (entry, addr, size) = loader.load(0x10_0000, &mut mem).unwrap();
    assert_eq!((entry, addr, size), (0x10_1010, 0x10_0000, 0x3000));
    let expected = expected_image(&file);
    for (i, b) in expected.iter().enumerate() {
        assert_eq!(mem.bytes[&(0x10_0000 + i as u64)], *b, "byte {:x}", i);
    }
    assert_eq!(mem.bytes.len(), 0x3000);
}

#[test]
fn pe_wrong_machine_refused() {
    let file = executable();
    let mut reader = MemoryFile::new(&file);
    let mut mem = FakeMemory { bytes: HashMap::new() };
    let mut loader = Loader::with_machine(&mut reader, 0xaa64);
    assert_eq!(loader.load(0x10_0000, &mut mem), Err(Error::InvalidExecutable));
    assert!(mem.bytes.is_empty());
}

#[test]
fn efi_image_loaded_into_free_pages() {
    let file = executable();
    let mut reader = MemoryFile::new(&file);
    let mut mem = FakeMemory { bytes: HashMap::new() };
    let mut a = Allocator::new(4096);
    assert_eq!(a.add_initial_allocation(CONVENTIONAL_MEMORY, 16, 0x20_0000, 0), Status::Success);
    let r = load_from_file(&mut a, &mut reader, MACHINE_X86_64, &mut mem);
    assert_eq!(r, Ok((0x20_1010, 0x20_0000, 0x3000)));
    // The pages of the file are marked as loader code.
    let first = a.allocation(a.first_allocation().unwrap());
    assert_eq!(first.descriptor.physical_start, 0x20_0000);
    assert_eq!(first.descriptor.memory_type, LOADER_CODE);
    assert_eq!(first.descriptor.number_of_pages, 1);
    assert_eq!(mem.bytes[&0x20_1000], executable()[0x400]);
}

#[test]
fn efi_image_without_room_is_out_of_resources() {
    let file = executable();
    let mut reader = MemoryFile::new(&file);
    let mut mem = FakeMemory { bytes: HashMap::new() };
    let mut a = Allocator::new(4096);
    let r = load_from_file(&mut a, &mut reader, MACHINE_X86_64, &mut mem);
    assert_eq!(r, Err(Status::OutOfResources));
    assert!(mem.bytes.is_empty());
}
