use hypervisor_fw::efi::allocator::{Allocator, Status, CONVENTIONAL_MEMORY};
use hypervisor_fw::efi::services::{
    get_memory_map, install_configuration_table, locate_handle, open_protocol, ConfigTable,
    HandleKind, Interface, MAX_CT_ENTRIES,
};
use hypervisor_fw::efi::console::{stdout_output_chunk, stdout_query_mode, stdout_set_mode, CHUNK_SIZE};
use hypervisor_fw::efi::ConfigurationEntry;

const NODE: [u8; 6] = [0x00, 0xa0, 0xc9, 0x69, 0x72, 0x3b];

fn guid(a: u32, b: u16, c: u16, d: u8, e: u8, node: &[u8; 6]) -> Vec<u8> {
    let mut g = Vec::new();
    g.extend_from_slice(&a.to_le_bytes());
    g.extend_from_slice(&b.to_le_bytes());
    g.extend_from_slice(&c.to_le_bytes());
    g.push(d);
    g.push(e);
    g.extend_from_slice(node);
    g
}

fn block_io() -> Vec<u8> {
    guid(0x964e5b21, 0x6459, 0x11d2, 0x8e, 0x39, &NODE)
}

fn loaded_image() -> Vec<u8> {
    guid(0x5b1b31a1, 0x9562, 0x11d2, 0x8e, 0x3f, &NODE)
}

fn file_system() -> Vec<u8> {
    guid(0x964e5b22, 0x6459, 0x11d2, 0x8e, 0x39, &NODE)
}

fn device_path() -> Vec<u8> {
    guid(0x09576e91, 0x6d3f, 0x11d2, 0x8e, 0x39, &NODE)
}

fn sample(n: u8) -> Vec<u8> {
    guid(0x1000 + n as u32, 1, 2, 3, 4, &[n, 0, 0, 0, 0, 1])
}

fn table_with_one() -> ConfigTable {
    ConfigTable::new(vec![ConfigurationEntry { guid: sample(0), table: 0x1000 }])
}

#[test]
fn config_table_starts_with_given_entries() {
    let ct = table_with_one();
    assert_eq!(ct.number_of_entries(), 1);
    let e = ct.entries();
    assert_eq!(e.len(), MAX_CT_ENTRIES);
    assert_eq!(e[0].guid, sample(0));
    assert_eq!(e[0].table, 0x1000);
    for slot in &e[1..] {
        assert_eq!(slot.guid, vec![0u8; 16]);
        assert_eq!(slot.table, 0);
    }
}

#[test]
fn config_table_adds_in_first_free_slot() {
    let mut ct = table_with_one();
    assert_eq!(install_configuration_table(&mut ct, &sample(1), 0x2000), Status::Success);
    assert_eq!(ct.number_of_entries(), 2);
    assert_eq!(ct.entries()[1].guid, sample(1));
    assert_eq!(ct.entries()[1].table, 0x2000);
}

#[test]
fn config_table_replaces_existing_table() {
    let mut ct = table_with_one();
    assert_eq!(install_configuration_table(&mut ct, &sample(0), 0x3000), Status::Success);
    assert_eq!(ct.number_of_entries(), 1);
    assert_eq!(ct.entries()[0].guid, sample(0));
    assert_eq!(ct.entries()[0].table, 0x3000);
    assert_eq!(ct.entries()[1].table, 0);
}

#[test]
fn config_table_removes_with_null_table() {
    let mut ct = table_with_one();
    assert_eq!(install_configuration_table(&mut ct, &sample(0), 0), Status::Success);
    assert_eq!(ct.number_of_entries(), 0);
    assert_eq!(ct.entries()[0].guid, vec![0u8; 16]);
    assert_eq!(ct.entries()[0].table, 0);
    // Removing it again finds nothing.
    assert_eq!(install_configuration_table(&mut ct, &sample(0), 0), Status::NotFound);
    assert_eq!(ct.number_of_entries(), 0);
}

#[test]
fn config_table_full_is_out_of_resources() {
    let mut ct = table_with_one();
    for n in 1..MAX_CT_ENTRIES as u8 {
        assert_eq!(install_configuration_table(&mut ct, &sample(n), 0x1000 * n as u64), Status::Success);
    }
    assert_eq!(ct.number_of_entries(), MAX_CT_ENTRIES);
    assert_eq!(install_configuration_table(&mut ct, &sample(99), 0x9000), Status::OutOfResources);
    assert_eq!(ct.number_of_entries(), MAX_CT_ENTRIES);
    // A freed slot is taken again.
    assert_eq!(install_configuration_table(&mut ct, &sample(3), 0), Status::Success);
    assert_eq!(install_configuration_table(&mut ct, &sample(99), 0x9000), Status::Success);
    assert_eq!(ct.entries()[3].guid, sample(99));
    assert_eq!(ct.entries()[3].table, 0x9000);
}

#[test]
fn locate_block_handles() {
    let handles = [0x100u64, 0x200, 0x300];
    let r = locate_handle(&block_io(), 24, &handles);
    assert_eq!(r.status, Status::Success);
    assert_eq!(r.size, 24);
    assert_eq!(r.handles, vec![0x100, 0x200, 0x300]);

    let r = locate_handle(&block_io(), 16, &handles);
    assert_eq!(r.status, Status::BufferTooSmall);
    assert_eq!(r.size, 24);
    assert!(r.handles.is_empty());

    let r = locate_handle(&file_system(), 64, &handles);
    assert_eq!(r.status, Status::Unsupported);
    assert_eq!(r.size, 64);
    assert!(r.handles.is_empty());
}

#[test]
fn open_protocol_by_handle_kind() {
    assert_eq!(
        open_protocol(HandleKind::LoadedImage, &loaded_image(), None),
        Some(Interface::LoadedImage)
    );
    assert_eq!(open_protocol(HandleKind::Block, &loaded_image(), None), None);
    assert_eq!(open_protocol(HandleKind::FileSystem, &file_system(), None), Some(Interface::FileSystem));
    assert_eq!(open_protocol(HandleKind::Block, &device_path(), None), Some(Interface::DevicePath));
    assert_eq!(
        open_protocol(HandleKind::FileSystem, &device_path(), Some(2)),
        Some(Interface::PartitionDevicePath(2))
    );
    assert_eq!(open_protocol(HandleKind::FileSystem, &device_path(), None), None);
    assert_eq!(open_protocol(HandleKind::Block, &block_io(), None), Some(Interface::BlockIo));
    assert_eq!(open_protocol(HandleKind::Untyped, &block_io(), None), None);
}

#[test]
fn memory_map_sizes_and_copies() {
    let mut a = Allocator::new(4096);
    assert_eq!(a.add_initial_allocation(CONVENTIONAL_MEMORY, 16, 0, 0), Status::Success);
    assert_eq!(a.add_initial_allocation(CONVENTIONAL_MEMORY, 16, 0x100000, 0), Status::Success);

    let r = get_memory_map(&a, None, true);
    assert_eq!(r.status, Status::InvalidParameter);
    assert_eq!(r.map_size, None);

    let r = get_memory_map(&a, Some(40), true);
    assert_eq!(r.status, Status::BufferTooSmall);
    assert_eq!(r.map_size, Some(80));
    assert!(r.descriptors.is_empty());

    let r = get_memory_map(&a, Some(80), false);
    assert_eq!(r.status, Status::InvalidParameter);

    let r = get_memory_map(&a, Some(4096), true);
    assert_eq!(r.status, Status::Success);
    assert_eq!(r.map_size, Some(80));
    assert_eq!(r.descriptors.len(), 2);
    assert_eq!(r.descriptors[0].physical_start, 0);
    assert_eq!(r.descriptors[1].physical_start, 0x100000);
    assert_eq!(r.key, Some(a.get_map_key()));
}

#[test]
fn console_text_mode() {
    assert_eq!(stdout_query_mode(0), Some((80, 25)));
    assert_eq!(stdout_query_mode(1), None);
    assert_eq!(stdout_set_mode(0), Status::Success);
    assert_eq!(stdout_set_mode(3), Status::Unsupported);
}

#[test]
fn console_writes_low_bytes_to_terminator() {
    let message: Vec<u16> = "Hi\u{0141}!\0x".encode_utf16().collect();
    let (bytes, ended) = stdout_output_chunk(&message);
    assert!(ended);
    assert_eq!(bytes.len(), CHUNK_SIZE);
    assert_eq!(&bytes[..4], &[b'H', b'i', 0x41, b'!']);
    assert!(bytes[4..].iter().all(|b| *b == 0));

    let long: Vec<u16> = vec![u16::from(b'a'); 200];
    let (bytes, ended) = stdout_output_chunk(&long);
    assert!(!ended);
    assert!(bytes.iter().all(|b| *b == b'a'));
}
