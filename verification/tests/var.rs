use hypervisor_fw::common::{ascii_length, ascii_to_ucs2, ucs2_as_ascii_length, ucs2_to_ascii};
use hypervisor_fw::efi::allocator::Status;
use hypervisor_fw::efi::var::{
    guid_eq, Guid, VariableAllocator, VARIABLE_APPEND_WRITE, VARIABLE_BOOTSERVICE_ACCESS,
    VARIABLE_RUNTIME_ACCESS,
};

const NAME: [u16; 5] = [116, 101, 115, 116, 0];
const ATTR: u32 = VARIABLE_BOOTSERVICE_ACCESS | VARIABLE_RUNTIME_ACCESS;

fn guid() -> Guid {
    Guid::from_fields(1, 2, 3, 4, 5, &[6; 6])
}

fn check_variable(allocator: &VariableAllocator, attr: u32, data: &[u8]) {
    let v = allocator.variable(0);
    assert_eq!(v.name, NAME);
    assert!(guid_eq(&v.guid, &guid()));
    assert_eq!(v.attr, attr);
    assert_eq!(v.data, data);
}

fn set_initial_variable(allocator: &mut VariableAllocator, data: &[u8]) {
    let status = allocator.set(&NAME, &guid(), ATTR, data.len(), Some(data));

    assert_eq!(status, Status::Success);
    check_variable(allocator, ATTR, data);
}

#[test]
fn test_new() {
    let mut allocator = VariableAllocator::new();
    set_initial_variable(&mut allocator, &[1, 2, 3]);
}

#[test]
fn test_overwrite() {
    let mut allocator = VariableAllocator::new();
    set_initial_variable(&mut allocator, &[1, 2, 3]);

    let data: [u8; 5] = [4, 5, 6, 7, 8];
    let attr = ATTR;
    let status = allocator.set(&NAME, &guid(), attr, data.len(), Some(&data));

    assert_eq!(status, Status::Success);
    check_variable(&allocator, attr, &data);
}

#[test]
fn test_append() {
    let mut allocator = VariableAllocator::new();
    set_initial_variable(&mut allocator, &[1, 2, 3]);

    let size = 0;
    let attr = ATTR | VARIABLE_APPEND_WRITE;
    let status = allocator.set(&NAME, &guid(), attr, size, None);

    assert_eq!(status, Status::Success);
    check_variable(&allocator, ATTR, &[1, 2, 3]);

    let data: [u8; 5] = [4, 5, 6, 7, 8];
    let attr = ATTR | VARIABLE_APPEND_WRITE;
    let status = allocator.set(&NAME, &guid(), attr, data.len(), Some(&data));

    assert_eq!(status, Status::Success);
    check_variable(&allocator, ATTR, &[1, 2, 3, 4, 5, 6, 7, 8]);
}

#[test]
fn test_erase() {
    let mut allocator = VariableAllocator::new();
    set_initial_variable(&mut allocator, &[1, 2, 3]);

    let size = 0;
    let attr = ATTR;
    let status = allocator.set(&NAME, &guid(), attr, size, None);

    assert_eq!(status, Status::Success);
    assert_eq!(allocator.len(), 0);

    set_initial_variable(&mut allocator, &[1, 2, 3]);

    let data: [u8; 5] = [4, 5, 6, 7, 8];
    let attr = 0;
    let status = allocator.set(&NAME, &guid(), attr, data.len(), Some(&data));

    assert_eq!(status, Status::Success);
    assert_eq!(allocator.len(), 0);
}

#[test]
fn test_get() {
    let mut allocator = VariableAllocator::new();
    const DATA: [u8; 3] = [1, 2, 3];
    set_initial_variable(&mut allocator, &DATA);

    let mut data: [u8; 3] = [0; 3];
    let mut size = data.len();
    let mut attr = 0;
    let status = allocator.get(&NAME, &guid(), &mut attr, &mut size, &mut data);
    assert_eq!(status, Status::Success);
    assert_eq!(attr, ATTR);
    assert_eq!(size, DATA.len());
    assert_eq!(data, DATA);

    // The attributes are not asked for this time.
    let mut data: [u8; 3] = [0; 3];
    let mut size = data.len();
    let mut unused = 0;
    let status = allocator.get(&NAME, &guid(), &mut unused, &mut size, &mut data);
    assert_eq!(status, Status::Success);
    assert_eq!(size, DATA.len());
    assert_eq!(data, DATA);

    let mut data: [u8; 1] = [0; 1];
    let mut size = data.len();
    let mut attr = 0;
    let status = allocator.get(&NAME, &guid(), &mut attr, &mut size, &mut data);
    assert_eq!(status, Status::BufferTooSmall);
    assert_eq!(attr, 0);
    assert_eq!(size, DATA.len());
    assert_eq!(data, [0; 1]);
}

#[test]
fn ascii_ucs2_roundtrip() {
    let text = b"BootOrder";
    let mut wide = vec![0u16; text.len() * 2];
    ascii_to_ucs2(text, &mut wide);
    assert_eq!(&wide[..text.len()], &[0x42, 0x6f, 0x6f, 0x74, 0x4f, 0x72, 0x64, 0x65, 0x72]);
    assert_eq!(ucs2_as_ascii_length(&wide), text.len());
    let mut narrow = vec![0xffu8; text.len() + 1];
    ucs2_to_ascii(&wide, &mut narrow);
    assert_eq!(&narrow[..text.len()], text);
    assert_eq!(narrow[text.len()], 0);
}

#[test]
fn ascii_length_counts_characters_before_nul() {
    assert_eq!(ascii_length("abc"), 3);
    assert_eq!(ascii_length("ab\0cd"), 2);
    assert_eq!(ascii_length(""), 0);
    assert_eq!(ascii_length("\u{e9}"), 1);
}
