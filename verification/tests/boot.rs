use hypervisor_fw::boot::{E820Entry, Header, Params, HEADER_START};

#[test]
fn test_size_and_offset() {
    let mut header = Vec::new();
    Header::zeroed().push_bytes(&mut header);
    assert_eq!(header.len(), 119);
    let mut entry = Vec::new();
    E820Entry { addr: 0, size: 0, entry_type: 0 }.push_bytes(&mut entry);
    assert_eq!(entry.len(), 20);
    let params = Params::default();
    assert_eq!(params.to_bytes().len(), 4096);

    let mut p = Params::default();
    p.hdr.setup_sects = 0xab;
    assert_eq!(p.to_bytes()[HEADER_START], 0xab);
}

#[test]
fn header_laid_out_and_read_back() {
    let mut h = Header::zeroed();
    h.setup_sects = 0x1e;
    h.boot_flag = 0xaa55;
    h.header = 0x5372_6448;
    h.version = 0x20f;
    h.code32_start = 0x10_0000;
    h.cmd_line_ptr = 0x4b000;
    h.hardware_subarch_data = 0x0102_0304_0506_0708;
    h.handover_offset = 0x190;
    let mut v = Vec::new();
    h.push_bytes(&mut v);
    assert_eq!(Header::from_bytes(&v, 0), h);
    // "HdrS" at its place in the image.
    assert_eq!(&v[0x202 - 0x1f1..0x206 - 0x1f1], b"HdrS");
}

#[test]
fn zero_page_entries() {
    let mut p = Params::default();
    p.hdr.setup_sects = 4;
    let bytes = p.to_bytes();
    assert_eq!(bytes[0x1e8], 0);
    assert_eq!(&bytes[0x1f1..0x1f2], &[4]);
}
