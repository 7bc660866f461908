use hypervisor_fw::bootinfo::{EntryType, MemoryEntry};
use hypervisor_fw::fdt::{kernel_info_from, KernelInfo, StartInfo};
use hypervisor_fw::fdt_tree::fdt_check;

const FDT_BEGIN_NODE: u32 = 1;
const FDT_END_NODE: u32 = 2;
const FDT_PROP: u32 = 3;
const FDT_END: u32 = 9;

/// Writes a flattened device tree by hand.
struct FdtWriter {
    structs: Vec<u8>,
    strings: Vec<u8>,
}

impl FdtWriter {
    fn new() -> FdtWriter {
        FdtWriter { structs: Vec::new(), strings: Vec::new() }
    }

    fn word(&mut self, v: u32) {
        self.structs.extend_from_slice(&v.to_be_bytes());
    }

    fn pad(&mut self) {
        while self.structs.len() % 4 != 0 {
            self.structs.push(0);
        }
    }

    fn begin(&mut self, name: &str) {
        self.word(FDT_BEGIN_NODE);
        self.structs.extend_from_slice(name.as_bytes());
        self.structs.push(0);
        self.pad();
    }

    fn end(&mut self) {
        self.word(FDT_END_NODE);
    }

    fn prop(&mut self, name: &str, value: &[u8]) {
        let off = self.strings.len() as u32;
        self.strings.extend_from_slice(name.as_bytes());
        self.strings.push(0);
        self.word(FDT_PROP);
        self.word(value.len() as u32);
        self.word(off);
        self.structs.extend_from_slice(value);
        self.pad();
    }

    fn prop_cells(&mut self, name: &str, cells: &[u32]) {
        let mut v = Vec::new();
        for c in cells {
            v.extend_from_slice(&c.to_be_bytes());
        }
        self.prop(name, &v);
    }

    fn finish(mut self) -> Vec<u8> {
        self.word(FDT_END);
        let rsvmap_off = 40u32;
        let struct_off = rsvmap_off + 16;
        let strings_off = struct_off + self.structs.len() as u32;
        let total = strings_off + self.strings.len() as u32;
        let mut b = Vec::new();
        for w in [
            0xd00d_feedu32,
            total,
            struct_off,
            strings_off,
            rsvmap_off,
            17,
            16,
            0,
            self.strings.len() as u32,
            self.structs.len() as u32,
        ] {
            b.extend_from_slice(&w.to_be_bytes());
        }
        b.extend_from_slice(&[0u8; 16]);
        b.extend_from_slice(&self.structs);
        b.extend_from_slice(&self.strings);
        b
    }
}

/// A device tree with a command line, a kernel image, 512 MiB of memory
/// at 1 GiB and a GPIO controller.
fn device_tree() -> Vec<u8> {
    let mut w = FdtWriter::new();
    w.begin("");
    w.prop_cells("#address-cells", &[2]);
    w.prop_cells("#size-cells", &[2]);
    w.begin("chosen");
    w.prop("bootargs", b"console=ttyAMA0 root=/dev/vda1\0");
    w.prop("linux,kernel-start", &0x4048_0000u64.to_be_bytes());
    w.prop("linux,kernel-size", &0x0200_0000u32.to_be_bytes());
    w.end();
    w.begin("memory@40000000");
    w.prop("device_type", b"memory\0");
    w.prop_cells("reg", &[0, 0x4000_0000, 0, 0x2000_0000]);
    w.end();
    w.begin("pl061@9030000");
    w.prop("compatible", b"arm,pl061\0arm,primecell\0");
    w.prop_cells("reg", &[0, 0x0903_0000, 0, 0x1000]);
    w.end();
    w.end();
    w.finish()
}

fn start_info(blob: &[u8]) -> StartInfo<'_> {
    StartInfo::new(blob, 0x4000_0000, Some(0x4020_0000), 0x4040_0000, &[], None)
}

#[test]
fn fdt_reservation_covers_blob() {
    let blob = device_tree();
    let info = start_info(&blob);
    assert_eq!(info.name(), "FDT");
    assert_eq!(
        info.fdt_reservation(),
        Some(MemoryEntry { addr: 0x4000_0000, size: blob.len() as u64, entry_type: EntryType::Reserved })
    );
    assert_eq!(info.rsdp_addr(), Some(0x4020_0000));
    assert_eq!(info.kernel_load_addr(), 0x4040_0000);
    assert_eq!(info.pci_bar_memory(), None);
}

#[test]
fn fdt_command_line() {
    let blob = device_tree();
    let info = start_info(&blob);
    assert_eq!(info.cmdline(), b"console=ttyAMA0 root=/dev/vda1".to_vec());
}

#[test]
fn fdt_memory_map() {
    let blob = device_tree();
    let info = start_info(&blob);
    assert_eq!(info.num_entries(), Some(1));
    assert_eq!(
        info.entry(0),
        Some(MemoryEntry { addr: 0x4000_0000, size: 0x2000_0000, entry_type: EntryType::Ram })
    );
    assert_eq!(info.entry(1), None);
}

#[test]
fn fdt_compatible_region() {
    let blob = device_tree();
    let info = start_info(&blob);
    assert_eq!(info.find_compatible_region(&["arm,pl061"]), Some((0x0903_0000, 0x1000)));
    assert_eq!(info.find_compatible_region(&["arm,pl011"]), None);
}

#[test]
fn fdt_kernel_info() {
    let blob = device_tree();
    let info = start_info(&blob);
    assert_eq!(info.find_kernel_info(), Some(KernelInfo { address: 0x4048_0000, size: 0x0200_0000 }));
}

#[test]
fn kernel_info_from_properties() {
    let props = vec![
        (b"linux,kernel-size".to_vec(), vec![0x12, 0x34]),
        (b"linux,kernel-start".to_vec(), vec![1, 2, 3, 4, 5, 6, 7, 8, 9]),
    ];
    assert_eq!(kernel_info_from(&props), Some(KernelInfo { address: 0x0102_0304_0506_0708, size: 0x1234 }));
    let props = vec![(b"linux,kernel-start".to_vec(), vec![1])];
    assert_eq!(kernel_info_from(&props), None);
}

#[test]
fn fdt_shape_checked() {
    let blob = device_tree();
    assert!(fdt_check(&blob));
    // A structure block said to lie past the blob.
    let mut bad = blob.clone();
    bad[8..12].copy_from_slice(&(blob.len() as u32).to_be_bytes());
    assert!(!fdt_check(&bad));
    // A property name offset past the strings block.
    let mut bad = blob.clone();
    let strings_size = u32::from_be_bytes([blob[32], blob[33], blob[34], blob[35]]);
    bad[32..36].copy_from_slice(&0u32.to_be_bytes());
    assert!(strings_size > 0);
    assert!(!fdt_check(&bad));
    // A header alone is no tree.
    assert!(!fdt_check(&blob[..40]));
}
