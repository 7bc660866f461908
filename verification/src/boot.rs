//! The Linux x86 boot protocol: the setup header of a kernel image and the
//! zero page handed to the kernel, with its E820 memory map.
use vstd::prelude::*;
use crate::bootinfo::{EntryType, Info, MemoryEntry};
use crate::bytes::{get_le, le, le_bytes, push_le, push_zeros, zeros};
use crate::fat::{Error, Read};

verus! {

/// A range of the E820 memory map, as the zero page lays it out (20 bytes).
#[derive(Clone, Copy, Debug, PartialEq, Eq, Structural)]
pub struct E820Entry {
    pub addr: u64,
    pub size: u64,
    pub entry_type: u32,
}

pub const RAM_TYPE: u32 = 1;
pub const RESERVED_TYPE: u32 = 2;
pub const ACPI_RECLAIMABLE_TYPE: u32 = 3;
pub const ACPI_NVS_TYPE: u32 = 4;
pub const BAD_TYPE: u32 = 5;
/// coreboot only.
pub const VENDOR_RESERVED_TYPE: u32 = 6;
/// coreboot only.
pub const COREBOOT_TABLE_TYPE: u32 = 16;

/// Size of an E820 entry in bytes.
pub const E820_ENTRY_SIZE: usize = 20;
/// The entries that the zero page has room for.
pub const E820_MAX_ENTRIES: usize = 128;
/// Size of the zero page in bytes.
pub const PARAMS_SIZE: usize = 4096;
/// Where the setup header starts, in a kernel image and in the zero page.
pub const HEADER_START: usize = 0x1f1;
/// Size of the setup header in bytes.
pub const HEADER_SIZE: usize = 119;
/// Where the ACPI RSDP address is in the zero page.
pub const ACPI_RSDP_OFFSET: usize = 0x070;
/// Where the number of E820 entries is in the zero page.
pub const E820_ENTRIES_OFFSET: usize = 0x1e8;
/// Where the E820 table starts in the zero page.
pub const E820_TABLE_OFFSET: usize = 0x2d0;

/// The E820 type number of an entry type.
pub open spec fn e820_type(t: EntryType) -> u32 {
    match t {
        EntryType::Ram => RAM_TYPE,
        EntryType::Reserved => RESERVED_TYPE,
        EntryType::AcpiReclaimable => ACPI_RECLAIMABLE_TYPE,
        EntryType::AcpiNvs => ACPI_NVS_TYPE,
        EntryType::Bad => BAD_TYPE,
        EntryType::VendorReserved => VENDOR_RESERVED_TYPE,
        EntryType::CorebootTable => COREBOOT_TABLE_TYPE,
    }
}

/// Whether `v` is an E820 type number that the firmware knows.
pub open spec fn known_e820_type(v: u32) -> bool {
    v == RAM_TYPE || v == RESERVED_TYPE || v == ACPI_RECLAIMABLE_TYPE || v == ACPI_NVS_TYPE || v == BAD_TYPE
        || v == VENDOR_RESERVED_TYPE || v == COREBOOT_TABLE_TYPE
}

impl EntryType {
    /// The E820 type number of this entry type.
    pub fn to_e820(self) -> (r: u32)
        ensures
            r == e820_type(self),
            known_e820_type(r),
    {
        match self {
            EntryType::Ram => RAM_TYPE,
            EntryType::Reserved => RESERVED_TYPE,
            EntryType::AcpiReclaimable => ACPI_RECLAIMABLE_TYPE,
            EntryType::AcpiNvs => ACPI_NVS_TYPE,
            EntryType::Bad => BAD_TYPE,
            EntryType::VendorReserved => VENDOR_RESERVED_TYPE,
            EntryType::CorebootTable => COREBOOT_TABLE_TYPE,
        }
    }

    /// The entry type of a known E820 type number.
    pub fn from_e820(value: u32) -> (r: EntryType)
        requires
            known_e820_type(value),
        ensures
            e820_type(r) == value,
    {
        if value == RAM_TYPE {
            EntryType::Ram
        } else if value == RESERVED_TYPE {
            EntryType::Reserved
        } else if value == ACPI_RECLAIMABLE_TYPE {
            EntryType::AcpiReclaimable
        } else if value == ACPI_NVS_TYPE {
            EntryType::AcpiNvs
        } else if value == BAD_TYPE {
            EntryType::Bad
        } else if value == VENDOR_RESERVED_TYPE {
            EntryType::VendorReserved
        } else {
            EntryType::CorebootTable
        }
    }
}

/// The E820 entry of a memory map entry.
pub open spec fn e820_of(e: MemoryEntry) -> E820Entry {
    E820Entry { addr: e.addr, size: e.size, entry_type: e820_type(e.entry_type) }
}

/// The 20 bytes that E820 entry `e` is laid out as.
pub open spec fn e820_bytes(e: E820Entry) -> Seq<u8> {
    le_bytes(e.addr as int, 8) + le_bytes(e.size as int, 8) + le_bytes(e.entry_type as int, 4)
}

/// The bytes that a table of E820 entries is laid out as.
pub open spec fn e820_table_bytes(t: Seq<E820Entry>) -> Seq<u8>
    decreases t.len(),
{
    if t.len() == 0 {
        Seq::empty()
    } else {
        e820_table_bytes(t.drop_last()) + e820_bytes(t.last())
    }
}

impl E820Entry {
    /// The E820 entry of a memory map entry.
    pub fn from_entry(e: MemoryEntry) -> (r: E820Entry)
        ensures
            r == e820_of(e),
    {
        E820Entry { addr: e.addr, size: e.size, entry_type: e.entry_type.to_e820() }
    }

    /// The memory map entry of an E820 entry of a known type.
    pub fn to_entry(&self) -> (r: MemoryEntry)
        requires
            known_e820_type(self.entry_type),
        ensures
            e820_of(r) == *self,
    {
        MemoryEntry { addr: self.addr, size: self.size, entry_type: EntryType::from_e820(self.entry_type) }
    }

    /// Appends the 20 bytes of the entry to `v`.
    pub fn push_bytes(&self, v: &mut Vec<u8>)
        ensures
            final(v)@ == old(v)@ + e820_bytes(*self),
    {
        let ghost v0 = v@;
        push_le(v, self.addr, 8);
        push_le(v, self.size, 8);
        push_le(v, self.entry_type as u64, 4);
        assert(v@ =~= v0 + e820_bytes(*self));
    }
}

/// The setup header of a Linux kernel image, as the boot protocol lays it
/// out at byte 0x1f1 of the image and of the zero page.
#[derive(Clone, Copy, Debug, PartialEq, Eq, Structural)]
pub struct Header {
    pub setup_sects: u8,
    pub root_flags: u16,
    pub syssize: u32,
    pub ram_size: u16,
    pub vid_mode: u16,
    pub root_dev: u16,
    pub boot_flag: u16,
    pub jump: u16,
    /// The magic "HdrS", as a little-endian number.
    pub header: u32,
    pub version: u16,
    pub realmode_swtch: u32,
    pub start_sys_seg: u16,
    pub kernel_version: u16,
    pub type_of_loader: u8,
    pub loadflags: u8,
    pub setup_move_size: u16,
    pub code32_start: u32,
    pub ramdisk_image: u32,
    pub ramdisk_size: u32,
    pub bootsect_kludge: u32,
    pub heap_end_ptr: u16,
    pub ext_loader_ver: u8,
    pub ext_loader_type: u8,
    pub cmd_line_ptr: u32,
    pub initrd_addr_max: u32,
    pub kernel_alignment: u32,
    pub relocatable_kernel: u8,
    pub min_alignment: u8,
    pub xloadflags: u16,
    pub cmdline_size: u32,
    pub hardware_subarch: u32,
    pub hardware_subarch_data: u64,
    pub payload_offset: u32,
    pub payload_length: u32,
    pub setup_data: u64,
    pub pref_address: u64,
    pub init_size: u32,
    pub handover_offset: u32,
}

/// The header that the 119 bytes of `b` from `o` on hold.
pub open spec fn header_of(b: Seq<u8>, o: int) -> Header {
    Header {
        setup_sects: le(b, o + 0, 1) as u8,
        root_flags: le(b, o + 1, 2) as u16,
        syssize: le(b, o + 3, 4) as u32,
        ram_size: le(b, o + 7, 2) as u16,
        vid_mode: le(b, o + 9, 2) as u16,
        root_dev: le(b, o + 11, 2) as u16,
        boot_flag: le(b, o + 13, 2) as u16,
        jump: le(b, o + 15, 2) as u16,
        header: le(b, o + 17, 4) as u32,
        version: le(b, o + 21, 2) as u16,
        realmode_swtch: le(b, o + 23, 4) as u32,
        start_sys_seg: le(b, o + 27, 2) as u16,
        kernel_version: le(b, o + 29, 2) as u16,
        type_of_loader: le(b, o + 31, 1) as u8,
        loadflags: le(b, o + 32, 1) as u8,
        setup_move_size: le(b, o + 33, 2) as u16,
        code32_start: le(b, o + 35, 4) as u32,
        ramdisk_image: le(b, o + 39, 4) as u32,
        ramdisk_size: le(b, o + 43, 4) as u32,
        bootsect_kludge: le(b, o + 47, 4) as u32,
        heap_end_ptr: le(b, o + 51, 2) as u16,
        ext_loader_ver: le(b, o + 53, 1) as u8,
        ext_loader_type: le(b, o + 54, 1) as u8,
        cmd_line_ptr: le(b, o + 55, 4) as u32,
        initrd_addr_max: le(b, o + 59, 4) as u32,
        kernel_alignment: le(b, o + 63, 4) as u32,
        relocatable_kernel: le(b, o + 67, 1) as u8,
        min_alignment: le(b, o + 68, 1) as u8,
        xloadflags: le(b, o + 69, 2) as u16,
        cmdline_size: le(b, o + 71, 4) as u32,
        hardware_subarch: le(b, o + 75, 4) as u32,
        hardware_subarch_data: le(b, o + 79, 8) as u64,
        payload_offset: le(b, o + 87, 4) as u32,
        payload_length: le(b, o + 91, 4) as u32,
        setup_data: le(b, o + 95, 8) as u64,
        pref_address: le(b, o + 103, 8) as u64,
        init_size: le(b, o + 111, 4) as u32,
        handover_offset: le(b, o + 115, 4) as u32,
    }
}

/// The fields of header `h` in layout order, each with its width in bytes.
pub open spec fn header_fields(h: Header) -> Seq<(int, nat)> {
    seq![
        (h.setup_sects as int, 1nat),
        (h.root_flags as int, 2nat),
        (h.syssize as int, 4nat),
        (h.ram_size as int, 2nat),
        (h.vid_mode as int, 2nat),
        (h.root_dev as int, 2nat),
        (h.boot_flag as int, 2nat),
        (h.jump as int, 2nat),
        (h.header as int, 4nat),
        (h.version as int, 2nat),
        (h.realmode_swtch as int, 4nat),
        (h.start_sys_seg as int, 2nat),
        (h.kernel_version as int, 2nat),
        (h.type_of_loader as int, 1nat),
        (h.loadflags as int, 1nat),
        (h.setup_move_size as int, 2nat),
        (h.code32_start as int, 4nat),
        (h.ramdisk_image as int, 4nat),
        (h.ramdisk_size as int, 4nat),
        (h.bootsect_kludge as int, 4nat),
        (h.heap_end_ptr as int, 2nat),
        (h.ext_loader_ver as int, 1nat),
        (h.ext_loader_type as int, 1nat),
        (h.cmd_line_ptr as int, 4nat),
        (h.initrd_addr_max as int, 4nat),
        (h.kernel_alignment as int, 4nat),
        (h.relocatable_kernel as int, 1nat),
        (h.min_alignment as int, 1nat),
        (h.xloadflags as int, 2nat),
        (h.cmdline_size as int, 4nat),
        (h.hardware_subarch as int, 4nat),
        (h.hardware_subarch_data as int, 8nat),
        (h.payload_offset as int, 4nat),
        (h.payload_length as int, 4nat),
        (h.setup_data as int, 8nat),
        (h.pref_address as int, 8nat),
        (h.init_size as int, 4nat),
        (h.handover_offset as int, 4nat),
    ]
}

/// The bytes that little-endian fields are laid out as, one after another.
pub open spec fn fields_bytes(f: Seq<(int, nat)>) -> Seq<u8>
    decreases f.len(),
{
    if f.len() == 0 {
        Seq::empty()
    } else {
        fields_bytes(f.drop_last()) + le_bytes(f.last().0, f.last().1)
    }
}

/// The 119 bytes that header `h` is laid out as.
pub open spec fn header_bytes(h: Header) -> Seq<u8> {
    fields_bytes(header_fields(h))
}

impl Header {
    /// Reads the header from the 119 bytes of `b` at `o`.
    pub fn from_bytes(b: &[u8], o: usize) -> (h: Header)
        requires
            o + HEADER_SIZE <= b@.len(),
        ensures
            h == header_of(b@, o as int),
    {
        let n = b.len();
        assert(o + HEADER_SIZE <= n);
        Header {
            setup_sects: get_le(b, o + 0, 1) as u8,
            root_flags: get_le(b, o + 1, 2) as u16,
            syssize: get_le(b, o + 3, 4) as u32,
            ram_size: get_le(b, o + 7, 2) as u16,
            vid_mode: get_le(b, o + 9, 2) as u16,
            root_dev: get_le(b, o + 11, 2) as u16,
            boot_flag: get_le(b, o + 13, 2) as u16,
            jump: get_le(b, o + 15, 2) as u16,
            header: get_le(b, o + 17, 4) as u32,
            version: get_le(b, o + 21, 2) as u16,
            realmode_swtch: get_le(b, o + 23, 4) as u32,
            start_sys_seg: get_le(b, o + 27, 2) as u16,
            kernel_version: get_le(b, o + 29, 2) as u16,
            type_of_loader: get_le(b, o + 31, 1) as u8,
            loadflags: get_le(b, o + 32, 1) as u8,
            setup_move_size: get_le(b, o + 33, 2) as u16,
            code32_start: get_le(b, o + 35, 4) as u32,
            ramdisk_image: get_le(b, o + 39, 4) as u32,
            ramdisk_size: get_le(b, o + 43, 4) as u32,
            bootsect_kludge: get_le(b, o + 47, 4) as u32,
            heap_end_ptr: get_le(b, o + 51, 2) as u16,
            ext_loader_ver: get_le(b, o + 53, 1) as u8,
            ext_loader_type: get_le(b, o + 54, 1) as u8,
            cmd_line_ptr: get_le(b, o + 55, 4) as u32,
            initrd_addr_max: get_le(b, o + 59, 4) as u32,
            kernel_alignment: get_le(b, o + 63, 4) as u32,
            relocatable_kernel: get_le(b, o + 67, 1) as u8,
            min_alignment: get_le(b, o + 68, 1) as u8,
            xloadflags: get_le(b, o + 69, 2) as u16,
            cmdline_size: get_le(b, o + 71, 4) as u32,
            hardware_subarch: get_le(b, o + 75, 4) as u32,
            hardware_subarch_data: get_le(b, o + 79, 8) as u64,
            payload_offset: get_le(b, o + 87, 4) as u32,
            payload_length: get_le(b, o + 91, 4) as u32,
            setup_data: get_le(b, o + 95, 8) as u64,
            pref_address: get_le(b, o + 103, 8) as u64,
            init_size: get_le(b, o + 111, 4) as u32,
            handover_offset: get_le(b, o + 115, 4) as u32,
        }
    }

    /// The fields of the header in layout order, each with its width.
    fn field_list(&self) -> (r: Vec<(u64, usize)>)
        ensures
            r@.len() == header_fields(*self).len(),
            forall|i: int| 0 <= i < r@.len() ==> (#[trigger] r@[i].0 as int, r@[i].1 as nat) == header_fields(*self)[i],
            forall|i: int| 0 <= i < r@.len() ==> #[trigger] r@[i].1 <= 8,
    {
        let r = vec![
            (self.setup_sects as u64, 1usize),
            (self.root_flags as u64, 2usize),
            (self.syssize as u64, 4usize),
            (self.ram_size as u64, 2usize),
            (self.vid_mode as u64, 2usize),
            (self.root_dev as u64, 2usize),
            (self.boot_flag as u64, 2usize),
            (self.jump as u64, 2usize),
            (self.header as u64, 4usize),
            (self.version as u64, 2usize),
            (self.realmode_swtch as u64, 4usize),
            (self.start_sys_seg as u64, 2usize),
            (self.kernel_version as u64, 2usize),
            (self.type_of_loader as u64, 1usize),
            (self.loadflags as u64, 1usize),
            (self.setup_move_size as u64, 2usize),
            (self.code32_start as u64, 4usize),
            (self.ramdisk_image as u64, 4usize),
            (self.ramdisk_size as u64, 4usize),
            (self.bootsect_kludge as u64, 4usize),
            (self.heap_end_ptr as u64, 2usize),
            (self.ext_loader_ver as u64, 1usize),
            (self.ext_loader_type as u64, 1usize),
            (self.cmd_line_ptr as u64, 4usize),
            (self.initrd_addr_max as u64, 4usize),
            (self.kernel_alignment as u64, 4usize),
            (self.relocatable_kernel as u64, 1usize),
            (self.min_alignment as u64, 1usize),
            (self.xloadflags as u64, 2usize),
            (self.cmdline_size as u64, 4usize),
            (self.hardware_subarch as u64, 4usize),
            (self.hardware_subarch_data as u64, 8usize),
            (self.payload_offset as u64, 4usize),
            (self.payload_length as u64, 4usize),
            (self.setup_data as u64, 8usize),
            (self.pref_address as u64, 8usize),
            (self.init_size as u64, 4usize),
            (self.handover_offset as u64, 4usize),
        ];
        assert(r@.len() == header_fields(*self).len());
        r
    }

    /// Appends the 119 bytes of the header to `v`.
    pub fn push_bytes(&self, v: &mut Vec<u8>)
        ensures
            final(v)@ == old(v)@ + header_bytes(*self),
    {
        let ghost v0 = v@;
        let ghost f = header_fields(*self);
        let list = self.field_list();
        let mut k: usize = 0;
        assert(f.take(0) =~= Seq::<(int, nat)>::empty());
        while k < list.len()
            invariant
                list@.len() == f.len(),
                f == header_fields(*self),
                forall|i: int| 0 <= i < list@.len() ==> (#[trigger] list@[i].0 as int, list@[i].1 as nat) == f[i],
                k <= list@.len(),
                v@ == v0 + fields_bytes(f.take(k as int)),
            decreases list@.len() - k,
        {
            let (x, w) = list[k];
            push_le(v, x, w);
            proof {
                assert(f.take(k + 1).drop_last() =~= f.take(k as int));
                assert(f.take(k + 1).last() == f[k as int]);
                assert(v@ =~= v0 + fields_bytes(f.take(k + 1)));
            }
            k = k + 1;
        }
        assert(f.take(f.len() as int) =~= f);
    }
}

/// A header with every field zero.
pub open spec fn zero_header() -> Header {
    Header { setup_sects: 0, root_flags: 0, syssize: 0, ram_size: 0, vid_mode: 0, root_dev: 0, boot_flag: 0, jump: 0, header: 0, version: 0, realmode_swtch: 0, start_sys_seg: 0, kernel_version: 0, type_of_loader: 0, loadflags: 0, setup_move_size: 0, code32_start: 0, ramdisk_image: 0, ramdisk_size: 0, bootsect_kludge: 0, heap_end_ptr: 0, ext_loader_ver: 0, ext_loader_type: 0, cmd_line_ptr: 0, initrd_addr_max: 0, kernel_alignment: 0, relocatable_kernel: 0, min_alignment: 0, xloadflags: 0, cmdline_size: 0, hardware_subarch: 0, hardware_subarch_data: 0, payload_offset: 0, payload_length: 0, setup_data: 0, pref_address: 0, init_size: 0, handover_offset: 0 }
}

impl Header {
    /// A header with every field zero.
    pub fn zeroed() -> (h: Header)
        ensures
            h == zero_header(),
    {
        Header { setup_sects: 0, root_flags: 0, syssize: 0, ram_size: 0, vid_mode: 0, root_dev: 0, boot_flag: 0, jump: 0, header: 0, version: 0, realmode_swtch: 0, start_sys_seg: 0, kernel_version: 0, type_of_loader: 0, loadflags: 0, setup_move_size: 0, code32_start: 0, ramdisk_image: 0, ramdisk_size: 0, bootsect_kludge: 0, heap_end_ptr: 0, ext_loader_ver: 0, ext_loader_type: 0, cmd_line_ptr: 0, initrd_addr_max: 0, kernel_alignment: 0, relocatable_kernel: 0, min_alignment: 0, xloadflags: 0, cmdline_size: 0, hardware_subarch: 0, hardware_subarch_data: 0, payload_offset: 0, payload_length: 0, setup_data: 0, pref_address: 0, init_size: 0, handover_offset: 0 }
    }

    /// Reads a kernel's setup header from the first two sectors of file `f`.
    pub fn from_file<R: Read>(f: &mut R) -> (r: Result<Header, Error>)
        requires
            old(f).ready(),
        ensures
            final(f).ready(),
            final(f).file_size() == old(f).file_size(),
            final(f).content() == old(f).content(),
            r matches Ok(h) ==> exists|b: Seq<u8>| b.len() == 1024 && h == header_of(b, HEADER_START as int),
            r matches Ok(h) ==> (old(f).content().len() >= 1024 ==> h == header_of(
                old(f).content(),
                HEADER_START as int,
            )),
            old(f).faultless() ==> final(f).faultless(),
            old(f).faultless() && old(f).content().len() >= 1024 ==> r == Ok::<Header, Error>(
                header_of(old(f).content(), HEADER_START as int),
            ),
            old(f).reliable() ==> final(f).reliable() && r != Err::<Header, Error>(Error::BlockError),
    {
        let mut data: Vec<u8> = Vec::new();
        push_zeros(&mut data, 1024);
        match f.seek(0) {
            Ok(()) => {},
            Err(e) => {
                return Err(e);
            },
        }
        match f.load_file(data.as_mut_slice()) {
            Ok(()) => {},
            Err(e) => {
                return Err(e);
            },
        }
        let h = Header::from_bytes(data.as_slice(), HEADER_START);
        assert(data@.len() == 1024 && h == header_of(data@, HEADER_START as int));
        proof {
            let content = old(f).content();
            if content.len() >= 1024 {
                assert forall|o: int, n: nat| 0 <= o && o + n <= 1024 implies #[trigger] le(data@, o, n) == le(
                    content,
                    o,
                    n,
                ) by {
                    crate::bytes::lemma_le_prefix(content, data@, o, n);
                }
                assert(header_of(data@, HEADER_START as int) == header_of(content, HEADER_START as int));
            }
        }
        Ok(h)
    }
}

/// The zero page: what the firmware tells a Linux kernel at boot. Only the
/// fields that the firmware fills are kept; the rest of the page is zero.
pub struct Params {
    pub acpi_rsdp_addr: u64,
    pub hdr: Header,
    pub e820_entries: u8,
    pub e820_table: Vec<E820Entry>,
}

/// An E820 entry with every field zero.
pub open spec fn zero_e820() -> E820Entry {
    E820Entry { addr: 0, size: 0, entry_type: 0 }
}

/// The 4096 bytes that the zero page `p` is laid out as.
pub open spec fn params_bytes(p: Params) -> Seq<u8> {
    zeros(0x70) + le_bytes(p.acpi_rsdp_addr as int, 8) + zeros(0x170) + seq![p.entry_count()]
        + zeros(8) + header_bytes(p.hdr) + zeros(0x68) + e820_table_bytes(p.table())
        + zeros(0x330)
}

impl Params {
    /// The number of entries of the E820 map.
    pub open spec fn entry_count(&self) -> u8 {
        self.e820_entries
    }

    /// The room for the E820 map, used or not.
    pub open spec fn table(&self) -> Seq<E820Entry> {
        self.e820_table@
    }

    /// The table has room for 128 entries and the count fits in it.
    pub open spec fn wf(&self) -> bool {
        self.table().len() == E820_MAX_ENTRIES && self.entry_count() <= E820_MAX_ENTRIES
    }

    /// The number of entries of the E820 map.
    pub fn num_entries(&self) -> (r: usize)
        ensures
            r == self.entry_count(),
    {
        self.e820_entries as usize
    }

    /// Entry `idx` of the E820 map.
    pub fn e820_entry(&self, idx: usize) -> (r: E820Entry)
        requires
            self.wf(),
            idx < self.entry_count(),
        ensures
            r == self.table()[idx as int],
    {
        self.e820_table[idx]
    }

    /// Fills the E820 map with `entries`.
    pub fn set_table(&mut self, entries: &[MemoryEntry])
        requires
            old(self).wf(),
            entries@.len() <= E820_MAX_ENTRIES,
        ensures
            final(self).wf(),
            final(self).acpi_rsdp_addr == old(self).acpi_rsdp_addr,
            final(self).hdr == old(self).hdr,
            final(self).entry_count() == entries@.len(),
            forall|i: int| 0 <= i < entries@.len() ==> #[trigger] final(self).table()[i] == e820_of(entries@[i]),
            forall|i: int|
                entries@.len() <= i < E820_MAX_ENTRIES ==> #[trigger] final(self).table()[i] == old(self).table()[i],
    {
        let n = entries.len();
        let mut i: usize = 0;
        while i < n
            invariant
                n == entries@.len(),
                n <= E820_MAX_ENTRIES,
                i <= n,
                self.e820_table@.len() == E820_MAX_ENTRIES,
                self.e820_entries == old(self).e820_entries,
                self.acpi_rsdp_addr == old(self).acpi_rsdp_addr,
                self.hdr == old(self).hdr,
                forall|k: int| 0 <= k < i ==> #[trigger] self.e820_table@[k] == e820_of(entries@[k]),
                forall|k: int| i <= k < E820_MAX_ENTRIES ==> #[trigger] self.e820_table@[k] == old(self).e820_table@[k],
            decreases n - i,
        {
            self.e820_table.set(i, E820Entry::from_entry(entries[i]));
            i = i + 1;
        }
        self.e820_entries = n as u8;
    }

    /// Fills the E820 map from the memory map of a boot protocol: as many
    /// entries as it reports (modulo 256), at most 128.
    pub fn set_entries<I: Info>(&mut self, info: &I)
        requires
            old(self).wf(),
        ensures
            final(self).wf(),
            final(self).acpi_rsdp_addr == old(self).acpi_rsdp_addr,
            final(self).hdr == old(self).hdr,
            exists|es: Seq<MemoryEntry>|
                {
                    &&& es.len() == final(self).entry_count()
                    &&& forall|i: int| 0 <= i < es.len() ==> #[trigger] final(self).table()[i] == e820_of(es[i])
                    &&& forall|i: int|
                        es.len() <= i < E820_MAX_ENTRIES ==> #[trigger] final(self).table()[i] == old(self).table()[i]
                },
            info.memory_map() matches Some(m) ==> {
                let n = if m.len() % 256 > E820_MAX_ENTRIES { E820_MAX_ENTRIES as int } else { (m.len() % 256) as int };
                &&& final(self).entry_count() == n
                &&& forall|i: int| 0 <= i < n ==> #[trigger] final(self).table()[i] == e820_of(m[i])
            },
    {
        let n = info.num_entries();
        let mut count = (n % 256) as u8;
        if count as usize > E820_MAX_ENTRIES {
            count = E820_MAX_ENTRIES as u8;
        }
        let mut entries: Vec<MemoryEntry> = Vec::new();
        let mut i: u8 = 0;
        while i < count
            invariant
                i <= count,
                entries@.len() == i,
                count as int == if n % 256 > E820_MAX_ENTRIES { E820_MAX_ENTRIES as int } else { (n % 256) as int },
                info.memory_map() matches Some(m) ==> n == m.len() && forall|j: int|
                    0 <= j < i ==> #[trigger] entries@[j] == m[j],
            decreases count - i,
        {
            entries.push(info.entry(i as usize));
            i = i + 1;
        }
        self.set_table(entries.as_slice());
        assert(entries@.len() == self.entry_count());
    }

    /// The bytes of the zero page.
    pub fn to_bytes(&self) -> (r: Vec<u8>)
        requires
            self.wf(),
        ensures
            r@ == params_bytes(*self),
    {
        let mut v: Vec<u8> = Vec::new();
        push_zeros(&mut v, 0x70);
        push_le(&mut v, self.acpi_rsdp_addr, 8);
        push_zeros(&mut v, 0x170);
        v.push(self.e820_entries);
        push_zeros(&mut v, 8);
        self.hdr.push_bytes(&mut v);
        push_zeros(&mut v, 0x68);
        let ghost before = v@;
        let mut i: usize = 0;
        assert(self.e820_table@.take(0) =~= Seq::<E820Entry>::empty());
        while i < self.e820_table.len()
            invariant
                i <= self.e820_table@.len(),
                v@ == before + e820_table_bytes(self.e820_table@.take(i as int)),
            decreases self.e820_table@.len() - i,
        {
            self.e820_table[i].push_bytes(&mut v);
            proof {
                assert(self.e820_table@.take(i + 1).drop_last() =~= self.e820_table@.take(i as int));
                assert(v@ =~= before + e820_table_bytes(self.e820_table@.take(i + 1)));
            }
            i = i + 1;
        }
        assert(self.e820_table@.take(self.e820_table@.len() as int) =~= self.e820_table@);
        push_zeros(&mut v, 0x330);
        v
    }
}

impl Default for Params {
    /// A zero page with every field zero.
    fn default() -> (p: Params)
        ensures
            p.wf(),
            p.acpi_rsdp_addr == 0,
            p.hdr == zero_header(),
            p.entry_count() == 0,
            forall|i: int| 0 <= i < E820_MAX_ENTRIES ==> #[trigger] p.table()[i] == zero_e820(),
    {
        let mut t: Vec<E820Entry> = Vec::new();
        while t.len() < E820_MAX_ENTRIES
            invariant
                t@.len() <= E820_MAX_ENTRIES,
                forall|i: int| 0 <= i < t@.len() ==> #[trigger] t@[i] == zero_e820(),
            decreases E820_MAX_ENTRIES - t@.len(),
        {
            t.push(E820Entry { addr: 0, size: 0, entry_type: 0 });
        }
        Params { acpi_rsdp_addr: 0, hdr: Header::zeroed(), e820_entries: 0, e820_table: t }
    }
}

} // verus!
