//! The data structures behind the minimal EFI environment: the memory map
//! allocator, the variable store, in-memory files and device paths, and how
//! the memory map is first filled.
pub mod allocator;
pub mod allocator_laws;
pub mod block;
pub mod console;
pub mod device_path;
pub mod device_path_laws;
pub mod file;
pub mod mem_file;
pub mod services;
pub mod var;
pub mod var_laws;

use vstd::prelude::*;
use crate::bootinfo::{EntryType, MemoryEntry};
use crate::layout::{MemoryAttribute, MemoryDescriptor};
use allocator::{
    allocation_result, fields_are, Allocator, Status, ALLOCATE_ADDRESS, CONVENTIONAL_MEMORY, LOADER_CODE,
    MAX_ALLOCATIONS, MEMORY_WB, RUNTIME_SERVICES_CODE, RUNTIME_SERVICES_DATA, UNUSABLE_MEMORY,
};

verus! {

/// Size of the pages that the allocator hands out.
pub const PAGE_SIZE: u64 = 4096;

/// What filling the memory map asks of the allocator.
#[derive(Clone, Copy, Debug, PartialEq, Eq, Structural)]
pub enum Request {
    /// A range of the memory map as the boot protocol gives it.
    Initial { memory_type: u32, page_count: u64, address: u64, attributes: u64 },
    /// Pages to take at a given address.
    Allocate { memory_type: u32, page_count: u64, address: u64 },
}

/// The conventional memory that the RAM entries of `entries` give.
pub open spec fn ram_requests(entries: Seq<MemoryEntry>) -> Seq<Request>
    decreases entries.len(),
{
    if entries.len() == 0 {
        Seq::empty()
    } else {
        let e = entries.last();
        let rest = ram_requests(entries.drop_last());
        if e.entry_type == EntryType::Ram {
            rest.push(
                Request::Initial {
                    memory_type: CONVENTIONAL_MEMORY,
                    page_count: (e.size / PAGE_SIZE) as u64,
                    address: e.addr,
                    attributes: MEMORY_WB,
                },
            )
        } else {
            rest
        }
    }
}

/// The memory type of the firmware's memory that holds `attribute`.
pub open spec fn layout_type(attribute: MemoryAttribute) -> u32 {
    match attribute {
        MemoryAttribute::Code => RUNTIME_SERVICES_CODE,
        MemoryAttribute::Data => RUNTIME_SERVICES_DATA,
        MemoryAttribute::Unusable => UNUSABLE_MEMORY,
    }
}

/// The request that takes the range of `d`.
pub open spec fn layout_request(d: MemoryDescriptor) -> Request {
    Request::Allocate {
        memory_type: layout_type(d.attribute),
        page_count: ((d.end - d.start) / PAGE_SIZE as int) as u64,
        address: d.start as u64,
    }
}

/// What filling the memory map asks, in order: the RAM of the memory map,
/// the firmware's own ranges, the device tree where there is one, and the
/// loaded image.
pub open spec fn requests_of(
    entries: Seq<MemoryEntry>,
    layout: Seq<MemoryDescriptor>,
    fdt: Option<MemoryEntry>,
    image_address: u64,
    image_size: u64,
) -> Seq<Request> {
    let fdt_part = match fdt {
        Some(e) => seq![
            Request::Allocate {
                memory_type: UNUSABLE_MEMORY,
                page_count: ((e.size + 4095) / 4096) as u64,
                address: e.addr,
            },
        ],
        None => Seq::empty(),
    };
    ram_requests(entries) + layout.map_values(|d: MemoryDescriptor| layout_request(d)) + fdt_part + seq![
        Request::Allocate { memory_type: LOADER_CODE, page_count: image_size / PAGE_SIZE, address: image_address },
    ]
}

/// Whether the ranges of the firmware's memory start and end pages.
pub open spec fn layout_aligned(layout: Seq<MemoryDescriptor>) -> bool {
    forall|i: int|
        0 <= i < layout.len() ==> layout[i].start % 4096 == 0 && layout[i].end % 4096 == 0 && layout[i].start
            <= layout[i].end
}

proof fn lemma_ram_requests_len(entries: Seq<MemoryEntry>)
    ensures
        ram_requests(entries).len() <= entries.len(),
    decreases entries.len(),
{
    if entries.len() > 0 {
        lemma_ram_requests_len(entries.drop_last());
    }
}

/// What filling the memory map from `entries`, the firmware's ranges
/// `layout`, the device tree `fdt` and the image loaded at `image_address`
/// asks of the allocator.
pub fn allocator_requests(
    entries: &[MemoryEntry],
    layout: &[MemoryDescriptor],
    fdt: Option<MemoryEntry>,
    image_address: u64,
    image_size: u64,
) -> (r: Vec<Request>)
    requires
        layout_aligned(layout@),
        fdt matches Some(e) ==> e.size <= u64::MAX - 4095,
    ensures
        r@ == requests_of(entries@, layout@, fdt, image_address, image_size),
{
    let mut r: Vec<Request> = Vec::new();
    let mut i: usize = 0;
    while i < entries.len()
        invariant
            i <= entries@.len(),
            r@ == ram_requests(entries@.take(i as int)),
        decreases entries@.len() - i,
    {
        let e = entries[i];
        assert(entries@.take(i + 1).drop_last() =~= entries@.take(i as int));
        if e.entry_type == EntryType::Ram {
            r.push(
                Request::Initial {
                    memory_type: CONVENTIONAL_MEMORY,
                    page_count: e.size / PAGE_SIZE,
                    address: e.addr,
                    attributes: MEMORY_WB,
                },
            );
        }
        i = i + 1;
    }
    assert(entries@.take(entries@.len() as int) =~= entries@);
    let ghost ram = r@;
    let mut j: usize = 0;
    while j < layout.len()
        invariant
            j <= layout@.len(),
            layout_aligned(layout@),
            r@ == ram + layout@.take(j as int).map_values(|d: MemoryDescriptor| layout_request(d)),
        decreases layout@.len() - j,
    {
        let d = layout[j];
        let memory_type = match d.attribute {
            MemoryAttribute::Code => RUNTIME_SERVICES_CODE,
            MemoryAttribute::Data => RUNTIME_SERVICES_DATA,
            MemoryAttribute::Unusable => UNUSABLE_MEMORY,
        };
        let page_count = d.page_count() as u64;
        let address = d.range_start() as u64;
        r.push(Request::Allocate { memory_type, page_count, address });
        assert(layout@.take(j + 1).map_values(|d: MemoryDescriptor| layout_request(d)) =~= layout@.take(
            j as int,
        ).map_values(|d: MemoryDescriptor| layout_request(d)).push(layout_request(d)));
        j = j + 1;
    }
    assert(layout@.take(layout@.len() as int) =~= layout@);
    match fdt {
        Some(e) => {
            r.push(Request::Allocate { memory_type: UNUSABLE_MEMORY, page_count: (e.size + 4095) / 4096, address: e.addr });
        },
        None => {},
    }
    r.push(Request::Allocate { memory_type: LOADER_CODE, page_count: image_size / PAGE_SIZE, address: image_address });
    proof {
        let fdt_part = match fdt {
            Some(e) => seq![
                Request::Allocate {
                    memory_type: UNUSABLE_MEMORY,
                    page_count: ((e.size + 4095) / 4096) as u64,
                    address: e.addr,
                },
            ],
            None => Seq::<Request>::empty(),
        };
        assert(r@ =~= requests_of(entries@, layout@, fdt, image_address, image_size));
    }
    r
}

/// Whether a request of the memory map's RAM stays within the address
/// space.
pub open spec fn request_fits(q: Request) -> bool {
    q matches Request::Initial { page_count, address, .. } ==> address + PAGE_SIZE * page_count <= u64::MAX
}

/// Whether memory map `ds2` is what request `q` leaves of memory map `ds`
/// (pages of `page_size` bytes): an initial range is appended where there
/// is room, an allocation is made as `allocate_pages` makes it.
pub open spec fn applied(ds: Seq<allocator::MemoryDescriptor>, q: Request, ds2: Seq<allocator::MemoryDescriptor>, page_size: u64) -> bool {
    match q {
        Request::Initial { memory_type, page_count, address, attributes } => if ds.len() < MAX_ALLOCATIONS {
            &&& ds2.len() == ds.len() + 1
            &&& ds2.take(ds.len() as int) == ds
            &&& fields_are(ds2.last(), memory_type, page_count, address, attributes)
        } else {
            ds2 == ds
        },
        Request::Allocate { memory_type, page_count, address } => exists|st: (Status, u64)|
            allocation_result(ds, ds2, ALLOCATE_ADDRESS, memory_type, page_count, address, page_size, st),
    }
}

/// Whether `trace` is the memory maps that applying `qs` in order to the
/// first of them goes through.
pub open spec fn applied_in_order(trace: Seq<Seq<allocator::MemoryDescriptor>>, qs: Seq<Request>, page_size: u64) -> bool {
    &&& trace.len() == qs.len() + 1
    &&& forall|i: int| 0 <= i < qs.len() ==> #[trigger] applied(trace[i], qs[i], trace[i + 1], page_size)
}

/// Fills the memory map of `allocator` (of 4 KiB pages): the RAM of the
/// memory map `entries` as conventional memory, then the firmware's own
/// ranges, the device tree and the loaded image taken at their addresses.
/// Returns the requests made, in order.
pub fn populate_allocator(
    allocator: &mut Allocator,
    entries: &[MemoryEntry],
    layout: &[MemoryDescriptor],
    fdt: Option<MemoryEntry>,
    image_address: u64,
    image_size: u64,
) -> (r: Vec<Request>)
    requires
        old(allocator).wf(),
        old(allocator).spec_page_size() == PAGE_SIZE,
        old(allocator).spec_key() + entries@.len() + layout@.len() + 2 < usize::MAX,
        layout_aligned(layout@),
        fdt matches Some(e) ==> e.size <= u64::MAX - 4095,
        forall|i: int| 0 <= i < entries@.len() ==> entries@[i].addr + entries@[i].size <= u64::MAX,
    ensures
        r@ == requests_of(entries@, layout@, fdt, image_address, image_size),
        final(allocator).wf(),
        final(allocator).spec_page_size() == PAGE_SIZE,
        final(allocator).spec_key() <= old(allocator).spec_key() + r@.len(),
        exists|trace: Seq<Seq<allocator::MemoryDescriptor>>|
            {
                &&& applied_in_order(trace, r@, PAGE_SIZE)
                &&& trace[0] == old(allocator).descriptors()
                &&& trace.last() == final(allocator).descriptors()
            },
{
    let requests = allocator_requests(entries, layout, fdt, image_address, image_size);
    proof {
        lemma_ram_requests_len(entries@);
        lemma_ram_fits(entries@);
        assert(requests@.len() <= entries@.len() + layout@.len() + 2);
    }
    let ghost key0 = allocator.spec_key();
    let ghost mut trace: Seq<Seq<allocator::MemoryDescriptor>> = seq![allocator.descriptors()];
    let mut k: usize = 0;
    while k < requests.len()
        invariant
            trace.len() == k + 1,
            trace[0] == old(allocator).descriptors(),
            trace.last() == allocator.descriptors(),
            forall|i: int| 0 <= i < k ==> #[trigger] applied(trace[i], requests@[i], trace[i + 1], PAGE_SIZE),
            k <= requests@.len(),
            requests@.len() <= entries@.len() + layout@.len() + 2,
            key0 + entries@.len() + layout@.len() + 2 < usize::MAX,
            requests@ == requests_of(entries@, layout@, fdt, image_address, image_size),
            forall|q: int| 0 <= q < requests@.len() ==> request_fits(#[trigger] requests@[q]),
            allocator.wf(),
            allocator.spec_page_size() == PAGE_SIZE,
            allocator.spec_key() <= key0 + k,
        decreases requests@.len() - k,
    {
        let ghost before = allocator.descriptors();
        match requests[k] {
            Request::Initial { memory_type, page_count, address, attributes } => {
                assert(request_fits(requests@[k as int]));
                proof {
                    allocator.lemma_len_bound();
                }
                allocator.add_initial_allocation(memory_type, page_count, address, attributes);
            },
            Request::Allocate { memory_type, page_count, address } => {
                let st = allocator.allocate_pages(ALLOCATE_ADDRESS, memory_type, page_count, address);
            },
        }
        proof {
            assert(applied(before, requests@[k as int], allocator.descriptors(), PAGE_SIZE));
            trace = trace.push(allocator.descriptors());
            assert forall|i: int| 0 <= i < k + 1 implies #[trigger] applied(
                trace[i],
                requests@[i],
                trace[i + 1],
                PAGE_SIZE,
            ) by {
                if i < k {
                    assert(trace[i] == trace.drop_last()[i]);
                }
            }
        }
        k = k + 1;
    }
    requests
}

proof fn lemma_ram_fits(entries: Seq<MemoryEntry>)
    requires
        forall|i: int| 0 <= i < entries.len() ==> entries[i].addr + entries[i].size <= u64::MAX,
    ensures
        forall|q: int| 0 <= q < ram_requests(entries).len() ==> request_fits(#[trigger] ram_requests(entries)[q]),
    decreases entries.len(),
{
    if entries.len() > 0 {
        let rest = entries.drop_last();
        assert forall|i: int| 0 <= i < rest.len() implies rest[i].addr + rest[i].size <= u64::MAX by {
            assert(rest[i] == entries[i]);
        }
        lemma_ram_fits(rest);
        let e = entries.last();
        assert(e.addr + e.size <= u64::MAX);
        assert(PAGE_SIZE * (e.size / PAGE_SIZE) <= e.size) by (nonlinear_arith);
        let rr = ram_requests(rest);
        assert forall|q: int| 0 <= q < ram_requests(entries).len() implies request_fits(
            #[trigger] ram_requests(entries)[q],
        ) by {
            if q < rr.len() {
                assert(ram_requests(entries)[q] == rr[q]);
            }
        }
    }
}

/// The 16 bytes of the GUID with these fields, as EFI lays them out.
pub open spec fn guid_bytes(time_low: u32, time_mid: u16, time_hi: u16, clk_hi: u8, clk_low: u8, node: Seq<u8>) -> Seq<u8> {
    crate::bytes::le_bytes(time_low as int, 4) + crate::bytes::le_bytes(time_mid as int, 2) + crate::bytes::le_bytes(
        time_hi as int,
        2,
    ) + seq![clk_hi, clk_low] + node
}

pub(crate) fn make_guid(time_low: u32, time_mid: u16, time_hi: u16, clk_hi: u8, clk_low: u8, node: &[u8]) -> (r: Vec<u8>)
    ensures
        r@ == guid_bytes(time_low, time_mid, time_hi, clk_hi, clk_low, node@),
{
    let mut r: Vec<u8> = Vec::new();
    crate::bytes::push_le(&mut r, time_low as u64, 4);
    crate::bytes::push_le(&mut r, time_mid as u64, 2);
    crate::bytes::push_le(&mut r, time_hi as u64, 2);
    r.push(clk_hi);
    r.push(clk_low);
    crate::common::append_bytes(&mut r, node);
    assert(r@ =~= guid_bytes(time_low, time_mid, time_hi, clk_hi, clk_low, node@));
    r
}

/// The GUID of the device tree configuration table.
pub open spec fn fdt_guid() -> Seq<u8> {
    guid_bytes(0xb1b621d5, 0xf19c, 0x41a5, 0x83, 0x0b, seq![0xd9u8, 0x15, 0x2c, 0x69, 0xaa, 0xe0])
}

/// The GUID of the ACPI 2.0 configuration table.
pub open spec fn acpi_guid() -> Seq<u8> {
    guid_bytes(0x8868_e871, 0xe4f1, 0x11d3, 0xbc, 0x22, seq![0x00u8, 0x80, 0xc7, 0x3c, 0x88, 0x81])
}

/// The GUID of the vendor table given where there is no other.
pub open spec fn vendor_guid() -> Seq<u8> {
    guid_bytes(0x678a_9665, 0x9957, 0x4e7c, 0xa6, 0x27, seq![0x34u8, 0xc9, 0x46, 0x3d, 0xd2, 0xac])
}

/// An entry of the EFI configuration table: a GUID and the address of the
/// table it names.
#[derive(Debug)]
pub struct ConfigurationEntry {
    pub guid: Vec<u8>,
    pub table: u64,
}

/// The configuration tables handed to an EFI image: the device tree where
/// it is to be given and there is one, the ACPI RSDP where there is one,
/// and otherwise a vendor table at `vendor_data`.
pub fn configuration_tables(fdt: Option<u64>, rsdp: Option<u64>, vendor_data: u64, with_fdt: bool) -> (r: Vec<
    ConfigurationEntry,
>)
    ensures
        ({
            let with_f = with_fdt && fdt is Some;
            let n = (if with_f { 1int } else { 0 }) + (if rsdp is Some { 1int } else { 0 });
            &&& r@.len() == if n == 0 { 1 } else { n }
            &&& with_f ==> r@[0].guid@ == fdt_guid() && r@[0].table == fdt->0
            &&& rsdp matches Some(a) ==> r@[n - 1].guid@ == acpi_guid() && r@[n - 1].table == a
            &&& n == 0 ==> r@[0].guid@ == vendor_guid() && r@[0].table == vendor_data
        }),
{
    let mut r: Vec<ConfigurationEntry> = Vec::new();
    if with_fdt {
        match fdt {
            Some(a) => {
                let node: Vec<u8> = vec![0xd9u8, 0x15, 0x2c, 0x69, 0xaa, 0xe0];
                let guid = make_guid(0xb1b621d5, 0xf19c, 0x41a5, 0x83, 0x0b, node.as_slice());
                assert(node@ =~= seq![0xd9u8, 0x15, 0x2c, 0x69, 0xaa, 0xe0]);
                r.push(ConfigurationEntry { guid, table: a });
            },
            None => {},
        }
    }
    match rsdp {
        Some(a) => {
            let node: Vec<u8> = vec![0x00u8, 0x80, 0xc7, 0x3c, 0x88, 0x81];
            let guid = make_guid(0x8868_e871, 0xe4f1, 0x11d3, 0xbc, 0x22, node.as_slice());
            assert(node@ =~= seq![0x00u8, 0x80, 0xc7, 0x3c, 0x88, 0x81]);
            r.push(ConfigurationEntry { guid, table: a });
        },
        None => {},
    }
    if r.len() == 0 {
        let node: Vec<u8> = vec![0x34u8, 0xc9, 0x46, 0x3d, 0xd2, 0xac];
        let guid = make_guid(0x678a_9665, 0x9957, 0x4e7c, 0xa6, 0x27, node.as_slice());
        assert(node@ =~= seq![0x34u8, 0xc9, 0x46, 0x3d, 0xd2, 0xac]);
        r.push(ConfigurationEntry { guid, table: vendor_data });
    }
    r
}

/// A time of day as EFI gives it.
#[derive(Clone, Copy, Debug, PartialEq, Eq, Structural)]
pub struct Time {
    pub year: u16,
    pub month: u8,
    pub day: u8,
    pub hour: u8,
    pub minute: u8,
    pub second: u8,
    pub nanosecond: u32,
    pub timezone: i16,
    pub daylight: u8,
}

/// The EFI time of the clock's date (years since 2000, month, day) and
/// time of day (hour, minute, second).
pub fn efi_time(date: (u8, u8, u8), time: (u8, u8, u8)) -> (r: Time)
    ensures
        r == (Time {
            year: (2000 + date.0) as u16,
            month: date.1,
            day: date.2,
            hour: time.0,
            minute: time.1,
            second: time.2,
            nanosecond: 0,
            timezone: 0,
            daylight: 0,
        }),
{
    Time {
        year: 2000 + date.0 as u16,
        month: date.1,
        day: date.2,
        hour: time.0,
        minute: time.1,
        second: time.2,
        nanosecond: 0,
        timezone: 0,
        daylight: 0,
    }
}

} // verus!
