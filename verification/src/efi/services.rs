//! What the boot services decide when a loaded image calls them: the
//! configuration table it may change, the handles it may look up, the
//! protocols a handle opens and the room the memory map takes.
use vstd::prelude::*;
use super::allocator::{
    allocation_result, convert_spec, desc_end, first_fit, virtual_update, Allocator, MemoryDescriptor, Status,
    ALLOCATE_ADDRESS, ALLOCATE_ANY_PAGES, LOADER_CODE,
};
use crate::fat::Read;
use crate::mem::{changes_only, written, PhysicalMemory};
use crate::pe::{load_address, pe_covered, pe_image, pe_parse, Loader, PE_HEADER_BYTES};
use super::{make_guid, guid_bytes, ConfigurationEntry};
use crate::common::{append_bytes, bytes_equal};

verus! {

/// Number of slots of the configuration table.
pub const MAX_CT_ENTRIES: usize = 8;

/// The GUID of an unused slot: all zero.
pub open spec fn invalid_guid() -> Seq<u8> {
    Seq::new(16, |i: int| 0u8)
}

/// A slot of the configuration table as a GUID and a table address
/// (0 for none).
pub open spec fn slot_of(e: ConfigurationEntry) -> (Seq<u8>, u64) {
    (e.guid@, e.table)
}

/// The first slot at `k` or after whose GUID is `g`, or -1.
pub open spec fn first_guid_from(s: Seq<(Seq<u8>, u64)>, g: Seq<u8>, k: int) -> int
    decreases s.len() - k,
{
    if k < 0 || k >= s.len() {
        -1
    } else if s[k].0 == g {
        k
    } else {
        first_guid_from(s, g, k + 1)
    }
}

/// The first unused slot at `k` or after, or -1.
pub open spec fn first_free_from(s: Seq<(Seq<u8>, u64)>, k: int) -> int
    decreases s.len() - k,
{
    if k < 0 || k >= s.len() {
        -1
    } else if s[k].0 == invalid_guid() && s[k].1 == 0 {
        k
    } else {
        first_free_from(s, k + 1)
    }
}

/// What installing `table` under `guid` answers and leaves: the slots and
/// the number of entries. A table of 0 removes the entry.
pub open spec fn install_outcome(s: Seq<(Seq<u8>, u64)>, count: int, guid: Seq<u8>, table: u64) -> (
    Status,
    Seq<(Seq<u8>, u64)>,
    int,
) {
    let k = first_guid_from(s, guid, 0);
    let e = first_free_from(s, 0);
    if k >= 0 {
        if table == 0 {
            (Status::Success, s.update(k, (invalid_guid(), 0u64)), count - 1)
        } else {
            (Status::Success, s.update(k, (s[k].0, table)), count)
        }
    } else if table == 0 {
        (Status::NotFound, s, count)
    } else if e >= 0 {
        (Status::Success, s.update(e, (guid, table)), count + 1)
    } else {
        (Status::OutOfResources, s, count)
    }
}

/// The configuration table that an image sees: a fixed number of slots
/// and the number of entries announced beside them.
pub struct ConfigTable {
    slots: Vec<ConfigurationEntry>,
    count: usize,
}

fn zero_guid() -> (r: Vec<u8>)
    ensures
        r@ == invalid_guid(),
{
    let mut r: Vec<u8> = Vec::new();
    let mut i: usize = 0;
    while i < 16
        invariant
            i <= 16,
            r@ == Seq::new(i as nat, |j: int| 0u8),
        decreases 16 - i,
    {
        r.push(0u8);
        i = i + 1;
        assert(r@ =~= Seq::new(i as nat, |j: int| 0u8));
    }
    r
}

fn copy_guid(g: &[u8]) -> (r: Vec<u8>)
    ensures
        r@ == g@,
{
    let mut r: Vec<u8> = Vec::new();
    append_bytes(&mut r, g);
    assert(r@ =~= g@);
    r
}

impl ConfigTable {
    /// The slots, in order.
    pub closed spec fn slots(&self) -> Seq<(Seq<u8>, u64)> {
        self.slots@.map_values(|e: ConfigurationEntry| slot_of(e))
    }

    /// The number of entries announced to the image.
    pub closed spec fn count(&self) -> int {
        self.count as int
    }

    pub closed spec fn wf(&self) -> bool {
        self.slots@.len() == MAX_CT_ENTRIES
    }

    /// The table handed to an image: `initial` in the first slots, the
    /// others unused, and one entry announced.
    pub fn new(initial: Vec<ConfigurationEntry>) -> (t: ConfigTable)
        requires
            initial@.len() <= MAX_CT_ENTRIES,
        ensures
            t.wf(),
            t.count() == 1,
            t.slots() == initial@.map_values(|e: ConfigurationEntry| slot_of(e)) + Seq::new(
                (MAX_CT_ENTRIES - initial@.len()) as nat,
                |i: int| (invalid_guid(), 0u64),
            ),
    {
        let ghost init = initial@.map_values(|e: ConfigurationEntry| slot_of(e));
        let n = initial.len();
        let mut slots = initial;
        let mut i: usize = n;
        while i < MAX_CT_ENTRIES
            invariant
                n <= i <= MAX_CT_ENTRIES,
                slots@.len() == i,
                slots@.map_values(|e: ConfigurationEntry| slot_of(e)) == init + Seq::new(
                    (i - n) as nat,
                    |j: int| (invalid_guid(), 0u64),
                ),
            decreases MAX_CT_ENTRIES - i,
        {
            let ghost before = slots@;
            slots.push(ConfigurationEntry { guid: zero_guid(), table: 0 });
            i = i + 1;
            assert(slots@.map_values(|e: ConfigurationEntry| slot_of(e)) =~= before.map_values(
                |e: ConfigurationEntry| slot_of(e),
            ).push((invalid_guid(), 0u64)));
            assert(init + Seq::new((i - n) as nat, |j: int| (invalid_guid(), 0u64)) =~= (init + Seq::new(
                (i - 1 - n) as nat,
                |j: int| (invalid_guid(), 0u64),
            )).push((invalid_guid(), 0u64)));
        }
        ConfigTable { slots, count: 1 }
    }

    /// The number of entries announced to the image.
    pub fn number_of_entries(&self) -> (r: usize)
        ensures
            r == self.count(),
    {
        self.count
    }

    /// The slots, for the table the image reads.
    pub fn entries(&self) -> (r: &[ConfigurationEntry])
        ensures
            r@.map_values(|e: ConfigurationEntry| slot_of(e)) == self.slots(),
    {
        self.slots.as_slice()
    }
}

/// Installs `table` under `guid`, replacing the table of an entry with that
/// GUID, removing that entry where `table` is 0, or else taking the first
/// unused slot. Removing an entry that is not there answers `NotFound`, and
/// a full table `OutOfResources`.
pub fn install_configuration_table(ct: &mut ConfigTable, guid: &[u8], table: u64) -> (r: Status)
    requires
        old(ct).wf(),
        old(ct).count() < usize::MAX,
        table == 0 && first_guid_from(old(ct).slots(), guid@, 0) >= 0 ==> old(ct).count() > 0,
    ensures
        final(ct).wf(),
        (r, final(ct).slots(), final(ct).count()) == install_outcome(
            old(ct).slots(),
            old(ct).count(),
            guid@,
            table,
        ),
{
    let ghost s = ct.slots();
    let ghost c = ct.count();
    let mut i: usize = 0;
    while i < ct.slots.len()
        invariant
            ct.wf(),
            ct.slots() == s,
            ct.count() == c,
            c == old(ct).count(),
            s == old(ct).slots(),
            c < usize::MAX,
            table == 0 && first_guid_from(s, guid@, 0) >= 0 ==> c > 0,
            i <= MAX_CT_ENTRIES,
            first_guid_from(s, guid@, 0) == first_guid_from(s, guid@, i as int),
        decreases MAX_CT_ENTRIES - i,
    {
        proof {
            assert(s[i as int] == slot_of(ct.slots@[i as int]));
        }
        if bytes_equal(ct.slots[i].guid.as_slice(), guid) {
            if table == 0 {
                ct.slots.set(i, ConfigurationEntry { guid: zero_guid(), table: 0 });
                ct.count = ct.count - 1;
            } else {
                ct.slots.set(i, ConfigurationEntry { guid: copy_guid(guid), table });
            }
            proof {
                assert(first_guid_from(s, guid@, 0) == i);
                if table == 0 {
                    assert(ct.slots() =~= s.update(i as int, (invalid_guid(), 0u64)));
                } else {
                    assert(ct.slots() =~= s.update(i as int, (s[i as int].0, table)));
                }
            }
            return Status::Success;
        }
        i = i + 1;
    }
    proof {
        assert(first_guid_from(s, guid@, 0) == -1);
    }
    if table == 0 {
        return Status::NotFound;
    }
    let mut i: usize = 0;
    while i < ct.slots.len()
        invariant
            ct.wf(),
            ct.slots() == s,
            ct.count() == c,
            c == old(ct).count(),
            s == old(ct).slots(),
            c < usize::MAX,
            i <= MAX_CT_ENTRIES,
            first_free_from(s, 0) == first_free_from(s, i as int),
            first_guid_from(s, guid@, 0) == -1,
            table != 0,
        decreases MAX_CT_ENTRIES - i,
    {
        proof {
            assert(s[i as int] == slot_of(ct.slots@[i as int]));
        }
        if ct.slots[i].table == 0 {
            let zero = zero_guid();
            if bytes_equal(ct.slots[i].guid.as_slice(), zero.as_slice()) {
                ct.slots.set(i, ConfigurationEntry { guid: copy_guid(guid), table });
                ct.count = ct.count + 1;
                proof {
                    assert(first_free_from(s, 0) == i);
                    assert(ct.slots() =~= s.update(i as int, (guid@, table)));
                }
                return Status::Success;
            }
        }
        i = i + 1;
    }
    proof {
        assert(first_free_from(s, 0) == -1);
    }
    Status::OutOfResources
}


/// The node shared by the GUIDs of the protocols below.
pub open spec fn protocol_node() -> Seq<u8> {
    seq![0x00u8, 0xa0, 0xc9, 0x69, 0x72, 0x3b]
}

/// The GUID of the block I/O protocol.
pub open spec fn block_io_guid() -> Seq<u8> {
    guid_bytes(0x964e5b21, 0x6459, 0x11d2, 0x8e, 0x39, protocol_node())
}

/// The GUID of the loaded image protocol.
pub open spec fn loaded_image_guid() -> Seq<u8> {
    guid_bytes(0x5b1b31a1, 0x9562, 0x11d2, 0x8e, 0x3f, protocol_node())
}

/// The GUID of the simple file system protocol.
pub open spec fn file_system_guid() -> Seq<u8> {
    guid_bytes(0x964e5b22, 0x6459, 0x11d2, 0x8e, 0x39, protocol_node())
}

/// The GUID of the device path protocol.
pub open spec fn device_path_guid() -> Seq<u8> {
    guid_bytes(0x09576e91, 0x6d3f, 0x11d2, 0x8e, 0x39, protocol_node())
}

fn node_bytes() -> (r: Vec<u8>)
    ensures
        r@ == protocol_node(),
{
    let r: Vec<u8> = vec![0x00u8, 0xa0, 0xc9, 0x69, 0x72, 0x3b];
    assert(r@ =~= protocol_node());
    r
}

/// Size in bytes of a handle.
pub const HANDLE_SIZE: usize = 8;

/// What a search for the handles of a protocol answers: the status, the
/// size to report and the handles to hand back.
pub struct HandleSearch {
    pub status: Status,
    pub size: usize,
    pub handles: Vec<u64>,
}

/// Looks up the handles of a protocol in a buffer of `size` bytes. Only
/// block devices, whose handles are `block_handles`, can be looked up; a
/// buffer too small for them answers `BufferTooSmall` and the size needed.
pub fn locate_handle(guid: &[u8], size: usize, block_handles: &[u64]) -> (r: HandleSearch)
    requires
        block_handles@.len() * HANDLE_SIZE <= usize::MAX,
    ensures
        guid@ != block_io_guid() ==> r.status == Status::Unsupported && r.size == size && r.handles@.len() == 0,
        guid@ == block_io_guid() ==> r.size == block_handles@.len() * HANDLE_SIZE,
        guid@ == block_io_guid() && size < block_handles@.len() * HANDLE_SIZE ==> r.status
            == Status::BufferTooSmall && r.handles@.len() == 0,
        guid@ == block_io_guid() && size >= block_handles@.len() * HANDLE_SIZE ==> r.status
            == Status::Success && r.handles@ == block_handles@,
{
    let node = node_bytes();
    let block_io = make_guid(0x964e5b21, 0x6459, 0x11d2, 0x8e, 0x39, node.as_slice());
    if !bytes_equal(guid, block_io.as_slice()) {
        return HandleSearch { status: Status::Unsupported, size, handles: Vec::new() };
    }
    let needed = block_handles.len() * HANDLE_SIZE;
    if size < needed {
        return HandleSearch { status: Status::BufferTooSmall, size: needed, handles: Vec::new() };
    }
    let mut handles: Vec<u64> = Vec::new();
    let mut i: usize = 0;
    while i < block_handles.len()
        invariant
            i <= block_handles@.len(),
            handles@ == block_handles@.take(i as int),
        decreases block_handles@.len() - i,
    {
        handles.push(block_handles[i]);
        i = i + 1;
        assert(handles@ =~= block_handles@.take(i as int));
    }
    assert(handles@ =~= block_handles@);
    HandleSearch { status: Status::Success, size: needed, handles }
}

/// What a handle stands for.
#[derive(Clone, Copy, Debug, PartialEq, Eq, Structural)]
pub enum HandleKind {
    /// A handle of no known kind.
    Untyped,
    Block,
    FileSystem,
    LoadedImage,
}

/// The interface that opening a protocol on a handle hands out.
#[derive(Clone, Copy, Debug, PartialEq, Eq, Structural)]
pub enum Interface {
    /// The loaded image protocol of an image handle.
    LoadedImage,
    /// The file system protocol of a file system handle.
    FileSystem,
    /// The device path of a block device handle.
    DevicePath,
    /// The device path of the block device (by its index) that a file
    /// system lies on.
    PartitionDevicePath(u32),
    /// The block I/O protocol of a block device handle.
    BlockIo,
}

/// The interface that opening the protocol `guid` on a handle of `kind`
/// hands out, where the handle has one. `block_part_id` is the block
/// device that a file system handle lies on, where it is known.
pub open spec fn protocol_of(kind: HandleKind, guid: Seq<u8>, block_part_id: Option<u32>) -> Option<Interface> {
    if guid == loaded_image_guid() && kind == HandleKind::LoadedImage {
        Some(Interface::LoadedImage)
    } else if guid == file_system_guid() && kind == HandleKind::FileSystem {
        Some(Interface::FileSystem)
    } else if guid == device_path_guid() && kind == HandleKind::Block {
        Some(Interface::DevicePath)
    } else if guid == device_path_guid() && kind == HandleKind::FileSystem && block_part_id is Some {
        Some(Interface::PartitionDevicePath(block_part_id->0))
    } else if guid == block_io_guid() && kind == HandleKind::Block {
        Some(Interface::BlockIo)
    } else {
        None
    }
}

/// Which interface opening the protocol `guid` on a handle of `kind`
/// hands out; `None` where the handle does not support it.
pub fn open_protocol(kind: HandleKind, guid: &[u8], block_part_id: Option<u32>) -> (r: Option<Interface>)
    ensures
        r == protocol_of(kind, guid@, block_part_id),
{
    let node = node_bytes();
    let loaded_image = make_guid(0x5b1b31a1, 0x9562, 0x11d2, 0x8e, 0x3f, node.as_slice());
    let file_system = make_guid(0x964e5b22, 0x6459, 0x11d2, 0x8e, 0x39, node.as_slice());
    let device_path = make_guid(0x09576e91, 0x6d3f, 0x11d2, 0x8e, 0x39, node.as_slice());
    let block_io = make_guid(0x964e5b21, 0x6459, 0x11d2, 0x8e, 0x39, node.as_slice());
    let is_image = match kind {
        HandleKind::LoadedImage => true,
        _ => false,
    };
    let is_fs = match kind {
        HandleKind::FileSystem => true,
        _ => false,
    };
    let is_block = match kind {
        HandleKind::Block => true,
        _ => false,
    };
    if bytes_equal(guid, loaded_image.as_slice()) && is_image {
        return Some(Interface::LoadedImage);
    }
    if bytes_equal(guid, file_system.as_slice()) && is_fs {
        return Some(Interface::FileSystem);
    }
    if bytes_equal(guid, device_path.as_slice()) && is_block {
        return Some(Interface::DevicePath);
    }
    if bytes_equal(guid, device_path.as_slice()) && is_fs {
        match block_part_id {
            Some(id) => {
                return Some(Interface::PartitionDevicePath(id));
            },
            None => {},
        }
    }
    if bytes_equal(guid, block_io.as_slice()) && is_block {
        return Some(Interface::BlockIo);
    }
    None
}

/// Size in bytes of a memory map descriptor as the image reads it.
pub const DESCRIPTOR_SIZE: usize = 40;

/// Version of the memory map descriptors handed out.
pub const DESCRIPTOR_VERSION: u32 = 1;

/// What a request for the memory map answers: the status, the size to
/// report where one is reported, the descriptors to copy out and the map
/// key where it is handed out.
pub struct MemoryMapReply {
    pub status: Status,
    pub map_size: Option<usize>,
    pub descriptors: Vec<MemoryDescriptor>,
    pub key: Option<usize>,
}

/// Answers a request for the memory map of `a` into a buffer of
/// `map_size` bytes (`None` where no size was given); `has_key` says
/// whether the caller gave a place for the map key.
pub fn get_memory_map(a: &Allocator, map_size: Option<usize>, has_key: bool) -> (r: MemoryMapReply)
    requires
        a.wf(),
    ensures
        ({
            let needed = a.descriptors().len() * DESCRIPTOR_SIZE;
            match map_size {
                None => r.status == Status::InvalidParameter && r.map_size is None && r.descriptors@.len() == 0
                    && r.key is None,
                Some(size) => if size < needed {
                    r.status == Status::BufferTooSmall && r.map_size == Some(needed as usize)
                        && r.descriptors@.len() == 0 && r.key is None
                } else if !has_key {
                    r.status == Status::InvalidParameter && r.map_size is None && r.descriptors@.len() == 0
                        && r.key is None
                } else {
                    r.status == Status::Success && r.map_size == Some(needed as usize) && r.descriptors@
                        == a.descriptors() && r.key == Some(a.spec_key())
                },
            }
        }),
{
    let size = match map_size {
        None => {
            return MemoryMapReply {
                status: Status::InvalidParameter,
                map_size: None,
                descriptors: Vec::new(),
                key: None,
            };
        },
        Some(s) => s,
    };
    let count = a.get_descriptor_count();
    let needed = count * DESCRIPTOR_SIZE;
    if size < needed {
        return MemoryMapReply {
            status: Status::BufferTooSmall,
            map_size: Some(needed),
            descriptors: Vec::new(),
            key: None,
        };
    }
    if !has_key {
        return MemoryMapReply {
            status: Status::InvalidParameter,
            map_size: None,
            descriptors: Vec::new(),
            key: None,
        };
    }
    let mut out: Vec<MemoryDescriptor> = Vec::new();
    let mut i: usize = 0;
    while i < count
        invariant
            i <= count,
            out@.len() == i,
        decreases count - i,
    {
        out.push(MemoryDescriptor::empty());
        i = i + 1;
    }
    let n = a.get_descriptors(out.as_mut_slice());
    proof {
        assert(out@.take(n as int) =~= out@);
    }
    MemoryMapReply { status: Status::Success, map_size: Some(needed), descriptors: out, key: Some(a.get_map_key()) }
}

/// Moves the runtime services to the virtual addresses of `descriptors`:
/// the firmware's own pointers that the image keeps (`pointers`) are
/// mapped through them, then the memory map records their virtual starts.
/// A descriptor version other than the one handed out answers
/// `InvalidParameter` and changes nothing.
pub fn set_virtual_address_map(a: &mut Allocator, version: u32, descriptors: &[MemoryDescriptor], pointers: &[u64]) -> (r:
    (Status, Vec<u64>))
    requires
        old(a).wf(),
        version == DESCRIPTOR_VERSION ==> forall|i: int|
            0 <= i < descriptors@.len() ==> desc_end(#[trigger] descriptors@[i], old(a).spec_page_size()) <= u64::MAX
                && descriptors@[i].virtual_start + old(a).spec_page_size() * descriptors@[i].number_of_pages
                <= u64::MAX,
        version == DESCRIPTOR_VERSION ==> forall|i: int|
            0 <= i < pointers@.len() ==> convert_spec(descriptors@, 0, #[trigger] pointers@[i], old(a).spec_page_size())
                is Some,
    ensures
        final(a).wf(),
        version != DESCRIPTOR_VERSION ==> r.0 == Status::InvalidParameter && r.1@.len() == 0 && final(a).descriptors()
            == old(a).descriptors(),
        version == DESCRIPTOR_VERSION ==> {
            &&& (r.0, final(a).descriptors()) == virtual_update(old(a).descriptors(), descriptors@, 0)
            &&& r.1@.len() == pointers@.len()
            &&& forall|i: int|
                0 <= i < pointers@.len() ==> Some(#[trigger] r.1@[i]) == convert_spec(
                    descriptors@,
                    0,
                    pointers@[i],
                    old(a).spec_page_size(),
                )
        },
{
    if version != DESCRIPTOR_VERSION {
        return (Status::InvalidParameter, Vec::new());
    }
    let mut moved: Vec<u64> = Vec::new();
    let mut i: usize = 0;
    while i < pointers.len()
        invariant
            a.wf(),
            i <= pointers@.len(),
            moved@.len() == i,
            forall|k: int|
                0 <= k < descriptors@.len() ==> desc_end(#[trigger] descriptors@[k], a.spec_page_size()) <= u64::MAX
                    && descriptors@[k].virtual_start + a.spec_page_size() * descriptors@[k].number_of_pages
                    <= u64::MAX,
            forall|k: int|
                0 <= k < pointers@.len() ==> convert_spec(descriptors@, 0, #[trigger] pointers@[k], a.spec_page_size())
                    is Some,
            forall|k: int|
                0 <= k < i ==> Some(#[trigger] moved@[k]) == convert_spec(
                    descriptors@,
                    0,
                    pointers@[k],
                    a.spec_page_size(),
                ),
        decreases pointers@.len() - i,
    {
        let p = a.convert_internal_pointer(descriptors, pointers[i]);
        proof {
            assert(convert_spec(descriptors@, 0, pointers@[i as int], a.spec_page_size()) is Some);
        }
        moved.push(p.unwrap());
        i = i + 1;
    }
    let status = a.update_virtual_addresses(descriptors);
    (status, moved)
}

/// Number of pages that `size` bytes take with pages of `page_size` bytes.
pub open spec fn pages_for(size: int, page_size: u64) -> u64 {
    ((size + page_size - 1) / (page_size as int)) as u64
}

/// Loads the executable `file` for `machine` into free memory of `a` and
/// marks its pages as loader code: answers the entry point, the load
/// address and the size of the image. No free range large enough for the
/// file answers `OutOfResources`; a file that does not load answers
/// `DeviceError`, and neither touches the memory map or memory.
pub fn load_from_file<R: Read, M: PhysicalMemory>(a: &mut Allocator, file: &mut R, machine: u16, mem: &mut M) -> (r:
    Result<(u64, u64, u64), Status>)
    requires
        old(a).wf(),
        old(a).spec_key() < usize::MAX,
        old(a).spec_page_size() <= usize::MAX,
        old(file).file_size() + old(a).spec_page_size() - 1 <= usize::MAX,
        old(file).ready(),
    ensures
        final(a).wf(),
        ({
            let ps = old(a).spec_page_size();
            let ds = old(a).descriptors();
            let pages = pages_for(old(file).file_size() as int, ps);
            match first_fit(ds, 0, ALLOCATE_ANY_PAGES, pages, 0, ps) {
                None => r == Err::<(u64, u64, u64), Status>(Status::OutOfResources) && final(a).descriptors() == ds
                    && *final(mem) == *old(mem),
                Some(k) => {
                    &&& r is Err ==> r == Err::<(u64, u64, u64), Status>(Status::DeviceError) && final(a).descriptors()
                        == ds && *final(mem) == *old(mem)
                    &&& r matches Ok((entry, addr, size)) ==> {
                        &&& changes_only(*old(mem), *final(mem), addr as int, addr + size)
                        &&& exists|d: Seq<u8>|
                            {
                                &&& d.len() == PE_HEADER_BYTES
                                &&& #[trigger] pe_parse(d, machine) matches Ok(info)
                                &&& addr == load_address(info, ds[k].physical_start)
                                &&& entry == addr + info.entry_point
                                &&& size == info.image_size
                            }
                        &&& exists|st: (Status, u64)|
                            allocation_result(ds, final(a).descriptors(), ALLOCATE_ADDRESS, LOADER_CODE, pages, addr, ps, st)
                        &&& ({
                            let c = old(file).content();
                            let c0 = old(file).cursor();
                            let d = c.subrange(c0, c0 + PE_HEADER_BYTES);
                            0 <= c0 && c0 + PE_HEADER_BYTES <= c.len() ==> {
                                &&& pe_parse(d, machine) matches Ok(info)
                                &&& addr == load_address(info, ds[k].physical_start)
                                &&& pe_covered(c, d, info) ==> {
                                    &&& pe_image(c, d, info, addr) is Some
                                    &&& old(mem).bytes() matches Some(m) ==> final(mem).bytes() == Some(
                                        written(m, addr as int, pe_image(c, d, info, addr)->0),
                                    )
                                }
                            }
                        })
                    }
                },
            }
        }),
{
    let size = file.get_size();
    let pages = a.page_count(size as usize);
    let base = match a.find_free_pages(ALLOCATE_ANY_PAGES, pages, 0) {
        Some(b) => b,
        None => {
            return Err(Status::OutOfResources);
        },
    };
    let mut l = Loader::with_machine(file, machine);
    let (entry, addr, image_size) = match l.load(base, mem) {
        Ok(info) => info,
        Err(_) => {
            return Err(Status::DeviceError);
        },
    };
    let st = a.allocate_pages(ALLOCATE_ADDRESS, LOADER_CODE, pages, addr);
    Ok((entry, addr, image_size))
}

proof fn lemma_first_guid_misses(s: Seq<(Seq<u8>, u64)>, g: Seq<u8>, j: int)
    requires
        0 <= j <= s.len(),
    ensures
        ({
            let r = first_guid_from(s, g, j);
            let stop = if r >= 0 { r } else { s.len() as int };
            &&& r == -1 || (j <= r < s.len() && s[r].0 == g)
            &&& forall|i: int| j <= i < stop ==> s[i].0 != g
        }),
    decreases s.len() - j,
{
    if j < s.len() && s[j].0 != g {
        lemma_first_guid_misses(s, g, j + 1);
    }
}

proof fn lemma_first_guid_hits(s: Seq<(Seq<u8>, u64)>, g: Seq<u8>, j: int, k: int)
    requires
        0 <= j <= k < s.len(),
        s[k].0 == g,
        forall|i: int| j <= i < k ==> s[i].0 != g,
    ensures
        first_guid_from(s, g, j) == k,
    decreases k - j,
{
    if j < k {
        lemma_first_guid_hits(s, g, j + 1, k);
    }
}

/// Once a table has been installed under a GUID, the first entry with that
/// GUID holds that table.
pub proof fn law_install_then_find(s: Seq<(Seq<u8>, u64)>, count: int, guid: Seq<u8>, table: u64)
    requires
        table != 0,
        install_outcome(s, count, guid, table).0 == Status::Success,
    ensures
        ({
            let s2 = install_outcome(s, count, guid, table).1;
            let k = first_guid_from(s2, guid, 0);
            &&& k >= 0
            &&& s2[k] == (guid, table)
        }),
{
    lemma_first_guid_misses(s, guid, 0);
    let k = first_guid_from(s, guid, 0);
    let s2 = install_outcome(s, count, guid, table).1;
    if k >= 0 {
        lemma_first_guid_hits(s2, guid, 0, k);
    } else {
        let e = first_free_from(s, 0);
        lemma_first_free_in(s, 0);
        lemma_first_guid_hits(s2, guid, 0, e);
    }
}

proof fn lemma_first_free_in(s: Seq<(Seq<u8>, u64)>, j: int)
    requires
        0 <= j <= s.len(),
    ensures
        first_free_from(s, j) == -1 || j <= first_free_from(s, j) < s.len(),
    decreases s.len() - j,
{
    if j < s.len() {
        lemma_first_free_in(s, j + 1);
    }
}

} // verus!
