//! Booting from a flattened device tree: the memory map, the command line
//! and the kernel image that the device tree describes.
use vstd::prelude::*;
use crate::bootinfo::{EntryType, MemoryEntry};
use crate::layout::MemoryDescriptor;
use crate::common::bytes_equal;
use crate::fdt_tree::fdt_well_formed;

verus! {

/// The magic number that a device tree starts with (big-endian).
pub const FDT_MAGIC: u32 = 0xd00dfeed;
/// Size of a device tree header: ten 32-bit words.
pub const FDT_HEADER_SIZE: usize = 40;

/// The big-endian number held by the first `n` bytes of `b`.
pub open spec fn be(b: Seq<u8>, n: nat) -> int
    decreases n,
{
    if n == 0 {
        0
    } else {
        be(b, (n - 1) as nat) * 256 + b[n - 1]
    }
}

/// The big-endian 32-bit word at offset `o` of `b`.
pub open spec fn be32(b: Seq<u8>, o: int) -> int {
    be(b.subrange(o, o + 4), 4)
}

/// Whether `blob` starts with a device tree header that the `fdt` crate
/// accepts: a whole header, the magic number, and a total size that `blob`
/// holds.
pub open spec fn fdt_valid(blob: Seq<u8>) -> bool {
    &&& blob.len() >= FDT_HEADER_SIZE
    &&& be32(blob, 0) == FDT_MAGIC
    &&& blob.len() >= be32(blob, 4)
}

/// The total size that the header of device tree `blob` gives.
pub open spec fn fdt_total_size(blob: Seq<u8>) -> int {
    be32(blob, 4)
}

/// What `fdt::Fdt::find_compatible` finds in device tree `blob` for the
/// compatible strings `with`: the first region of its `reg` property, with
/// its size where the node gives one.
pub uninterp spec fn fdt_compatible_region(blob: Seq<u8>, with: Seq<Seq<char>>) -> Option<(u64, Option<usize>)>;

/// The properties (name and value) of the `/chosen` node of device tree
/// `blob`, in order; `None` where it has no such node.
pub uninterp spec fn fdt_chosen_properties(blob: Seq<u8>) -> Option<Seq<(Seq<u8>, Seq<u8>)>>;

/// The regions of the `/memory` node of device tree `blob`, each with its
/// size where the node gives one; `None` where it has no such node or the
/// node no `reg` property.
pub uninterp spec fn fdt_memory_regions(blob: Seq<u8>) -> Option<Seq<(u64, Option<usize>)>>;

/// The `bootargs` property of the `/chosen` node of device tree `blob`,
/// without its NUL terminator, where it is UTF-8.
pub uninterp spec fn fdt_bootargs(blob: Seq<u8>) -> Option<Seq<u8>>;

/// Checks the header of device tree `blob` (`fdt::Fdt::new`) and gives the
/// total size it states (`fdt::Fdt::total_size`); `None` where `fdt::Fdt::new`
/// refuses the header: too short a buffer, a wrong magic number, or a total
/// size past the buffer.
#[verifier::external_body]
fn header_total_size(blob: &[u8]) -> (r: Option<usize>)
    ensures
        fdt_valid(blob@) ==> r == Some(fdt_total_size(blob@) as usize),
        !fdt_valid(blob@) ==> r is None,
{
    match fdt::Fdt::new(blob) {
        Ok(f) => Some(f.total_size()),
        Err(_) => None,
    }
}

/// The first `reg` region of the node that `fdt::Fdt::find_compatible` finds
/// for `with` in device tree `blob`. The crate indexes, unwraps and expects
/// its way through the structure and strings blocks: `requires` admits only
/// the well-formed trees that it reads without failing.
#[verifier::external_body]
fn compatible_region(blob: &[u8], with: &[&str]) -> (r: Option<(u64, Option<usize>)>)
    requires
        fdt_well_formed(blob@),
    ensures
        r == fdt_compatible_region(blob@, with@.map_values(|s: &str| s@)),
{
    let f = fdt::Fdt::new(blob).ok()?;
    let node = f.find_compatible(with)?;
    let region = node.reg()?.next()?;
    Some((region.starting_address as u64, region.size))
}

/// The properties of the `/chosen` node of device tree `blob`
/// (`fdt::Fdt::find_node`, `fdt::node::FdtNode::properties`), each name as
/// its bytes.
#[verifier::external_body]
fn chosen_properties(blob: &[u8]) -> (r: Option<Vec<(Vec<u8>, Vec<u8>)>>)
    requires
        fdt_well_formed(blob@),
    ensures
        match r {
            Some(v) => fdt_chosen_properties(blob@) == Some(v@.map_values(|p: (Vec<u8>, Vec<u8>)| (p.0@, p.1@))),
            None => fdt_chosen_properties(blob@) is None,
        },
{
    let f = fdt::Fdt::new(blob).ok()?;
    let node = f.find_node("/chosen")?;
    Some(node.properties().map(|p| (p.name.as_bytes().to_vec(), p.value.to_vec())).collect())
}

/// The regions of the `/memory` node of device tree `blob`
/// (`fdt::Fdt::find_node`, `fdt::node::FdtNode::reg`).
#[verifier::external_body]
fn memory_regions(blob: &[u8]) -> (r: Option<Vec<(u64, Option<usize>)>>)
    requires
        fdt_well_formed(blob@),
    ensures
        match r {
            Some(v) => fdt_memory_regions(blob@) == Some(v@),
            None => fdt_memory_regions(blob@) is None,
        },
{
    let f = fdt::Fdt::new(blob).ok()?;
    let node = f.find_node("/memory")?;
    Some(node.reg()?.map(|r| (r.starting_address as u64, r.size)).collect())
}

/// The `bootargs` of device tree `blob` (`fdt::standard_nodes::Chosen::bootargs`),
/// as bytes. That function panics where the `/chosen` node is missing or the
/// value of `bootargs` is empty: `requires` leaves those out.
#[verifier::external_body]
fn chosen_bootargs(blob: &[u8]) -> (r: Option<Vec<u8>>)
    requires
        fdt_well_formed(blob@),
        fdt_chosen_properties(blob@) matches Some(props) && (property_value(props, bootargs_name()) matches Some(v)
            ==> v.len() > 0),
    ensures
        match r {
            Some(v) => fdt_bootargs(blob@) == Some(v@),
            None => fdt_bootargs(blob@) is None,
        },
{
    let f = fdt::Fdt::new(blob).ok()?;
    f.chosen().bootargs().map(|s| s.as_bytes().to_vec())
}

/// "bootargs"
pub open spec fn bootargs_name() -> Seq<u8> {
    seq![98u8, 111, 111, 116, 97, 114, 103, 115]
}

/// "linux,kernel-start"
pub open spec fn kernel_start_name() -> Seq<u8> {
    seq![108u8, 105, 110, 117, 120, 44, 107, 101, 114, 110, 101, 108, 45, 115, 116, 97, 114, 116]
}

/// "linux,kernel-size"
pub open spec fn kernel_size_name() -> Seq<u8> {
    seq![108u8, 105, 110, 117, 120, 44, 107, 101, 114, 110, 101, 108, 45, 115, 105, 122, 101]
}

/// The index of the first property named `name` from index `k` on.
pub open spec fn first_named(props: Seq<(Seq<u8>, Seq<u8>)>, name: Seq<u8>, k: int) -> Option<int>
    decreases props.len() - k,
{
    if k < 0 || k >= props.len() {
        None
    } else if props[k].0 == name {
        Some(k)
    } else {
        first_named(props, name, k + 1)
    }
}

/// The value of the first property named `name`.
pub open spec fn property_value(props: Seq<(Seq<u8>, Seq<u8>)>, name: Seq<u8>) -> Option<Seq<u8>> {
    match first_named(props, name, 0) {
        Some(i) => Some(props[i].1),
        None => None,
    }
}

/// The big-endian number in the first eight bytes of `v` (all of them where
/// it is shorter).
pub open spec fn be_prefix(v: Seq<u8>) -> int {
    be(v, if v.len() < 8 { v.len() } else { 8 })
}

/// Where the kernel image lies.
#[derive(Clone, Copy, Debug, PartialEq, Eq, Structural)]
pub struct KernelInfo {
    pub address: u64,
    pub size: u64,
}

/// The kernel image that the properties of `/chosen` give, where both its
/// start and its size are there.
pub open spec fn kernel_info_of(props: Seq<(Seq<u8>, Seq<u8>)>) -> Option<KernelInfo> {
    match (property_value(props, kernel_start_name()), property_value(props, kernel_size_name())) {
        (Some(a), Some(s)) => Some(KernelInfo { address: be_prefix(a) as u64, size: be_prefix(s) as u64 }),
        _ => None,
    }
}

proof fn lemma_be_bound(b: Seq<u8>, n: nat)
    requires
        n <= b.len(),
    ensures
        0 <= be(b, n) < crate::bytes::pow256(n),
    decreases n,
{
    if n > 0 {
        lemma_be_bound(b, (n - 1) as nat);
    }
}

/// The big-endian number in the first eight bytes of `v`.
fn be_value(v: &[u8]) -> (r: u64)
    ensures
        r == be_prefix(v@),
{
    let len = v.len();
    let n = if len < 8 { len } else { 8 };
    let mut a: u64 = 0;
    let mut k: usize = 0;
    proof {
        reveal_with_fuel(crate::bytes::pow256, 9);
    }
    while k < n
        invariant
            n <= 8,
            n <= v@.len(),
            len == v@.len(),
            k <= n,
            a == be(v@, k as nat),
            crate::bytes::pow256(7) == 0x100_0000_0000_0000,
        decreases n - k,
    {
        proof {
            lemma_be_bound(v@, k as nat);
            crate::bytes::lemma_pow_mono(k as nat, 7);
        }
        assert(a < 0x100_0000_0000_0000);
        let b = v[k] as u64;
        assert((a << 8) == a * 256) by (bit_vector)
            requires
                a < 0x100_0000_0000_0000,
        ;
        a = (a << 8) + b;
        k = k + 1;
    }
    a
}


/// The index of the first property named `name`.
fn find_property(props: &Vec<(Vec<u8>, Vec<u8>)>, name: &[u8]) -> (r: Option<usize>)
    ensures
        r matches Some(i) ==> i < props@.len(),
        match r {
            Some(i) => first_named(props@.map_values(|p: (Vec<u8>, Vec<u8>)| (p.0@, p.1@)), name@, 0) == Some(i as int),
            None => first_named(props@.map_values(|p: (Vec<u8>, Vec<u8>)| (p.0@, p.1@)), name@, 0) is None,
        },
{
    let ghost ps = props@.map_values(|p: (Vec<u8>, Vec<u8>)| (p.0@, p.1@));
    let mut i: usize = 0;
    while i < props.len()
        invariant
            i <= props@.len(),
            ps == props@.map_values(|p: (Vec<u8>, Vec<u8>)| (p.0@, p.1@)),
            first_named(ps, name@, 0) == first_named(ps, name@, i as int),
        decreases props@.len() - i,
    {
        assert(ps[i as int].0 == props@[i as int].0@);
        if bytes_equal(props[i].0.as_slice(), name) {
            return Some(i);
        }
        i = i + 1;
    }
    None
}

/// The kernel image that the properties `props` of `/chosen` give: the
/// big-endian numbers in the first eight bytes of `linux,kernel-start` and
/// `linux,kernel-size`; `None` where either is missing.
pub fn kernel_info_from(props: &Vec<(Vec<u8>, Vec<u8>)>) -> (r: Option<KernelInfo>)
    ensures
        r == kernel_info_of(props@.map_values(|p: (Vec<u8>, Vec<u8>)| (p.0@, p.1@))),
{
    let ghost ps = props@.map_values(|p: (Vec<u8>, Vec<u8>)| (p.0@, p.1@));
    let start_name: Vec<u8> = vec![108u8, 105, 110, 117, 120, 44, 107, 101, 114, 110, 101, 108, 45, 115, 116, 97, 114, 116];
    let size_name: Vec<u8> = vec![108u8, 105, 110, 117, 120, 44, 107, 101, 114, 110, 101, 108, 45, 115, 105, 122, 101];
    assert(start_name@ =~= kernel_start_name());
    assert(size_name@ =~= kernel_size_name());
    let address = match find_property(props, start_name.as_slice()) {
        Some(i) => {
            assert(ps[i as int].1 == props@[i as int].1@);
            be_value(props[i].1.as_slice())
        },
        None => {
            return None;
        },
    };
    let size = match find_property(props, size_name.as_slice()) {
        Some(i) => {
            assert(ps[i as int].1 == props@[i as int].1@);
            be_value(props[i].1.as_slice())
        },
        None => {
            return None;
        },
    };
    Some(KernelInfo { address, size })
}

/// What the device tree tells the firmware.
pub struct StartInfo<'a> {
    pub acpi_rsdp_addr: Option<u64>,
    pub fdt_entry: MemoryEntry,
    pub blob: &'a [u8],
    pub kernel_load_addr: u64,
    pub memory_layout: &'static [MemoryDescriptor],
    pub pci_bar_memory: Option<MemoryEntry>,
}

impl<'a> StartInfo<'a> {
    /// The device tree whose bytes are `blob`, found at address `addr`; its
    /// range is reserved in the memory map.
    pub fn new(
        blob: &'a [u8],
        addr: u64,
        acpi_rsdp_addr: Option<u64>,
        kernel_load_addr: u64,
        memory_layout: &'static [MemoryDescriptor],
        pci_bar_memory: Option<MemoryEntry>,
    ) -> (r: StartInfo<'a>)
        requires
            fdt_well_formed(blob@),
        ensures
            r.blob@ == blob@,
            r.fdt_entry == (MemoryEntry { addr, size: fdt_total_size(blob@) as u64, entry_type: EntryType::Reserved }),
            r.acpi_rsdp_addr == acpi_rsdp_addr,
            r.kernel_load_addr == kernel_load_addr,
            r.memory_layout == memory_layout,
            r.pci_bar_memory == pci_bar_memory,
    {
        let size = match header_total_size(blob) {
            Some(s) => s as u64,
            None => 0,
        };
        proof {
            lemma_be_bound(blob@.subrange(4, 8), 4);
            reveal_with_fuel(crate::bytes::pow256, 5);
        }
        StartInfo {
            acpi_rsdp_addr,
            fdt_entry: MemoryEntry { addr, size, entry_type: EntryType::Reserved },
            blob,
            kernel_load_addr,
            memory_layout,
            pci_bar_memory,
        }
    }

    /// The first region of the node compatible with one of `with`, where it
    /// has a size.
    pub fn find_compatible_region(&self, with: &[&str]) -> (r: Option<(u64, usize)>)
        requires
            fdt_well_formed(self.blob@),
        ensures
            r == match fdt_compatible_region(self.blob@, with@.map_values(|s: &str| s@)) {
                Some((a, Some(s))) => Some((a, s)),
                _ => None,
            },
    {
        match compatible_region(self.blob, with) {
            Some((a, Some(s))) => Some((a, s)),
            _ => None,
        }
    }

    /// The kernel image that `/chosen` describes; `None` where its start or
    /// size is missing, or the device tree has no `/chosen` node.
    pub fn find_kernel_info(&self) -> (r: Option<KernelInfo>)
        requires
            fdt_well_formed(self.blob@),
        ensures
            r == match fdt_chosen_properties(self.blob@) {
                Some(props) => kernel_info_of(props),
                None => None,
            },
    {
        match chosen_properties(self.blob) {
            Some(props) => kernel_info_from(&props),
            None => None,
        }
    }

    /// Name of this boot protocol.
    pub fn name(&self) -> (r: &'static str)
        ensures
            r@ == "FDT"@,
    {
        "FDT"
    }

    /// Starting address of the ACPI RSDP.
    pub fn rsdp_addr(&self) -> (r: Option<u64>)
        ensures
            r == self.acpi_rsdp_addr,
    {
        self.acpi_rsdp_addr
    }

    /// The memory the device tree itself takes.
    pub fn fdt_reservation(&self) -> (r: Option<MemoryEntry>)
        ensures
            r == Some(self.fdt_entry),
    {
        Some(self.fdt_entry)
    }

    /// The kernel command line: the `bootargs` of `/chosen`, empty where
    /// there are none or they are not UTF-8. Empty too where the device tree
    /// has no `/chosen` node or an empty `bootargs` value, on which
    /// `fdt::standard_nodes::Chosen::bootargs` would panic.
    pub fn cmdline(&self) -> (r: Vec<u8>)
        requires
            fdt_well_formed(self.blob@),
        ensures
            r@ == match fdt_chosen_properties(self.blob@) {
                None => Seq::empty(),
                Some(props) => match property_value(props, bootargs_name()) {
                    Some(v) if v.len() == 0 => Seq::empty(),
                    _ => match fdt_bootargs(self.blob@) {
                        Some(b) => b,
                        None => Seq::empty(),
                    },
                },
            },
    {
        let props = match chosen_properties(self.blob) {
            Some(p) => p,
            None => {
                return Vec::new();
            },
        };
        let ghost ps = props@.map_values(|p: (Vec<u8>, Vec<u8>)| (p.0@, p.1@));
        let name: Vec<u8> = vec![98u8, 111, 111, 116, 97, 114, 103, 115];
        assert(name@ =~= bootargs_name());
        match find_property(&props, name.as_slice()) {
            Some(i) => {
                assert(ps[i as int].1 == props@[i as int].1@);
                if props[i].1.len() == 0 {
                    return Vec::new();
                }
            },
            None => {},
        }
        match chosen_bootargs(self.blob) {
            Some(b) => b,
            None => Vec::new(),
        }
    }

    /// The number of regions of `/memory`; `None` where the device tree has
    /// no `/memory` node with a `reg` property.
    pub fn num_entries(&self) -> (r: Option<usize>)
        requires
            fdt_well_formed(self.blob@),
        ensures
            r == match fdt_memory_regions(self.blob@) {
                Some(regions) => Some(regions.len() as usize),
                None => None,
            },
    {
        match memory_regions(self.blob) {
            Some(v) => Some(v.len()),
            None => None,
        }
    }

    /// Region `idx` of `/memory`, as RAM; `None` where there is no such
    /// region or it has no size.
    pub fn entry(&self, idx: usize) -> (r: Option<MemoryEntry>)
        requires
            fdt_well_formed(self.blob@),
        ensures
            r == match fdt_memory_regions(self.blob@) {
                Some(regions) => if idx < regions.len() {
                    match regions[idx as int] {
                        (a, Some(s)) => Some(MemoryEntry { addr: a, size: s as u64, entry_type: EntryType::Ram }),
                        _ => None,
                    }
                } else {
                    None
                },
                None => None,
            },
    {
        let regions = match memory_regions(self.blob) {
            Some(v) => v,
            None => {
                return None;
            },
        };
        if idx >= regions.len() {
            return None;
        }
        match regions[idx] {
            (a, Some(s)) => Some(MemoryEntry { addr: a, size: s as u64, entry_type: EntryType::Ram }),
            _ => None,
        }
    }

    /// Where to load the kernel.
    pub fn kernel_load_addr(&self) -> (r: u64)
        ensures
            r == self.kernel_load_addr,
    {
        self.kernel_load_addr
    }

    /// The firmware's own memory.
    pub fn memory_layout(&self) -> (r: &'static [MemoryDescriptor])
        ensures
            r == self.memory_layout,
    {
        self.memory_layout
    }

    /// MMIO space that PCI BARs can use.
    pub fn pci_bar_memory(&self) -> (r: Option<MemoryEntry>)
        ensures
            r == self.pci_bar_memory,
    {
        self.pci_bar_memory
    }
}

} // verus!
