//! What a boot protocol tells the firmware: the memory map, where the ACPI
//! tables are, the command line.
use vstd::prelude::*;
use crate::layout::MemoryDescriptor;

verus! {

/// What a range of the memory map holds.
#[derive(Clone, Copy, Debug, PartialEq, Eq, Structural)]
pub enum EntryType {
    Ram,
    Reserved,
    AcpiReclaimable,
    AcpiNvs,
    Bad,
    VendorReserved,
    CorebootTable,
}

/// A range of the memory map.
#[derive(Clone, Copy, Debug, PartialEq, Eq, Structural)]
pub struct MemoryEntry {
    pub addr: u64,
    pub size: u64,
    pub entry_type: EntryType,
}

/// What a boot protocol hands the firmware.
pub trait Info {
    /// Name of this boot protocol.
    fn name(&self) -> &str;

    /// The address of the Root System Descriptor Pointer, if there is one,
    /// where the protocol states it. A protocol that does not define it
    /// keeps the default, which states none: the contract of `rsdp_addr`
    /// then says nothing.
    closed spec fn rsdp(&self) -> Option<Option<u64>> {
        None
    }

    /// Starting address of the Root System Descriptor Pointer, if there is
    /// one.
    fn rsdp_addr(&self) -> (r: Option<u64>)
        ensures
            self.rsdp() matches Some(a) ==> r == a,
    ;

    /// Address of the device tree to boot with, if there is one; by
    /// default, none.
    fn fdt_addr(&self) -> (r: Option<u64>)
        default_ensures
            r is None,
    {
        None
    }

    /// The kernel command line, where the protocol states it. A protocol
    /// that does not define it keeps the default, which states none: the
    /// contract of `cmdline` then says nothing.
    closed spec fn cmdline_spec(&self) -> Option<Seq<u8>> {
        None
    }

    /// The kernel command line (without its NUL terminator).
    fn cmdline(&self) -> (r: &[u8])
        ensures
            self.cmdline_spec() matches Some(c) ==> r@ == c,
    ;

    /// The memory map, where the protocol states it. A protocol that does
    /// not define it keeps the default, which states none: the contracts of
    /// `num_entries` and `entry` then say nothing.
    closed spec fn memory_map(&self) -> Option<Seq<MemoryEntry>> {
        None
    }

    /// The number of entries of the memory map.
    fn num_entries(&self) -> (r: usize)
        ensures
            self.memory_map() matches Some(m) ==> r == m.len(),
    ;

    /// Entry `idx` of the memory map.
    fn entry(&self, idx: usize) -> (r: MemoryEntry)
        ensures
            self.memory_map() matches Some(m) ==> (idx < m.len() ==> r == m[idx as int]),
    ;

    /// Where to load the kernel.
    fn kernel_load_addr(&self) -> u64;

    /// The firmware's own memory.
    fn memory_layout(&self) -> &'static [MemoryDescriptor];

    /// MMIO space that PCI BARs can use, if needed; by default, none.
    fn pci_bar_memory(&self) -> (r: Option<MemoryEntry>)
        default_ensures
            r is None,
    {
        None
    }
}

} // verus!
