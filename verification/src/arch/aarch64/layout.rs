//! The memory map of the aarch64 virtual machine.
use core::ops::Range;
use vstd::prelude::*;

verus! {

/// The end of the address space.
pub const END: u64 = 0x1_0000_0000;
/// The firmware's own range.
pub const FW_START: usize = 0x0000_0000;
pub const FW_END: usize = 0x0040_0000;
/// Device MMIO.
pub const MMIO_START: usize = FW_END;
pub const PL011_START: usize = 0x0900_0000;
pub const PL031_START: usize = 0x0901_0000;
pub const MMIO_END: usize = 0x4000_0000;
/// System memory, which starts with the device tree and the ACPI tables.
pub const FDT_SIZE: usize = 0x0020_0000;
pub const ACPI_SIZE: usize = 0x0020_0000;
pub const DRAM_START: usize = MMIO_END;
pub const FDT_START: usize = DRAM_START;
pub const ACPI_START: usize = FDT_START + FDT_SIZE;
pub const KERNEL_START: usize = ACPI_START + ACPI_SIZE;
pub const DRAM_END: u64 = END;

/// The memory reserved for the device tree and the ACPI tables, below
/// where the kernel is loaded.
pub fn reserved_range() -> (r: Range<usize>)
    ensures
        r.start == DRAM_START,
        r.end == KERNEL_START,
        r.start == 0x4000_0000,
        r.end == 0x4040_0000,
{
    DRAM_START..KERNEL_START
}

/// The memory attributes of a range.
#[derive(Clone, Copy, Debug, PartialEq, Eq, Structural)]
pub enum MemAttributes {
    CacheableDRAM,
    Device,
}

/// What may be done to a range.
#[derive(Clone, Copy, Debug, PartialEq, Eq, Structural)]
pub enum AccessPermissions {
    ReadOnly,
    ReadWrite,
}

/// How virtual addresses of a range map to physical ones.
#[derive(Clone, Copy, Debug, PartialEq, Eq, Structural)]
pub enum Translation {
    Identity,
    Offset(usize),
}

/// The attributes that a range's page table entries carry.
#[derive(Clone, Copy, Debug, PartialEq, Eq, Structural)]
pub struct AttributeFields {
    pub mem_attributes: MemAttributes,
    pub acc_perms: AccessPermissions,
    pub execute_never: bool,
}

/// A named virtual range, `virtual_start..=virtual_end`, its translation
/// and attributes.
#[derive(Clone, Copy, Debug)]
pub struct TranslationDescriptor {
    pub name: &'static str,
    pub virtual_start: usize,
    pub virtual_end: usize,
    pub physical_range_translation: Translation,
    pub attribute_fields: AttributeFields,
}

/// The virtual memory layout: the highest address and the ranges mapped.
pub struct KernelVirtualLayout {
    pub max_virt_addr_inclusive: usize,
    pub descriptors: Vec<TranslationDescriptor>,
}

/// The virtual memory layout of the machine: the firmware and system
/// memory as cacheable RAM, the device MMIO range as device memory that is
/// never executed, all mapped one to one and writable.
pub fn virt_mem_layout() -> (r: KernelVirtualLayout)
    ensures
        r.max_virt_addr_inclusive == 0xffff_ffff,
        r.descriptors@.len() == 3,
        r.descriptors@[0].virtual_start == FW_START && r.descriptors@[0].virtual_end == FW_END - 1,
        r.descriptors@[1].virtual_start == MMIO_START && r.descriptors@[1].virtual_end == MMIO_END - 1,
        r.descriptors@[2].virtual_start == DRAM_START && r.descriptors@[2].virtual_end == 0xffff_ffff,
        forall|i: int|
            0 <= i < 3 ==> #[trigger] r.descriptors@[i].physical_range_translation == Translation::Identity
                && r.descriptors@[i].attribute_fields.acc_perms == AccessPermissions::ReadWrite,
        r.descriptors@[0].attribute_fields.mem_attributes == MemAttributes::CacheableDRAM
            && !r.descriptors@[0].attribute_fields.execute_never,
        r.descriptors@[1].attribute_fields.mem_attributes == MemAttributes::Device
            && r.descriptors@[1].attribute_fields.execute_never,
        r.descriptors@[2].attribute_fields.mem_attributes == MemAttributes::CacheableDRAM
            && !r.descriptors@[2].attribute_fields.execute_never,
        r.descriptors@[0].name@ == "Firmware"@,
        r.descriptors@[1].name@ == "Device MMIO"@,
        r.descriptors@[2].name@ == "System Memory"@,
{
    let mut descriptors: Vec<TranslationDescriptor> = Vec::new();
    descriptors.push(
        TranslationDescriptor {
            name: "Firmware",
            virtual_start: FW_START,
            virtual_end: FW_END - 1,
            physical_range_translation: Translation::Identity,
            attribute_fields: AttributeFields {
                mem_attributes: MemAttributes::CacheableDRAM,
                acc_perms: AccessPermissions::ReadWrite,
                execute_never: false,
            },
        },
    );
    descriptors.push(
        TranslationDescriptor {
            name: "Device MMIO",
            virtual_start: MMIO_START,
            virtual_end: MMIO_END - 1,
            physical_range_translation: Translation::Identity,
            attribute_fields: AttributeFields {
                mem_attributes: MemAttributes::Device,
                acc_perms: AccessPermissions::ReadWrite,
                execute_never: true,
            },
        },
    );
    descriptors.push(
        TranslationDescriptor {
            name: "System Memory",
            virtual_start: DRAM_START,
            virtual_end: 0xffff_ffff,
            physical_range_translation: Translation::Identity,
            attribute_fields: AttributeFields {
                mem_attributes: MemAttributes::CacheableDRAM,
                acc_perms: AccessPermissions::ReadWrite,
                execute_never: false,
            },
        },
    );
    KernelVirtualLayout { max_virt_addr_inclusive: 0xffff_ffff, descriptors }
}

} // verus!
