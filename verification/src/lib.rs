//! A firmware that boots a kernel from a virtio disk: FAT filesystem, boot
//! loader configuration, Linux boot protocol and a minimal EFI environment.
pub mod arch;
pub mod block;
pub mod boot;
pub mod boot_laws;
pub mod boot_select;
pub mod bootinfo;
pub mod bzimage;
pub mod bzimage_laws;
pub mod bytes;
pub mod common;
pub mod coreboot;
pub mod delay;
pub mod efi;
pub mod fdt;
pub mod fdt_tree;
pub mod fat;
pub mod layout;
pub mod loader;
pub mod loader_laws;
pub mod mem;
pub mod mmio;
pub mod paging;
pub mod part;
pub mod pci;
pub mod pe;
pub mod pe_laws;
pub mod rtc_goldfish;
pub mod uart_mmio;
pub mod uart_pl011;
pub mod virtio;
