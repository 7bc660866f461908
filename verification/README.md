# hypervisor_fw

A firmware for virtual machines that boots a Linux kernel, or an EFI boot
loader, from a virtio block device, written as a verified library and a thin
program around it.

## Layout

- `src/` — the library, verified with Verus. Every public function carries
  a contract; the `*_laws.rs` modules state what holds across calls.
  - `fat/`: the FAT12/16/32 filesystem (boot sector, allocation table
    chains, directories with long names, path lookup, file reads).
  - `boot_select.rs`: choosing what to boot from a block device: the EFI
    system partition from the GPT partition table (`part.rs`), then the
    default entry where it loads, else the EFI boot loader.
  - `loader.rs`: the boot loader configuration (`loader.conf`, entry files,
    `*`/`?`/`\` patterns) and loading the default entry.
  - `bzimage.rs`, `boot.rs`: the Linux boot protocol (setup header, zero
    page, E820 map, initial ramdisk placement, command line).
  - `pe.rs`: loading PE32+ executables with their base relocations.
  - `efi/`: the memory map allocator, the variable store, device paths,
    block I/O and file protocol helpers, configuration tables.
  - `coreboot.rs`, `fdt.rs`, `fdt_tree.rs`: the boot protocols that hand the firmware its
    memory map.
  - `block.rs`, `mmio.rs`, `virtio.rs`, `part.rs`, `pci.rs`, `paging.rs`,
    `delay.rs`, `rtc_goldfish.rs`, `uart_*.rs`, `arch/`: devices and
    machine layout.
- `app/` — the program: serial console, logging, port and MMIO access,
  the virtio request queue in memory, the EFI system table handed to an EFI
  boot loader (boot services over the library's allocator, the console,
  the configuration tables), and handing control to what was chosen.
- `tests/` — tests of the library on disks, memories and device trees
  built in memory.
