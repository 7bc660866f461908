use std::collections::HashMap;

use hypervisor_fw::arch::aarch64::layout::reserved_range as aarch64_reserved_range;
use hypervisor_fw::arch::riscv64::layout::reserved_range as riscv64_reserved_range;
use hypervisor_fw::arch::x86_64::vmx::feature_control_update;
use hypervisor_fw::delay::{delay_step, pause_ticks, ticks_for, udelay, mdelay, wait_until, Clock, Condition, DelayStep};
use hypervisor_fw::layout::{MemoryAttribute, MemoryDescriptor};
use hypervisor_fw::mmio::VirtioMMIOTransport;
use hypervisor_fw::paging::Manager;
use hypervisor_fw::pci::{
    config_address, config_byte, config_word, decode_bars, print_bus, ConfigSpace, PciBar, PciBarType, PciDevice,
};
use hypervisor_fw::rtc_goldfish::{date_from_seconds, seconds_from_counter, time_from_seconds};
use hypervisor_fw::uart_pl011::Pl011;

#[test]
fn delay_ticks() {
    assert_eq!(ticks_for(1_000_000_000), 200);
    assert_eq!(ticks_for(1_000_000), 0);
    assert_eq!(ticks_for(50_000_000), 10);
    assert_eq!(pause_ticks(1000), 850);
    assert_eq!(pause_ticks(150), 0);
    assert_eq!(pause_ticks(10), 0);
}

#[test]
fn delay_steps() {
    assert_eq!(delay_step(100, 150, 1000, 850), DelayStep::Pause);
    assert_eq!(delay_step(100, 1000, 1000, 850), DelayStep::Spin);
    assert_eq!(delay_step(100, 1100, 1000, 850), DelayStep::Done);
    // The counter wrapped around.
    assert_eq!(delay_step(u64::MAX - 10, 5, 1000, 850), DelayStep::Pause);
    assert_eq!(delay_step(u64::MAX - 10, 2000, 1000, 850), DelayStep::Done);
}

struct CountingClock {
    waited: u64,
}

impl Clock for CountingClock {
    fn ndelay(&mut self, ns: u64) {
        self.waited += ns;
    }
}

struct ReadyAfter {
    polls: u32,
}

impl Condition for ReadyAfter {
    fn holds(&mut self) -> bool {
        if self.polls == 0 {
            return true;
        }
        self.polls -= 1;
        false
    }
}

#[test]
fn delay_waits() {
    let mut c = CountingClock { waited: 0 };
    udelay(&mut c, 7);
    assert_eq!(c.waited, 7_000);
    mdelay(&mut c, 2);
    assert_eq!(c.waited, 2_007_000);
    let mut c = CountingClock { waited: 0 };
    let mut cond = ReadyAfter { polls: 3 };
    assert!(wait_until(&mut c, 1, &mut cond));
    assert_eq!(c.waited, 3_000);
    let mut c = CountingClock { waited: 0 };
    let mut cond = ReadyAfter { polls: 5000 };
    assert!(!wait_until(&mut c, 1, &mut cond));
    assert_eq!(c.waited, 1_000_000);
}

#[test]
fn mmio_identity() {
    assert_eq!(VirtioMMIOTransport::check_identity(0x7472_6976, 2, 2, 2), None);
    assert_eq!(VirtioMMIOTransport::check_identity(0x1234, 2, 2, 2), Some(0));
    assert_eq!(VirtioMMIOTransport::check_identity(0x7472_6976, 1, 2, 2), Some(1));
    assert_eq!(VirtioMMIOTransport::check_identity(0x7472_6976, 2, 1, 2), Some(2));
}

#[test]
fn mmio_feature_halves() {
    assert_eq!(VirtioMMIOTransport::features_from_halves(0x8000_0001, 0x1), 0x1_8000_0001);
    assert_eq!(VirtioMMIOTransport::halves(0x1_8000_0001), (0x8000_0001, 0x1));
    let v = 0xdead_beef_0bad_f00du64;
    let (lo, hi) = VirtioMMIOTransport::halves(v);
    assert_eq!(VirtioMMIOTransport::features_from_halves(lo, hi), v);
}

#[test]
fn pl011_output() {
    assert_eq!(Pl011::output_bytes(b"a\nb"), b"a\r\nb".to_vec());
    assert_eq!(Pl011::output_bytes(b"\n\n"), b"\r\n\r\n".to_vec());
    assert_eq!(Pl011::output_bytes(b"plain"), b"plain".to_vec());
}

#[test]
fn rtc_date_time() {
    assert_eq!(date_from_seconds(1431648000), Ok((15, 5, 15)));
    assert_eq!(time_from_seconds(1431648000), Ok((0, 0, 0)));
    assert_eq!(date_from_seconds(951782400), Ok((0, 2, 29)));
    assert_eq!(time_from_seconds(1431648000 + 3 * 3600 + 25 * 60 + 45), Ok((3, 25, 45)));
    assert_eq!(seconds_from_counter(0, 0), 0);
    // 5e9 ns
    assert_eq!(seconds_from_counter(0x2a05_f200, 0x1), 5);
}

#[test]
fn layout_pages() {
    let d = MemoryDescriptor { name: "Code", start: 0x20_0000, end: 0x20_5000, attribute: MemoryAttribute::Code };
    assert_eq!(d.range_start(), 0x20_0000);
    assert_eq!(d.range_end(), 0x20_5000);
    assert_eq!(d.page_count(), 5);
}

#[test]
fn reserved_ranges() {
    assert_eq!(aarch64_reserved_range(), 0x4000_0000..0x4040_0000);
    assert_eq!(riscv64_reserved_range(), 0x8000_0000..0x8020_0000);
}

#[test]
fn pci_config_address() {
    assert_eq!(config_address(0, 0, 0, 0), 0x8000_0000);
    assert_eq!(config_address(1, 3, 2, 0x10), 0x8001_1a10);
    assert_eq!(config_byte(0x1234_5678, 0), 0x78);
    assert_eq!(config_byte(0x1234_5678, 3), 0x12);
    assert_eq!(config_word(0x1234_5678, 0), 0x5678);
    assert_eq!(config_word(0x1234_5678, 2), 0x1234);
}

#[test]
fn pci_bars_decoded() {
    let raw = [0xc001, 0xfebf_1000, 0x0000_000c, 0x1, 0, 0];
    let bars = decode_bars(&raw).unwrap();
    assert_eq!(
        bars,
        vec![
            PciBar { bar_type: PciBarType::IoSpace, address: 0xc000 },
            PciBar { bar_type: PciBarType::MemorySpace32, address: 0xfebf_1000 },
            PciBar { bar_type: PciBarType::MemorySpace64, address: 0x1_0000_0000 },
            PciBar { bar_type: PciBarType::MemorySpace32, address: 0 },
        ]
    );
    // Type 1 is not supported.
    assert_eq!(decode_bars(&[0x2, 0, 0, 0, 0, 0]), None);
}

struct FakeConfig {
    registers: HashMap<(u8, u8, u8, u8), u32>,
}

impl ConfigSpace for FakeConfig {
    fn read_u32(&self, bus: u8, device: u8, func: u8, offset: u8) -> u32 {
        match self.registers.get(&(bus, device, func, offset)) {
            Some(v) => *v,
            None => {
                if offset == 0 {
                    0xffff_ffff
                } else {
                    0
                }
            }
        }
    }
}

#[test]
fn pci_bus_scan() {
    let mut registers = HashMap::new();
    registers.insert((0, 0, 0, 0), 0x1237_8086);
    registers.insert((0, 3, 0, 0), 0x1001_1af4);
    registers.insert((0, 3, 0, 0x10), 0xc001);
    registers.insert((0, 3, 0, 0x14), 0xfebf_1000);
    let c = FakeConfig { registers };
    let devices = print_bus(&c).unwrap();
    assert_eq!(devices.len(), 2);
    assert_eq!((devices[0].device, devices[0].vendor_id, devices[0].device_id), (0, 0x8086, 0x1237));
    assert_eq!((devices[1].device, devices[1].vendor_id, devices[1].device_id), (3, 0x1af4, 0x1001));
    assert_eq!(devices[1].bars[0], PciBar { bar_type: PciBarType::IoSpace, address: 0xc000 });
    assert_eq!(devices[1].bars[1], PciBar { bar_type: PciBarType::MemorySpace32, address: 0xfebf_1000 });
    assert_eq!(devices[1].bars[5], PciBar { bar_type: PciBarType::Unused, address: 0 });
}

#[test]
fn pci_device_registers() {
    let mut d = PciDevice::new(0, 4, 0);
    assert_eq!(d.bars.len(), 6);
    assert!(d.set_registers(0x1af4, 0x1042, &[0x2, 0, 0, 0, 0, 0]).is_err());
    assert_eq!(d.vendor_id, 0);
    assert!(d.set_registers(0x1af4, 0x1042, &[0xe000_0004, 0x1, 0, 0, 0, 0]).is_ok());
    assert_eq!(d.bars[0], PciBar { bar_type: PciBarType::MemorySpace64, address: 0x1_e000_0000 });
    assert_eq!(d.vendor_id, 0x1af4);
}

#[test]
fn identity_page_tables() {
    let mut l4 = vec![0u64; 512];
    let mut l3 = vec![7u64; 512];
    let mut l2s = vec![0u64; 4 * 512];
    let mut m = Manager;
    m.setup(&mut l4, &mut l3, &mut l2s, 0x9000, 0xa000);
    assert_eq!(l2s[0], 0x83);
    assert_eq!(l2s[1], 0x20_0083);
    assert_eq!(l2s[2047], 2047 * 0x20_0000 + 0x83);
    assert_eq!(l3[0], 0xa003);
    assert_eq!(l3[3], 0xd003);
    assert_eq!(l3[4], 7);
    assert_eq!(l4[0], 0x9003);
    assert_eq!(l4[1], 0);
}

use hypervisor_fw::block::{read_request_header, request_status, Descriptor, DriverState, Error as BlockError};

#[test]
fn block_request_placed() {
    let mut s = DriverState::new();
    let p = s.place_read(0x1000, 0x2000, 0x3000);
    assert_eq!(p.slots, (0, 1, 2));
    assert_eq!(p.descriptors.0, Descriptor { addr: 0x1000, length: 16, flags: 1, next: 1 });
    assert_eq!(p.descriptors.1, Descriptor { addr: 0x2000, length: 512, flags: 3, next: 2 });
    assert_eq!(p.descriptors.2, Descriptor { addr: 0x3000, length: 1, flags: 2, next: 0 });
    assert_eq!((p.ring_slot, p.ring_value), (0, 0));
    assert_eq!((s.next_head, s.avail_idx), (3, 1));
    assert!(!s.completed(0));
    assert!(s.completed(1));
    // Around the end of the queue.
    let mut s = DriverState { next_head: 15, avail_idx: 0xffff };
    let p = s.place_read(1, 2, 3);
    assert_eq!(p.slots, (15, 0, 1));
    assert_eq!(p.descriptors.0.next, 0);
    assert_eq!((p.ring_slot, p.ring_value), (15, 15));
    assert_eq!((s.next_head, s.avail_idx), (2, 0));
}

#[test]
fn block_request_status() {
    assert_eq!(request_status(0), Ok(()));
    assert_eq!(request_status(1), Err(BlockError::BlockIOError));
    assert_eq!(request_status(2), Err(BlockError::BlockNotSupported));
    assert_eq!(request_status(7), Err(BlockError::BlockNotSupported));
    let h = read_request_header(0x0102);
    assert_eq!(h, vec![0, 0, 0, 0, 0, 0, 0, 0, 2, 1, 0, 0, 0, 0, 0, 0]);
}

use hypervisor_fw::arch::aarch64::layout::{virt_mem_layout, MemAttributes, Translation};

#[test]
fn aarch64_virtual_layout() {
    let l = virt_mem_layout();
    assert_eq!(l.max_virt_addr_inclusive, 0xffff_ffff);
    assert_eq!(l.descriptors.len(), 3);
    assert_eq!(l.descriptors[0].name, "Firmware");
    assert_eq!((l.descriptors[0].virtual_start, l.descriptors[0].virtual_end), (0, 0x3f_ffff));
    assert_eq!((l.descriptors[1].virtual_start, l.descriptors[1].virtual_end), (0x40_0000, 0x3fff_ffff));
    assert_eq!(l.descriptors[1].attribute_fields.mem_attributes, MemAttributes::Device);
    assert!(l.descriptors[1].attribute_fields.execute_never);
    assert_eq!(l.descriptors[2].physical_range_translation, Translation::Identity);
}

#[test]
fn vmx_feature_control_locked_with_vmxon() {
    // No VMX announced: nothing to write.
    assert_eq!(feature_control_update(0, 0), None);
    // VMX announced, register unlocked: lock it with VMXON outside SMX.
    assert_eq!(feature_control_update(1 << 5, 0), Some(0b101));
    assert_eq!(feature_control_update(0xffff_ffff, 0x100), Some(0x105));
    // Already locked: left as it is.
    assert_eq!(feature_control_update(1 << 5, 1), None);
    assert_eq!(feature_control_update(1 << 5, 0x3), None);
}
