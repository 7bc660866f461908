//! PCI configuration space: addressing registers through the legacy I/O
//! ports, and decoding base address registers.
use vstd::prelude::*;

verus! {

/// The I/O port that selects a configuration register.
pub const CONFIG_ADDRESS: u16 = 0xcf8;
/// The I/O port that reads the selected register.
pub const CONFIG_DATA: u16 = 0xcfc;
pub const MAX_DEVICES: u8 = 32;
pub const MAX_FUNCTIONS: u8 = 8;
/// The vendor ID read where no device answers.
pub const INVALID_VENDOR_ID: u16 = 0xffff;

/// The value written to `CONFIG_ADDRESS` to select register `offset` of
/// function `func` of device `device` on bus `bus`: the enable bit, then
/// bus, device, function and register.
pub open spec fn config_address_of(bus: u8, device: u8, func: u8, offset: u8) -> int {
    0x8000_0000 + bus as int * 0x1_0000 + device as int * 0x800 + func as int * 0x100 + (offset as int
        - offset as int % 4)
}

/// The value that selects a configuration register (32-bit aligned).
pub fn config_address(bus: u8, device: u8, func: u8, offset: u8) -> (r: u32)
    requires
        offset % 4 == 0,
        device < MAX_DEVICES,
        func < MAX_FUNCTIONS,
    ensures
        r == config_address_of(bus, device, func, offset),
{
    let addr = (bus as u32) << 16;
    let addr = addr | (device as u32) << 11;
    let addr = addr | (func as u32) << 8;
    let addr = addr | (offset & 0xfc) as u32;
    let addr = addr | 1u32 << 31;
    assert(addr == 0x8000_0000 + bus as u32 * 0x1_0000 + device as u32 * 0x800 + func as u32 * 0x100 + offset)
        by (bit_vector)
        requires
            addr == (((((bus as u32) << 16) | (device as u32) << 11) | (func as u32) << 8) | (offset & 0xfc) as u32)
                | 1u32 << 31,
            offset % 4 == 0,
            device < 32,
            func < 8,
    ;
    addr
}

/// The byte at `offset` of configuration space, from the 32-bit register
/// that holds it.
pub fn config_byte(register: u32, offset: u8) -> (r: u8)
    ensures
        r == (register as int / pow2_8(offset % 4)) % 256,
{
    let shift = ((offset % 4) * 8) as u32;
    let r = (register >> shift) as u8;
    assert(r == (register as int / pow2_8(offset % 4)) % 256) by (bit_vector)
        requires
            r == (register >> shift) as u8,
            shift == (offset % 4) * 8,
    ;
    r
}

/// 256 to the power `k`, for `k` below 4.
pub open spec fn pow2_8(k: u8) -> int {
    if k == 0 {
        1
    } else if k == 1 {
        0x100
    } else if k == 2 {
        0x1_0000
    } else {
        0x100_0000
    }
}

/// What a base address register maps.
#[derive(Clone, Copy, Debug, PartialEq, Eq, Structural)]
pub enum PciBarType {
    Unused,
    MemorySpace32,
    MemorySpace64,
    IoSpace,
}

/// A decoded base address register.
#[derive(Clone, Copy, Debug, PartialEq, Eq, Structural)]
pub struct PciBar {
    pub bar_type: PciBarType,
    pub address: u64,
}

/// The kind of base address register value `bar`: I/O space where its low
/// bit is set, else memory space of 32 bits (type 0) or 64 bits (type 2);
/// `None` for the other types.
pub open spec fn bar_kind(bar: u32) -> Option<PciBarType> {
    if bar % 2 == 1 {
        Some(PciBarType::IoSpace)
    } else if (bar / 2) % 4 == 0 {
        Some(PciBarType::MemorySpace32)
    } else if (bar / 2) % 4 == 2 {
        Some(PciBarType::MemorySpace64)
    } else {
        None
    }
}

/// The base address registers that the six register values `raw` (offsets
/// 0x10 to 0x24) describe, from register `k` on, as the firmware reads
/// them: the registers before offset 0x24 each start a BAR, a 64-bit one
/// taking its high half from the next register.
pub open spec fn decode_from(raw: Seq<u32>, k: int) -> Option<Seq<PciBar>>
    decreases 6 - k,
{
    if k >= 5 || k < 0 {
        Some(Seq::empty())
    } else {
        let bar = raw[k];
        match bar_kind(bar) {
            None => None,
            Some(PciBarType::IoSpace) => match decode_from(raw, k + 1) {
                Some(rest) => Some(seq![PciBar { bar_type: PciBarType::IoSpace, address: (bar - bar % 4) as u64 }] + rest),
                None => None,
            },
            Some(PciBarType::MemorySpace64) => match decode_from(raw, k + 2) {
                Some(rest) => Some(
                    seq![PciBar { bar_type: PciBarType::MemorySpace64, address: ((bar - bar % 16) + raw[k + 1] as int * 0x1_0000_0000) as u64 }] + rest,
                ),
                None => None,
            },
            Some(t) => match decode_from(raw, k + 1) {
                Some(rest) => Some(seq![PciBar { bar_type: t, address: (bar - bar % 16) as u64 }] + rest),
                None => None,
            },
        }
    }
}

/// Decodes one base address register value.
fn bar_of(bar: u32) -> (r: Option<PciBarType>)
    ensures
        r == bar_kind(bar),
{
    if bar & 1 == 1 {
        assert(bar % 2 == 1) by (bit_vector)
            requires
                bar & 1 == 1,
        ;
        Some(PciBarType::IoSpace)
    } else {
        assert(bar % 2 == 0) by (bit_vector)
            requires
                bar & 1 != 1,
        ;
        let t = bar >> 1 & 3;
        assert(t == (bar / 2) % 4) by (bit_vector)
            requires
                t == bar >> 1 & 3,
        ;
        if t == 0 {
            Some(PciBarType::MemorySpace32)
        } else if t == 2 {
            Some(PciBarType::MemorySpace64)
        } else {
            None
        }
    }
}

/// The base address registers that the register values `raw` (offsets 0x10
/// to 0x24) describe; `None` where one has a type the firmware does not
/// support.
pub fn decode_bars(raw: &[u32]) -> (r: Option<Vec<PciBar>>)
    requires
        raw@.len() == 6,
    ensures
        match decode_from(raw@, 0) {
            Some(s) => r matches Some(v) && v@ == s,
            None => r is None,
        },
{
    decode_bars_from(raw, 0)
}

fn decode_bars_from(raw: &[u32], k: usize) -> (r: Option<Vec<PciBar>>)
    requires
        raw@.len() == 6,
    ensures
        match decode_from(raw@, k as int) {
            Some(s) => r matches Some(v) && v@ == s,
            None => r is None,
        },
    decreases 6 - k,
{
    if k >= 5 {
        return Some(Vec::new());
    }
    let bar = raw[k];
    match bar_of(bar) {
        None => None,
        Some(PciBarType::IoSpace) => {
            let address = (bar & 0xffff_fffc) as u64;
            assert(address == bar - bar % 4) by (bit_vector)
                requires
                    address == (bar & 0xffff_fffc) as u64,
            ;
            match decode_bars_from(raw, k + 1) {
                Some(rest) => {
                    let mut v = Vec::new();
                    v.push(PciBar { bar_type: PciBarType::IoSpace, address });
                    let mut rest = rest;
                    v.append(&mut rest);
                    Some(v)
                },
                None => None,
            }
        },
        Some(PciBarType::MemorySpace64) => {
            let low = (bar & 0xffff_fff0) as u64;
            assert(low == bar - bar % 16) by (bit_vector)
                requires
                    low == (bar & 0xffff_fff0) as u64,
            ;
            let address = low + (raw[k + 1] as u64) * 0x1_0000_0000;
            match decode_bars_from(raw, k + 2) {
                Some(rest) => {
                    let mut v = Vec::new();
                    v.push(PciBar { bar_type: PciBarType::MemorySpace64, address });
                    let mut rest = rest;
                    v.append(&mut rest);
                    Some(v)
                },
                None => None,
            }
        },
        Some(t) => {
            let address = (bar & 0xffff_fff0) as u64;
            assert(address == bar - bar % 16) by (bit_vector)
                requires
                    address == (bar & 0xffff_fff0) as u64,
            ;
            match decode_bars_from(raw, k + 1) {
                Some(rest) => {
                    let mut v = Vec::new();
                    v.push(PciBar { bar_type: t, address });
                    let mut rest = rest;
                    v.append(&mut rest);
                    Some(v)
                },
                None => None,
            }
        },
    }
}

/// The 16-bit word at `offset` (even) of configuration space, from the
/// 32-bit register that holds it.
pub fn config_word(register: u32, offset: u8) -> (r: u16)
    requires
        offset % 2 == 0,
    ensures
        r == (register as int / pow2_8(offset % 4)) % 0x1_0000,
{
    let shift = ((offset % 4) * 8) as u32;
    let r = (register >> shift) as u16;
    assert(r == (register as int / pow2_8(offset % 4)) % 0x1_0000) by (bit_vector)
        requires
            r == (register >> shift) as u16,
            shift == (offset % 4) * 8,
            offset % 2 == 0,
    ;
    r
}

/// Access to the configuration registers of PCI functions.
pub trait ConfigSpace {
    /// The value of the 32-bit register at `offset` of function `func` of
    /// device `device` on bus `bus`. A configuration space that does not
    /// define it keeps the default, which states no value: the contract of
    /// `read_u32` then says nothing of what a read gives back.
    closed spec fn register(&self, bus: u8, device: u8, func: u8, offset: u8) -> Option<u32> {
        None
    }

    /// The 32-bit register at `offset` (a multiple of 4) of function `func`
    /// of device `device` on bus `bus`.
    fn read_u32(&self, bus: u8, device: u8, func: u8, offset: u8) -> (r: u32)
        requires
            offset % 4 == 0,
            device < MAX_DEVICES,
            func < MAX_FUNCTIONS,
        ensures
            self.register(bus, device, func, offset) matches Some(v) ==> r == v,
    ;
}

/// The 16-bit word at `offset` (even) of a configuration register whose
/// value is `register`.
pub open spec fn word_of(register: u32, offset: u8) -> int {
    (register as int / pow2_8(offset % 4)) % 0x1_0000
}

/// Where the registers of function `func` of device `device` on bus `bus`
/// have values, the word at `offset`, from the register that holds it.
fn config_read_u16<C: ConfigSpace>(c: &C, bus: u8, device: u8, func: u8, offset: u8) -> (r: u16)
    requires
        offset % 2 == 0,
        device < MAX_DEVICES,
        func < MAX_FUNCTIONS,
    ensures
        c.register(bus, device, func, offset & 0xfc) matches Some(v) ==> r == word_of(v, offset),
{
    let aligned = offset & 0xfc;
    assert(aligned % 4 == 0) by (bit_vector)
        requires
            aligned == offset & 0xfc,
    ;
    let register = c.read_u32(bus, device, func, aligned);
    config_word(register, offset)
}

/// The vendor and device IDs of a function: the two words of its first
/// register.
fn get_device_details<C: ConfigSpace>(c: &C, bus: u8, device: u8, func: u8) -> (r: (u16, u16))
    requires
        device < MAX_DEVICES,
        func < MAX_FUNCTIONS,
    ensures
        c.register(bus, device, func, 0) matches Some(v) ==> r.0 == word_of(v, 0) && r.1 == word_of(v, 2),
{
    assert(0u8 & 0xfc == 0 && 2u8 & 0xfc == 0) by (bit_vector);
    (config_read_u16(c, bus, device, func, 0), config_read_u16(c, bus, device, func, 2))
}

/// Whether the six base address registers (offsets 0x10 to 0x24) of
/// function `func` of device `device` on bus `bus` have values.
pub open spec fn bars_known<C: ConfigSpace>(c: &C, bus: u8, device: u8, func: u8) -> bool {
    forall|i: int| 0 <= i < 6 ==> #[trigger] c.register(bus, device, func, (0x10 + 4 * i) as u8) is Some
}

/// The values of the six base address registers of function `func` of
/// device `device` on bus `bus`, where they have them.
pub open spec fn bar_values<C: ConfigSpace>(c: &C, bus: u8, device: u8, func: u8) -> Seq<u32> {
    Seq::new(6, |i: int| c.register(bus, device, func, (0x10 + 4 * i) as u8)->Some_0)
}

/// A PCI function, with its decoded base address registers.
#[derive(Debug)]
pub struct PciDevice {
    pub bus: u8,
    pub device: u8,
    pub func: u8,
    pub bars: Vec<PciBar>,
    pub vendor_id: u16,
    pub device_id: u16,
}

/// The six unused base address registers of a function not yet read.
pub open spec fn unused_bars() -> Seq<PciBar> {
    Seq::new(6, |i: int| PciBar { bar_type: PciBarType::Unused, address: 0 })
}

/// The six base address registers that `decoded` fills from the first on,
/// the others unused.
pub open spec fn padded_bars(decoded: Seq<PciBar>) -> Seq<PciBar> {
    Seq::new(6, |i: int| if i < decoded.len() { decoded[i] } else { PciBar { bar_type: PciBarType::Unused, address: 0 } })
}

proof fn lemma_decode_len(raw: Seq<u32>, k: int)
    requires
        0 <= k,
    ensures
        decode_from(raw, k) matches Some(s) ==> s.len() <= 6 - k || s.len() == 0,
    decreases 6 - k,
{
    if k < 5 {
        lemma_decode_len(raw, k + 1);
        lemma_decode_len(raw, k + 2);
    }
}

impl PciDevice {
    /// Function `func` of device `device` on bus `bus`, not yet read.
    pub fn new(bus: u8, device: u8, func: u8) -> (r: PciDevice)
        ensures
            r.bus == bus,
            r.device == device,
            r.func == func,
            r.bars@ == unused_bars(),
            r.vendor_id == 0,
            r.device_id == 0,
    {
        let mut bars: Vec<PciBar> = Vec::new();
        while bars.len() < 6
            invariant
                bars@.len() <= 6,
                forall|i: int| 0 <= i < bars@.len() ==> bars@[i] == (PciBar { bar_type: PciBarType::Unused, address: 0 }),
            decreases 6 - bars@.len(),
        {
            bars.push(PciBar { bar_type: PciBarType::Unused, address: 0 });
        }
        assert(bars@ =~= unused_bars());
        PciDevice { bus, device, func, bars, vendor_id: 0, device_id: 0 }
    }

    /// Takes the IDs and the base address registers that the register
    /// values `raw` (offsets 0x10 to 0x24) describe; `Err` where one has a
    /// type the firmware does not support, and the device is then unchanged.
    pub fn set_registers(&mut self, vendor_id: u16, device_id: u16, raw: &[u32]) -> (r: Result<(), ()>)
        requires
            raw@.len() == 6,
        ensures
            final(self).bus == old(self).bus,
            final(self).device == old(self).device,
            final(self).func == old(self).func,
            match decode_from(raw@, 0) {
                Some(s) => r is Ok && final(self).vendor_id == vendor_id && final(self).device_id == device_id
                    && final(self).bars@ == padded_bars(s),
                None => r is Err && *final(self) == *old(self),
            },
    {
        let decoded = match decode_bars(raw) {
            Some(v) => v,
            None => {
                return Err(());
            },
        };
        proof {
            lemma_decode_len(raw@, 0);
        }
        let mut bars: Vec<PciBar> = Vec::new();
        let mut i: usize = 0;
        while i < 6
            invariant
                i <= 6,
                decoded@.len() <= 6,
                bars@.len() == i,
                forall|j: int| 0 <= j < i ==> bars@[j] == padded_bars(decoded@)[j],
            decreases 6 - i,
        {
            if i < decoded.len() {
                bars.push(decoded[i]);
            } else {
                bars.push(PciBar { bar_type: PciBarType::Unused, address: 0 });
            }
            i = i + 1;
        }
        assert(bars@ =~= padded_bars(decoded@));
        self.vendor_id = vendor_id;
        self.device_id = device_id;
        self.bars = bars;
        Ok(())
    }

    /// Reads the IDs and the first five base address registers (offsets
    /// 0x10 to 0x20) of the function; the sixth is left unread. `Err` where
    /// a register has a type the firmware does not support.
    pub fn init<C: ConfigSpace>(&mut self, c: &C) -> (r: Result<(), ()>)
        requires
            old(self).device < MAX_DEVICES,
            old(self).func < MAX_FUNCTIONS,
        ensures
            final(self).bus == old(self).bus,
            final(self).device == old(self).device,
            final(self).func == old(self).func,
            r is Ok ==> final(self).bars@.len() == 6,
            ({
                let (b, d, f) = (old(self).bus, old(self).device, old(self).func);
                c.register(b, d, f, 0) matches Some(v) ==> (bars_known(c, b, d, f) ==> match decode_from(
                    bar_values(c, b, d, f),
                    0,
                ) {
                    Some(s) => r is Ok && final(self).vendor_id == word_of(v, 0) && final(self).device_id == word_of(
                        v,
                        2,
                    ) && final(self).bars@ == padded_bars(s),
                    None => r is Err && *final(self) == *old(self),
                })
            }),
    {
        let (vendor_id, device_id) = get_device_details(c, self.bus, self.device, self.func);
        let ghost known = bars_known(c, self.bus, self.device, self.func);
        let ghost values = bar_values(c, self.bus, self.device, self.func);
        let mut raw: Vec<u32> = Vec::new();
        let mut offset: u8 = 0x10;
        while offset <= 0x24
            invariant
                0x10 <= offset <= 0x28,
                offset % 4 == 0,
                raw@.len() == (offset - 0x10) / 4,
                self.device < MAX_DEVICES,
                self.func < MAX_FUNCTIONS,
                *self == *old(self),
                known == bars_known(c, self.bus, self.device, self.func),
                values == bar_values(c, self.bus, self.device, self.func),
                known ==> raw@ == values.take(raw@.len() as int),
            decreases 0x28 - offset,
        {
            proof {
                let i = raw@.len() as int;
                assert(offset == (0x10 + 4 * i) as u8);
                if known {
                    assert(c.register(self.bus, self.device, self.func, (0x10 + 4 * i) as u8) is Some);
                }
            }
            raw.push(c.read_u32(self.bus, self.device, self.func, offset));
            proof {
                if known {
                    assert(raw@ =~= values.take(raw@.len() as int));
                }
            }
            offset = offset + 4;
        }
        proof {
            if known {
                assert(raw@ =~= values);
            }
        }
        proof {
            lemma_decode_len(raw@, 0);
        }
        self.set_registers(vendor_id, device_id, raw.as_slice())
    }
}

/// Whether function 0 of device `d` on bus 0 answers: its vendor ID is
/// valid.
pub open spec fn answers<C: ConfigSpace>(c: &C, d: int) -> bool {
    word_of(c.register(0, d as u8, 0, 0)->Some_0, 0) != INVALID_VENDOR_ID
}

/// Whether every base address register of function 0 of device `d` on bus
/// 0 has a type the firmware supports.
pub open spec fn supported<C: ConfigSpace>(c: &C, d: int) -> bool {
    decode_from(bar_values(c, 0, d as u8, 0), 0) is Some
}

/// Whether the registers that listing bus 0 reads have values: the first
/// of function 0 of each device, and the base address registers of those
/// that answer.
pub open spec fn bus_known<C: ConfigSpace>(c: &C) -> bool {
    forall|d: int|
        0 <= d < MAX_DEVICES ==> #[trigger] c.register(0, d as u8, 0, 0) is Some && (answers(c, d) ==> bars_known(
            c,
            0,
            d as u8,
            0,
        ))
}

/// Some function of `v` belongs to device `d`.
pub open spec fn has_device(v: Seq<PciDevice>, d: int) -> bool {
    exists|i: int| 0 <= i < v.len() && v[i].device == d
}

/// `p` is function 0 of device `d` on bus 0 as its registers describe it.
pub open spec fn listed<C: ConfigSpace>(c: &C, p: PciDevice, d: int) -> bool {
    let v = c.register(0, d as u8, 0, 0)->Some_0;
    &&& p.bus == 0 && p.func == 0 && p.device == d
    &&& p.vendor_id == word_of(v, 0) && p.device_id == word_of(v, 2)
    &&& p.bars@ == padded_bars(decode_from(bar_values(c, 0, d as u8, 0), 0)->Some_0)
}

/// The functions 0 of the devices on bus 0 that answer, each read; `Err`
/// where one has a base address register of a type the firmware does not
/// support.
pub fn print_bus<C: ConfigSpace>(c: &C) -> (r: Result<Vec<PciDevice>, ()>)
    ensures
        r matches Ok(v) ==> forall|i: int|
            0 <= i < v@.len() ==> v@[i].bus == 0 && v@[i].func == 0 && v@[i].device < MAX_DEVICES
                && v@[i].bars@.len() == 6,
        r matches Ok(v) ==> forall|i: int, j: int| 0 <= i < j < v@.len() ==> v@[i].device < v@[j].device,
        bus_known(c) ==> (r is Ok <==> forall|d: int| 0 <= d < MAX_DEVICES && #[trigger] answers(c, d) ==> supported(c, d)),
        bus_known(c) ==> (r matches Ok(v) ==> forall|i: int|
            0 <= i < v@.len() ==> #[trigger] listed(c, v@[i], v@[i].device as int) && answers(c, v@[i].device as int)),
        bus_known(c) ==> (r matches Ok(v) ==> forall|d: int|
            0 <= d < MAX_DEVICES && #[trigger] answers(c, d) ==> has_device(v@, d)),
{
    let mut found: Vec<PciDevice> = Vec::new();
    let mut device: u8 = 0;
    let ghost known = bus_known(c);
    while device < MAX_DEVICES
        invariant
            device <= MAX_DEVICES,
            known == bus_known(c),
            known ==> forall|d: int| 0 <= d < device && #[trigger] answers(c, d) ==> supported(c, d),
            known ==> forall|i: int|
                0 <= i < found@.len() ==> #[trigger] listed(c, found@[i], found@[i].device as int) && answers(
                    c,
                    found@[i].device as int,
                ),
            known ==> forall|d: int| 0 <= d < device && #[trigger] answers(c, d) ==> has_device(found@, d),
            forall|i: int|
                0 <= i < found@.len() ==> found@[i].bus == 0 && found@[i].func == 0 && found@[i].device < device
                    && found@[i].bars@.len() == 6,
            forall|i: int, j: int| 0 <= i < j < found@.len() ==> found@[i].device < found@[j].device,
        decreases MAX_DEVICES - device,
    {
        let (vendor_id, _device_id) = get_device_details(c, 0, device, 0);
        proof {
            if known {
                assert((device as int) as u8 == device);
                assert(c.register(0, (device as int) as u8, 0, 0) is Some);
                assert((vendor_id != INVALID_VENDOR_ID) == answers(c, device as int));
            }
        }
        if vendor_id != INVALID_VENDOR_ID {
            let mut pci_device = PciDevice::new(0, device, 0);
            match pci_device.init(c) {
                Ok(()) => {},
                Err(()) => {
                    proof {
                        if known {
                            assert(!supported(c, device as int));
                            assert(answers(c, device as int));
                        }
                    }
                    return Err(());
                },
            }
            let ghost before = found@;
            found.push(pci_device);
            proof {
                if known {
                    assert(listed(c, found@[before.len() as int], device as int));
                    assert(found@[before.len() as int].device == device);
                    assert forall|d: int| 0 <= d < device + 1 && #[trigger] answers(c, d) implies has_device(
                        found@,
                        d,
                    ) by {
                        if d == device {
                            assert(found@[before.len() as int].device == d);
                        } else {
                            assert(has_device(before, d));
                            let i = choose|i: int| 0 <= i < before.len() && before[i].device == d;
                            assert(found@[i] == before[i]);
                        }
                    }
                }
            }
        } else {
            proof {
                if known {
                    assert forall|d: int| 0 <= d < device + 1 && #[trigger] answers(c, d) implies has_device(
                        found@,
                        d,
                    ) by {
                        assert(d != device);
                    }
                }
            }
        }
        device = device + 1;
    }
    proof {
        if known {
            assert(forall|i: int| 0 <= i < found@.len() ==> #[trigger] listed(c, found@[i], found@[i].device as int)
                && answers(c, found@[i].device as int));
        }
    }
    Ok(found)
}

} // verus!
