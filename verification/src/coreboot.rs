//! The coreboot boot protocol: finding the coreboot table in low memory,
//! following its forward records, and reading its memory map and the ACPI
//! RSDP.
use vstd::prelude::*;
use crate::boot::{e820_type, known_e820_type};
use crate::bootinfo::{EntryType, MemoryEntry};
use crate::layout::MemoryDescriptor;
use crate::mem::{described, memory, read_le, word, MemoryRead};

verus! {

/// The signature of a coreboot table header, "LBIO".
pub const CB_SIGNATURE: u64 = 0x4f49424c;
/// The signature of the ACPI RSDP, "RSD PTR ".
pub const RSDP_SIGNATURE: u64 = 0x2052_5450_2044_5352;
/// Size of a coreboot table header.
pub const HEADER_SIZE: u64 = 24;
/// Tag of a record that forwards to another table.
pub const TAG_FORWARD: u64 = 0x11;
/// Tag of the memory map record.
pub const TAG_MEMORY: u64 = 0x01;
/// Size of the head (tag and size) of a record.
pub const RECORD_SIZE: u64 = 8;
/// Size of an entry of the coreboot memory map.
pub const MEMMAP_ENTRY_SIZE: u64 = 20;
/// How many forward records are followed before the search gives up.
pub const FORWARD_LIMIT: u32 = 16;
/// Where the BIOS data area keeps the EBDA address.
pub const EBDA_POINTER: u64 = 0x40e;

#[derive(Clone, Copy, Debug, PartialEq, Eq, Structural)]
pub enum Error {
    /// No coreboot table in the places searched.
    TableNotFound,
    /// No ACPI RSDP in the places searched.
    RsdpNotFound,
}

/// The first address `start + 16 * k` (from step `k` on, below
/// `start + len`) whose `n` bytes hold `sig`; addresses whose bytes would
/// pass the end of the address space end the search.
pub open spec fn scan(mem: spec_fn(int) -> u8, start: int, len: int, k: int, sig: int, n: nat) -> Option<int>
    decreases len + 16 - 16 * k,
{
    if k < 0 || 16 * k >= len || start + 16 * k + n > u64::MAX + 1 {
        None
    } else if word(mem, start + 16 * k, n) == sig {
        Some(start + 16 * k)
    } else {
        scan(mem, start, len, k + 1, sig, n)
    }
}

/// Where the memory map record of the table found from `start` lies, and
/// how many entries it has: the search for a header, then its records in
/// turn, a forward record starting the search again at its address (at most
/// `fuel` times); `None` where no memory map record is reached.
pub open spec fn table_info(mem: spec_fn(int) -> u8, start: int, len: int, fuel: nat) -> Option<(int, int)>
    decreases fuel, 0x1_0000_0001int,
{
    if fuel == 0 {
        None
    } else {
        match scan(mem, start, len, 0, CB_SIGNATURE as int, 4) {
            None => None,
            Some(h) => {
                proof {
                    lemma_word4_bound(mem, h + 20);
                }
                records(mem, h + HEADER_SIZE, 0, word(mem, h + 20, 4), len, fuel)
            },
        }
    }
}

/// The records from offset `offset` past `base` on, `remaining` of them.
pub open spec fn records(mem: spec_fn(int) -> u8, base: int, offset: int, remaining: int, len: int, fuel: nat) -> Option<(int, int)>
    decreases fuel, remaining,
{
    if fuel == 0 || remaining <= 0 || base + offset + 16 > u64::MAX {
        None
    } else {
        let rec = base + offset;
        let tag = word(mem, rec, 4);
        let size = word(mem, rec + 4, 4);
        if tag == TAG_FORWARD {
            table_info(mem, word(mem, rec + 8, 8), len, (fuel - 1) as nat)
        } else if tag == TAG_MEMORY {
            Some((rec + RECORD_SIZE, size / MEMMAP_ENTRY_SIZE as int))
        } else if offset + size > 0xffff_ffff {
            None
        } else {
            records(mem, base, offset + size, remaining - 1, len, fuel)
        }
    }
}

/// Searches `len` bytes from `start` on, in steps of 16, for the `n`-byte
/// signature `sig`.
fn find_signature<M: MemoryRead>(mem: &M, start: u64, len: u64, sig: u64, n: usize) -> (r: Option<u64>)
    requires
        1 <= n <= 8,
    ensures
        described(mem) ==> match r {
            Some(a) => scan(memory(mem), start as int, len as int, 0, sig as int, n as nat) == Some(a as int),
            None => scan(memory(mem), start as int, len as int, 0, sig as int, n as nat) is None,
        },
{
    let mut off: u64 = 0;
    let mut k: u64 = 0;
    while off < len
        invariant
            1 <= n <= 8,
            off == 16 * k,
            described(mem) ==> scan(memory(mem), start as int, len as int, 0, sig as int, n as nat)
                == scan(memory(mem), start as int, len as int, k as int, sig as int, n as nat),
        decreases len + 16 - off,
    {
        if start > u64::MAX - off || start + off > u64::MAX - n as u64 + 1 {
            return None;
        }
        let addr = start + off;
        let v = read_le(mem, addr, n);
        if v == sig {
            return Some(addr);
        }
        if off > u64::MAX - 16 {
            proof {
                if described(mem) {
                    assert(scan(memory(mem), start as int, len as int, k + 1, sig as int, n as nat) is None);
                }
            }
            return None;
        }
        off = off + 16;
        k = k + 1;
    }
    None
}

/// Searches the 4 KiB from `start` on for a coreboot table header.
pub fn find_header<M: MemoryRead>(mem: &M, start: u64, len: u64) -> (r: Option<u64>)
    ensures
        described(mem) ==> match r {
            Some(a) => scan(memory(mem), start as int, len as int, 0, CB_SIGNATURE as int, 4) == Some(a as int),
            None => scan(memory(mem), start as int, len as int, 0, CB_SIGNATURE as int, 4) is None,
        },
{
    find_signature(mem, start, len, CB_SIGNATURE, 4)
}

/// Searches `len` bytes from `start` on for the ACPI RSDP.
pub fn find_rsdp<M: MemoryRead>(mem: &M, start: u64, len: u64) -> (r: Option<u64>)
    ensures
        described(mem) ==> match r {
            Some(a) => scan(memory(mem), start as int, len as int, 0, RSDP_SIGNATURE as int, 8) == Some(a as int),
            None => scan(memory(mem), start as int, len as int, 0, RSDP_SIGNATURE as int, 8) is None,
        },
{
    find_signature(mem, start, len, RSDP_SIGNATURE, 8)
}

/// Where the entries of the memory map record at `record` start, and how
/// many there are in its `size` bytes.
pub fn parse_memmap(record: u64, size: u32) -> (r: (u64, usize))
    requires
        record + RECORD_SIZE <= u64::MAX,
    ensures
        r.0 == record + RECORD_SIZE,
        r.1 == (size as int) / (MEMMAP_ENTRY_SIZE as int),
{
    (record + RECORD_SIZE, (size as u64 / MEMMAP_ENTRY_SIZE) as usize)
}

/// Finds the coreboot table from `start` on and the memory map it leads to:
/// its first entry's address and the number of entries.
pub fn parse_info<M: MemoryRead>(mem: &M, start: u64, len: u64, fuel: u32) -> (r: Option<(u64, usize)>)
    ensures
        described(mem) ==> match r {
            Some((a, n)) => table_info(memory(mem), start as int, len as int, fuel as nat) == Some((a as int, n as int)),
            None => table_info(memory(mem), start as int, len as int, fuel as nat) is None,
        },
    decreases fuel,
{
    if fuel == 0 {
        return None;
    }
    let header = match find_header(mem, start, len) {
        Some(a) => a,
        None => {
            return None;
        },
    };
    proof {
        if described(mem) {
            // the header's four signature bytes lie below the end of memory
            assert(scan(memory(mem), start as int, len as int, 0, CB_SIGNATURE as int, 4) == Some(header as int));
        }
    }
    if header > u64::MAX - 40 {
        proof {
            if described(mem) {
                assert(records(memory(mem), header + HEADER_SIZE, 0, word(memory(mem), header + 20, 4), len as int, fuel as nat) is None);
            }
        }
        return None;
    }
    let entries = read_le(mem, header + 20, 4);
    let base = header + HEADER_SIZE;
    let mut offset: u64 = 0;
    let mut remaining: u64 = entries;
    while remaining > 0
        invariant
            fuel > 0,
            base == header + HEADER_SIZE,
            offset <= 0xffff_ffff,
            described(mem) ==> table_info(memory(mem), start as int, len as int, fuel as nat)
                == records(memory(mem), base as int, offset as int, remaining as int, len as int, fuel as nat),
        decreases remaining,
    {
        if base > u64::MAX - 16 - offset {
            return None;
        }
        let rec = base + offset;
        let tag = read_le(mem, rec, 4);
        let size = read_le(mem, rec + 4, 4);
        if tag == TAG_FORWARD {
            let forward = read_le(mem, rec + 8, 8);
            return parse_info(mem, forward, len, fuel - 1);
        }
        if tag == TAG_MEMORY {
            proof {
                if described(mem) {
                    lemma_word4_bound(memory(mem), rec + 4);
                }
            }
            let (a, n) = parse_memmap(rec, size as u32);
            return Some((a, n));
        }
        if size > 0xffff_ffff - offset {
            return None;
        }
        offset = offset + size;
        remaining = remaining - 1;
    }
    None
}

/// The memory map entry of the 20 bytes `entry_bytes` lays out: address,
/// size and E820 type; `None` for a type the firmware does not know.
pub open spec fn memmap_entry(addr: int, size: int, entry_type: int) -> Option<MemoryEntry> {
    if 0 <= entry_type <= u32::MAX && known_e820_type(entry_type as u32) {
        Some(MemoryEntry { addr: addr as u64, size: size as u64, entry_type: choose|t: EntryType| e820_type(t) == entry_type as u32 })
    } else {
        None
    }
}

/// What the coreboot table tells the firmware.
pub struct StartInfo<'a, M: MemoryRead> {
    pub mem: &'a M,
    pub rsdp_addr: u64,
    pub memmap_addr: u64,
    pub memmap_entries: usize,
    pub kernel_load_addr: u64,
    pub memory_layout: &'static [MemoryDescriptor],
}

impl<'a, M: MemoryRead> StartInfo<'a, M> {
    /// Finds the coreboot table (in the first 4 KiB of memory, else in the
    /// 4 KiB from 0xf0000) and the ACPI RSDP (in the first KiB of the EBDA,
    /// else from 0xe0000 to 0x100000).
    /// The kernel is to be loaded at `kernel_load_addr`.
    pub fn probe(mem: &'a M, kernel_load_addr: u64, memory_layout: &'static [MemoryDescriptor]) -> (r: Result<
        StartInfo<'a, M>,
        Error,
    >)
        ensures
            r matches Ok(info) ==> info.mem == mem && info.kernel_load_addr == kernel_load_addr
                && info.memory_layout == memory_layout,
            described(mem) ==> match r {
                Ok(info) => {
                    &&& match table_info(memory(mem), 0, 0x1000, FORWARD_LIMIT as nat) {
                        Some(t) => t == (info.memmap_addr as int, info.memmap_entries as int),
                        None => table_info(memory(mem), 0xf0000, 0x1000, FORWARD_LIMIT as nat)
                            == Some((info.memmap_addr as int, info.memmap_entries as int)),
                    }
                    &&& match scan(memory(mem), word(memory(mem), EBDA_POINTER as int, 2), 0x400, 0, RSDP_SIGNATURE as int, 8) {
                        Some(a) => a == info.rsdp_addr,
                        None => scan(memory(mem), 0xe0000, 0x20000, 0, RSDP_SIGNATURE as int, 8) == Some(info.rsdp_addr as int),
                    }
                },
                Err(Error::TableNotFound) => table_info(memory(mem), 0, 0x1000, FORWARD_LIMIT as nat) is None
                    && table_info(memory(mem), 0xf0000, 0x1000, FORWARD_LIMIT as nat) is None,
                Err(Error::RsdpNotFound) => (table_info(memory(mem), 0, 0x1000, FORWARD_LIMIT as nat) is Some
                    || table_info(memory(mem), 0xf0000, 0x1000, FORWARD_LIMIT as nat) is Some)
                    && scan(memory(mem), word(memory(mem), EBDA_POINTER as int, 2), 0x400, 0, RSDP_SIGNATURE as int, 8) is None
                    && scan(memory(mem), 0xe0000, 0x20000, 0, RSDP_SIGNATURE as int, 8) is None,
            },
    {
        let (memmap_addr, memmap_entries) = match parse_info(mem, 0x0, 0x1000, FORWARD_LIMIT) {
            Some(t) => t,
            None => match parse_info(mem, 0xf0000, 0x1000, FORWARD_LIMIT) {
                Some(t) => t,
                None => {
                    return Err(Error::TableNotFound);
                },
            },
        };
        let ebda_addr = read_le(mem, EBDA_POINTER, 2);
        let rsdp_addr = match find_rsdp(mem, ebda_addr, 0x400) {
            Some(a) => a,
            None => match find_rsdp(mem, 0xe0000, 0x20000) {
                Some(a) => a,
                None => {
                    return Err(Error::RsdpNotFound);
                },
            },
        };
        Ok(StartInfo { mem, rsdp_addr, memmap_addr, memmap_entries, kernel_load_addr, memory_layout })
    }

    /// Name of this boot protocol.
    pub fn name(&self) -> (r: &'static str)
        ensures
            r@ == "coreboot"@,
    {
        "coreboot"
    }

    /// Starting address of the ACPI RSDP.
    pub fn rsdp_addr(&self) -> (r: Option<u64>)
        ensures
            r == Some(self.rsdp_addr),
    {
        Some(self.rsdp_addr)
    }

    /// The kernel command line: coreboot gives none.
    pub fn cmdline(&self) -> (r: &'static [u8])
        ensures
            r@.len() == 0,
    {
        &[]
    }

    /// The number of entries of the memory map: none where it has no address.
    pub fn num_entries(&self) -> (r: usize)
        ensures
            r == if self.memmap_addr == 0 { 0 } else { self.memmap_entries },
    {
        if self.memmap_addr == 0 {
            return 0;
        }
        self.memmap_entries
    }

    /// Entry `idx` of the memory map; `None` where its type is not an E820
    /// type the firmware knows.
    pub fn entry(&self, idx: usize) -> (r: Option<MemoryEntry>)
        requires
            idx < self.num_entries_spec(),
            self.memmap_addr + MEMMAP_ENTRY_SIZE * self.memmap_entries <= u64::MAX,
        ensures
            described(self.mem) ==> r == memmap_entry(
                word(memory(self.mem), self.memmap_addr + MEMMAP_ENTRY_SIZE * idx, 8),
                word(memory(self.mem), self.memmap_addr + MEMMAP_ENTRY_SIZE * idx + 8, 8),
                word(memory(self.mem), self.memmap_addr + MEMMAP_ENTRY_SIZE * idx + 16, 4),
            ),
    {
        proof {
            assert(MEMMAP_ENTRY_SIZE * idx + MEMMAP_ENTRY_SIZE <= MEMMAP_ENTRY_SIZE * self.memmap_entries) by (nonlinear_arith)
                requires
                    idx < self.memmap_entries,
            ;
        }
        let at = self.memmap_addr + MEMMAP_ENTRY_SIZE * idx as u64;
        let addr = read_le(self.mem, at, 8);
        let size = read_le(self.mem, at + 8, 8);
        let t = read_le(self.mem, at + 16, 4);
        proof {
            if described(self.mem) {
                lemma_word4_bound(memory(self.mem), at + 16);
            }
        }
        let t = t as u32;
        if !(t == crate::boot::RAM_TYPE || t == crate::boot::RESERVED_TYPE || t == crate::boot::ACPI_RECLAIMABLE_TYPE
            || t == crate::boot::ACPI_NVS_TYPE || t == crate::boot::BAD_TYPE || t == crate::boot::VENDOR_RESERVED_TYPE
            || t == crate::boot::COREBOOT_TABLE_TYPE) {
            return None;
        }
        let entry_type = EntryType::from_e820(t);
        proof {
            assert(e820_type(entry_type) == t);
            lemma_e820_type_unique(entry_type, t);
        }
        Some(MemoryEntry { addr, size, entry_type })
    }

    /// The number of entries of the memory map.
    pub open spec fn num_entries_spec(&self) -> int {
        if self.memmap_addr == 0 { 0 } else { self.memmap_entries as int }
    }

    /// Where to load the kernel.
    pub fn kernel_load_addr(&self) -> (r: u64)
        ensures
            r == self.kernel_load_addr,
    {
        self.kernel_load_addr
    }

    /// The firmware's own memory.
    pub fn memory_layout(&self) -> (r: &'static [MemoryDescriptor])
        ensures
            r == self.memory_layout,
    {
        self.memory_layout
    }
}

/// A number of four bytes is below 2^32.
pub proof fn lemma_word4_bound(mem: spec_fn(int) -> u8, a: int)
    ensures
        0 <= word(mem, a, 4) < 0x1_0000_0000,
{
    crate::bytes::lemma_le_bounds(crate::mem::window(mem, a, 4), 0, 4);
    reveal_with_fuel(crate::bytes::pow256, 5);
}

proof fn lemma_e820_type_unique(t: EntryType, v: u32)
    requires
        e820_type(t) == v,
    ensures
        t == choose|u: EntryType| e820_type(u) == v,
{
    let u = choose|u: EntryType| e820_type(u) == v;
    assert(e820_type(u) == v);
}

} // verus!
