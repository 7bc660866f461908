//! Loading a Linux bzImage: checking its setup header, placing the kernel,
//! the initial ramdisk and the command line in memory, and filling the zero
//! page for it.
use vstd::prelude::*;
use crate::block::{sector_buf, SECTOR_SIZE};
use crate::boot::{e820_of, header_of, E820Entry, Header, Params, E820_MAX_ENTRIES, HEADER_START, RAM_TYPE};
use crate::bootinfo::Info;
use crate::fat::{self, Read};
use crate::mem::{changes_only, written, PhysicalMemory};

verus! {

#[derive(Clone, Copy, Debug, PartialEq, Eq, Structural)]
pub enum Error {
    File(fat::Error),
    NoInitrdMemory,
    MagicMissing,
    NotRelocatable,
}

/// Where the kernel is loaded.
pub const KERNEL_LOCATION: u64 = 0x20_0000;
/// Where the command line is placed.
pub const CMDLINE_START: u64 = 0x4b000;
/// The room for the command line, its NUL included.
pub const CMDLINE_MAX_LEN: u64 = 0x10000;
/// The setup header's magic, "HdrS", as a little-endian number.
pub const HDRS_MAGIC: u32 = 0x5372_6448;
/// The boot sector's signature.
pub const BOOT_FLAG: u16 = 0xAA55;
/// 2 MiB, the alignment of the initial ramdisk.
pub const TWO_MIB: u64 = 0x20_0000;

/// What loading a kernel with header `h` gives: `MagicMissing` without the
/// boot signature or the header magic, `NotRelocatable` before protocol
/// 2.05 or for a kernel that cannot be moved.
pub open spec fn header_check(h: Header) -> Result<(), Error> {
    if h.boot_flag != BOOT_FLAG || h.header != HDRS_MAGIC {
        Err(Error::MagicMissing)
    } else if h.version < 0x205 || h.relocatable_kernel == 0 {
        Err(Error::NotRelocatable)
    } else {
        Ok(())
    }
}

/// The bytes before the kernel proper: the boot sector and the setup
/// sectors (four where the header says zero).
pub open spec fn setup_bytes(h: Header) -> int {
    let sects: int = if h.setup_sects == 0 {
        4
    } else {
        h.setup_sects as int
    };
    (sects + 1) * 512
}

/// `x` rounded down to a multiple of 2 MiB.
pub open spec fn align_2m(x: int) -> int {
    x - x % (TWO_MIB as int)
}

/// The highest start that an initial ramdisk of `size` bytes may have under
/// header `h`: below the header's limit (0x37FF_FFFF where it gives none)
/// and below 4 GiB, aligned to 2 MiB; none where it does not fit at all.
pub open spec fn initrd_max_start(h: Header, size: int) -> Option<int> {
    let limit: int = if h.initrd_addr_max == 0 {
        0x37FF_FFFF
    } else {
        h.initrd_addr_max as int
    };
    let limit = if limit < 0xFFFF_FFFF {
        limit
    } else {
        0xFFFF_FFFF
    };
    if size > limit + 1 {
        None
    } else {
        Some(align_2m(limit + 1 - size))
    }
}

/// Where entry `e` would hold an initial ramdisk of `size` bytes: at its
/// top, aligned down to 2 MiB, but no higher than `max_start`; none for
/// entries that are not RAM, start above `max_start` or are too small.
pub open spec fn initrd_candidate(e: E820Entry, size: int, max_start: int) -> Option<int> {
    if e.entry_type != RAM_TYPE || e.addr > max_start || size > e.size {
        None
    } else {
        let top = align_2m(e.addr + e.size - size);
        Some(if top < max_start { top } else { max_start })
    }
}

/// The highest candidate among `entries`.
pub open spec fn initrd_best(entries: Seq<E820Entry>, size: int, max_start: int) -> Option<int>
    decreases entries.len(),
{
    if entries.len() == 0 {
        None
    } else {
        let prev = initrd_best(entries.drop_last(), size, max_start);
        match initrd_candidate(entries.last(), size, max_start) {
            None => prev,
            Some(p) => match prev {
                Some(c) => if c >= p {
                    prev
                } else {
                    Some(p)
                },
                None => Some(p),
            },
        }
    }
}

/// Where an initial ramdisk of `size` bytes goes for the zero page `p`.
pub open spec fn initrd_spec(p: Params, size: int) -> Option<int> {
    match initrd_max_start(p.hdr, size) {
        None => None,
        Some(m) => initrd_best(p.table().take(p.entry_count() as int), size, m),
    }
}

/// A kernel being prepared for boot: its zero page, and the length of the
/// command line placed for it so far.
pub struct Kernel {
    pub params: Params,
    pub cmdline_len: u64,
}

proof fn lemma_align_2m(x: u64)
    ensures
        x & !0x1f_ffffu64 == align_2m(x as int),
{
    assert(x & !0x1f_ffffu64 == x - x % 0x20_0000) by (bit_vector);
}

proof fn lemma_align_2m_wide(x: u128)
    ensures
        x & !0x1f_ffffu128 == align_2m(x as int),
{
    assert(x & !0x1f_ffffu128 == x - x % 0x20_0000) by (bit_vector);
}

/// Loads `len` bytes of `f`, from where it stands, to physical address
/// `addr`, sector by sector; the last, partial sector must be exactly what
/// is left of the file.
fn load_to<R: Read, M: PhysicalMemory>(f: &mut R, mem: &mut M, addr: u64, len: u64) -> (r: Result<(), fat::Error>)
    requires
        old(f).ready(),
        addr + len <= u64::MAX,
    ensures
        final(f).ready(),
        final(f).content() == old(f).content(),
        changes_only(*old(mem), *final(mem), addr as int, addr + len),
        r is Ok && 0 <= old(f).cursor() && old(f).cursor() + len <= old(f).content().len() ==> (old(mem).bytes() matches Some(
            m,
        ) ==> final(mem).bytes() == Some(
            written(m, addr as int, old(f).content().subrange(old(f).cursor(), old(f).cursor() + len)),
        )),
        old(f).faultless() ==> final(f).faultless(),
        old(f).faultless() && 0 <= old(f).cursor() && old(f).cursor() + len <= old(f).content().len() && (len % 512 == 0
            || old(f).cursor() + len == old(f).content().len()) ==> r is Ok,
        old(f).reliable() ==> final(f).reliable() && r != Err::<(), fat::Error>(fat::Error::BlockError),
{
    let ghost mem0 = *mem;
    let ghost c0 = f.cursor();
    let ghost content = f.content();
    let ghost enough = 0 <= c0 && c0 + len <= content.len();
    let mut buf = sector_buf();
    let mut off: u64 = 0;
    while len - off >= 512
        invariant
            f.ready(),
            f.content() == content,
            content == old(f).content(),
            c0 == old(f).cursor(),
            enough == (0 <= c0 && c0 + len <= content.len()),
            off <= len,
            addr + len <= u64::MAX,
            buf@.len() == SECTOR_SIZE,
            mem0 == *old(mem),
            changes_only(mem0, *mem, addr as int, addr + len),
            enough ==> f.cursor() == c0 + off,
            enough ==> (mem0.bytes() matches Some(m) ==> mem.bytes() == Some(
                written(m, addr as int, content.subrange(c0, c0 + off)),
            )),
            old(f).faultless() ==> f.faultless(),
            old(f).reliable() ==> f.reliable(),
            off % 512 == 0,
        decreases len - off,
    {
        let nr = match f.read(buf.as_mut_slice()) {
            Ok(v) => v,
            Err(e) => {
                return Err(e);
            },
        };
        proof {
            if enough {
                assert(nr == 512);
            }
        }
        let ghost before = *mem;
        mem.write_bytes(addr + off, buf.as_slice());
        proof {
            lemma_write_within(mem0, before, *mem, addr as int, addr + len, (addr + off) as int, buf@);
            if enough && mem0.bytes() is Some {
                let m = mem0.bytes()->0;
                assert(buf@ =~= content.subrange(c0 + off, c0 + off + 512));
                crate::mem::lemma_written_concat(
                    m,
                    addr as int,
                    content.subrange(c0, c0 + off),
                    content.subrange(c0 + off, c0 + off + 512),
                );
                assert(content.subrange(c0, c0 + off) + content.subrange(c0 + off, c0 + off + 512) =~= content.subrange(
                    c0,
                    c0 + off + 512,
                ));
            }
        }
        off = off + 512;
    }
    if off == len {
        return Ok(());
    }
    proof {
        assert(len % 512 != 0) by (nonlinear_arith)
            requires
                off % 512 == 0,
                off < len,
                len - off < 512,
        ;
    }
    let bytes = match f.read(buf.as_mut_slice()) {
        Ok(b) => b as u64,
        Err(e) => {
            return Err(e);
        },
    };
    if bytes != len - off {
        return Err(fat::Error::EndOfFile);
    }
    let part = vstd::slice::slice_subrange(buf.as_slice(), 0, bytes as usize);
    let ghost before = *mem;
    mem.write_bytes(addr + off, part);
    proof {
        lemma_write_within(mem0, before, *mem, addr as int, addr + len, (addr + off) as int, part@);
        if enough && mem0.bytes() is Some {
            let m = mem0.bytes()->0;
            assert(part@ =~= content.subrange(c0 + off, c0 + len));
            crate::mem::lemma_written_concat(
                m,
                addr as int,
                content.subrange(c0, c0 + off),
                content.subrange(c0 + off, c0 + len),
            );
            assert(content.subrange(c0, c0 + off) + content.subrange(c0 + off, c0 + len) =~= content.subrange(
                c0,
                c0 + len,
            ));
        }
    }
    Ok(())
}

/// What changes only within `lo..hi` changes only within `lo..hi2` for a
/// larger `hi2`.
proof fn lemma_widen<M: PhysicalMemory>(before: M, after: M, lo: int, hi: int, hi2: int)
    requires
        changes_only(before, after, lo, hi),
        hi <= hi2,
    ensures
        changes_only(before, after, lo, hi2),
{
    if before.bytes() is Some {
        let m = before.bytes()->0;
        let m2 = after.bytes()->0;
        assert forall|a: int| !(lo <= a < hi2) implies #[trigger] m2(a) == m(a) by {
            assert(!(lo <= a < hi));
        }
    }
}

/// A write of `data` at `at`, within `lo..hi`, keeps memory as it was
/// outside that range.
proof fn lemma_write_within<M: PhysicalMemory>(m0: M, before: M, after: M, lo: int, hi: int, at: int, data: Seq<u8>)
    requires
        changes_only(m0, before, lo, hi),
        before.bytes() matches Some(m) ==> after.bytes() == Some(written(m, at, data)),
        lo <= at,
        at + data.len() <= hi,
    ensures
        changes_only(m0, after, lo, hi),
{
    if m0.bytes() is Some {
        let m = m0.bytes()->0;
        let mb = before.bytes()->0;
        let ma = after.bytes()->0;
        assert(ma == written(mb, at, data));
        assert forall|a: int| !(lo <= a < hi) implies #[trigger] ma(a) == m(a) by {
            assert(mb(a) == m(a));
        }
    }
}

impl Kernel {
    /// A kernel with the memory map and ACPI tables of boot protocol `info`.
    pub fn new<I: Info>(info: &I) -> (k: Kernel)
        ensures
            k.params.wf(),
            k.params.hdr == crate::boot::zero_header(),
            k.cmdline_len == 0,
            info.rsdp() matches Some(a) ==> k.params.acpi_rsdp_addr == match a {
                Some(x) => x,
                None => 0,
            },
            info.memory_map() matches Some(m) ==> {
                let n = if m.len() % 256 > E820_MAX_ENTRIES { E820_MAX_ENTRIES as int } else { (m.len() % 256) as int };
                &&& k.params.entry_count() == n
                &&& forall|i: int| 0 <= i < n ==> #[trigger] k.params.table()[i] == e820_of(m[i])
            },
    {
        let mut params = Params::default();
        params.acpi_rsdp_addr = match info.rsdp_addr() {
            Some(a) => a,
            None => 0,
        };
        params.set_entries(info);
        Kernel { params, cmdline_len: 0 }
    }

    /// Whether header `h` is that of a kernel that can be loaded.
    pub fn check_header(h: &Header) -> (r: Result<(), Error>)
        ensures
            r == header_check(*h),
    {
        if h.boot_flag != BOOT_FLAG || h.header != HDRS_MAGIC {
            return Err(Error::MagicMissing);
        }
        if h.version < 0x205 || h.relocatable_kernel == 0 {
            return Err(Error::NotRelocatable);
        }
        Ok(())
    }

    /// Reads the kernel's header from `f`, checks it, loads the kernel
    /// proper (what follows the setup sectors) to `KERNEL_LOCATION` and
    /// fills the fields that the loader writes.
    pub fn load_kernel<R: Read, M: PhysicalMemory>(&mut self, f: &mut R, mem: &mut M) -> (r: Result<(), Error>)
        requires
            old(self).params.wf(),
            old(f).ready(),
        ensures
            final(self).params.wf(),
            final(f).ready(),
            final(self).cmdline_len == old(self).cmdline_len,
            final(self).params.acpi_rsdp_addr == old(self).params.acpi_rsdp_addr,
            final(self).params.e820_entries == old(self).params.e820_entries,
            final(self).params.e820_table == old(self).params.e820_table,
            final(f).content() == old(f).content(),
            changes_only(*old(mem), *final(mem), KERNEL_LOCATION as int, KERNEL_LOCATION + old(f).file_size()),
            r is Ok && old(f).content().len() == old(f).file_size() && old(f).file_size() >= 1024 ==> {
                &&& final(self).params.hdr == (Header {
                    type_of_loader: 0xff,
                    code32_start: KERNEL_LOCATION as u32,
                    cmd_line_ptr: CMDLINE_START as u32,
                    ..header_of(old(f).content(), HEADER_START as int)
                })
                &&& old(mem).bytes() matches Some(m) ==> final(mem).bytes() == Some(
                    written(
                        m,
                        KERNEL_LOCATION as int,
                        old(f).content().subrange(setup_bytes(final(self).params.hdr), old(f).file_size() as int),
                    ),
                )
            },
            r == Err::<(), Error>(Error::MagicMissing) || r == Err::<(), Error>(Error::NotRelocatable) ==> r
                == header_check(final(self).params.hdr),
            old(f).faultless() ==> final(f).faultless(),
            ({
                let c = old(f).content();
                let h = header_of(c, HEADER_START as int);
                old(f).faultless() && c.len() == old(f).file_size() && c.len() >= 1024 ==> match header_check(h) {
                    Err(e) => r == Err::<(), Error>(e),
                    Ok(()) => {
                        &&& setup_bytes(h) < c.len() ==> r is Ok
                        &&& setup_bytes(h) > c.len() ==> r == Err::<(), Error>(Error::File(fat::Error::EndOfFile))
                    },
                }
            }),
            old(f).reliable() ==> final(f).reliable() && r != Err::<(), Error>(Error::File(fat::Error::BlockError)),
            ({
                let c = old(f).content();
                c.len() >= 1024 ==> match header_check(header_of(c, HEADER_START as int)) {
                    Err(e) => r == Err::<(), Error>(e) || r matches Err(Error::File(_)),
                    Ok(()) => r is Ok || r matches Err(Error::File(_)),
                }
            }),
            r is Ok ==> {
                let h = final(self).params.hdr;
                &&& h.boot_flag == BOOT_FLAG
                &&& h.header == HDRS_MAGIC
                &&& h.version >= 0x205
                &&& h.relocatable_kernel != 0
                &&& h.type_of_loader == 0xff
                &&& h.code32_start == KERNEL_LOCATION
                &&& h.cmd_line_ptr == CMDLINE_START
            },
    {
        let hdr = match Header::from_file(f) {
            Ok(h) => h,
            Err(e) => {
                return Err(Error::File(e));
            },
        };
        self.params.hdr = hdr;
        match Kernel::check_header(&hdr) {
            Ok(()) => {},
            Err(e) => {
                return Err(e);
            },
        }
        let setup_sects: u32 = if hdr.setup_sects == 0 {
            4
        } else {
            hdr.setup_sects as u32
        };
        let setup_bytes = (setup_sects + 1) * 512;
        let size = f.get_size();
        if size < setup_bytes {
            return Err(Error::File(fat::Error::EndOfFile));
        }
        let remaining = size - setup_bytes;
        proof {
            assert(setup_bytes % 512 == 0);
        }
        match f.seek(setup_bytes) {
            Ok(()) => {},
            Err(e) => {
                return Err(Error::File(e));
            },
        }
        let ghost m0 = *mem;
        let ghost c = f.content();
        assert(f.cursor() == setup_bytes);
        let lr = load_to(f, mem, KERNEL_LOCATION, remaining as u64);
        proof {
            lemma_widen(m0, *mem, KERNEL_LOCATION as int, KERNEL_LOCATION + remaining, KERNEL_LOCATION + size);
        }
        match lr {
            Ok(()) => {},
            Err(e) => {
                return Err(Error::File(e));
            },
        }
        self.params.hdr.type_of_loader = 0xff;
        self.params.hdr.code32_start = KERNEL_LOCATION as u32;
        self.params.hdr.cmd_line_ptr = CMDLINE_START as u32;
        Ok(())
    }

    /// Where an initial ramdisk of `size` bytes goes: the highest 2 MiB
    /// boundary, below the header's limit and 4 GiB, at which it fits in a
    /// RAM entry of the memory map.
    pub fn initrd_addr(&self, size: u64) -> (r: Option<u64>)
        requires
            self.params.wf(),
        ensures
            r matches Some(a) ==> initrd_spec(self.params, size as int) == Some(a as int) && a <= 0x1_0000_0000,
            r is None ==> initrd_spec(self.params, size as int) is None,
    {
        let h = &self.params.hdr;
        let mut limit: u64 = if h.initrd_addr_max == 0 {
            0x37FF_FFFF
        } else {
            h.initrd_addr_max as u64
        };
        if limit >= 0xFFFF_FFFF {
            limit = 0xFFFF_FFFF;
        }
        if size > limit + 1 {
            return None;
        }
        let unaligned = limit + 1 - size;
        let max_start = unaligned & !0x1f_ffffu64;
        proof {
            lemma_align_2m(unaligned);
        }
        let n = self.params.num_entries();
        let ghost entries = self.params.table().take(n as int);
        let mut current: Option<u64> = None;
        let mut i: usize = 0;
        while i < n
            invariant
                n == self.params.entry_count(),
                n <= E820_MAX_ENTRIES,
                self.params.wf(),
                entries == self.params.table().take(n as int),
                i <= n,
                max_start <= 0x1_0000_0000,
                current matches Some(c) ==> c <= max_start,
                current matches Some(c) ==> initrd_best(entries.take(i as int), size as int, max_start as int)
                    == Some(c as int),
                current is None ==> initrd_best(entries.take(i as int), size as int, max_start as int) is None,
            decreases n - i,
        {
            let e = self.params.e820_entry(i);
            proof {
                assert(entries.take(i + 1).drop_last() =~= entries.take(i as int));
                assert(entries.take(i + 1).last() == e);
            }
            if e.entry_type == RAM_TYPE && e.addr <= max_start && size <= e.size {
                let top_unaligned: u128 = e.addr as u128 + (e.size - size) as u128;
                let top = top_unaligned & !0x1f_ffffu128;
                proof {
                    lemma_align_2m_wide(top_unaligned);
                }
                let p: u64 = if top < max_start as u128 {
                    top as u64
                } else {
                    max_start
                };
                let replace = match current {
                    Some(c) => c < p,
                    None => true,
                };
                if replace {
                    current = Some(p);
                }
            }
            i = i + 1;
        }
        assert(entries.take(n as int) =~= entries);
        current
    }

    /// Loads the initial ramdisk `f` where `initrd_addr` places it and
    /// records it in the header.
    pub fn load_initrd<R: Read, M: PhysicalMemory>(&mut self, f: &mut R, mem: &mut M) -> (r: Result<(), Error>)
        requires
            old(self).params.wf(),
            old(f).ready(),
        ensures
            final(self).params.wf(),
            final(f).ready(),
            final(self).cmdline_len == old(self).cmdline_len,
            final(self).params.acpi_rsdp_addr == old(self).params.acpi_rsdp_addr,
            final(self).params.e820_entries == old(self).params.e820_entries,
            final(self).params.e820_table == old(self).params.e820_table,
            r is Err ==> final(self).params.hdr == old(self).params.hdr,
            final(f).content() == old(f).content(),
            match initrd_spec(old(self).params, old(f).file_size() as int) {
                Some(a) => changes_only(*old(mem), *final(mem), a, a + old(f).file_size()),
                None => *final(mem) == *old(mem),
            },
            r is Ok && old(f).content().len() == old(f).file_size() ==> (initrd_spec(
                old(self).params,
                old(f).file_size() as int,
            ) matches Some(a) && (old(mem).bytes() matches Some(m) ==> final(mem).bytes() == Some(
                written(m, a, old(f).content()),
            ))),
            r == Err::<(), Error>(Error::NoInitrdMemory) <==> initrd_spec(old(self).params, old(f).file_size() as int)
                is None,
            old(f).faultless() ==> final(f).faultless(),
            old(f).faultless() && old(f).content().len() == old(f).file_size() && old(f).file_size() > 0 && initrd_spec(
                old(self).params,
                old(f).file_size() as int,
            ) is Some ==> r is Ok,
            old(f).reliable() ==> final(f).reliable() && r != Err::<(), Error>(Error::File(fat::Error::BlockError)),
            r is Ok ==> {
                &&& initrd_spec(old(self).params, old(f).file_size() as int) matches Some(a)
                    && final(self).params.hdr.ramdisk_image == a as u32
                &&& final(self).params.hdr.ramdisk_size == old(f).file_size()
                &&& final(self).params.hdr == (Header {
                    ramdisk_image: final(self).params.hdr.ramdisk_image,
                    ramdisk_size: final(self).params.hdr.ramdisk_size,
                    ..old(self).params.hdr
                })
            },
    {
        let size = f.get_size();
        let addr = match self.initrd_addr(size as u64) {
            Some(a) => a,
            None => {
                return Err(Error::NoInitrdMemory);
            },
        };
        match f.seek(0) {
            Ok(()) => {},
            Err(e) => {
                return Err(Error::File(e));
            },
        }
        let ghost c = f.content();
        let lr = load_to(f, mem, addr, size as u64);
        match lr {
            Ok(()) => {},
            Err(e) => {
                return Err(Error::File(e));
            },
        }
        proof {
            if c.len() == size {
                assert(c.subrange(0, size as int) =~= c);
            }
        }
        self.params.hdr.ramdisk_image = addr as u32;
        self.params.hdr.ramdisk_size = size;
        Ok(())
    }

    /// Appends `addition` to the command line, after a space, and ends it
    /// with a NUL byte.
    pub fn append_cmdline<M: PhysicalMemory>(&mut self, addition: &[u8], mem: &mut M)
        requires
            addition@.len() > 0 ==> old(self).cmdline_len + 1 + addition@.len() < old(self).params.hdr.cmdline_size,
            addition@.len() > 0 ==> old(self).cmdline_len + 1 + addition@.len() + 1 <= CMDLINE_MAX_LEN,
        ensures
            final(self).params == old(self).params,
            addition@.len() == 0 ==> *final(mem) == *old(mem),
            addition@.len() > 0 ==> (old(mem).bytes() matches Some(m) ==> final(mem).bytes() == Some(
                written(m, CMDLINE_START + old(self).cmdline_len, seq![32u8] + addition@ + seq![0u8]),
            )),
            final(self).cmdline_len == if addition@.len() > 0 {
                old(self).cmdline_len + 1 + addition@.len()
            } else {
                old(self).cmdline_len as int
            },
    {
        if addition.len() == 0 {
            return;
        }
        let mut bytes: Vec<u8> = Vec::new();
        bytes.push(32);
        crate::common::append_bytes(&mut bytes, addition);
        bytes.push(0);
        assert(bytes@ =~= seq![32u8] + addition@ + seq![0u8]);
        mem.write_bytes(CMDLINE_START + self.cmdline_len, bytes.as_slice());
        self.cmdline_len = self.cmdline_len + 1 + addition.len() as u64;
    }
}

} // verus!
