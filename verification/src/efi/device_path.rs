//! EFI device paths: reading the file or memory range that a chain of
//! device path nodes names, and laying out the nodes for one.
use vstd::prelude::*;
use crate::bytes::{le, le_bytes, zeros};
use crate::common::{low_byte, strip_nuls, ucs2_len_spec};

verus! {

/// Node type of hardware device paths.
pub const TYPE_HARDWARE: u8 = 0x01;
/// Node type of media device paths.
pub const TYPE_MEDIA: u8 = 0x04;
/// Node type that ends a device path.
pub const TYPE_END: u8 = 0x7f;
/// Hardware subtype of a memory-mapped range.
pub const SUBTYPE_MMAP: u8 = 0x03;
/// Media subtype of a file path.
pub const SUBTYPE_FILE: u8 = 0x04;
/// End subtype that ends the whole path.
pub const SUBTYPE_ENTIRE: u8 = 0xff;
/// Size of a file path node: its header and 256 UCS-2 code units.
pub const FILE_NODE_SIZE: usize = 516;
/// Size of a memory range node: its header, the memory type and the range.
pub const MEMORY_NODE_SIZE: usize = 24;
/// Size of a node header.
pub const HEADER_SIZE: usize = 4;

/// What a device path names.
#[derive(Debug)]
pub enum DevicePath {
    /// A file, by its ASCII path (256 bytes, NUL padded).
    File(Vec<u8>),
    /// A memory range: memory type, start and end.
    Memory(u32, u64, u64),
    Unsupported,
}

/// What a device path names, as values.
pub enum DevicePathView {
    File(Seq<u8>),
    Memory(u32, u64, u64),
    Unsupported,
}

impl View for DevicePath {
    type V = DevicePathView;

    open spec fn view(&self) -> DevicePathView {
        match self {
            DevicePath::File(p) => DevicePathView::File(p@),
            DevicePath::Memory(t, s, e) => DevicePathView::Memory(*t, *s, *e),
            DevicePath::Unsupported => DevicePathView::Unsupported,
        }
    }
}

/// The UCS-2 code units that the bytes of `b` from `o` on hold (a last odd
/// byte left out).
pub open spec fn units(b: Seq<u8>, o: int) -> Seq<u16> {
    Seq::new(((b.len() - o) / 2) as nat, |i: int| (b[o + 2 * i] + 256 * b[o + 2 * i + 1]) as u16)
}

/// The 256-byte ASCII path that the UCS-2 name `u` gives: the low bytes up
/// to and including its terminator, then zeros.
pub open spec fn ascii_path(u: Seq<u16>) -> Seq<u8> {
    Seq::new(256, |i: int| if i <= ucs2_len_spec(u) && i < u.len() { low_byte(u[i]) } else { 0u8 })
}

/// What the chain of nodes in `b` from offset `o` on names: the first file
/// path or memory range node, each other node skipped by its length. An
/// end node, a node of length zero, a node that passes the end of `b`, or a
/// file name with no terminator in `b` or longer than 256 code units, names
/// nothing the firmware supports.
pub open spec fn parse_from(b: Seq<u8>, o: int) -> DevicePathView
    decreases b.len() - o,
{
    if o < 0 || o + HEADER_SIZE > b.len() {
        DevicePathView::Unsupported
    } else {
        let t = b[o];
        let st = b[o + 1];
        let len = b[o + 2] + 256 * b[o + 3];
        if t == TYPE_MEDIA && st == SUBTYPE_FILE {
            let u = units(b, o + HEADER_SIZE);
            if ucs2_len_spec(u) < u.len() && ucs2_len_spec(u) <= 256 {
                DevicePathView::File(ascii_path(u))
            } else {
                DevicePathView::Unsupported
            }
        } else if t == TYPE_HARDWARE && st == SUBTYPE_MMAP {
            if o + MEMORY_NODE_SIZE <= b.len() {
                DevicePathView::Memory(le(b, o + 4, 4) as u32, le(b, o + 8, 8) as u64, le(b, o + 16, 8) as u64)
            } else {
                DevicePathView::Unsupported
            }
        } else if t == TYPE_END && st == SUBTYPE_ENTIRE {
            DevicePathView::Unsupported
        } else if len == 0 || o + len > b.len() {
            DevicePathView::Unsupported
        } else {
            parse_from(b, o + len)
        }
    }
}

/// The nodes that name the file at the ASCII path `s`: a file path node
/// with `s` as UCS-2, then an end node of the same size.
pub open spec fn file_path_bytes(s: Seq<u8>) -> Seq<u8> {
    seq![TYPE_MEDIA, SUBTYPE_FILE] + le_bytes(FILE_NODE_SIZE as int, 2) + Seq::new(
        512,
        |i: int| if i % 2 == 0 && i / 2 < s.len() { s[i / 2] } else { 0u8 },
    ) + seq![TYPE_END, SUBTYPE_ENTIRE] + le_bytes(HEADER_SIZE as int, 2) + zeros(512)
}

/// The nodes that name the memory range `start..end` of type `t`: a memory
/// range node, then an end node of the same size.
pub open spec fn memory_path_bytes(t: u32, start: u64, end: u64) -> Seq<u8> {
    seq![TYPE_HARDWARE, SUBTYPE_MMAP] + le_bytes(MEMORY_NODE_SIZE as int, 2) + le_bytes(t as int, 4) + le_bytes(
        start as int,
        8,
    ) + le_bytes(end as int, 8) + seq![TYPE_END, SUBTYPE_ENTIRE] + le_bytes(HEADER_SIZE as int, 2) + zeros(20)
}

/// The UCS-2 code units of `b` from `o` on.
fn read_units(b: &[u8], o: usize) -> (r: Vec<u16>)
    requires
        o <= b@.len(),
    ensures
        r@ == units(b@, o as int),
{
    let len = b.len();
    let n = (len - o) / 2;
    let mut r: Vec<u16> = Vec::new();
    let mut i: usize = 0;
    while i < n
        invariant
            len == b@.len(),
            o <= len,
            n == (len - o) / 2,
            i <= n,
            r@.len() == i,
            forall|j: int| 0 <= j < i ==> r@[j] == units(b@, o as int)[j],
        decreases n - i,
    {
        let lo = b[o + 2 * i] as u16;
        let hi = b[o + 2 * i + 1] as u16;
        r.push(lo + 256 * hi);
        i = i + 1;
    }
    assert(r@ =~= units(b@, o as int));
    r
}

impl DevicePath {
    /// What the chain of device path nodes in `b` names.
    pub fn parse(b: &[u8]) -> (r: DevicePath)
        ensures
            r@ == parse_from(b@, 0),
    {
        let len = b.len();
        let mut o: usize = 0;
        loop
            invariant
                len == b@.len(),
                parse_from(b@, 0) == parse_from(b@, o as int),
            decreases len - o,
        {
            if o > len || len - o < HEADER_SIZE {
                return DevicePath::Unsupported;
            }
            let t = b[o];
            let st = b[o + 1];
            let node_len = b[o + 2] as usize + 256 * b[o + 3] as usize;
            if t == TYPE_MEDIA && st == SUBTYPE_FILE {
                let u = read_units(b, o + HEADER_SIZE);
                let k = crate::common::ucs2_as_ascii_length(u.as_slice());
                if k >= u.len() || k > 256 {
                    return DevicePath::Unsupported;
                }
                let mut path: Vec<u8> = Vec::new();
                while path.len() < 256
                    invariant
                        path@.len() <= 256,
                        forall|j: int| 0 <= j < path@.len() ==> path@[j] == 0,
                    decreases 256 - path@.len(),
                {
                    path.push(0);
                }
                crate::common::ucs2_to_ascii(u.as_slice(), path.as_mut_slice());
                assert(path@ =~= ascii_path(u@));
                return DevicePath::File(path);
            }
            if t == TYPE_HARDWARE && st == SUBTYPE_MMAP {
                if len - o < MEMORY_NODE_SIZE {
                    return DevicePath::Unsupported;
                }
                let memory_type = crate::bytes::get_le(b, o + 4, 4) as u32;
                let start = crate::bytes::get_le(b, o + 8, 8);
                let end = crate::bytes::get_le(b, o + 16, 8);
                proof {
                    crate::bytes::lemma_le_bounds(b@, o + 4, 4);
                    reveal_with_fuel(crate::bytes::pow256, 5);
                }
                return DevicePath::Memory(memory_type, start, end);
            }
            if t == TYPE_END && st == SUBTYPE_ENTIRE {
                return DevicePath::Unsupported;
            }
            if node_len == 0 {
                return DevicePath::Unsupported;
            }
            if node_len > len - o {
                return DevicePath::Unsupported;
            }
            o = o + node_len;
        }
    }

    /// The device path nodes that name this file or memory range, as they
    /// are laid out in memory: the named node, then an end node of the same
    /// size.
    pub fn generate(&self) -> (r: Vec<u8>)
        requires
            !(self@ is Unsupported),
            self@ matches DevicePathView::File(p) ==> strip_nuls(p).len() * 2 <= 256,
        ensures
            match self@ {
                DevicePathView::File(p) => r@ == file_path_bytes(strip_nuls(p)),
                DevicePathView::Memory(t, s, e) => r@ == memory_path_bytes(t, s, e),
                DevicePathView::Unsupported => false,
            },
    {
        match self {
            DevicePath::File(path) => {
                let s = crate::common::ascii_strip(path.as_slice());
                let mut name: Vec<u16> = Vec::new();
                while name.len() < 256
                    invariant
                        name@.len() <= 256,
                        forall|j: int| 0 <= j < name@.len() ==> name@[j] == 0,
                    decreases 256 - name@.len(),
                {
                    name.push(0);
                }
                crate::common::ascii_to_ucs2(s, name.as_mut_slice());
                let mut r: Vec<u8> = Vec::new();
                r.push(TYPE_MEDIA);
                r.push(SUBTYPE_FILE);
                crate::bytes::push_le(&mut r, FILE_NODE_SIZE as u64, 2);
                let ghost head = r@;
                let mut i: usize = 0;
                while i < 256
                    invariant
                        i <= 256,
                        name@.len() == 256,
                        forall|j: int| 0 <= j < 256 ==> #[trigger] name@[j] == if j < s@.len() { s@[j] as u16 } else { 0u16 },
                        r@.len() == head.len() + 2 * i,
                        r@.take(head.len() as int) == head,
                        forall|j: int|
                            0 <= j < 2 * i ==> #[trigger] r@[head.len() + j] == if j % 2 == 0 && j / 2 < s@.len() {
                                s@[j / 2]
                            } else {
                                0u8
                            },
                    decreases 256 - i,
                {
                    let c = name[i];
                    r.push(c as u8);
                    r.push((c >> 8) as u8);
                    assert((c >> 8) as u8 == 0) by (bit_vector)
                        requires
                            c < 256,
                    ;
                    i = i + 1;
                }
                let ghost body = Seq::new(
                    512,
                    |j: int| if j % 2 == 0 && j / 2 < s@.len() { s@[j / 2] } else { 0u8 },
                );
                assert(r@ =~= head + body) by {
                    assert forall|j: int| 0 <= j < 512 implies r@[head.len() + j] == body[j] by {}
                    assert forall|j: int| 0 <= j < head.len() implies r@[j] == head[j] by {
                        assert(r@.take(head.len() as int)[j] == r@[j]);
                    }
                }
                r.push(TYPE_END);
                r.push(SUBTYPE_ENTIRE);
                crate::bytes::push_le(&mut r, HEADER_SIZE as u64, 2);
                crate::bytes::push_zeros(&mut r, 512);
                assert(head =~= seq![TYPE_MEDIA, SUBTYPE_FILE] + le_bytes(FILE_NODE_SIZE as int, 2));
                assert(r@ =~= file_path_bytes(strip_nuls(path@)));
                r
            },
            DevicePath::Memory(t, start, end) => {
                let mut r: Vec<u8> = Vec::new();
                r.push(TYPE_HARDWARE);
                r.push(SUBTYPE_MMAP);
                crate::bytes::push_le(&mut r, MEMORY_NODE_SIZE as u64, 2);
                crate::bytes::push_le(&mut r, *t as u64, 4);
                crate::bytes::push_le(&mut r, *start, 8);
                crate::bytes::push_le(&mut r, *end, 8);
                r.push(TYPE_END);
                r.push(SUBTYPE_ENTIRE);
                crate::bytes::push_le(&mut r, HEADER_SIZE as u64, 2);
                crate::bytes::push_zeros(&mut r, 20);
                assert(r@ =~= memory_path_bytes(*t, *start, *end));
                r
            },
            DevicePath::Unsupported => {
                Vec::new()
            },
        }
    }
}

} // verus!
