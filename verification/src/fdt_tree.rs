//! The shape of a well-formed device tree: its blocks inside the blob, and
//! its structure block a tree of nodes with NUL-terminated ASCII names and
//! properties whose values and names lie inside their blocks. The `fdt`
//! crate reads such a tree without failing.
use vstd::prelude::*;
use crate::fdt::{be, be32, fdt_valid};

verus! {

/// Token that starts a node.
pub const FDT_BEGIN_NODE: u32 = 1;
/// Token that ends a node.
pub const FDT_END_NODE: u32 = 2;
/// Token that starts a property.
pub const FDT_PROP: u32 = 3;
/// Token that stands for nothing.
pub const FDT_NOP: u32 = 4;
/// How deep nodes may nest: the `fdt` crate keeps the parents of the node it
/// walks in a table of 64 entries, the first unused.
pub const FDT_MAX_DEPTH: u64 = 63;

/// The 32-bit word at `p` of `s`, where `s` holds one there.
pub open spec fn word(s: Seq<u8>, p: int) -> Option<int> {
    if 0 <= p && p + 4 <= s.len() {
        Some(be32(s, p))
    } else {
        None
    }
}

/// `n` rounded up to a multiple of four.
pub open spec fn align4(n: int) -> int {
    (n + 3) / 4 * 4
}

/// Where the run of NOP tokens from `p` on ends.
pub open spec fn skip_nops(s: Seq<u8>, p: int) -> int
    decreases s.len() - p,
{
    if 0 <= p && p + 4 <= s.len() && be32(s, p) == FDT_NOP {
        skip_nops(s, p + 4)
    } else {
        p
    }
}

/// The length of the NUL-terminated ASCII string at `o` of `b`, where there
/// is one.
pub open spec fn cstr_len(b: Seq<u8>, o: int) -> Option<int>
    decreases b.len() - o,
{
    if o < 0 || o >= b.len() {
        None
    } else if b[o] == 0 {
        Some(0)
    } else if b[o] >= 128 {
        None
    } else {
        match cstr_len(b, o + 1) {
            Some(k) => Some(k + 1),
            None => None,
        }
    }
}

/// "#address-cells"
pub open spec fn address_cells_name() -> Seq<u8> {
    seq![35u8, 97, 100, 100, 114, 101, 115, 115, 45, 99, 101, 108, 108, 115]
}

/// "#size-cells"
pub open spec fn size_cells_name() -> Seq<u8> {
    seq![35u8, 115, 105, 122, 101, 45, 99, 101, 108, 108, 115]
}

/// Where the property at `q` of structure block `s` ends, its name read
/// from strings block `t`: a whole header, a value inside the block, a name
/// that is a NUL-terminated ASCII string not starting with `/`, and a value
/// of at least one cell for the cell counts.
pub open spec fn prop_end(s: Seq<u8>, t: Seq<u8>, q: int) -> Option<int> {
    if q < 0 || q + 12 > s.len() {
        None
    } else {
        let len = be32(s, q + 4);
        let off = be32(s, q + 8);
        match cstr_len(t, off) {
            None => None,
            Some(k) => {
                let name = t.subrange(off, off + k);
                if q + 12 + align4(len) > s.len() {
                    None
                } else if k > 0 && name[0] == 47 {
                    None
                } else if (name == address_cells_name() || name == size_cells_name()) && len < 4 {
                    None
                } else {
                    Some(q + 12 + align4(len))
                }
            },
        }
    }
}

/// Where the run of properties from `q` on ends.
pub open spec fn props_end(s: Seq<u8>, t: Seq<u8>, q: int) -> Option<int>
    decreases s.len() - q,
{
    match word(s, q) {
        None => None,
        Some(w) => if w != FDT_PROP {
            Some(q)
        } else {
            match prop_end(s, t, q) {
                None => None,
                Some(q2) => if q2 <= q || q2 > s.len() {
                    None
                } else {
                    props_end(s, t, q2)
                },
            }
        },
    }
}

/// Where the node at `p` of structure block `s`, at depth `depth`, ends:
/// its name, its properties, its children, NOPs and its end token.
pub open spec fn node_end(s: Seq<u8>, t: Seq<u8>, p: int, depth: int) -> Option<int>
    decreases s.len() - p, 0int,
{
    if depth > FDT_MAX_DEPTH || word(s, p) != Some(FDT_BEGIN_NODE as int) {
        None
    } else {
        match cstr_len(s, p + 4) {
            None => None,
            Some(k) => {
                let q = p + 4 + align4(k + 1);
                if q > s.len() || q <= p {
                    None
                } else {
                    match props_end(s, t, q) {
                        None => None,
                        Some(q2) => if q2 < q || q2 > s.len() {
                            None
                        } else {
                            match children_end(s, t, q2, depth) {
                                None => None,
                                Some(q3) => if q3 < q2 || q3 > s.len() {
                                    None
                                } else {
                                    let q4 = skip_nops(s, q3);
                                    if word(s, q4) == Some(FDT_END_NODE as int) {
                                        Some(q4 + 4)
                                    } else {
                                        None
                                    }
                                },
                            }
                        },
                    }
                }
            },
        }
    }
}

/// Where the run of child nodes, at depth `depth + 1`, from `q` on ends.
pub open spec fn children_end(s: Seq<u8>, t: Seq<u8>, q: int, depth: int) -> Option<int>
    decreases s.len() - q, 1int,
{
    match word(s, q) {
        None => None,
        Some(w) => if w != FDT_BEGIN_NODE {
            Some(q)
        } else {
            match node_end(s, t, q, depth + 1) {
                None => None,
                Some(q2) => if q2 <= q || q2 > s.len() {
                    None
                } else {
                    children_end(s, t, q2, depth)
                },
            }
        },
    }
}

/// Whether `blob` is a device tree that the `fdt` crate reads without
/// failing: a valid header, its structure and strings blocks inside the
/// blob, and the structure block NOPs, the root node, NOPs and then its
/// end or a word that neither opens nor closes a node.
pub open spec fn fdt_well_formed(blob: Seq<u8>) -> bool {
    &&& fdt_valid(blob)
    &&& be32(blob, 8) + be32(blob, 36) <= blob.len()
    &&& be32(blob, 12) + be32(blob, 32) <= blob.len()
    &&& {
        let s = blob.subrange(be32(blob, 8), be32(blob, 8) + be32(blob, 36));
        let t = blob.subrange(be32(blob, 12), be32(blob, 12) + be32(blob, 32));
        match node_end(s, t, skip_nops(s, 0), 1) {
            Some(q) => tree_stops(word(s, skip_nops(s, q))),
            None => false,
        }
    }
}

/// Whether the crate's walk stops at word `w` after the root node: at the
/// end of the block, or at a word that starts no node and closes none (the
/// end token among them).
pub open spec fn tree_stops(w: Option<int>) -> bool {
    match w {
        None => true,
        Some(v) => v != FDT_BEGIN_NODE && v != FDT_END_NODE,
    }
}

/// The big-endian 32-bit word at `o` of `b`.
pub fn read_be32(b: &[u8], o: usize) -> (r: u32)
    requires
        o + 4 <= b@.len(),
    ensures
        r == be32(b@, o as int),
{
    let r = (b[o] as u32) * 0x100_0000 + (b[o + 1] as u32) * 0x1_0000 + (b[o + 2] as u32) * 0x100 + (b[o + 3] as u32);
    proof {
        reveal_with_fuel(be, 5);
        let w = b@.subrange(o as int, o + 4);
        assert(w[0] == b@[o as int] && w[1] == b@[o + 1] && w[2] == b@[o + 2] && w[3] == b@[o + 3]);
        assert(be(w, 1) == w[0]);
        assert(be(w, 2) == w[0] * 256 + w[1]);
        assert(be(w, 3) == (w[0] * 256 + w[1]) * 256 + w[2]);
        assert(be(w, 4) == ((w[0] * 256 + w[1]) * 256 + w[2]) * 256 + w[3]);
    }
    r
}

fn word_exec(s: &[u8], p: usize) -> (r: Option<u32>)
    ensures
        match word(s@, p as int) {
            Some(w) => r == Some(w as u32) && w == r->0,
            None => r is None,
        },
        r is Some <==> p + 4 <= s.len(),
{
    if p <= s.len() && s.len() - p >= 4 {
        Some(read_be32(s, p))
    } else {
        None
    }
}

fn skip_nops_exec(s: &[u8], p: usize) -> (r: usize)
    requires
        p <= s@.len(),
    ensures
        r == skip_nops(s@, p as int),
        p <= r <= s@.len(),
{
    let mut q = p;
    while q <= s.len() && s.len() - q >= 4 && read_be32(s, q) == FDT_NOP
        invariant
            p <= q <= s@.len(),
            skip_nops(s@, p as int) == skip_nops(s@, q as int),
        decreases s@.len() - q,
    {
        q = q + 4;
    }
    q
}

fn cstr_len_exec(b: &[u8], o: usize) -> (r: Option<usize>)
    ensures
        match cstr_len(b@, o as int) {
            Some(k) => r matches Some(x) && x == k && o + k < b@.len(),
            None => r is None,
        },
{
    if o >= b.len() {
        return None;
    }
    proof {
        lemma_cstr_len_bound(b@, o as int);
    }
    let mut k = o;
    while k < b.len() && b[k] != 0 && b[k] < 128
        invariant
            o <= k <= b@.len(),
            cstr_len(b@, o as int) == match cstr_len(b@, k as int) {
                Some(x) => Some(x + (k - o)),
                None => None::<int>,
            },
            match cstr_len(b@, k as int) {
                Some(x) => k + x < b@.len(),
                None => true,
            },
        decreases b@.len() - k,
    {
        proof {
            lemma_cstr_len_bound(b@, k as int + 1);
        }
        k = k + 1;
    }
    if k < b.len() && b[k] == 0 {
        Some(k - o)
    } else {
        None
    }
}

proof fn lemma_cstr_len_bound(b: Seq<u8>, o: int)
    ensures
        cstr_len(b, o) matches Some(x) ==> 0 <= x && o + x < b.len(),
    decreases b.len() - o,
{
    if 0 <= o < b.len() && b[o] != 0 && b[o] < 128 {
        lemma_cstr_len_bound(b, o + 1);
    }
}

fn bytes_are(b: &[u8], lit: &[u8]) -> (r: bool)
    ensures
        r == (b@ == lit@),
{
    crate::common::bytes_equal(b, lit)
}

fn prop_end_exec(s: &[u8], t: &[u8], q: usize) -> (r: Option<usize>)
    ensures
        match prop_end(s@, t@, q as int) {
            Some(e) => r matches Some(x) && x == e && e <= s@.len(),
            None => r is None,
        },
{
    if q > s.len() || s.len() - q < 12 {
        return None;
    }
    let len = read_be32(s, q + 4);
    let off = read_be32(s, q + 8);
    let k = match cstr_len_exec(t, off as usize) {
        Some(k) => k,
        None => {
            return None;
        },
    };
    proof {
        lemma_cstr_len_bound(t@, off as int);
    }
    let aligned: u64 = (len as u64 + 3) / 4 * 4;
    let room = s.len() - q - 12;
    if aligned > room as u64 {
        return None;
    }
    let o = off as usize;
    let tl = t.len();
    assert(o + k < tl);
    let name = vstd::slice::slice_subrange(t, o, o + k);
    if k > 0 && name[0] == 47 {
        return None;
    }
    let ac: [u8; 14] = [35u8, 97, 100, 100, 114, 101, 115, 115, 45, 99, 101, 108, 108, 115];
    let sc: [u8; 11] = [35u8, 115, 105, 122, 101, 45, 99, 101, 108, 108, 115];
    assert(ac@ =~= address_cells_name());
    assert(sc@ =~= size_cells_name());
    if (bytes_are(name, ac.as_slice()) || bytes_are(name, sc.as_slice())) && len < 4 {
        return None;
    }
    Some(q + 12 + aligned as usize)
}

fn props_end_exec(s: &[u8], t: &[u8], q: usize) -> (r: Option<usize>)
    ensures
        match props_end(s@, t@, q as int) {
            Some(e) => r matches Some(x) && x == e && q <= e <= s@.len(),
            None => r is None,
        },
{
    let mut cur = q;
    loop
        invariant
            q <= cur,
            props_end(s@, t@, q as int) == props_end(s@, t@, cur as int),
        decreases s@.len() - cur,
    {
        match word_exec(s, cur) {
            None => {
                return None;
            },
            Some(w) => {
                if w != FDT_PROP {
                    return Some(cur);
                }
                match prop_end_exec(s, t, cur) {
                    None => {
                        return None;
                    },
                    Some(q2) => {
                        if q2 <= cur || q2 > s.len() {
                            return None;
                        }
                        cur = q2;
                    },
                }
            },
        }
    }
}

fn node_end_exec(s: &[u8], t: &[u8], p: usize, depth: u64) -> (r: Option<usize>)
    ensures
        match node_end(s@, t@, p as int, depth as int) {
            Some(e) => r matches Some(x) && x == e && e <= s@.len(),
            None => r is None,
        },
    decreases s@.len() - p, 0int,
{
    if depth > FDT_MAX_DEPTH {
        return None;
    }
    match word_exec(s, p) {
        Some(w) => {
            if w != FDT_BEGIN_NODE {
                return None;
            }
        },
        None => {
            return None;
        },
    }
    let k = match cstr_len_exec(s, p + 4) {
        Some(k) => k,
        None => {
            return None;
        },
    };
    let room = s.len() - p - 4;
    if k >= room {
        return None;
    }
    let a: usize = (k + 1 + 3) / 4 * 4;
    if a > room {
        return None;
    }
    let q = p + 4 + a;
    if q <= p {
        return None;
    }
    let q2 = match props_end_exec(s, t, q) {
        Some(q2) => q2,
        None => {
            return None;
        },
    };
    let q3 = match children_end_exec(s, t, q2, depth) {
        Some(q3) => q3,
        None => {
            return None;
        },
    };
    if q3 < q2 || q3 > s.len() {
        return None;
    }
    let q4 = skip_nops_exec(s, q3);
    match word_exec(s, q4) {
        Some(w) => {
            if w == FDT_END_NODE {
                Some(q4 + 4)
            } else {
                None
            }
        },
        None => None,
    }
}

fn children_end_exec(s: &[u8], t: &[u8], q: usize, depth: u64) -> (r: Option<usize>)
    requires
        depth <= FDT_MAX_DEPTH,
    ensures
        match children_end(s@, t@, q as int, depth as int) {
            Some(e) => r matches Some(x) && x == e && q <= e <= s@.len(),
            None => r is None,
        },
    decreases s@.len() - q, 1int,
{
    match word_exec(s, q) {
        None => None,
        Some(w) => {
            if w != FDT_BEGIN_NODE {
                return Some(q);
            }
            match node_end_exec(s, t, q, depth + 1) {
                None => None,
                Some(q2) => {
                    if q2 <= q || q2 > s.len() {
                        None
                    } else {
                        children_end_exec(s, t, q2, depth)
                    }
                },
            }
        },
    }
}

/// Whether `blob` is a well-formed device tree (see `fdt_well_formed`).
pub fn fdt_check(blob: &[u8]) -> (r: bool)
    ensures
        r == fdt_well_formed(blob@),
{
    if blob.len() < 40 || read_be32(blob, 0) != crate::fdt::FDT_MAGIC || (blob.len() as u64) < read_be32(blob, 4)
        as u64 {
        return false;
    }
    let os = read_be32(blob, 8) as u64;
    let ss = read_be32(blob, 36) as u64;
    let ot = read_be32(blob, 12) as u64;
    let st = read_be32(blob, 32) as u64;
    if os + ss > blob.len() as u64 || ot + st > blob.len() as u64 {
        return false;
    }
    let s = vstd::slice::slice_subrange(blob, os as usize, (os + ss) as usize);
    let t = vstd::slice::slice_subrange(blob, ot as usize, (ot + st) as usize);
    let p = skip_nops_exec(s, 0);
    match node_end_exec(s, t, p, 1) {
        None => false,
        Some(q) => {
            let q2 = skip_nops_exec(s, q);
            match word_exec(s, q2) {
                Some(w) => w != FDT_BEGIN_NODE && w != FDT_END_NODE,
                None => true,
            }
        },
    }
}

} // verus!
