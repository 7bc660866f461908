//! What reading gives back of the device paths that the firmware lays out.
use vstd::prelude::*;
use crate::bytes::{le, le_bytes, lemma_le_bytes_len, lemma_le_of_le_bytes, pow256, zeros};
use crate::common::{lemma_ucs2_len_is, low_byte, ucs2_len_spec};
use crate::efi::device_path::{
    ascii_path, file_path_bytes, memory_path_bytes, parse_from, units, DevicePathView, FILE_NODE_SIZE,
    MEMORY_NODE_SIZE,
};

verus! {

proof fn lemma_low_byte(x: u8)
    ensures
        low_byte(x as u16) == x,
{
    assert(((x as u16) & 0xff) as u8 == x) by (bit_vector);
}

proof fn lemma_pow256_4_8()
    ensures
        pow256(4) == 0x1_0000_0000,
        pow256(8) == 0x1_0000_0000_0000_0000,
{
    reveal_with_fuel(pow256, 9);
}

/// Law: the memory range nodes laid out for a memory type, start and end
/// read back as that memory type, start and end.
pub proof fn law_memory_path_roundtrip(t: u32, start: u64, end: u64)
    ensures
        parse_from(memory_path_bytes(t, start, end), 0) == DevicePathView::Memory(t, start, end),
{
    let b = memory_path_bytes(t, start, end);
    lemma_le_bytes_len(MEMORY_NODE_SIZE as int, 2);
    lemma_le_bytes_len(t as int, 4);
    lemma_le_bytes_len(start as int, 8);
    lemma_le_bytes_len(end as int, 8);
    lemma_le_bytes_len(4, 2);
    assert(b.len() == 48);
    assert(b.subrange(4, 8) =~= le_bytes(t as int, 4));
    assert(b.subrange(8, 16) =~= le_bytes(start as int, 8));
    assert(b.subrange(16, 24) =~= le_bytes(end as int, 8));
    lemma_le_of_le_bytes(t as int, 4, b, 4);
    lemma_le_of_le_bytes(start as int, 8, b, 8);
    lemma_le_of_le_bytes(end as int, 8, b, 16);
    lemma_pow256_4_8();
    assert(le(b, 4, 4) == t);
    assert(le(b, 8, 8) == start);
    assert(le(b, 16, 8) == end);
}

/// Law: the file path nodes laid out for an ASCII path of at most 128
/// bytes and without NUL bytes read back as that path, NUL padded to 256
/// bytes.
pub proof fn law_file_path_roundtrip(s: Seq<u8>)
    requires
        s.len() <= 128,
        forall|i: int| 0 <= i < s.len() ==> s[i] != 0,
    ensures
        parse_from(file_path_bytes(s), 0) == DevicePathView::File(s + zeros((256 - s.len()) as nat)),
{
    let b = file_path_bytes(s);
    lemma_le_bytes_len(FILE_NODE_SIZE as int, 2);
    lemma_le_bytes_len(4, 2);
    assert(b.len() == 1032);
    let u = units(b, 4);
    assert(u.len() == 514);
    assert forall|i: int| 0 <= i < 256 implies #[trigger] u[i] == if i < s.len() { s[i] as u16 } else { 0u16 } by {
        assert(b[4 + 2 * i] == if (2 * i) % 2 == 0 && (2 * i) / 2 < s.len() { s[(2 * i) / 2] } else { 0u8 });
        assert(b[4 + 2 * i + 1] == 0u8);
    }
    assert forall|i: int| 0 <= i < s.len() implies low_byte(u[i]) != 0 by {
        assert(u[i] == s[i] as u16);
        lemma_low_byte(s[i]);
    }
    assert(u[s.len() as int] == 0u16);
    assert(low_byte(0u16) == 0) by (bit_vector);
    lemma_ucs2_len_is(u, s.len() as int);
    assert(ucs2_len_spec(u) == s.len());
    assert forall|i: int| 0 <= i < 256 implies ascii_path(u)[i] == (s + zeros((256 - s.len()) as nat))[i] by {
        if i < s.len() {
            lemma_low_byte(s[i]);
        }
    }
    assert(ascii_path(u) =~= s + zeros((256 - s.len()) as nat));
}

} // verus!
