//! What holds of the layouts of the boot protocol: sizes, where the header
//! is in the zero page, and that a header laid out and read back is the
//! same header.
use vstd::prelude::*;
use crate::boot::{e820_bytes, e820_table_bytes, fields_bytes, header_bytes, header_fields, header_of, params_bytes, E820Entry, Header, Params};
use crate::bytes::{le, le_bytes, lemma_le_bytes_len, lemma_le_of_le_bytes, pow256, zeros};

verus! {

/// The sum of the widths of fields `f`.
pub open spec fn widths(f: Seq<(int, nat)>) -> int
    decreases f.len(),
{
    if f.len() == 0 {
        0
    } else {
        widths(f.drop_last()) + f.last().1
    }
}

pub proof fn lemma_fields_bytes_len(f: Seq<(int, nat)>)
    ensures
        fields_bytes(f).len() == widths(f),
    decreases f.len(),
{
    if f.len() > 0 {
        lemma_fields_bytes_len(f.drop_last());
        lemma_le_bytes_len(f.last().0, f.last().1);
    }
}

pub proof fn lemma_e820_table_len(t: Seq<E820Entry>)
    ensures
        e820_table_bytes(t).len() == 20 * t.len(),
    decreases t.len(),
{
    if t.len() > 0 {
        lemma_e820_table_len(t.drop_last());
        lemma_le_bytes_len(t.last().addr as int, 8);
        lemma_le_bytes_len(t.last().size as int, 8);
        lemma_le_bytes_len(t.last().entry_type as int, 4);
    }
}

/// The setup header takes 119 bytes, an E820 entry 20.
pub proof fn law_record_sizes(h: Header, e: E820Entry)
    ensures
        header_bytes(h).len() == 119,
        e820_bytes(e).len() == 20,
{
    lemma_fields_bytes_len(header_fields(h));
    reveal_with_fuel(widths, 39);
    lemma_le_bytes_len(e.addr as int, 8);
    lemma_le_bytes_len(e.size as int, 8);
    lemma_le_bytes_len(e.entry_type as int, 4);
}

/// The zero page of a well-formed `Params` takes 4096 bytes and holds the
/// setup header at byte 0x1f1.
pub proof fn law_zero_page_layout(p: Params)
    requires
        p.wf(),
    ensures
        params_bytes(p).len() == 4096,
        params_bytes(p).subrange(0x1f1int, 0x268int) == header_bytes(p.hdr),
        params_bytes(p)[0x1e8] == p.entry_count(),
{
    law_record_sizes(p.hdr, E820Entry { addr: 0, size: 0, entry_type: 0 });
    lemma_e820_table_len(p.table());
    lemma_le_bytes_len(p.acpi_rsdp_addr as int, 8);
    let a = zeros(0x70) + le_bytes(p.acpi_rsdp_addr as int, 8) + zeros(0x170) + seq![p.entry_count()] + zeros(8);
    assert(a.len() == 0x1f1);
    let b = a + header_bytes(p.hdr);
    assert(b.subrange(0x1f1int, 0x268int) =~= header_bytes(p.hdr));
    let c = b + zeros(0x68) + e820_table_bytes(p.table()) + zeros(0x330);
    assert(c == params_bytes(p));
    assert(c.subrange(0x1f1int, 0x268int) =~= b.subrange(0x1f1int, 0x268int));
    assert(a[0x1e8] == p.entry_count());
    assert(c[0x1e8] == a[0x1e8]);
}


/// The widths of the first `k + 1` fields are those of the first `k` and
/// the width of field `k`.
proof fn lemma_widths_step(f: Seq<(int, nat)>, k: int)
    requires
        0 <= k < f.len(),
    ensures
        widths(f.take(k + 1)) == widths(f.take(k)) + f[k].1,
{
    assert(f.take(k + 1).drop_last() =~= f.take(k));
}

/// The bytes of fields `f` are those of its first `j` fields, then those
/// of the rest.
proof fn lemma_fields_split(f: Seq<(int, nat)>, j: int)
    requires
        0 <= j <= f.len(),
    ensures
        fields_bytes(f) == fields_bytes(f.take(j)) + fields_bytes(f.skip(j)),
    decreases f.len(),
{
    if j == f.len() {
        assert(f.take(j) =~= f);
        assert(f.skip(j) =~= Seq::<(int, nat)>::empty());
        assert(fields_bytes(f) + Seq::<u8>::empty() =~= fields_bytes(f));
    } else {
        let d = f.drop_last();
        lemma_fields_split(d, j);
        assert(d.take(j) =~= f.take(j));
        assert(f.skip(j).drop_last() =~= d.skip(j));
        assert(f.skip(j).last() == f.last());
        assert(fields_bytes(f) =~= fields_bytes(f.take(j)) + fields_bytes(f.skip(j)));
    }
}

/// Field `k` of `f` is laid out from the widths of the fields before it on.
proof fn lemma_field_at(f: Seq<(int, nat)>, k: int)
    requires
        0 <= k < f.len(),
    ensures
        fields_bytes(f).subrange(widths(f.take(k)), widths(f.take(k)) + f[k].1) == le_bytes(f[k].0, f[k].1),
{
    lemma_fields_split(f, k);
    let rest = f.skip(k);
    lemma_fields_split(rest, 1);
    assert(rest.take(1).drop_last() =~= Seq::<(int, nat)>::empty());
    assert(rest.take(1).drop_last().len() == 0);
    assert(fields_bytes(rest.take(1).drop_last()) == Seq::<u8>::empty());
    assert(rest.take(1).last() == f[k]);
    assert(fields_bytes(rest.take(1)) =~= le_bytes(f[k].0, f[k].1));
    lemma_fields_bytes_len(f.take(k));
    lemma_le_bytes_len(f[k].0, f[k].1);
    let b = fields_bytes(f);
    assert(b =~= fields_bytes(f.take(k)) + (le_bytes(f[k].0, f[k].1) + fields_bytes(rest.skip(1))));
    assert(b.subrange(widths(f.take(k)), widths(f.take(k)) + f[k].1) =~= le_bytes(f[k].0, f[k].1));
}

/// The number read back at field `k`, laid out from `off` on, is the
/// field's value where it fits its width.
proof fn lemma_field_value(f: Seq<(int, nat)>, b: Seq<u8>, k: int, off: int)
    requires
        0 <= k < f.len(),
        b == fields_bytes(f),
        widths(f.take(k)) == off,
        0 <= f[k].0 < pow256(f[k].1),
    ensures
        le(b, off, f[k].1) == f[k].0,
{
    lemma_field_at(f, k);
    lemma_fields_split(f, k + 1);
    lemma_fields_bytes_len(f.take(k + 1));
    lemma_widths_step(f, k);
    lemma_le_bytes_len(f[k].0, f[k].1);
    lemma_le_of_le_bytes(f[k].0, f[k].1, b, off);
    vstd::arithmetic::div_mod::lemma_small_mod(f[k].0 as nat, pow256(f[k].1) as nat);
}

/// Law: a setup header laid out and read back is the same header.
pub proof fn law_header_roundtrip(h: Header)
    ensures
        header_of(header_bytes(h), 0) == h,
{
    let f = header_fields(h);
    let b = header_bytes(h);
    reveal_with_fuel(pow256, 9);
    assert(widths(f.take(0)) == 0);
        lemma_widths_step(f, 0);
        assert(widths(f.take(1)) == 1);
        lemma_widths_step(f, 1);
        assert(widths(f.take(2)) == 3);
        lemma_widths_step(f, 2);
        assert(widths(f.take(3)) == 7);
        lemma_widths_step(f, 3);
        assert(widths(f.take(4)) == 9);
        lemma_widths_step(f, 4);
        assert(widths(f.take(5)) == 11);
        lemma_widths_step(f, 5);
        assert(widths(f.take(6)) == 13);
        lemma_widths_step(f, 6);
        assert(widths(f.take(7)) == 15);
        lemma_widths_step(f, 7);
        assert(widths(f.take(8)) == 17);
        lemma_widths_step(f, 8);
        assert(widths(f.take(9)) == 21);
        lemma_widths_step(f, 9);
        assert(widths(f.take(10)) == 23);
        lemma_widths_step(f, 10);
        assert(widths(f.take(11)) == 27);
        lemma_widths_step(f, 11);
        assert(widths(f.take(12)) == 29);
        lemma_widths_step(f, 12);
        assert(widths(f.take(13)) == 31);
        lemma_widths_step(f, 13);
        assert(widths(f.take(14)) == 32);
        lemma_widths_step(f, 14);
        assert(widths(f.take(15)) == 33);
        lemma_widths_step(f, 15);
        assert(widths(f.take(16)) == 35);
        lemma_widths_step(f, 16);
        assert(widths(f.take(17)) == 39);
        lemma_widths_step(f, 17);
        assert(widths(f.take(18)) == 43);
        lemma_widths_step(f, 18);
        assert(widths(f.take(19)) == 47);
        lemma_widths_step(f, 19);
        assert(widths(f.take(20)) == 51);
        lemma_widths_step(f, 20);
        assert(widths(f.take(21)) == 53);
        lemma_widths_step(f, 21);
        assert(widths(f.take(22)) == 54);
        lemma_widths_step(f, 22);
        assert(widths(f.take(23)) == 55);
        lemma_widths_step(f, 23);
        assert(widths(f.take(24)) == 59);
        lemma_widths_step(f, 24);
        assert(widths(f.take(25)) == 63);
        lemma_widths_step(f, 25);
        assert(widths(f.take(26)) == 67);
        lemma_widths_step(f, 26);
        assert(widths(f.take(27)) == 68);
        lemma_widths_step(f, 27);
        assert(widths(f.take(28)) == 69);
        lemma_widths_step(f, 28);
        assert(widths(f.take(29)) == 71);
        lemma_widths_step(f, 29);
        assert(widths(f.take(30)) == 75);
        lemma_widths_step(f, 30);
        assert(widths(f.take(31)) == 79);
        lemma_widths_step(f, 31);
        assert(widths(f.take(32)) == 87);
        lemma_widths_step(f, 32);
        assert(widths(f.take(33)) == 91);
        lemma_widths_step(f, 33);
        assert(widths(f.take(34)) == 95);
        lemma_widths_step(f, 34);
        assert(widths(f.take(35)) == 103);
        lemma_widths_step(f, 35);
        assert(widths(f.take(36)) == 111);
        lemma_widths_step(f, 36);
        assert(widths(f.take(37)) == 115);
        lemma_widths_step(f, 37);
        assert(widths(f.take(38)) == 119);
    lemma_field_value(f, b, 0, 0);
    assert(le(b, 0, 1) == h.setup_sects);
    lemma_field_value(f, b, 1, 1);
    assert(le(b, 1, 2) == h.root_flags);
    lemma_field_value(f, b, 2, 3);
    assert(le(b, 3, 4) == h.syssize);
    lemma_field_value(f, b, 3, 7);
    assert(le(b, 7, 2) == h.ram_size);
    lemma_field_value(f, b, 4, 9);
    assert(le(b, 9, 2) == h.vid_mode);
    lemma_field_value(f, b, 5, 11);
    assert(le(b, 11, 2) == h.root_dev);
    lemma_field_value(f, b, 6, 13);
    assert(le(b, 13, 2) == h.boot_flag);
    lemma_field_value(f, b, 7, 15);
    assert(le(b, 15, 2) == h.jump);
    lemma_field_value(f, b, 8, 17);
    assert(le(b, 17, 4) == h.header);
    lemma_field_value(f, b, 9, 21);
    assert(le(b, 21, 2) == h.version);
    lemma_field_value(f, b, 10, 23);
    assert(le(b, 23, 4) == h.realmode_swtch);
    lemma_field_value(f, b, 11, 27);
    assert(le(b, 27, 2) == h.start_sys_seg);
    lemma_field_value(f, b, 12, 29);
    assert(le(b, 29, 2) == h.kernel_version);
    lemma_field_value(f, b, 13, 31);
    assert(le(b, 31, 1) == h.type_of_loader);
    lemma_field_value(f, b, 14, 32);
    assert(le(b, 32, 1) == h.loadflags);
    lemma_field_value(f, b, 15, 33);
    assert(le(b, 33, 2) == h.setup_move_size);
    lemma_field_value(f, b, 16, 35);
    assert(le(b, 35, 4) == h.code32_start);
    lemma_field_value(f, b, 17, 39);
    assert(le(b, 39, 4) == h.ramdisk_image);
    lemma_field_value(f, b, 18, 43);
    assert(le(b, 43, 4) == h.ramdisk_size);
    lemma_field_value(f, b, 19, 47);
    assert(le(b, 47, 4) == h.bootsect_kludge);
    lemma_field_value(f, b, 20, 51);
    assert(le(b, 51, 2) == h.heap_end_ptr);
    lemma_field_value(f, b, 21, 53);
    assert(le(b, 53, 1) == h.ext_loader_ver);
    lemma_field_value(f, b, 22, 54);
    assert(le(b, 54, 1) == h.ext_loader_type);
    lemma_field_value(f, b, 23, 55);
    assert(le(b, 55, 4) == h.cmd_line_ptr);
    lemma_field_value(f, b, 24, 59);
    assert(le(b, 59, 4) == h.initrd_addr_max);
    lemma_field_value(f, b, 25, 63);
    assert(le(b, 63, 4) == h.kernel_alignment);
    lemma_field_value(f, b, 26, 67);
    assert(le(b, 67, 1) == h.relocatable_kernel);
    lemma_field_value(f, b, 27, 68);
    assert(le(b, 68, 1) == h.min_alignment);
    lemma_field_value(f, b, 28, 69);
    assert(le(b, 69, 2) == h.xloadflags);
    lemma_field_value(f, b, 29, 71);
    assert(le(b, 71, 4) == h.cmdline_size);
    lemma_field_value(f, b, 30, 75);
    assert(le(b, 75, 4) == h.hardware_subarch);
    lemma_field_value(f, b, 31, 79);
    assert(le(b, 79, 8) == h.hardware_subarch_data);
    lemma_field_value(f, b, 32, 87);
    assert(le(b, 87, 4) == h.payload_offset);
    lemma_field_value(f, b, 33, 91);
    assert(le(b, 91, 4) == h.payload_length);
    lemma_field_value(f, b, 34, 95);
    assert(le(b, 95, 8) == h.setup_data);
    lemma_field_value(f, b, 35, 103);
    assert(le(b, 103, 8) == h.pref_address);
    lemma_field_value(f, b, 36, 111);
    assert(le(b, 111, 4) == h.init_size);
    lemma_field_value(f, b, 37, 115);
    assert(le(b, 115, 4) == h.handover_offset);
}

} // verus!
