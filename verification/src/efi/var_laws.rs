//! What a read of the variable store gives back after a write.
use vstd::prelude::*;
use crate::common::ucs2_len_spec;
use crate::efi::allocator::Status;
use crate::efi::var::{
    find_from, find_spec, get_spec, lemma_find_none, lemma_find_unique, set_spec, unique_keys, var_key,
    Guid, VariableView, VARIABLE_APPEND_WRITE,
};

verus! {

/// Writes keep names and GUIDs unique.
pub proof fn law_set_keeps_keys_unique(
    vars: Seq<VariableView>,
    name: Seq<u16>,
    guid: Guid,
    attr: u32,
    size: usize,
    data: Option<Seq<u8>>,
)
    requires
        unique_keys(vars),
    ensures
        unique_keys(set_spec(vars, name, guid, attr, size, data).1),
{
    let nv = set_spec(vars, name, guid, attr, size, data).1;
    if ucs2_len_spec(name) != 0 {
        match find_spec(vars, name, guid) {
            None => {
                lemma_find_none(vars, var_key(name), guid);
                if nv.len() == vars.len() + 1 {
                    assert forall|i: int, j: int|
                        0 <= i < nv.len() && 0 <= j < nv.len() && i != j implies !(#[trigger] nv[i].name
                            == #[trigger] nv[j].name && nv[i].guid == nv[j].guid) by {
                        if i < vars.len() && j < vars.len() {
                            assert(nv[i] == vars[i] && nv[j] == vars[j]);
                        }
                    }
                }
            },
            Some(k) => {
                crate::efi::var::lemma_find_from_range(vars, 0, var_key(name), guid);
                if attr & VARIABLE_APPEND_WRITE == 0 && (attr == 0 || size == 0) {
                    assert forall|i: int, j: int|
                        0 <= i < nv.len() && 0 <= j < nv.len() && i != j implies !(#[trigger] nv[i].name
                            == #[trigger] nv[j].name && nv[i].guid == nv[j].guid) by {
                        let ii = if i < k { i } else { i + 1 };
                        let jj = if j < k { j } else { j + 1 };
                        assert(nv[i] == vars[ii] && nv[j] == vars[jj]);
                    }
                } else {
                    assert forall|i: int, j: int|
                        0 <= i < nv.len() && 0 <= j < nv.len() && i != j implies !(#[trigger] nv[i].name
                            == #[trigger] nv[j].name && nv[i].guid == nv[j].guid) by {
                        assert(nv[i].name == vars[i].name && nv[i].guid == vars[i].guid);
                        assert(nv[j].name == vars[j].name && nv[j].guid == vars[j].guid);
                    }
                }
            },
        }
    }
}

proof fn lemma_find_at(vars: Seq<VariableView>, name: Seq<u16>, guid: Guid, k: int)
    requires
        unique_keys(vars),
        0 <= k < vars.len(),
        ucs2_len_spec(name) != 0,
        vars[k].name == var_key(name),
        vars[k].guid == guid,
    ensures
        find_spec(vars, name, guid) == Some(k),
{
    lemma_find_unique(vars, k);
}

/// A variable written with attributes other than append and erase reads
/// back as written: the data, its size and the attributes.
pub proof fn law_write_then_read(
    vars: Seq<VariableView>,
    name: Seq<u16>,
    guid: Guid,
    attr: u32,
    data: Seq<u8>,
    read_attr: u32,
    read_size: usize,
    buffer: Seq<u8>,
)
    requires
        unique_keys(vars),
        ucs2_len_spec(name) != 0,
        0 < data.len() <= usize::MAX,
        attr != 0,
        attr & VARIABLE_APPEND_WRITE == 0,
        read_size >= data.len(),
        set_spec(vars, name, guid, attr, data.len() as usize, Some(data)).0 == Status::Success,
    ensures
        get_spec(set_spec(vars, name, guid, attr, data.len() as usize, Some(data)).1, name, guid, read_attr, read_size, buffer)
            == (Status::Success, attr, data.len() as usize, data + buffer.skip(data.len() as int)),
{
    let nv = set_spec(vars, name, guid, attr, data.len() as usize, Some(data)).1;
    law_set_keeps_keys_unique(vars, name, guid, attr, data.len() as usize, Some(data));
    assert(attr & !VARIABLE_APPEND_WRITE == attr) by (bit_vector)
        requires attr & VARIABLE_APPEND_WRITE == 0;
    match find_spec(vars, name, guid) {
        None => {
            lemma_find_at(nv, name, guid, vars.len() as int);
        },
        Some(k) => {
            crate::efi::var::lemma_find_from_range(vars, 0, var_key(name), guid);
            lemma_find_at(nv, name, guid, k);
        },
    }
}

/// Data appended to a variable reads back after the data it held.
pub proof fn law_append_then_read(
    vars: Seq<VariableView>,
    name: Seq<u16>,
    guid: Guid,
    attr: u32,
    data: Seq<u8>,
    read_attr: u32,
    read_size: usize,
    buffer: Seq<u8>,
)
    requires
        unique_keys(vars),
        ucs2_len_spec(name) != 0,
        find_spec(vars, name, guid) is Some,
        0 < data.len() <= usize::MAX,
        attr & VARIABLE_APPEND_WRITE != 0,
        set_spec(vars, name, guid, attr, data.len() as usize, Some(data)).0 == Status::Success,
        read_size >= vars[find_spec(vars, name, guid).unwrap()].data.len() + data.len(),
    ensures
        ({
            let old_var = vars[find_spec(vars, name, guid).unwrap()];
            let all = old_var.data + data;
            get_spec(set_spec(vars, name, guid, attr, data.len() as usize, Some(data)).1, name, guid, read_attr, read_size, buffer)
                == (Status::Success, old_var.attr, all.len() as usize, all + buffer.skip(all.len() as int))
        }),
{
    let nv = set_spec(vars, name, guid, attr, data.len() as usize, Some(data)).1;
    law_set_keeps_keys_unique(vars, name, guid, attr, data.len() as usize, Some(data));
    let k = find_spec(vars, name, guid).unwrap();
    crate::efi::var::lemma_find_from_range(vars, 0, var_key(name), guid);
    lemma_find_at(nv, name, guid, k);
}

/// An existing variable written with no attributes, or with no data, is
/// gone.
pub proof fn law_erase_then_read(
    vars: Seq<VariableView>,
    name: Seq<u16>,
    guid: Guid,
    attr: u32,
    size: usize,
    data: Option<Seq<u8>>,
    read_attr: u32,
    read_size: usize,
    buffer: Seq<u8>,
)
    requires
        unique_keys(vars),
        ucs2_len_spec(name) != 0,
        find_spec(vars, name, guid) is Some,
        attr & VARIABLE_APPEND_WRITE == 0,
        attr == 0 || size == 0,
    ensures
        set_spec(vars, name, guid, attr, size, data).0 == Status::Success,
        get_spec(set_spec(vars, name, guid, attr, size, data).1, name, guid, read_attr, read_size, buffer)
            == (Status::NotFound, read_attr, read_size, buffer),
{
    let nv = set_spec(vars, name, guid, attr, size, data).1;
    match find_spec(vars, name, guid) {
        None => {},
        Some(k) => {
            crate::efi::var::lemma_find_from_range(vars, 0, var_key(name), guid);
            assert(nv == vars.remove(k));
            assert forall|i: int| 0 <= i < nv.len() implies !(#[trigger] nv[i].name == var_key(name) && nv[i].guid
                == guid) by {
                let ii = if i < k { i } else { i + 1 };
                assert(nv[i] == vars[ii]);
            }
            lemma_find_none_back(nv, 0, var_key(name), guid);
        },
    }
}

proof fn lemma_find_none_back(vars: Seq<VariableView>, i: int, key: Seq<u16>, guid: Guid)
    requires
        0 <= i,
        forall|j: int| 0 <= j < vars.len() ==> !(#[trigger] vars[j].name == key && vars[j].guid == guid),
    ensures
        find_from(vars, i, key, guid) is None,
    decreases vars.len() - i,
{
    if i < vars.len() {
        lemma_find_none_back(vars, i + 1, key, guid);
    }
}

} // verus!
