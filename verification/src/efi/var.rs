//! The store of EFI variables, each named by a UCS-2 name and a GUID.
use vstd::prelude::*;
use crate::common::{append_bytes, ucs2_as_ascii_length, ucs2_len_spec};
use crate::efi::allocator::Status;

verus! {

pub const VARIABLE_NON_VOLATILE: u32 = 0x0000_0001;
pub const VARIABLE_BOOTSERVICE_ACCESS: u32 = 0x0000_0002;
pub const VARIABLE_RUNTIME_ACCESS: u32 = 0x0000_0004;
pub const VARIABLE_APPEND_WRITE: u32 = 0x0000_0040;

/// A GUID, field by field.
#[derive(Clone, Copy, Debug)]
pub struct Guid {
    pub time_low: u32,
    pub time_mid: u16,
    pub time_hi_and_version: u16,
    pub clk_seq_hi_res: u8,
    pub clk_seq_low: u8,
    pub node: [u8; 6],
}

impl Guid {
    pub fn from_fields(
        time_low: u32,
        time_mid: u16,
        time_hi_and_version: u16,
        clk_seq_hi_res: u8,
        clk_seq_low: u8,
        node: &[u8; 6],
    ) -> (g: Guid)
        ensures
            g == (Guid { time_low, time_mid, time_hi_and_version, clk_seq_hi_res, clk_seq_low, node: *node }),
    {
        Guid { time_low, time_mid, time_hi_and_version, clk_seq_hi_res, clk_seq_low, node: *node }
    }
}

/// One variable: its name with its terminator, GUID, attributes and data.
pub struct Descriptor {
    pub name: Vec<u16>,
    pub guid: Guid,
    pub attr: u32,
    pub data: Vec<u8>,
}

/// A variable as a value of the model.
pub struct VariableView {
    pub name: Seq<u16>,
    pub guid: Guid,
    pub attr: u32,
    pub data: Seq<u8>,
}

impl Descriptor {
    pub open spec fn view(&self) -> VariableView {
        VariableView { name: self.name@, guid: self.guid, attr: self.attr, data: self.data@ }
    }
}

pub struct VariableAllocator {
    allocations: Vec<Descriptor>,
}

/// The key under which `name` is stored: its code units up to and
/// including the terminator.
pub open spec fn var_key(name: Seq<u16>) -> Seq<u16> {
    name.take(ucs2_len_spec(name) + 1)
}

/// Position of the first variable from `i` on with this name and GUID.
pub open spec fn find_from(vars: Seq<VariableView>, i: int, key: Seq<u16>, guid: Guid) -> Option<int>
    decreases vars.len() - i,
{
    if i < 0 || i >= vars.len() {
        None
    } else if vars[i].name == key && vars[i].guid == guid {
        Some(i)
    } else {
        find_from(vars, i + 1, key, guid)
    }
}

/// Position of the variable named `name` with GUID `guid`; an empty name
/// names no variable.
pub open spec fn find_spec(vars: Seq<VariableView>, name: Seq<u16>, guid: Guid) -> Option<int> {
    if ucs2_len_spec(name) == 0 {
        None
    } else {
        find_from(vars, 0, var_key(name), guid)
    }
}

pub proof fn lemma_find_from_range(vars: Seq<VariableView>, i: int, key: Seq<u16>, guid: Guid)
    requires
        0 <= i,
    ensures
        find_from(vars, i, key, guid) matches Some(k) ==> i <= k < vars.len() && vars[k].name == key
            && vars[k].guid == guid,
    decreases vars.len() - i,
{
    if i < vars.len() && !(vars[i].name == key && vars[i].guid == guid) {
        lemma_find_from_range(vars, i + 1, key, guid);
    }
}

/// Whether no two variables share name and GUID.
pub open spec fn unique_keys(vars: Seq<VariableView>) -> bool {
    forall|i: int, j: int|
        0 <= i < vars.len() && 0 <= j < vars.len() && i != j ==> !(#[trigger] vars[i].name == #[trigger] vars[j].name
            && vars[i].guid == vars[j].guid)
}

/// What reading a variable gives: the status, then the attributes, the
/// size and the contents of the buffer after the call.
pub open spec fn get_spec(
    vars: Seq<VariableView>,
    name: Seq<u16>,
    guid: Guid,
    attr: u32,
    size: usize,
    data: Seq<u8>,
) -> (Status, u32, usize, Seq<u8>) {
    match find_spec(vars, name, guid) {
        None => (Status::NotFound, attr, size, data),
        Some(k) => {
            let v = vars[k];
            if size < v.data.len() {
                (Status::BufferTooSmall, attr, v.data.len() as usize, data)
            } else {
                (Status::Success, v.attr, v.data.len() as usize, v.data + data.skip(v.data.len() as int))
            }
        },
    }
}

/// The store and status after writing a variable: `data` is `None` where no
/// buffer is given.
pub open spec fn set_spec(
    vars: Seq<VariableView>,
    name: Seq<u16>,
    guid: Guid,
    attr: u32,
    size: usize,
    data: Option<Seq<u8>>,
) -> (Status, Seq<VariableView>) {
    if ucs2_len_spec(name) == 0 {
        (Status::InvalidParameter, vars)
    } else {
        match find_spec(vars, name, guid) {
            None => if size == 0 {
                (Status::NotFound, vars)
            } else if data is None {
                (Status::InvalidParameter, vars)
            } else {
                (
                    Status::Success,
                    vars.push(
                        VariableView {
                            name: var_key(name),
                            guid,
                            attr: attr & !VARIABLE_APPEND_WRITE,
                            data: data.unwrap(),
                        },
                    ),
                )
            },
            Some(k) => if attr & VARIABLE_APPEND_WRITE != 0 {
                if size == 0 {
                    (Status::Success, vars)
                } else if data is None {
                    (Status::InvalidParameter, vars)
                } else if vars[k].attr != attr & !VARIABLE_APPEND_WRITE {
                    (Status::InvalidParameter, vars)
                } else {
                    (
                        Status::Success,
                        vars.update(
                            k,
                            VariableView {
                                name: vars[k].name,
                                guid: vars[k].guid,
                                attr: vars[k].attr,
                                data: vars[k].data + data.unwrap(),
                            },
                        ),
                    )
                }
            } else if attr == 0 || size == 0 {
                (Status::Success, vars.remove(k))
            } else if attr != vars[k].attr || data is None {
                (Status::InvalidParameter, vars)
            } else {
                (
                    Status::Success,
                    vars.update(
                        k,
                        VariableView { name: vars[k].name, guid: vars[k].guid, attr: vars[k].attr, data: data.unwrap() },
                    ),
                )
            },
        }
    }
}

impl VariableAllocator {
    /// The variables, in the order in which they were created.
    pub closed spec fn vars(&self) -> Seq<VariableView> {
        Seq::new(self.allocations@.len(), |i: int| self.allocations@[i].view())
    }

    /// Every variable holds some data, and no two share name and GUID.
    pub closed spec fn wf(&self) -> bool {
        &&& forall|i: int| 0 <= i < self.allocations@.len() ==> (#[trigger] self.allocations@[i]).data@.len() > 0
        &&& unique_keys(self.vars())
    }

    pub fn new() -> (r: VariableAllocator)
        ensures
            r.wf(),
            r.vars() == Seq::<VariableView>::empty(),
    {
        let r = VariableAllocator { allocations: Vec::new() };
        assert(r.vars() =~= Seq::<VariableView>::empty());
        r
    }

    pub fn len(&self) -> (r: usize)
        ensures
            r == self.vars().len(),
    {
        self.allocations.len()
    }

    /// The variable at position `i`.
    pub fn variable(&self, i: usize) -> (r: &Descriptor)
        requires
            i < self.vars().len(),
        ensures
            r.view() == self.vars()[i as int],
    {
        &self.allocations[i]
    }

    /// Position of the variable called `name` with GUID `guid`.
    fn find(&self, name: &[u16], guid: &Guid) -> (r: Option<usize>)
        requires
            ucs2_len_spec(name@) < name@.len(),
        ensures
            match find_spec(self.vars(), name@, *guid) {
                None => r is None,
                Some(k) => r matches Some(i) && i as int == k,
            },
    {
        let n = name.len();
        let len = ucs2_as_ascii_length(name);
        if len == 0 {
            return None;
        }
        let key = vstd::slice::slice_subrange(name, 0, len + 1);
        let ghost vars = self.vars();
        let mut i: usize = 0;
        while i < self.allocations.len()
            invariant
                vars == self.vars(),
                key@ == var_key(name@),
                i <= vars.len(),
                find_from(vars, 0, key@, *guid) == find_from(vars, i as int, key@, *guid),
                ucs2_len_spec(name@) != 0,
            decreases vars.len() - i,
        {
            let same_name = slice_eq(key, self.allocations[i].name.as_slice());
            if same_name && guid_eq(guid, &self.allocations[i].guid) {
                assert(vars[i as int].name == key@ && vars[i as int].guid == *guid);
                assert(find_from(vars, i as int, key@, *guid) == Some(i as int));
                assert(ucs2_len_spec(name@) != 0);
                assert(find_spec(self.vars(), name@, *guid) == Some(i as int));
                return Some(i);
            }
            assert(!(vars[i as int].name == key@ && vars[i as int].guid == *guid));
            i = i + 1;
        }
        None
    }

    /// Reads variable `name` with GUID `guid` into `data`, whose first
    /// `*size` bytes are the buffer; reports its size and attributes.
    pub fn get(&self, name: &[u16], guid: &Guid, attr: &mut u32, size: &mut usize, data: &mut [u8]) -> (r: Status)
        requires
            self.wf(),
            ucs2_len_spec(name@) < name@.len(),
            old(data)@.len() >= *old(size),
        ensures
            (r, *final(attr), *final(size), final(data)@) == get_spec(
                self.vars(),
                name@,
                *guid,
                *old(attr),
                *old(size),
                old(data)@,
            ),
    {
        let index = self.find(name, guid);
        if index.is_none() {
            return Status::NotFound;
        }
        proof {
            lemma_find_from_range(self.vars(), 0, var_key(name@), *guid);
        }
        let a = &self.allocations[index.unwrap()];
        let ghost k = find_spec(self.vars(), name@, *guid).unwrap();
        assert(k == index.unwrap() as int);
        assert(self.vars()[k].data == a.data@);
        assert(self.vars()[k].attr == a.attr);
        if *size < a.data.len() {
            *size = a.data.len();
            return Status::BufferTooSmall;
        }
        *attr = a.attr;
        *size = a.data.len();
        let ghost orig = data@;
        let n = a.data.len();
        let mut i: usize = 0;
        #[verifier::loop_isolation(false)]
        while i < n
            invariant
                n == a.data@.len(),
                n <= data@.len(),
                data@.len() == orig.len(),
                i <= n,
                forall|j: int| 0 <= j < data@.len() ==> #[trigger] data@[j] == if j < i {
                    a.data@[j]
                } else {
                    orig[j]
                },
            decreases n - i,
        {
            data[i] = a.data[i];
            i = i + 1;
        }
        assert(data@ =~= a.data@ + orig.skip(n as int));
        Status::Success
    }

    /// Creates, appends to, overwrites or erases variable `name` with GUID
    /// `guid`, as `attr` and `size` say; `data` holds the `size` new bytes.
    pub fn set(&mut self, name: &[u16], guid: &Guid, attr: u32, size: usize, data: Option<&[u8]>) -> (r: Status)
        requires
            old(self).wf(),
            ucs2_len_spec(name@) < name@.len(),
            data matches Some(d) ==> d@.len() == size,
        ensures
            final(self).wf(),
            (r, final(self).vars()) == set_spec(
                old(self).vars(),
                name@,
                *guid,
                attr,
                size,
                match data {
                    Some(d) => Some(d@),
                    None => None::<Seq<u8>>,
                },
            ),
    {
        let n = name.len();
        let len = ucs2_as_ascii_length(name);
        if len == 0 {
            return Status::InvalidParameter;
        }
        let ghost vars = self.vars();
        let index = self.find(name, guid);
        match index {
            None => {
                if size == 0 {
                    return Status::NotFound;
                }
                match data {
                    None => Status::InvalidParameter,
                    Some(d) => {
                        let key = vstd::slice::slice_subrange(name, 0, len + 1);
                        let a = Descriptor {
                            name: vstd::slice::slice_to_vec(key),
                            guid: *guid,
                            attr: attr & !VARIABLE_APPEND_WRITE,
                            data: vstd::slice::slice_to_vec(d),
                        };
                        self.allocations.push(a);
                        assert(self.vars() =~= set_spec(vars, name@, *guid, attr, size, Some(d@)).1);
                        proof {
                            lemma_find_none(vars, var_key(name@), *guid);
                        }
                        Status::Success
                    },
                }
            },
            Some(i) => {
                proof {
                    lemma_find_from_range(vars, 0, var_key(name@), *guid);
                }
                if attr & VARIABLE_APPEND_WRITE != 0 {
                    if size == 0 {
                        return Status::Success;
                    }
                    match data {
                        None => Status::InvalidParameter,
                        Some(d) => {
                            let attr2 = attr & !VARIABLE_APPEND_WRITE;
                            if self.allocations[i].attr != attr2 {
                                return Status::InvalidParameter;
                            }
                            let mut a = self.allocations.remove(i);
                            append_bytes(&mut a.data, d);
                            self.allocations.insert(i, a);
                            proof {
                                assert(self.vars() =~= set_spec(vars, name@, *guid, attr, size, Some(d@)).1);
                            }
                            Status::Success
                        },
                    }
                } else if attr == 0 || size == 0 {
                    self.allocations.remove(i);
                    assert(self.vars() =~= vars.remove(i as int));
                    Status::Success
                } else {
                    if attr != self.allocations[i].attr {
                        return Status::InvalidParameter;
                    }
                    match data {
                        None => Status::InvalidParameter,
                        Some(d) => {
                            let mut a = self.allocations.remove(i);
                            a.data = vstd::slice::slice_to_vec(d);
                            self.allocations.insert(i, a);
                            proof {
                                assert(self.vars() =~= set_spec(vars, name@, *guid, attr, size, Some(d@)).1);
                            }
                            Status::Success
                        },
                    }
                }
            },
        }
    }
}

/// Whether two GUIDs are equal.
pub fn guid_eq(a: &Guid, b: &Guid) -> (r: bool)
    ensures
        r == (*a == *b),
{
    if a.time_low != b.time_low || a.time_mid != b.time_mid || a.time_hi_and_version != b.time_hi_and_version
        || a.clk_seq_hi_res != b.clk_seq_hi_res || a.clk_seq_low != b.clk_seq_low {
        return false;
    }
    let mut i: usize = 0;
    while i < 6
        invariant
            i <= 6,
            forall|j: int| 0 <= j < i ==> a.node@[j] == b.node@[j],
        decreases 6 - i,
    {
        if a.node[i] != b.node[i] {
            return false;
        }
        i = i + 1;
    }
    proof {
        assert(a.node@ =~= b.node@);
        vstd::array::axiom_array_ext_equal(a.node, b.node);
    }
    true
}

pub proof fn lemma_find_none(vars: Seq<VariableView>, key: Seq<u16>, guid: Guid)
    requires
        find_from(vars, 0, key, guid) is None,
    ensures
        forall|i: int| 0 <= i < vars.len() ==> !(#[trigger] vars[i].name == key && vars[i].guid == guid),
{
    assert forall|i: int| 0 <= i < vars.len() implies !(#[trigger] vars[i].name == key && vars[i].guid == guid) by {
        lemma_find_none_from(vars, 0, key, guid, i);
    }
}

proof fn lemma_find_none_from(vars: Seq<VariableView>, j: int, key: Seq<u16>, guid: Guid, i: int)
    requires
        0 <= j <= i < vars.len(),
        find_from(vars, j, key, guid) is None,
    ensures
        !(vars[i].name == key && vars[i].guid == guid),
    decreases i - j,
{
    if j < i {
        lemma_find_none_from(vars, j + 1, key, guid, i);
    }
}

/// A variable is found by the name and GUID it is stored under.
pub proof fn lemma_find_unique(vars: Seq<VariableView>, k: int)
    requires
        unique_keys(vars),
        0 <= k < vars.len(),
    ensures
        find_from(vars, 0, vars[k].name, vars[k].guid) == Some(k),
{
    lemma_find_unique_from(vars, 0, k);
}

proof fn lemma_find_unique_from(vars: Seq<VariableView>, j: int, k: int)
    requires
        unique_keys(vars),
        0 <= j <= k < vars.len(),
    ensures
        find_from(vars, j, vars[k].name, vars[k].guid) == Some(k),
    decreases k - j,
{
    if j < k {
        lemma_find_unique_from(vars, j + 1, k);
    }
}


/// Whether two slices of code units are equal.
fn slice_eq(a: &[u16], b: &[u16]) -> (r: bool)
    ensures
        r == (a@ == b@),
{
    if a.len() != b.len() {
        return false;
    }
    let mut i: usize = 0;
    while i < a.len()
        invariant
            a@.len() == b@.len(),
            i <= a@.len(),
            forall|j: int| 0 <= j < i ==> a@[j] == b@[j],
        decreases a@.len() - i,
    {
        if a[i] != b[i] {
            return false;
        }
        i = i + 1;
    }
    assert(a@ =~= b@);
    true
}

} // verus!
