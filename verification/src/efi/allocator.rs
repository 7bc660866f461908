//! The EFI memory map: a chain of memory descriptors kept in a fixed pool of
//! slots, from which pages are allocated and to which they are returned.
use vstd::prelude::*;

verus! {

pub const ALLOCATE_ANY_PAGES: u32 = 0;
pub const ALLOCATE_MAX_ADDRESS: u32 = 1;
pub const ALLOCATE_ADDRESS: u32 = 2;

pub const RESERVED_MEMORY_TYPE: u32 = 0;
pub const LOADER_CODE: u32 = 1;
pub const LOADER_DATA: u32 = 2;
pub const BOOT_SERVICES_CODE: u32 = 3;
pub const BOOT_SERVICES_DATA: u32 = 4;
pub const RUNTIME_SERVICES_CODE: u32 = 5;
pub const RUNTIME_SERVICES_DATA: u32 = 6;
pub const CONVENTIONAL_MEMORY: u32 = 7;
pub const UNUSABLE_MEMORY: u32 = 8;
pub const MEMORY_MAPPED_IO: u32 = 11;

pub const MEMORY_WB: u64 = 0x8;
pub const MEMORY_RUNTIME: u64 = 0x8000_0000_0000_0000;

/// Number of slots in the pool of descriptors.
pub const MAX_ALLOCATIONS: usize = 512;

/// Status codes that the memory and variable services report.
#[derive(Clone, Copy, Debug, PartialEq, Eq, Structural)]
pub enum Status {
    Success,
    InvalidParameter,
    BufferTooSmall,
    OutOfResources,
    NotFound,
    Unsupported,
    DeviceError,
}

/// A range of physical pages of one memory type.
#[derive(Clone, Copy, Debug, PartialEq, Eq, Structural)]
pub struct MemoryDescriptor {
    pub memory_type: u32,
    pub physical_start: u64,
    pub virtual_start: u64,
    pub number_of_pages: u64,
    pub attribute: u64,
}

impl MemoryDescriptor {
    pub fn empty() -> (d: MemoryDescriptor)
        ensures
            d == (MemoryDescriptor {
                memory_type: 0,
                physical_start: 0,
                virtual_start: 0,
                number_of_pages: 0,
                attribute: 0,
            }),
    {
        MemoryDescriptor {
            memory_type: 0,
            physical_start: 0,
            virtual_start: 0,
            number_of_pages: 0,
            attribute: 0,
        }
    }
}

/// First address past the pages of `d`.
pub open spec fn desc_end(d: MemoryDescriptor, page_size: u64) -> int {
    d.physical_start + page_size * d.number_of_pages
}

#[derive(Clone, Copy)]
pub struct Allocation {
    pub in_use: bool,
    pub next_allocation: Option<usize>,
    pub descriptor: MemoryDescriptor,
}

pub struct Allocator {
    allocations: Vec<Allocation>,
    key: usize,
    first_allocation: Option<usize>,
    page_size: u64,
    /// The slots of the chain, from the first one on.
    chain: Ghost<Seq<usize>>,
}

impl Allocator {
    /// The slots of the chain, in order.
    pub closed spec fn chain(&self) -> Seq<usize> {
        self.chain@
    }

    /// Whether the chain runs through the slots from the first on, in order,
    /// as appending ranges to an empty map leaves it.
    pub open spec fn slots_in_order(&self) -> bool {
        self.chain() == Seq::new(self.chain().len(), |i: int| i as usize)
    }

    pub closed spec fn slot(&self, i: int) -> Allocation {
        self.allocations@[i]
    }

    pub closed spec fn spec_page_size(&self) -> u64 {
        self.page_size
    }

    pub closed spec fn spec_key(&self) -> usize {
        self.key
    }

    pub closed spec fn spec_first_allocation(&self) -> Option<usize> {
        self.first_allocation
    }

    /// The memory map: the descriptors along the chain.
    pub closed spec fn descriptors(&self) -> Seq<MemoryDescriptor> {
        Seq::new(self.chain@.len(), |i: int| self.allocations@[self.chain@[i] as int].descriptor)
    }

    pub closed spec fn wf(&self) -> bool {
        let c = self.chain@;
        &&& self.allocations@.len() == MAX_ALLOCATIONS
        &&& self.page_size > 0
        &&& c.no_duplicates()
        &&& forall|i: int| 0 <= i < c.len() ==> #[trigger] c[i] < MAX_ALLOCATIONS
        &&& (c.len() == 0 <==> self.first_allocation is None)
        &&& c.len() > 0 ==> self.first_allocation == Some(c[0])
        &&& forall|i: int|
            0 <= i < c.len() - 1 ==> #[trigger] self.allocations@[c[i] as int].next_allocation
                == Some(c[i + 1])
        &&& c.len() > 0 ==> self.allocations@[c.last() as int].next_allocation is None
        &&& forall|j: int|
            0 <= j < MAX_ALLOCATIONS ==> (#[trigger] self.allocations@[j].in_use <==> c.contains(
                j as usize,
            ))
        &&& forall|i: int|
            0 <= i < c.len() ==> desc_end(
                #[trigger] self.allocations@[c[i] as int].descriptor,
                self.page_size,
            ) <= u64::MAX
    }

    /// An empty memory map whose pages are `page_size` bytes long.
    pub fn new(page_size: u64) -> (a: Allocator)
        requires
            page_size > 0,
        ensures
            a.wf(),
            a.descriptors() == Seq::<MemoryDescriptor>::empty(),
            a.spec_key() == 0,
            a.spec_page_size() == page_size,
            a.spec_first_allocation() is None,
            forall|j: int| 0 <= j < MAX_ALLOCATIONS ==> !(#[trigger] a.slot(j)).in_use,
            a.chain() == Seq::<usize>::empty(),
    {
        let mut allocations: Vec<Allocation> = Vec::new();
        while allocations.len() < MAX_ALLOCATIONS
            invariant
                allocations@.len() <= MAX_ALLOCATIONS,
                forall|j: int| 0 <= j < allocations@.len() ==> !(#[trigger] allocations@[j]).in_use,
            decreases MAX_ALLOCATIONS - allocations@.len(),
        {
            allocations.push(
                Allocation { in_use: false, next_allocation: None, descriptor: MemoryDescriptor::empty() },
            );
        }
        let a = Allocator {
            allocations,
            key: 0,
            first_allocation: None,
            page_size,
            chain: Ghost(Seq::empty()),
        };
        assert(a.descriptors() =~= Seq::<MemoryDescriptor>::empty());
        a
    }

    pub fn page_size(&self) -> (r: u64)
        ensures
            r == self.spec_page_size(),
    {
        self.page_size
    }

    /// Number of pages needed to hold `size` bytes.
    pub fn page_count(&self, size: usize) -> (r: u64)
        requires
            self.wf(),
            size + self.spec_page_size() - 1 <= usize::MAX,
            self.spec_page_size() <= usize::MAX,
        ensures
            r == (size + self.spec_page_size() - 1) / (self.spec_page_size() as int),
    {
        let ps = self.page_size as usize;
        ((size + (ps - 1)) / ps) as u64
    }

    pub fn get_map_key(&self) -> (r: usize)
        ensures
            r == self.spec_key(),
    {
        self.key
    }

    pub fn first_allocation(&self) -> (r: Option<usize>)
        ensures
            r == self.spec_first_allocation(),
    {
        self.first_allocation
    }

    /// The content of slot `i` of the pool.
    pub fn allocation(&self, i: usize) -> (r: Allocation)
        requires
            self.wf(),
            i < MAX_ALLOCATIONS,
        ensures
            r == self.slot(i as int),
    {
        self.allocations[i]
    }

    proof fn lemma_full(&self)
        requires
            self.wf(),
        ensures
            self.chain().len() <= MAX_ALLOCATIONS,
            (forall|j: int| 0 <= j < MAX_ALLOCATIONS ==> #[trigger] self.slot(j).in_use) ==> self.chain().len()
                == MAX_ALLOCATIONS,
            (exists|j: int| 0 <= j < MAX_ALLOCATIONS && !#[trigger] self.slot(j).in_use) ==> self.chain().len()
                < MAX_ALLOCATIONS,
    {
        let c = self.chain@;
        let s = c.to_set();
        c.unique_seq_to_set();
        let r = Set::new(|x: usize| x < MAX_ALLOCATIONS);
        let ri = vstd::set_lib::set_int_range(0, MAX_ALLOCATIONS as int);
        vstd::set_lib::lemma_int_range(0, MAX_ALLOCATIONS as int);
        let m = ri.map(|x: int| x as usize);
        assert(r =~= m) by {
            assert forall|x: usize| r.contains(x) implies m.contains(x) by {
                assert(ri.contains(x as int));
            }
        }
        assert(s.subset_of(r));
        vstd::set_lib::lemma_map_size(ri, m, |x: int| x as usize);
        assert(r.finite());
        vstd::set_lib::lemma_len_subset(s, r);
        if forall|j: int| 0 <= j < MAX_ALLOCATIONS ==> #[trigger] self.slot(j).in_use {
            assert(r.subset_of(s)) by {
                assert forall|x: usize| r.contains(x) implies s.contains(x) by {
                    assert(self.slot(x as int).in_use);
                }
            }
            vstd::set_lib::lemma_len_subset(r, s);
        }
        if exists|j: int| 0 <= j < MAX_ALLOCATIONS && !#[trigger] self.slot(j).in_use {
            let j = choose|j: int| 0 <= j < MAX_ALLOCATIONS && !#[trigger] self.slot(j).in_use;
            assert(!s.contains(j as usize));
            assert(r.contains(j as usize));
            assert(s.subset_of(r.remove(j as usize)));
            vstd::set_lib::lemma_len_subset(s, r.remove(j as usize));
        }
    }

    /// The first slot of the pool that is not in use, or `MAX_ALLOCATIONS`
    /// when every slot is.
    pub fn find_free_allocation(&self) -> (r: usize)
        requires
            self.wf(),
        ensures
            r <= MAX_ALLOCATIONS,
            r < MAX_ALLOCATIONS ==> !self.slot(r as int).in_use && !self.chain().contains(r),
            forall|j: int| 0 <= j < r ==> #[trigger] self.slot(j).in_use,
            r == MAX_ALLOCATIONS <==> self.descriptors().len() == MAX_ALLOCATIONS,
    {
        let mut i: usize = 0;
        while i < MAX_ALLOCATIONS
            invariant
                self.wf(),
                i <= MAX_ALLOCATIONS,
                forall|j: int| 0 <= j < i ==> #[trigger] self.slot(j).in_use,
            decreases MAX_ALLOCATIONS - i,
        {
            if !self.allocations[i].in_use {
                proof {
                    self.lemma_full();
                }
                return i;
            }
            i = i + 1;
        }
        proof {
            self.lemma_full();
        }
        MAX_ALLOCATIONS
    }

    /// The memory map has at most `MAX_ALLOCATIONS` descriptors.
    pub proof fn lemma_len_bound(&self)
        requires
            self.wf(),
        ensures
            self.descriptors().len() <= MAX_ALLOCATIONS,
    {
        self.lemma_full();
    }

    /// Number of descriptors in the memory map.
    pub fn get_descriptor_count(&self) -> (count: usize)
        requires
            self.wf(),
        ensures
            count == self.descriptors().len(),
            count <= MAX_ALLOCATIONS,
    {
        proof {
            self.lemma_full();
        }
        let mut count: usize = 0;
        let mut cur = self.first_allocation;
        while cur.is_some()
            invariant
                self.wf(),
                count <= self.chain@.len(),
                self.chain@.len() <= MAX_ALLOCATIONS,
                cur == if count < self.chain@.len() {
                    Some(self.chain@[count as int])
                } else {
                    None::<usize>
                },
            decreases self.chain@.len() - count,
        {
            let c = cur.unwrap();
            cur = self.allocations[c].next_allocation;
            count = count + 1;
        }
        count
    }

    /// Copies the memory map into `out` and returns its length.
    pub fn get_descriptors(&self, out: &mut [MemoryDescriptor]) -> (count: usize)
        requires
            self.wf(),
            old(out)@.len() >= self.descriptors().len(),
        ensures
            count == self.descriptors().len(),
            final(out)@.len() == old(out)@.len(),
            final(out)@.take(count as int) == self.descriptors(),
            final(out)@.skip(count as int) == old(out)@.skip(count as int),
    {
        proof {
            self.lemma_full();
        }
        let ghost orig = out@;
        let mut count: usize = 0;
        let mut cur = self.first_allocation;
        while cur.is_some()
            invariant
                self.wf(),
                count <= self.chain@.len(),
                self.chain@.len() <= MAX_ALLOCATIONS,
                out@.len() == orig.len(),
                orig.len() >= self.descriptors().len(),
                cur == if count < self.chain@.len() {
                    Some(self.chain@[count as int])
                } else {
                    None::<usize>
                },
                forall|j: int| 0 <= j < count ==> out@[j] == self.descriptors()[j],
                forall|j: int| count <= j < out@.len() ==> out@[j] == orig[j],
            decreases self.chain@.len() - count,
        {
            let c = cur.unwrap();
            out[count] = self.allocations[c].descriptor;
            cur = self.allocations[c].next_allocation;
            count = count + 1;
        }
        assert(out@.take(count as int) =~= self.descriptors());
        assert(out@.skip(count as int) =~= orig.skip(count as int));
        count
    }
}


/// `d` holds the given type, pages, start and attributes.
pub open spec fn fields_are(d: MemoryDescriptor, memory_type: u32, page_count: u64, address: u64, attributes: u64) -> bool {
    &&& d.memory_type == memory_type
    &&& d.number_of_pages == page_count
    &&& d.physical_start == address
    &&& d.attribute == attributes
}

impl Allocator {
    /// Appends a range to the memory map. Ranges are expected in order and
    /// without overlap.
    pub fn add_initial_allocation(
        &mut self,
        memory_type: u32,
        page_count: u64,
        address: u64,
        attributes: u64,
    ) -> (r: Status)
        requires
            old(self).wf(),
            old(self).spec_key() < usize::MAX,
            address + old(self).spec_page_size() * page_count <= u64::MAX,
        ensures
            final(self).wf(),
            final(self).spec_key() == old(self).spec_key() + 1,
            final(self).spec_page_size() == old(self).spec_page_size(),
            old(self).descriptors().len() < MAX_ALLOCATIONS ==> {
                &&& r == Status::Success
                &&& final(self).descriptors().len() == old(self).descriptors().len() + 1
                &&& final(self).descriptors().take(old(self).descriptors().len() as int)
                    == old(self).descriptors()
                &&& fields_are(final(self).descriptors().last(), memory_type, page_count, address, attributes)
            },
            old(self).descriptors().len() == MAX_ALLOCATIONS ==> {
                &&& r == Status::OutOfResources
                &&& final(self).descriptors() == old(self).descriptors()
            },
            old(self).slots_in_order() ==> final(self).slots_in_order(),
            old(self).descriptors().len() < MAX_ALLOCATIONS ==> final(self).chain() == old(self).chain().push(
                final(self).chain().last(),
            ),
    {
        proof {
            self.lemma_full();
        }
        self.key = self.key + 1;
        if self.first_allocation.is_none() {
            let mut a = self.allocations[0];
            a.in_use = true;
            a.next_allocation = None;
            a.descriptor.memory_type = memory_type;
            a.descriptor.number_of_pages = page_count;
            a.descriptor.physical_start = address;
            a.descriptor.attribute = attributes;
            self.allocations.set(0, a);
            self.first_allocation = Some(0);
            self.chain = Ghost(Seq::<usize>::empty().push(0usize));
            proof {
                assert forall|j: int| 0 <= j < MAX_ALLOCATIONS implies (#[trigger] self.allocations@[j].in_use
                    <==> self.chain@.contains(j as usize)) by {
                    if j == 0 {
                        assert(self.chain@[0] == 0);
                    } else {
                        assert(!old(self).chain@.contains(j as usize));
                    }
                }
                assert(self.chain@ =~= Seq::new(1, |i: int| i as usize));
            }
            return Status::Success;
        }
        // Find the last used allocation
        let mut last = self.first_allocation.unwrap();
        let ghost mut pos: int = 0;
        let mut cur = self.allocations[last].next_allocation;
        while cur.is_some()
            invariant
                self.wf(),
                self.chain@.len() > 0,
                0 <= pos < self.chain@.len(),
                last == self.chain@[pos],
                cur == if pos < self.chain@.len() - 1 {
                    Some(self.chain@[pos + 1])
                } else {
                    None::<usize>
                },
            decreases self.chain@.len() - pos,
        {
            last = cur.unwrap();
            proof {
                pos = pos + 1;
            }
            cur = self.allocations[last].next_allocation;
        }
        assert(last == self.chain@.last());
        let next = self.find_free_allocation();
        if next == MAX_ALLOCATIONS {
            return Status::OutOfResources;
        }
        proof {
            if old(self).slots_in_order() {
                let c = self.chain@;
                let n = c.len();
                assert(self.chain() == c);
                if next > n {
                    assert(self.slot(n as int).in_use);
                    assert(self.allocations@[n as int].in_use);
                    assert(c.contains(n as usize));
                    let k = choose|k: int| 0 <= k < c.len() && c[k] == n as usize;
                    assert(c[k] == k as usize);
                }
                if next < n {
                    assert(c[next as int] == next);
                    assert(c.contains(next));
                }
                assert(next == n);
            }
        }
        let ghost was_in_order = old(self).slots_in_order();
        let mut l = self.allocations[last];
        l.next_allocation = Some(next);
        self.allocations.set(last, l);
        let mut n = self.allocations[next];
        n.in_use = true;
        n.next_allocation = None;
        n.descriptor.memory_type = memory_type;
        n.descriptor.number_of_pages = page_count;
        n.descriptor.physical_start = address;
        n.descriptor.attribute = attributes;
        self.allocations.set(next, n);
        let ghost oc = self.chain@;
        self.chain = Ghost(oc.push(next));
        proof {
            let c = self.chain@;
            assert(c.no_duplicates()) by {
                assert forall|i: int, j: int| 0 <= i < c.len() && 0 <= j < c.len() && i != j implies c[i] != c[j] by {
                    if i < oc.len() && j < oc.len() {
                        assert(oc[i] != oc[j]);
                    } else if i < oc.len() {
                        assert(oc.contains(oc[i]));
                    } else {
                        assert(oc.contains(oc[j]));
                    }
                }
            }
            assert forall|i: int| 0 <= i < c.len() - 1 implies #[trigger] self.allocations@[c[i] as int].next_allocation
                == Some(c[i + 1]) by {
                if i < oc.len() - 1 {
                    assert(oc[i] != next);
                    assert(old(self).allocations@[oc[i] as int].next_allocation == Some(oc[i + 1]));
                    if oc[i] == last {
                        assert(oc[i] == oc[oc.len() - 1]);
                    }
                }
            }
            assert forall|j: int| 0 <= j < MAX_ALLOCATIONS implies (#[trigger] self.allocations@[j].in_use
                <==> c.contains(j as usize)) by {
                if j == next as int {
                    assert(c[c.len() - 1] == next);
                } else {
                    assert(old(self).allocations@[j].in_use <==> oc.contains(j as usize));
                    if oc.contains(j as usize) {
                        let k = choose|k: int| 0 <= k < oc.len() && oc[k] == j as usize;
                        assert(c[k] == j as usize);
                    }
                    if c.contains(j as usize) {
                        let k = choose|k: int| 0 <= k < c.len() && c[k] == j as usize;
                        assert(oc[k] == j as usize);
                    }
                }
            }
            assert forall|i: int| 0 <= i < c.len() implies desc_end(
                #[trigger] self.allocations@[c[i] as int].descriptor,
                self.page_size,
            ) <= u64::MAX by {
                if i < oc.len() {
                    assert(oc[i] != next);
                }
            }
            assert(self.descriptors().take(oc.len() as int) =~= old(self).descriptors()) by {
                assert forall|i: int| 0 <= i < oc.len() implies self.descriptors()[i] == old(self).descriptors()[i] by {
                    assert(oc[i] != next);
                }
            }
            if was_in_order {
                assert(c =~= Seq::new(c.len(), |i: int| i as usize));
            }
        }
        Status::Success
    }
}


/// Whether descriptor `d` can serve a request for `page_count` pages of the
/// given allocation type.
pub open spec fn fits(d: MemoryDescriptor, allocate_type: u32, page_count: u64, address: u64, page_size: u64) -> bool {
    &&& d.memory_type == CONVENTIONAL_MEMORY
    &&& if allocate_type == ALLOCATE_ADDRESS {
        address >= d.physical_start && address + page_size * page_count <= desc_end(d, page_size)
    } else if allocate_type == ALLOCATE_ANY_PAGES {
        d.number_of_pages >= page_count && d.physical_start > 0x10_0000
    } else if allocate_type == ALLOCATE_MAX_ADDRESS {
        d.number_of_pages >= page_count && d.physical_start + page_size * page_count <= address
    } else {
        false
    }
}

/// Position of the first descriptor at or after `i` that fits the request.
pub open spec fn first_fit(
    ds: Seq<MemoryDescriptor>,
    i: int,
    allocate_type: u32,
    page_count: u64,
    address: u64,
    page_size: u64,
) -> Option<int>
    decreases ds.len() - i,
{
    if i < 0 || i >= ds.len() {
        None
    } else if fits(ds[i], allocate_type, page_count, address, page_size) {
        Some(i)
    } else {
        first_fit(ds, i + 1, allocate_type, page_count, address, page_size)
    }
}

pub proof fn lemma_first_fit_range(
    ds: Seq<MemoryDescriptor>,
    i: int,
    allocate_type: u32,
    page_count: u64,
    address: u64,
    page_size: u64,
)
    requires
        0 <= i,
    ensures
        first_fit(ds, i, allocate_type, page_count, address, page_size) matches Some(k) ==> i <= k < ds.len()
            && fits(ds[k], allocate_type, page_count, address, page_size),
    decreases ds.len() - i,
{
    if i < ds.len() && !fits(ds[i], allocate_type, page_count, address, page_size) {
        lemma_first_fit_range(ds, i + 1, allocate_type, page_count, address, page_size);
    }
}

/// The first `p` pages of `d`.
pub open spec fn head_part(d: MemoryDescriptor, p: u64) -> MemoryDescriptor {
    MemoryDescriptor {
        memory_type: d.memory_type,
        physical_start: d.physical_start,
        virtual_start: d.virtual_start,
        number_of_pages: p,
        attribute: d.attribute,
    }
}

/// The pages of `d` after its first `p`, with virtual start `v`.
pub open spec fn tail_part(d: MemoryDescriptor, p: u64, page_size: u64, v: u64) -> MemoryDescriptor {
    MemoryDescriptor {
        memory_type: d.memory_type,
        physical_start: (d.physical_start + page_size * p) as u64,
        virtual_start: v,
        number_of_pages: (d.number_of_pages - p) as u64,
        attribute: d.attribute,
    }
}

/// The memory map with descriptor `k` split after its first `p` pages.
pub open spec fn split_seq(ds: Seq<MemoryDescriptor>, k: int, p: u64, page_size: u64, v: u64) -> Seq<MemoryDescriptor> {
    ds.take(k) + seq![head_part(ds[k], p), tail_part(ds[k], p, page_size, v)] + ds.skip(k + 1)
}

/// `d` given to memory of type `t`: runtime services memory is marked as such.
pub open spec fn assign(d: MemoryDescriptor, t: u32) -> MemoryDescriptor {
    MemoryDescriptor {
        memory_type: t,
        physical_start: d.physical_start,
        virtual_start: d.virtual_start,
        number_of_pages: d.number_of_pages,
        attribute: if t == RUNTIME_SERVICES_CODE || t == RUNTIME_SERVICES_DATA {
            d.attribute | MEMORY_RUNTIME
        } else {
            d.attribute
        },
    }
}

/// `d` with its type set to `t`.
pub open spec fn with_type(d: MemoryDescriptor, t: u32) -> MemoryDescriptor {
    MemoryDescriptor {
        memory_type: t,
        physical_start: d.physical_start,
        virtual_start: d.virtual_start,
        number_of_pages: d.number_of_pages,
        attribute: d.attribute,
    }
}

impl Allocator {
    proof fn lemma_desc_index(&self, i: int)
        requires
            self.wf(),
            0 <= i < self.chain@.len(),
        ensures
            self.descriptors()[i] == self.allocations@[self.chain@[i] as int].descriptor,
            desc_end(self.descriptors()[i], self.page_size) <= u64::MAX,
            self.chain@[i] < MAX_ALLOCATIONS,
    {
        assert(self.chain@[i] < MAX_ALLOCATIONS);
    }

    /// The slot of the first descriptor of the memory map that can serve the
    /// request.
    pub fn find_free_memory(&self, allocate_type: u32, page_count: u64, address: u64) -> (r: Option<usize>)
        requires
            self.wf(),
        ensures
            match first_fit(self.descriptors(), 0, allocate_type, page_count, address, self.spec_page_size()) {
                None => r is None,
                Some(k) => r == Some(self.chain()[k]),
            },
    {
        let ghost ds = self.descriptors();
        let ps = self.page_size;
        let mut cur = self.first_allocation;
        let ghost mut pos: int = 0;
        while cur.is_some()
            invariant
                self.wf(),
                ps == self.page_size,
                ds == self.descriptors(),
                0 <= pos <= self.chain@.len(),
                cur == if pos < self.chain@.len() {
                    Some(self.chain@[pos])
                } else {
                    None::<usize>
                },
                first_fit(ds, 0, allocate_type, page_count, address, ps) == first_fit(
                    ds,
                    pos,
                    allocate_type,
                    page_count,
                    address,
                    ps,
                ),
            decreases self.chain@.len() - pos,
        {
            let c = cur.unwrap();
            proof {
                self.lemma_desc_index(pos);
            }
            let a = self.allocations[c];
            if a.descriptor.memory_type != CONVENTIONAL_MEMORY {
                cur = a.next_allocation;
                proof {
                    pos = pos + 1;
                }
                continue;
            }
            let alloc_bottom = a.descriptor.physical_start;
            proof {
                assert(ps * a.descriptor.number_of_pages <= u64::MAX) by (nonlinear_arith)
                    requires alloc_bottom + ps * a.descriptor.number_of_pages <= u64::MAX, alloc_bottom >= 0, ps * a.descriptor.number_of_pages >= 0;
            }
            let alloc_top = alloc_bottom + ps * a.descriptor.number_of_pages;
            proof {
                lemma_mul_u64(ps, page_count);
            }
            if allocate_type == ALLOCATE_ADDRESS {
                let req_top = (address as u128) + (ps as u128) * (page_count as u128);
                if address >= alloc_bottom && req_top <= alloc_top as u128 {
                    return cur;
                }
            } else if allocate_type == ALLOCATE_ANY_PAGES {
                if a.descriptor.number_of_pages >= page_count && a.descriptor.physical_start > 0x10_0000 {
                    return cur;
                }
            } else if allocate_type == ALLOCATE_MAX_ADDRESS {
                let req_top = (a.descriptor.physical_start as u128) + (ps as u128) * (page_count as u128);
                if a.descriptor.number_of_pages >= page_count && req_top <= address as u128 {
                    return cur;
                }
            } else {
                proof {
                    lemma_first_fit_none_for_other_types(ds, pos, allocate_type, page_count, address, ps);
                }
                return None;
            }
            cur = a.next_allocation;
            proof {
                pos = pos + 1;
            }
        }
        None
    }
}

proof fn lemma_first_fit_none_for_other_types(
    ds: Seq<MemoryDescriptor>,
    i: int,
    allocate_type: u32,
    page_count: u64,
    address: u64,
    page_size: u64,
)
    requires
        allocate_type != ALLOCATE_ADDRESS,
        allocate_type != ALLOCATE_ANY_PAGES,
        allocate_type != ALLOCATE_MAX_ADDRESS,
    ensures
        first_fit(ds, i, allocate_type, page_count, address, page_size) is None,
    decreases ds.len() - i,
{
    if 0 <= i < ds.len() {
        lemma_first_fit_none_for_other_types(ds, i + 1, allocate_type, page_count, address, page_size);
    }
}


pub proof fn lemma_mul_u64(a: u64, b: u64)
    ensures
        0 <= a * b <= u64::MAX * u64::MAX,
{
    assert(0 <= a * b <= u64::MAX * u64::MAX) by (nonlinear_arith)
        requires 0 <= a <= u64::MAX, 0 <= b <= u64::MAX;
}

impl Allocator {
    /// Splits the descriptor of slot `orig` after its first `pages` pages;
    /// the rest goes to the first free slot, which is returned.
    pub fn split_allocation(&mut self, orig: usize, pages: u64) -> (r: Option<usize>)
        requires
            old(self).wf(),
            old(self).chain().contains(orig),
            pages <= old(self).slot(orig as int).descriptor.number_of_pages,
        ensures
            final(self).wf(),
            final(self).spec_key() == old(self).spec_key(),
            final(self).spec_page_size() == old(self).spec_page_size(),
            old(self).descriptors().len() == MAX_ALLOCATIONS ==> r is None && final(self).descriptors()
                == old(self).descriptors() && final(self).chain() == old(self).chain(),
            old(self).descriptors().len() < MAX_ALLOCATIONS ==> {
                let k = old(self).chain().index_of(orig);
                &&& r matches Some(new)
                &&& new < MAX_ALLOCATIONS
                &&& !old(self).slot(new as int).in_use
                &&& forall|j: int| 0 <= j < new ==> #[trigger] old(self).slot(j).in_use
                &&& final(self).chain() == old(self).chain().insert(k + 1, new)
                &&& final(self).descriptors() == split_seq(
                    old(self).descriptors(),
                    k,
                    pages,
                    old(self).spec_page_size(),
                    final(self).descriptors()[k + 1].virtual_start,
                )
            },
    {
        let new = self.find_free_allocation();
        if new == MAX_ALLOCATIONS {
            return None;
        }
        let ghost oc = self.chain@;
        let ghost k = oc.index_of(orig);
        let ghost ods = self.descriptors();
        proof {
            assert(0 <= k < oc.len() && oc[k] == orig);
            self.lemma_desc_index(k);
            self.lemma_full();
        }
        let ps = self.page_size;
        let o = self.allocations[orig];
        proof {
            let n = o.descriptor.number_of_pages;
            assert(ps * pages <= ps * n) by (nonlinear_arith)
                requires pages <= n, ps >= 0;
            assert(ps * pages + ps * ((n - pages) as u64) == ps * n) by (nonlinear_arith)
                requires pages <= n;
            assert(ps * pages >= 0) by (nonlinear_arith)
                requires pages >= 0, ps >= 0;
        }
        let mut n = self.allocations[new];
        n.in_use = true;
        n.next_allocation = o.next_allocation;
        n.descriptor.number_of_pages = o.descriptor.number_of_pages - pages;
        n.descriptor.memory_type = o.descriptor.memory_type;
        n.descriptor.attribute = o.descriptor.attribute;
        n.descriptor.physical_start = o.descriptor.physical_start + ps * pages;
        self.allocations.set(new, n);
        let mut o2 = o;
        o2.next_allocation = Some(new);
        o2.descriptor.number_of_pages = pages;
        self.allocations.set(orig, o2);
        self.chain = Ghost(oc.insert(k + 1, new));
        proof {
            let c = self.chain@;
            assert(c.len() == oc.len() + 1);
            assert forall|i: int| 0 <= i < c.len() implies #[trigger] c[i] == if i <= k {
                oc[i]
            } else if i == k + 1 {
                new
            } else {
                oc[i - 1]
            } by {}
            assert(!oc.contains(new));
            assert(c.no_duplicates()) by {
                assert forall|i: int, j: int| 0 <= i < c.len() && 0 <= j < c.len() && i != j implies c[i] != c[j] by {
                    if i != k + 1 && j != k + 1 {
                        let ii = if i <= k { i } else { i - 1 };
                        let jj = if j <= k { j } else { j - 1 };
                        assert(oc[ii] != oc[jj]);
                    } else if i == k + 1 {
                        let jj = if j <= k { j } else { j - 1 };
                        assert(oc.contains(oc[jj]));
                    } else {
                        let ii = if i <= k { i } else { i - 1 };
                        assert(oc.contains(oc[ii]));
                    }
                }
            }
            assert forall|i: int| 0 <= i < c.len() implies #[trigger] c[i] < MAX_ALLOCATIONS by {
                if i != k + 1 {
                    let ii = if i <= k { i } else { i - 1 };
                    assert(oc[ii] < MAX_ALLOCATIONS);
                }
            }
            assert forall|i: int| 0 <= i < c.len() - 1 implies #[trigger] self.allocations@[c[i] as int].next_allocation
                == Some(c[i + 1]) by {
                if i < k {
                    assert(oc[i] != orig && oc[i] != new);
                    assert(old(self).allocations@[oc[i] as int].next_allocation == Some(oc[i + 1]));
                } else if i == k {
                } else if i == k + 1 {
                    if k < oc.len() - 1 {
                        assert(old(self).allocations@[oc[k] as int].next_allocation == Some(oc[k + 1]));
                    }
                } else {
                    assert(oc[i - 1] != orig && oc[i - 1] != new);
                    assert(old(self).allocations@[oc[i - 1] as int].next_allocation == Some(oc[i]));
                }
            }
            if k == oc.len() - 1 {
                assert(c.last() == new);
            } else {
                assert(c.last() == oc.last());
                assert(oc.last() != orig && oc.last() != new);
            }
            assert forall|j: int| 0 <= j < MAX_ALLOCATIONS implies (#[trigger] self.allocations@[j].in_use
                <==> c.contains(j as usize)) by {
                if j == new as int {
                    assert(c[k + 1] == new);
                } else {
                    assert(old(self).allocations@[j].in_use <==> oc.contains(j as usize));
                    if oc.contains(j as usize) {
                        let t = choose|t: int| 0 <= t < oc.len() && oc[t] == j as usize;
                        if t <= k {
                            assert(c[t] == j as usize);
                        } else {
                            assert(c[t + 1] == j as usize);
                        }
                    }
                    if c.contains(j as usize) {
                        let t = choose|t: int| 0 <= t < c.len() && c[t] == j as usize;
                        if t <= k {
                            assert(oc[t] == j as usize);
                        } else {
                            assert(oc[t - 1] == j as usize);
                        }
                    }
                }
            }
            let v = self.allocations@[new as int].descriptor.virtual_start;
            let expected = split_seq(ods, k, pages, ps, v);
            assert forall|i: int| 0 <= i < c.len() implies #[trigger] self.descriptors()[i] == expected[i] && desc_end(
                self.allocations@[c[i] as int].descriptor,
                self.page_size,
            ) <= u64::MAX by {
                if i < k {
                    self.lemma_desc_index_old(old(self), i);
                } else if i > k + 1 {
                    old(self).lemma_desc_index(i - 1);
                    assert(oc[i - 1] != orig && oc[i - 1] != new);
                }
            }
            assert forall|i: int| 0 <= i < c.len() implies desc_end(
                #[trigger] self.allocations@[c[i] as int].descriptor,
                self.page_size,
            ) <= u64::MAX by {
                assert(self.descriptors()[i] == expected[i]);
            }
            assert(self.descriptors() =~= expected);
        }
        Some(new)
    }

    proof fn lemma_desc_index_old(&self, old_self: &Allocator, i: int)
        requires
            old_self.wf(),
            0 <= i < old_self.chain@.len(),
            i < self.chain@.len(),
            self.chain@[i] == old_self.chain@[i],
            self.allocations@[self.chain@[i] as int] == old_self.allocations@[old_self.chain@[i] as int],
        ensures
            self.descriptors()[i] == old_self.descriptors()[i],
    {
    }
}


/// What `allocate_pages` does to the memory map `ds` once it has picked
/// descriptor `k`: `nds` is the map after the call and `r` its result.
pub open spec fn allocate_outcome(
    ds: Seq<MemoryDescriptor>,
    nds: Seq<MemoryDescriptor>,
    k: int,
    allocate_type: u32,
    memory_type: u32,
    page_count: u64,
    address: u64,
    page_size: u64,
    r: (Status, u64),
) -> bool {
    let d = ds[k];
    if d.number_of_pages == page_count {
        r == (Status::Success, d.physical_start) && nds == ds.update(k, with_type(d, memory_type))
    } else if allocate_type == ALLOCATE_ADDRESS && d.physical_start != address {
        let p = ((address - d.physical_start) / (page_size as int)) as u64;
        if ds.len() == MAX_ALLOCATIONS {
            r == (Status::OutOfResources, 0u64) && nds == ds
        } else {
            let ds1 = split_seq(ds, k, p, page_size, nds[k + 1].virtual_start);
            if ds1[k + 1].number_of_pages > page_count {
                if ds.len() + 1 == MAX_ALLOCATIONS {
                    r == (Status::OutOfResources, 0u64) && nds == ds1
                } else {
                    let ds2 = split_seq(ds1, k + 1, page_count, page_size, nds[k + 2].virtual_start);
                    r == (Status::Success, ds1[k + 1].physical_start) && nds == ds2.update(
                        k + 1,
                        assign(ds2[k + 1], memory_type),
                    )
                }
            } else {
                r == (Status::Success, ds1[k + 1].physical_start) && nds == ds1.update(
                    k + 1,
                    assign(ds1[k + 1], memory_type),
                )
            }
        }
    } else {
        if ds.len() == MAX_ALLOCATIONS {
            r == (Status::OutOfResources, 0u64) && nds == ds
        } else {
            let ds1 = split_seq(ds, k, page_count, page_size, nds[k + 1].virtual_start);
            r == (Status::Success, d.physical_start) && nds == ds1.update(k, assign(ds1[k], memory_type))
        }
    }
}

/// What `allocate_pages` answers and leaves of the memory map `ds`: `ds2`
/// after the request, `r` its answer.
pub open spec fn allocation_result(
    ds: Seq<MemoryDescriptor>,
    ds2: Seq<MemoryDescriptor>,
    allocate_type: u32,
    memory_type: u32,
    page_count: u64,
    address: u64,
    page_size: u64,
    r: (Status, u64),
) -> bool {
    match first_fit(ds, 0, allocate_type, page_count, address, page_size) {
        None => r == (Status::OutOfResources, 0u64) && ds2 == ds,
        Some(k) => allocate_outcome(ds, ds2, k, allocate_type, memory_type, page_count, address, page_size, r),
    }
}

impl Allocator {
    proof fn lemma_index_of(&self, i: int)
        requires
            self.wf(),
            0 <= i < self.chain@.len(),
        ensures
            self.chain@.index_of(self.chain@[i]) == i,
            self.chain@.contains(self.chain@[i]),
    {
        let c = self.chain@;
        assert(c.contains(c[i]));
        let j = c.index_of(c[i]);
        assert(0 <= j < c.len() && c[j] == c[i]);
    }

    /// Replaces the descriptor of slot `slot`, which is on the chain.
    fn set_slot_descriptor(&mut self, slot: usize, d: MemoryDescriptor)
        requires
            old(self).wf(),
            old(self).chain().contains(slot),
            desc_end(d, old(self).spec_page_size()) <= u64::MAX,
        ensures
            final(self).wf(),
            final(self).chain() == old(self).chain(),
            final(self).spec_key() == old(self).spec_key(),
            final(self).spec_page_size() == old(self).spec_page_size(),
            final(self).spec_first_allocation() == old(self).spec_first_allocation(),
            final(self).descriptors() == old(self).descriptors().update(old(self).chain().index_of(slot), d),
    {
        let ghost k = self.chain@.index_of(slot);
        let mut a = self.allocations[slot];
        a.descriptor = d;
        self.allocations.set(slot, a);
        proof {
            let c = self.chain@;
            assert(0 <= k < c.len() && c[k] == slot);
            assert forall|i: int| 0 <= i < c.len() - 1 implies #[trigger] self.allocations@[c[i] as int].next_allocation
                == Some(c[i + 1]) by {
                assert(old(self).allocations@[c[i] as int].next_allocation == Some(c[i + 1]));
            }
            assert forall|j: int| 0 <= j < MAX_ALLOCATIONS implies (#[trigger] self.allocations@[j].in_use
                <==> c.contains(j as usize)) by {
                assert(old(self).allocations@[j].in_use <==> c.contains(j as usize));
            }
            assert forall|i: int| 0 <= i < c.len() implies desc_end(
                #[trigger] self.allocations@[c[i] as int].descriptor,
                self.page_size,
            ) <= u64::MAX by {
                if c[i] != slot {
                    old(self).lemma_desc_index(i);
                }
            }
            assert forall|i: int| 0 <= i < c.len() implies #[trigger] self.descriptors()[i]
                == old(self).descriptors().update(k, d)[i] by {
                if i != k {
                    assert(c[i] != c[k]);
                }
            }
            assert(self.descriptors() =~= old(self).descriptors().update(k, d));
        }
    }

    /// Allocates `page_count` pages of memory of type `memory_type`: at
    /// `address`, below `address` or anywhere above 1 MiB, as
    /// `allocate_type` says. The descriptor that serves the request is split
    /// so that the allocation starts at its beginning, or, at a given
    /// address, the page that holds it.
    pub fn allocate_pages(
        &mut self,
        allocate_type: u32,
        memory_type: u32,
        page_count: u64,
        address: u64,
    ) -> (r: (Status, u64))
        requires
            old(self).wf(),
            old(self).spec_key() < usize::MAX,
        ensures
            final(self).wf(),
            final(self).spec_page_size() == old(self).spec_page_size(),
            allocation_result(
                old(self).descriptors(),
                final(self).descriptors(),
                allocate_type,
                memory_type,
                page_count,
                address,
                old(self).spec_page_size(),
                r,
            ),
            match first_fit(old(self).descriptors(), 0, allocate_type, page_count, address, old(self).spec_page_size()) {
                None => {
                    &&& r == (Status::OutOfResources, 0u64)
                    &&& final(self).descriptors() == old(self).descriptors()
                    &&& final(self).spec_key() == old(self).spec_key()
                },
                Some(k) => {
                    &&& final(self).spec_key() == old(self).spec_key() + 1
                    &&& allocate_outcome(
                        old(self).descriptors(),
                        final(self).descriptors(),
                        k,
                        allocate_type,
                        memory_type,
                        page_count,
                        address,
                        old(self).spec_page_size(),
                        r,
                    )
                },
            },
    {
        let ghost ds = self.descriptors();
        let ghost ps = self.page_size;
        let dest = self.find_free_memory(allocate_type, page_count, address);
        if dest.is_none() {
            return (Status::OutOfResources, 0);
        }
        let ghost k = first_fit(ds, 0, allocate_type, page_count, address, ps).unwrap();
        proof {
            lemma_first_fit_range(ds, 0, allocate_type, page_count, address, ps);
            self.lemma_desc_index(k);
            self.lemma_index_of(k);
            self.lemma_full();
        }
        self.key = self.key + 1;
        let dest = dest.unwrap();
        let d = self.allocations[dest].descriptor;
        // Identical special case
        if d.number_of_pages == page_count {
            let mut nd = d;
            nd.memory_type = memory_type;
            self.set_slot_descriptor(dest, nd);
            return (Status::Success, d.physical_start);
        }
        let assigned;
        let ghost apos: int;
        if allocate_type == ALLOCATE_ADDRESS && d.physical_start != address {
            // Work out how pages in the desired address and split at that
            let pages = (address - d.physical_start) / self.page_size;
            proof {
                let n = d.number_of_pages;
                let st = d.physical_start;
                assert(pages * ps <= address - st) by (nonlinear_arith)
                    requires pages == (address - st) / (ps as int), address >= st, ps > 0;
                assert(pages + page_count <= n) by (nonlinear_arith)
                    requires pages * ps <= address - st, address + ps * page_count <= st + ps * n, ps > 0, pages >= 0, page_count >= 0;
            }
            let split = self.split_allocation(dest, pages);
            if split.is_none() {
                return (Status::OutOfResources, 0);
            }
            let split = split.unwrap();
            proof {
                self.lemma_index_of(k + 1);
                self.lemma_desc_index(k + 1);
            }
            // If second half bigger than we need, split again but ignore that bit
            if self.allocations[split].descriptor.number_of_pages > page_count {
                let second_split = self.split_allocation(split, page_count);
                if second_split.is_none() {
                    return (Status::OutOfResources, 0);
                }
                proof {
                    self.lemma_index_of(k + 1);
                }
            }
            assigned = split;
            proof {
                apos = k + 1;
            }
        } else if allocate_type == ALLOCATE_ADDRESS || allocate_type == ALLOCATE_MAX_ADDRESS || allocate_type
            == ALLOCATE_ANY_PAGES {
            // With the more general allocation we always put at the start of the range
            proof {
                if allocate_type == ALLOCATE_ADDRESS {
                    let n = d.number_of_pages;
                    assert(page_count <= n) by (nonlinear_arith)
                        requires address + ps * page_count <= address + ps * n, ps > 0, page_count >= 0;
                }
            }
            let split = self.split_allocation(dest, page_count);
            if split.is_none() {
                return (Status::OutOfResources, 0);
            }
            assigned = dest;
            proof {
                apos = k;
                self.lemma_index_of(k);
            }
        } else {
            return (Status::InvalidParameter, 0);
        }
        let mut a = self.allocations[assigned].descriptor;
        proof {
            self.lemma_desc_index(apos);
        }
        a.memory_type = memory_type;
        if memory_type == RUNTIME_SERVICES_CODE || memory_type == RUNTIME_SERVICES_DATA {
            a.attribute = a.attribute | MEMORY_RUNTIME;
        }
        self.set_slot_descriptor(assigned, a);
        (Status::Success, a.physical_start)
    }
}


/// Whether free descriptor `b` starts where free descriptor `a` ends.
pub open spec fn mergeable(a: MemoryDescriptor, b: MemoryDescriptor, page_size: u64) -> bool {
    &&& a.memory_type == CONVENTIONAL_MEMORY
    &&& b.memory_type == CONVENTIONAL_MEMORY
    &&& b.physical_start == desc_end(a, page_size)
}

/// `a` grown by the pages of `b`.
pub open spec fn combine(a: MemoryDescriptor, b: MemoryDescriptor) -> MemoryDescriptor {
    MemoryDescriptor {
        memory_type: a.memory_type,
        physical_start: a.physical_start,
        virtual_start: a.virtual_start,
        number_of_pages: (a.number_of_pages + b.number_of_pages) as u64,
        attribute: a.attribute,
    }
}

/// The memory map with every run of adjacent free descriptors joined into
/// the first descriptor of the run.
pub open spec fn merge(ds: Seq<MemoryDescriptor>, page_size: u64) -> Seq<MemoryDescriptor>
    decreases ds.len(),
{
    if ds.len() < 2 {
        ds
    } else if mergeable(ds[0], ds[1], page_size) {
        merge(seq![combine(ds[0], ds[1])] + ds.skip(2), page_size)
    } else {
        seq![ds[0]] + merge(ds.skip(1), page_size)
    }
}

/// Position of the first descriptor at or after `i` that starts at `address`.
pub open spec fn first_at(ds: Seq<MemoryDescriptor>, i: int, address: u64) -> Option<int>
    decreases ds.len() - i,
{
    if i < 0 || i >= ds.len() {
        None
    } else if ds[i].physical_start == address {
        Some(i)
    } else {
        first_at(ds, i + 1, address)
    }
}

pub proof fn lemma_first_at_range(ds: Seq<MemoryDescriptor>, i: int, address: u64)
    requires
        0 <= i,
    ensures
        first_at(ds, i, address) matches Some(k) ==> i <= k < ds.len() && ds[k].physical_start == address,
    decreases ds.len() - i,
{
    if i < ds.len() && ds[i].physical_start != address {
        lemma_first_at_range(ds, i + 1, address);
    }
}

impl Allocator {
    /// Joins adjacent free descriptors.
    fn merge_free_memory(&mut self)
        requires
            old(self).wf(),
        ensures
            final(self).wf(),
            final(self).spec_key() == old(self).spec_key(),
            final(self).spec_page_size() == old(self).spec_page_size(),
            final(self).descriptors() == merge(old(self).descriptors(), old(self).spec_page_size()),
    {
        let ghost ds0 = self.descriptors();
        let ps = self.page_size;
        let mut cur = self.first_allocation;
        let ghost mut i: int = 0;
        proof {
            assert(self.descriptors().skip(0) =~= ds0);
            assert(self.descriptors().take(0) + merge(self.descriptors().skip(0), ps) =~= merge(ds0, ps));
        }
        let mut done = false;
        while !done && cur.is_some()
            invariant
                self.wf(),
                ps == self.page_size,
                self.page_size == old(self).page_size,
                self.key == old(self).key,
                done ==> merge(ds0, ps) == self.descriptors(),
                0 <= i <= self.chain@.len(),
                cur == if i < self.chain@.len() {
                    Some(self.chain@[i])
                } else {
                    None::<usize>
                },
                merge(ds0, ps) == self.descriptors().take(i) + merge(self.descriptors().skip(i), ps),
            decreases 2 * self.chain@.len() - i + (if done { 0int } else { 1int }),
        {
            let current = cur.unwrap();
            proof {
                self.lemma_desc_index(i);
            }
            let next_allocation = self.allocations[current].next_allocation;
            if next_allocation.is_none() {
                proof {
                    let ds = self.descriptors();
                    assert(ds.skip(i).len() == 1);
                    assert(ds.take(i) + ds.skip(i) =~= ds);
                }
                done = true;
            } else {
            let next = next_allocation.unwrap();
            proof {
                self.lemma_desc_index(i + 1);
            }
            let a = self.allocations[current].descriptor;
            let b = self.allocations[next].descriptor;
            proof {
                assert(a.number_of_pages * ps <= u64::MAX && a.number_of_pages * ps == ps * a.number_of_pages) by (nonlinear_arith)
                    requires a.physical_start + ps * a.number_of_pages <= u64::MAX, a.physical_start >= 0, ps >= 0, a.number_of_pages >= 0;
            }
            if a.memory_type == CONVENTIONAL_MEMORY && b.memory_type == CONVENTIONAL_MEMORY
                && b.physical_start == a.physical_start + a.number_of_pages * ps {
                let ghost ods = self.descriptors();
                self.join_with_next(current, Ghost(i));
                proof {
                    let ds = self.descriptors();
                    let rest = ods.skip(i);
                    assert(rest[0] == ods[i] && rest[1] == ods[i + 1]);
                    assert(rest.skip(2) =~= ods.skip(i + 2));
                    assert(ds.take(i) =~= ods.take(i));
                    assert(ds.skip(i) =~= seq![combine(ods[i], ods[i + 1])] + ods.skip(i + 2));
                    assert(merge(rest, ps) == merge(seq![combine(rest[0], rest[1])] + rest.skip(2), ps));
                }
            } else {
                cur = next_allocation;
                proof {
                    let ds = self.descriptors();
                    let rest = ds.skip(i);
                    assert(rest[0] == ds[i] && rest[1] == ds[i + 1]);
                    assert(rest.skip(1) =~= ds.skip(i + 1));
                    assert(ds.take(i + 1) =~= ds.take(i).push(ds[i]));
                    assert(merge(rest, ps) == seq![rest[0]] + merge(rest.skip(1), ps));
                    assert(ds.take(i) + merge(rest, ps) =~= ds.take(i + 1) + merge(ds.skip(i + 1), ps));
                    i = i + 1;
                }
            }
            }
        }
        proof {
            if !done {
                let ds = self.descriptors();
                assert(i == ds.len());
                assert(ds.skip(i) =~= Seq::<MemoryDescriptor>::empty());
                assert(ds.take(i) =~= ds);
            }
        }
    }
}


impl Allocator {
    /// Joins the descriptor at position `i` of the chain, in slot `current`,
    /// with the free descriptor that follows it, and frees the slot of the
    /// latter.
    fn join_with_next(&mut self, current: usize, Ghost(i): Ghost<int>)
        requires
            old(self).wf(),
            0 <= i,
            i + 1 < old(self).chain().len(),
            old(self).chain()[i] == current,
            mergeable(old(self).descriptors()[i], old(self).descriptors()[i + 1], old(self).spec_page_size()),
        ensures
            final(self).wf(),
            final(self).spec_key() == old(self).spec_key(),
            final(self).spec_page_size() == old(self).spec_page_size(),
            final(self).chain() == old(self).chain().remove(i + 1),
            final(self).descriptors() == old(self).descriptors().take(i) + seq![
                combine(old(self).descriptors()[i], old(self).descriptors()[i + 1]),
            ] + old(self).descriptors().skip(i + 2),
    {
        let ghost oc = self.chain@;
        let ghost ods = self.descriptors();
        let ps = self.page_size;
        proof {
            self.lemma_desc_index(i);
            self.lemma_desc_index(i + 1);
        }
        let next = self.allocations[current].next_allocation.unwrap();
        let a = self.allocations[current].descriptor;
        let b = self.allocations[next].descriptor;
        proof {
            assert(a.number_of_pages + b.number_of_pages <= u64::MAX) by (nonlinear_arith)
                requires b.physical_start == a.physical_start + ps * a.number_of_pages,
                    b.physical_start + ps * b.number_of_pages <= u64::MAX,
                    ps >= 1, a.number_of_pages >= 0, b.number_of_pages >= 0, a.physical_start >= 0;
            assert(ps * (a.number_of_pages + b.number_of_pages) == ps * a.number_of_pages + ps * b.number_of_pages) by (nonlinear_arith);
        }
        let mut ca = self.allocations[current];
        ca.descriptor.number_of_pages = a.number_of_pages + b.number_of_pages;
        ca.next_allocation = self.allocations[next].next_allocation;
        self.allocations.set(current, ca);
        let mut na = self.allocations[next];
        na.in_use = false;
        self.allocations.set(next, na);
        self.chain = Ghost(oc.remove(i + 1));
        proof {
            let c = self.chain@;
            assert(oc[i + 1] == next);
            assert forall|t: int| 0 <= t < c.len() implies #[trigger] c[t] == if t <= i { oc[t] } else { oc[t + 1] } by {}
            assert(c.no_duplicates()) by {
                assert forall|x: int, y: int| 0 <= x < c.len() && 0 <= y < c.len() && x != y implies c[x] != c[y] by {
                    let xx = if x <= i { x } else { x + 1 };
                    let yy = if y <= i { y } else { y + 1 };
                    assert(oc[xx] != oc[yy]);
                }
            }
            assert forall|t: int| 0 <= t < c.len() implies #[trigger] c[t] < MAX_ALLOCATIONS by {
                let tt = if t <= i { t } else { t + 1 };
                assert(oc[tt] < MAX_ALLOCATIONS);
            }
            assert forall|t: int| 0 <= t < c.len() - 1 implies #[trigger] self.allocations@[c[t] as int].next_allocation
                == Some(c[t + 1]) by {
                if t < i {
                    assert(oc[t] != current && oc[t] != next);
                    assert(old(self).allocations@[oc[t] as int].next_allocation == Some(oc[t + 1]));
                } else if t == i {
                    if i + 2 < oc.len() {
                        assert(old(self).allocations@[oc[i + 1] as int].next_allocation == Some(oc[i + 2]));
                    }
                } else {
                    assert(oc[t + 1] != current && oc[t + 1] != next);
                    assert(old(self).allocations@[oc[t + 1] as int].next_allocation == Some(oc[t + 2]));
                }
            }
            if c.len() > 0 {
                if i == c.len() - 1 {
                    assert(c.last() == current);
                    assert(old(self).allocations@[oc.last() as int].next_allocation is None);
                } else {
                    assert(c.last() == oc.last());
                    assert(oc.last() != current && oc.last() != next);
                }
            }
            assert forall|j: int| 0 <= j < MAX_ALLOCATIONS implies (#[trigger] self.allocations@[j].in_use
                <==> c.contains(j as usize)) by {
                if j == next as int {
                    if c.contains(next) {
                        let t = choose|t: int| 0 <= t < c.len() && c[t] == next;
                        let tt = if t <= i { t } else { t + 1 };
                        assert(oc[tt] == oc[i + 1]);
                    }
                } else {
                    assert(old(self).allocations@[j].in_use <==> oc.contains(j as usize));
                    if oc.contains(j as usize) {
                        let t = choose|t: int| 0 <= t < oc.len() && oc[t] == j as usize;
                        if t <= i {
                            assert(c[t] == j as usize);
                        } else {
                            assert(t != i + 1);
                            assert(c[t - 1] == j as usize);
                        }
                    }
                    if c.contains(j as usize) {
                        let t = choose|t: int| 0 <= t < c.len() && c[t] == j as usize;
                        let tt = if t <= i { t } else { t + 1 };
                        assert(oc[tt] == j as usize);
                    }
                }
            }
            let expected = ods.take(i) + seq![combine(ods[i], ods[i + 1])] + ods.skip(i + 2);
            assert forall|t: int| 0 <= t < c.len() implies #[trigger] self.descriptors()[t] == expected[t] by {
                if t < i {
                    assert(oc[t] != current && oc[t] != next);
                } else if t > i {
                    assert(oc[t + 1] != current && oc[t + 1] != next);
                }
            }
            assert(self.descriptors() =~= expected);
            assert forall|t: int| 0 <= t < c.len() implies desc_end(
                #[trigger] self.allocations@[c[t] as int].descriptor,
                self.page_size,
            ) <= u64::MAX by {
                assert(self.descriptors()[t] == expected[t]);
                if t < i {
                    old(self).lemma_desc_index(t);
                } else if t > i {
                    old(self).lemma_desc_index(t + 1);
                }
            }
        }
    }
}


/// The memory map after the pages at `address` are given back.
pub open spec fn free_outcome(ds: Seq<MemoryDescriptor>, address: u64, page_size: u64) -> (Status, Seq<MemoryDescriptor>) {
    match first_at(ds, 0, address) {
        None => (Status::NotFound, ds),
        Some(k) => (Status::Success, merge(ds.update(k, with_type(ds[k], CONVENTIONAL_MEMORY)), page_size)),
    }
}

/// The memory map after the virtual starts of `given[i..]` are recorded,
/// each in the first descriptor with the same physical start; the status is
/// `NotFound` when one has no such descriptor, and the updates before it
/// stand.
pub open spec fn virtual_update(ds: Seq<MemoryDescriptor>, given: Seq<MemoryDescriptor>, i: int) -> (Status, Seq<MemoryDescriptor>)
    decreases given.len() - i,
{
    if i < 0 || i >= given.len() {
        (Status::Success, ds)
    } else {
        match first_at(ds, 0, given[i].physical_start) {
            None => (Status::NotFound, ds),
            Some(k) => virtual_update(
                ds.update(
                    k,
                    MemoryDescriptor {
                        memory_type: ds[k].memory_type,
                        physical_start: ds[k].physical_start,
                        virtual_start: given[i].virtual_start,
                        number_of_pages: ds[k].number_of_pages,
                        attribute: ds[k].attribute,
                    },
                ),
                given,
                i + 1,
            ),
        }
    }
}

/// Where the first of `descriptors` from position `i` on that holds `ptr`
/// maps it, if one does.
pub open spec fn convert_spec(descriptors: Seq<MemoryDescriptor>, i: int, ptr: u64, page_size: u64) -> Option<u64>
    decreases descriptors.len() - i,
{
    if i < 0 || i >= descriptors.len() {
        None
    } else if descriptors[i].physical_start <= ptr && ptr < desc_end(descriptors[i], page_size) {
        Some((ptr - descriptors[i].physical_start + descriptors[i].virtual_start) as u64)
    } else {
        convert_spec(descriptors, i + 1, ptr, page_size)
    }
}

impl Allocator {
    /// The slot on the chain, from position `i` on, of the first descriptor
    /// that starts at `address`.
    fn find_start(&self, address: u64) -> (r: Option<usize>)
        requires
            self.wf(),
        ensures
            match first_at(self.descriptors(), 0, address) {
                None => r is None,
                Some(k) => r == Some(self.chain()[k]),
            },
    {
        let ghost ds = self.descriptors();
        let mut cur = self.first_allocation;
        let ghost mut pos: int = 0;
        while cur.is_some()
            invariant
                self.wf(),
                ds == self.descriptors(),
                0 <= pos <= self.chain@.len(),
                cur == if pos < self.chain@.len() {
                    Some(self.chain@[pos])
                } else {
                    None::<usize>
                },
                first_at(ds, 0, address) == first_at(ds, pos, address),
            decreases self.chain@.len() - pos,
        {
            let c = cur.unwrap();
            proof {
                self.lemma_desc_index(pos);
            }
            if address == self.allocations[c].descriptor.physical_start {
                return cur;
            }
            cur = self.allocations[c].next_allocation;
            proof {
                pos = pos + 1;
            }
        }
        None
    }

    /// Gives the pages of the descriptor that starts at `address` back to
    /// free memory and joins adjacent free descriptors.
    pub fn free_pages(&mut self, address: u64) -> (r: Status)
        requires
            old(self).wf(),
        ensures
            final(self).wf(),
            final(self).spec_key() == old(self).spec_key(),
            final(self).spec_page_size() == old(self).spec_page_size(),
            (r, final(self).descriptors()) == free_outcome(old(self).descriptors(), address, old(self).spec_page_size()),
    {
        let ghost ds = self.descriptors();
        let found = self.find_start(address);
        match found {
            None => Status::NotFound,
            Some(slot) => {
                let ghost k = first_at(ds, 0, address).unwrap();
                proof {
                    lemma_first_at_range(ds, 0, address);
                    self.lemma_desc_index(k);
                    self.lemma_index_of(k);
                }
                let mut d = self.allocations[slot].descriptor;
                d.memory_type = CONVENTIONAL_MEMORY;
                self.set_slot_descriptor(slot, d);
                self.merge_free_memory();
                Status::Success
            },
        }
    }

    /// Allocates enough pages for `size` bytes anywhere above 1 MiB.
    pub fn allocate_pool(&mut self, memory_type: u32, size: usize) -> (r: (Status, u64))
        requires
            old(self).wf(),
            old(self).spec_key() < usize::MAX,
            size + old(self).spec_page_size() - 1 <= u64::MAX,
        ensures
            final(self).wf(),
            final(self).spec_page_size() == old(self).spec_page_size(),
            ({
                let page_count = ((size + old(self).spec_page_size() - 1) / (old(self).spec_page_size() as int)) as u64;
                match first_fit(old(self).descriptors(), 0, ALLOCATE_ANY_PAGES, page_count, 0, old(self).spec_page_size()) {
                    None => {
                        &&& r == (Status::OutOfResources, 0u64)
                        &&& final(self).descriptors() == old(self).descriptors()
                        &&& final(self).spec_key() == old(self).spec_key()
                    },
                    Some(k) => {
                        &&& final(self).spec_key() == old(self).spec_key() + 1
                        &&& allocate_outcome(
                            old(self).descriptors(),
                            final(self).descriptors(),
                            k,
                            ALLOCATE_ANY_PAGES,
                            memory_type,
                            page_count,
                            0,
                            old(self).spec_page_size(),
                            r,
                        )
                    },
                }
            }),
    {
        let page_count = (size as u64 + (self.page_size - 1)) / self.page_size;
        self.allocate_pages(ALLOCATE_ANY_PAGES, memory_type, page_count, 0)
    }

    /// Gives back memory from `allocate_pool`.
    pub fn free_pool(&mut self, address: u64) -> (r: Status)
        requires
            old(self).wf(),
        ensures
            final(self).wf(),
            final(self).spec_key() == old(self).spec_key(),
            final(self).spec_page_size() == old(self).spec_page_size(),
            (r, final(self).descriptors()) == free_outcome(old(self).descriptors(), address, old(self).spec_page_size()),
    {
        self.free_pages(address)
    }

    /// The start of the descriptor that `allocate_pages` would use for the
    /// request, if any.
    pub fn find_free_pages(&self, allocate_type: u32, page_count: u64, address: u64) -> (r: Option<u64>)
        requires
            self.wf(),
        ensures
            match first_fit(self.descriptors(), 0, allocate_type, page_count, address, self.spec_page_size()) {
                None => r is None,
                Some(k) => r == Some(self.descriptors()[k].physical_start),
            },
    {
        let dest = self.find_free_memory(allocate_type, page_count, address);
        match dest {
            None => None,
            Some(slot) => {
                proof {
                    lemma_first_fit_range(self.descriptors(), 0, allocate_type, page_count, address, self.page_size);
                    let k = first_fit(self.descriptors(), 0, allocate_type, page_count, address, self.page_size).unwrap();
                    self.lemma_desc_index(k);
                }
                Some(self.allocations[slot].descriptor.physical_start)
            },
        }
    }

    /// Records the virtual starts that `descriptors` give for the physical
    /// ranges of the memory map.
    pub fn update_virtual_addresses(&mut self, descriptors: &[MemoryDescriptor]) -> (r: Status)
        requires
            old(self).wf(),
        ensures
            final(self).wf(),
            final(self).spec_key() == old(self).spec_key(),
            final(self).spec_page_size() == old(self).spec_page_size(),
            (r, final(self).descriptors()) == virtual_update(old(self).descriptors(), descriptors@, 0),
    {
        let mut i: usize = 0;
        while i < descriptors.len()
            invariant
                self.wf(),
                self.key == old(self).key,
                self.page_size == old(self).page_size,
                i <= descriptors@.len(),
                virtual_update(old(self).descriptors(), descriptors@, 0) == virtual_update(
                    self.descriptors(),
                    descriptors@,
                    i as int,
                ),
            decreases descriptors@.len() - i,
        {
            let ghost ds = self.descriptors();
            let found = self.find_start(descriptors[i].physical_start);
            match found {
                None => {
                    return Status::NotFound;
                },
                Some(slot) => {
                    let ghost k = first_at(ds, 0, descriptors@[i as int].physical_start).unwrap();
                    proof {
                        lemma_first_at_range(ds, 0, descriptors@[i as int].physical_start);
                        self.lemma_desc_index(k);
                        self.lemma_index_of(k);
                    }
                    let mut d = self.allocations[slot].descriptor;
                    d.virtual_start = descriptors[i].virtual_start;
                    self.set_slot_descriptor(slot, d);
                },
            }
            i = i + 1;
        }
        Status::Success
    }

    /// Maps `ptr` through the first of `descriptors` whose physical range
    /// holds it.
    pub fn convert_internal_pointer(&self, descriptors: &[MemoryDescriptor], ptr: u64) -> (r: Option<u64>)
        requires
            self.wf(),
            forall|i: int|
                0 <= i < descriptors@.len() ==> desc_end(#[trigger] descriptors@[i], self.spec_page_size())
                    <= u64::MAX && descriptors@[i].virtual_start + self.spec_page_size()
                    * descriptors@[i].number_of_pages <= u64::MAX,
        ensures
            r == convert_spec(descriptors@, 0, ptr, self.spec_page_size()),
    {
        let ps = self.page_size;
        let mut i: usize = 0;
        while i < descriptors.len()
            invariant
                ps == self.page_size,
                i <= descriptors@.len(),
                forall|j: int|
                    0 <= j < descriptors@.len() ==> desc_end(#[trigger] descriptors@[j], ps) <= u64::MAX
                        && descriptors@[j].virtual_start + ps * descriptors@[j].number_of_pages <= u64::MAX,
                convert_spec(descriptors@, 0, ptr, ps) == convert_spec(descriptors@, i as int, ptr, ps),
            decreases descriptors@.len() - i,
        {
            let d = descriptors[i];
            proof {
                assert(d.number_of_pages * ps == ps * d.number_of_pages && ps * d.number_of_pages >= 0) by (nonlinear_arith)
                    requires ps >= 0, d.number_of_pages >= 0;
            }
            let start = d.physical_start;
            let end = d.physical_start + d.number_of_pages * ps;
            if start <= ptr && ptr < end {
                return Some(ptr - d.physical_start + d.virtual_start);
            }
            i = i + 1;
        }
        None
    }
}

} // verus!
