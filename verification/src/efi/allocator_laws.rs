//! Properties of the memory map operations that hold across calls.
use vstd::prelude::*;
use crate::efi::allocator::{
    allocate_outcome, allocation_result, assign, combine, first_fit, lemma_first_at_range, lemma_first_fit_range, desc_end, fits, free_outcome, first_at, head_part, merge,
    mergeable, split_seq, tail_part, with_type, MemoryDescriptor, Status, ALLOCATE_ADDRESS,
    ALLOCATE_ANY_PAGES, ALLOCATE_MAX_ADDRESS, CONVENTIONAL_MEMORY, MAX_ALLOCATIONS,
    RUNTIME_SERVICES_CODE, RUNTIME_SERVICES_DATA, convert_spec,
};

verus! {

/// Whether no two neighbouring descriptors of `ds` are free and adjacent,
/// so that `merge` leaves `ds` as it is.
pub open spec fn merged(ds: Seq<MemoryDescriptor>, page_size: u64) -> bool {
    forall|i: int| 0 <= i < ds.len() - 1 ==> !mergeable(#[trigger] ds[i], ds[i + 1], page_size)
}

/// Whether no two descriptors of `ds` start at the same address.
pub open spec fn distinct_starts(ds: Seq<MemoryDescriptor>) -> bool {
    forall|i: int, j: int|
        0 <= i < ds.len() && 0 <= j < ds.len() && i != j ==> #[trigger] ds[i].physical_start
            != #[trigger] ds[j].physical_start
}

/// Whether the pages of every descriptor of `ds` end within the address space.
pub open spec fn ends_fit(ds: Seq<MemoryDescriptor>, page_size: u64) -> bool {
    forall|i: int| 0 <= i < ds.len() ==> desc_end(#[trigger] ds[i], page_size) <= u64::MAX
}

pub proof fn lemma_merge_merged(ds: Seq<MemoryDescriptor>, page_size: u64)
    requires
        merged(ds, page_size),
    ensures
        merge(ds, page_size) == ds,
    decreases ds.len(),
{
    if ds.len() >= 2 {
        let rest = ds.skip(1);
        assert(!mergeable(ds[0], ds[1], page_size));
        assert forall|i: int| 0 <= i < rest.len() - 1 implies !mergeable(#[trigger] rest[i], rest[i + 1], page_size) by {
            assert(rest[i] == ds[i + 1] && rest[i + 1] == ds[i + 2]);
        }
        lemma_merge_merged(rest, page_size);
        assert(seq![ds[0]] + rest =~= ds);
    }
}

/// Merging a map whose front part is already merged, and whose front part
/// does not join the rest, merges the rest only.
pub proof fn lemma_merge_prefix(pre: Seq<MemoryDescriptor>, rest: Seq<MemoryDescriptor>, page_size: u64)
    requires
        merged(pre, page_size),
        pre.len() > 0 && rest.len() > 0 ==> !mergeable(pre.last(), rest[0], page_size),
    ensures
        merge(pre + rest, page_size) == pre + merge(rest, page_size),
    decreases pre.len(),
{
    if pre.len() == 0 {
        assert(pre + rest =~= rest);
        assert(pre + merge(rest, page_size) =~= merge(rest, page_size));
    } else {
        let all = pre + rest;
        let tail = pre.skip(1);
        assert forall|i: int| 0 <= i < tail.len() - 1 implies !mergeable(#[trigger] tail[i], tail[i + 1], page_size) by {
            assert(tail[i] == pre[i + 1] && tail[i + 1] == pre[i + 2]);
        }
        if tail.len() > 0 && rest.len() > 0 {
            assert(tail.last() == pre.last());
        }
        lemma_merge_prefix(tail, rest, page_size);
        if all.len() >= 2 {
            if pre.len() >= 2 {
                assert(all[1] == pre[1]);
                assert(!mergeable(pre[0], pre[1], page_size));
            } else {
                assert(all[1] == rest[0]);
            }
            assert(all.skip(1) =~= tail + rest);
            assert(merge(all, page_size) == seq![all[0]] + merge(all.skip(1), page_size));
            assert(seq![pre[0]] + (tail + merge(rest, page_size)) =~= pre + merge(rest, page_size));
        } else {
            assert(rest.len() == 0);
            assert(all =~= pre);
            assert(merge(rest, page_size) =~= rest);
            assert(pre + rest =~= pre);
        }
    }
}

pub proof fn lemma_first_at_is(ds: Seq<MemoryDescriptor>, i: int, k: int)
    requires
        0 <= i <= k < ds.len(),
        forall|j: int| i <= j < k ==> (#[trigger] ds[j]).physical_start != ds[k].physical_start,
    ensures
        first_at(ds, i, ds[k].physical_start) == Some(k),
    decreases k - i,
{
    if i < k {
        lemma_first_at_is(ds, i + 1, k);
    }
}

/// A successful allocation is recorded in the memory map: a descriptor of
/// the requested type and size starts at the address that is returned.
pub proof fn law_allocation_recorded(
    ds: Seq<MemoryDescriptor>,
    nds: Seq<MemoryDescriptor>,
    k: int,
    allocate_type: u32,
    memory_type: u32,
    page_count: u64,
    address: u64,
    page_size: u64,
    r: (Status, u64),
)
    requires
        page_size > 0,
        0 <= k < ds.len(),
        ds.len() <= MAX_ALLOCATIONS,
        fits(ds[k], allocate_type, page_count, address, page_size),
        allocate_outcome(ds, nds, k, allocate_type, memory_type, page_count, address, page_size, r),
        r.0 == Status::Success,
    ensures
        exists|j: int|
            0 <= j < nds.len() && (#[trigger] nds[j]).physical_start == r.1 && nds[j].memory_type == memory_type
                && nds[j].number_of_pages == page_count,
{
    let d = ds[k];
    if d.number_of_pages == page_count {
        assert(nds[k].physical_start == r.1);
    } else if allocate_type == ALLOCATE_ADDRESS && d.physical_start != address {
        let p = ((address - d.physical_start) / (page_size as int)) as u64;
        let n = d.number_of_pages;
        let st = d.physical_start;
        assert(p * page_size <= address - st) by (nonlinear_arith)
            requires p == (address - st) / (page_size as int), address >= st, page_size > 0;
        assert(p + page_count <= n) by (nonlinear_arith)
            requires p * page_size <= address - st, address + page_size * page_count <= st + page_size * n,
                page_size > 0, p >= 0, page_count >= 0;
        let ds1 = split_seq(ds, k, p, page_size, nds[k + 1].virtual_start);
        assert(ds1[k + 1] == tail_part(d, p, page_size, nds[k + 1].virtual_start));
        if ds1[k + 1].number_of_pages > page_count {
            let ds2 = split_seq(ds1, k + 1, page_count, page_size, nds[k + 2].virtual_start);
            assert(ds2[k + 1] == head_part(ds1[k + 1], page_count));
            assert(nds[k + 1].physical_start == r.1);
        } else {
            assert(nds[k + 1].physical_start == r.1);
        }
    } else {
        let ds1 = split_seq(ds, k, page_count, page_size, nds[k + 1].virtual_start);
        assert(ds1[k] == head_part(d, page_count));
        assert(nds[k].physical_start == r.1);
    }
}

/// Freeing what an allocation at the start of a free descriptor returned
/// gives back the memory map as it was, when no two of its descriptors
/// share a start, no two free ones are adjacent, and the memory is not
/// marked for runtime services; only the virtual start of the pages after
/// the allocation, which the map no longer holds, is lost.
pub proof fn law_free_undoes_allocate(
    ds: Seq<MemoryDescriptor>,
    nds: Seq<MemoryDescriptor>,
    k: int,
    allocate_type: u32,
    memory_type: u32,
    page_count: u64,
    address: u64,
    page_size: u64,
    r: (Status, u64),
)
    requires
        page_size > 0,
        0 <= k < ds.len(),
        ds.len() <= MAX_ALLOCATIONS,
        ends_fit(ds, page_size),
        merged(ds, page_size),
        distinct_starts(ds),
        page_count > 0,
        memory_type != RUNTIME_SERVICES_CODE,
        memory_type != RUNTIME_SERVICES_DATA,
        allocate_type == ALLOCATE_ANY_PAGES || allocate_type == ALLOCATE_MAX_ADDRESS || (
        allocate_type == ALLOCATE_ADDRESS && ds[k].physical_start == address),
        fits(ds[k], allocate_type, page_count, address, page_size),
        allocate_outcome(ds, nds, k, allocate_type, memory_type, page_count, address, page_size, r),
        r.0 == Status::Success,
    ensures
        free_outcome(nds, r.1, page_size) == (Status::Success, ds),
{
    let d = ds[k];
    let n = d.number_of_pages;
    assert(page_count <= n) by {
        if allocate_type == ALLOCATE_ADDRESS {
            assert(page_count <= n) by (nonlinear_arith)
                requires address + page_size * page_count <= address + page_size * n, page_size > 0, page_count >= 0;
        }
    }
    let pre = ds.take(k);
    let post = ds.skip(k + 1);
    assert(merged(pre, page_size)) by {
        assert forall|i: int| 0 <= i < pre.len() - 1 implies !mergeable(#[trigger] pre[i], pre[i + 1], page_size) by {
            assert(pre[i] == ds[i] && pre[i + 1] == ds[i + 1]);
        }
    }
    assert(merged(seq![d] + post, page_size)) by {
        let q = seq![d] + post;
        assert forall|i: int| 0 <= i < q.len() - 1 implies !mergeable(#[trigger] q[i], q[i + 1], page_size) by {
            assert(q[i] == ds[k + i] && q[i + 1] == ds[k + i + 1]);
        }
    }
    assert(k > 0 ==> pre.last() == ds[k - 1] && !mergeable(ds[k - 1], ds[k], page_size));
    assert(pre + (seq![d] + post) =~= ds);
    if n == page_count {
        lemma_free_same_size(ds, nds, k, memory_type, page_size, r);
    } else {
        lemma_free_split(ds, nds, k, memory_type, page_count, page_size, r);
    }
}

proof fn lemma_free_same_size(
    ds: Seq<MemoryDescriptor>,
    nds: Seq<MemoryDescriptor>,
    k: int,
    memory_type: u32,
    page_size: u64,
    r: (Status, u64),
)
    requires
        0 <= k < ds.len(),
        merged(ds, page_size),
        distinct_starts(ds),
        ds[k].memory_type == CONVENTIONAL_MEMORY,
        r == (Status::Success, ds[k].physical_start),
        nds == ds.update(k, with_type(ds[k], memory_type)),
    ensures
        free_outcome(nds, r.1, page_size) == (Status::Success, ds),
{
    assert forall|j: int| 0 <= j < k implies (#[trigger] nds[j]).physical_start != nds[k].physical_start by {
        assert(ds[j].physical_start != ds[k].physical_start);
    }
    lemma_first_at_is(nds, 0, k);
    let freed = nds.update(k, with_type(nds[k], CONVENTIONAL_MEMORY));
    assert(freed =~= ds);
    lemma_merge_merged(ds, page_size);
}

proof fn lemma_free_split(
    ds: Seq<MemoryDescriptor>,
    nds: Seq<MemoryDescriptor>,
    k: int,
    memory_type: u32,
    page_count: u64,
    page_size: u64,
    r: (Status, u64),
)
    requires
        page_size > 0,
        0 <= k < ds.len(),
        ds.len() < MAX_ALLOCATIONS,
        ends_fit(ds, page_size),
        distinct_starts(ds),
        0 < page_count < ds[k].number_of_pages,
        ds[k].memory_type == CONVENTIONAL_MEMORY,
        memory_type != RUNTIME_SERVICES_CODE,
        memory_type != RUNTIME_SERVICES_DATA,
        merged(ds.take(k), page_size),
        merged(seq![ds[k]] + ds.skip(k + 1), page_size),
        k > 0 ==> ds.take(k).last() == ds[k - 1] && !mergeable(ds[k - 1], ds[k], page_size),
        ds.take(k) + (seq![ds[k]] + ds.skip(k + 1)) == ds,
        ({
            let ds1 = split_seq(ds, k, page_count, page_size, nds[k + 1].virtual_start);
            r == (Status::Success, ds[k].physical_start) && nds == ds1.update(k, assign(ds1[k], memory_type))
        }),
    ensures
        free_outcome(nds, r.1, page_size) == (Status::Success, ds),
{
    let d = ds[k];
    let n = d.number_of_pages;
    let pre = ds.take(k);
    let post = ds.skip(k + 1);
    let v = nds[k + 1].virtual_start;
    let h = head_part(d, page_count);
    let t = tail_part(d, page_count, page_size, v);
    assert(desc_end(d, page_size) <= u64::MAX);
    assert(page_size * page_count <= page_size * n) by (nonlinear_arith)
        requires page_count <= n, page_size >= 0;
    assert(page_size * page_count + page_size * ((n - page_count) as u64) == page_size * n) by (nonlinear_arith)
        requires page_count <= n;
    assert forall|j: int| 0 <= j < k implies (#[trigger] nds[j]).physical_start != nds[k].physical_start by {
        assert(ds[j].physical_start != ds[k].physical_start);
    }
    lemma_first_at_is(nds, 0, k);
    let freed = nds.update(k, with_type(nds[k], CONVENTIONAL_MEMORY));
    assert(freed =~= pre + (seq![h, t] + post));
    assert(mergeable(h, t, page_size));
    assert(combine(h, t) == d);
    lemma_merge_prefix(pre, seq![h, t] + post, page_size);
    let mid = seq![h, t] + post;
    assert(mid[0] == h && mid[1] == t);
    assert(mid.skip(2) =~= post);
    assert(merge(mid, page_size) == merge(seq![d] + post, page_size));
    lemma_merge_merged(seq![d] + post, page_size);
}

/// Whether the descriptors of `ds` come in order of address without
/// overlapping: each ends at or before the start of every later one.
pub open spec fn ordered(ds: Seq<MemoryDescriptor>, page_size: u64) -> bool {
    forall|i: int, j: int|
        0 <= i < j < ds.len() ==> desc_end(#[trigger] ds[i], page_size) <= (#[trigger] ds[j]).physical_start
}

/// Splitting a descriptor keeps the map in order, and its pages within the
/// address space.
pub proof fn lemma_split_ordered(ds: Seq<MemoryDescriptor>, k: int, p: u64, page_size: u64, v: u64)
    requires
        ordered(ds, page_size),
        ends_fit(ds, page_size),
        0 <= k < ds.len(),
        p <= ds[k].number_of_pages,
    ensures
        ordered(split_seq(ds, k, p, page_size, v), page_size),
        ends_fit(split_seq(ds, k, p, page_size, v), page_size),
        split_seq(ds, k, p, page_size, v).len() == ds.len() + 1,
{
    let d = ds[k];
    let s = d.physical_start as int;
    let n = d.number_of_pages as int;
    let ps = page_size as int;
    assert(ps * p <= ps * n) by (nonlinear_arith)
        requires p <= n, ps >= 0;
    assert(ps * p + ps * (n - p) == ps * n) by (nonlinear_arith);
    assert(ps * p >= 0) by (nonlinear_arith)
        requires ps >= 0, p >= 0;
    assert(ps * (n - p) >= 0) by (nonlinear_arith)
        requires ps >= 0, n - p >= 0;
    assert(desc_end(d, page_size) <= u64::MAX);
    let h = head_part(d, p);
    let t = tail_part(d, p, page_size, v);
    assert(t.physical_start == s + ps * p);
    assert(desc_end(h, page_size) == s + ps * p);
    assert(desc_end(t, page_size) == desc_end(d, page_size));
    let ns = split_seq(ds, k, p, page_size, v);
    assert(ns.len() == ds.len() + 1);
    assert forall|i: int| 0 <= i < ns.len() implies #[trigger] ns[i] == if i < k {
        ds[i]
    } else if i == k {
        h
    } else if i == k + 1 {
        t
    } else {
        ds[i - 1]
    } by {}
    assert forall|i: int| 0 <= i < ns.len() implies desc_end(#[trigger] ns[i], page_size) <= u64::MAX by {}
    assert forall|i: int, j: int| 0 <= i < j < ns.len() implies desc_end(#[trigger] ns[i], page_size)
        <= (#[trigger] ns[j]).physical_start by {
        let oi = if i <= k { i } else { i - 1 };
        let oj = if j <= k { j } else { j - 1 };
        assert(desc_end(ns[i], page_size) <= desc_end(ds[oi], page_size));
        assert(ns[j].physical_start >= ds[oj].physical_start);
        if oi < oj {
            assert(desc_end(ds[oi], page_size) <= ds[oj].physical_start);
        } else {
            assert(i == k && j == k + 1);
        }
    }
}

/// Changing the type of a descriptor keeps the map in order.
pub proof fn lemma_retype_ordered(ds: Seq<MemoryDescriptor>, k: int, d: MemoryDescriptor, page_size: u64)
    requires
        ordered(ds, page_size),
        ends_fit(ds, page_size),
        0 <= k < ds.len(),
        d.physical_start == ds[k].physical_start,
        d.number_of_pages == ds[k].number_of_pages,
    ensures
        ordered(ds.update(k, d), page_size),
        ends_fit(ds.update(k, d), page_size),
{
    let ns = ds.update(k, d);
    assert forall|i: int, j: int| 0 <= i < j < ns.len() implies desc_end(#[trigger] ns[i], page_size)
        <= (#[trigger] ns[j]).physical_start by {
        assert(desc_end(ds[i], page_size) <= ds[j].physical_start);
    }
    assert forall|i: int| 0 <= i < ns.len() implies desc_end(#[trigger] ns[i], page_size) <= u64::MAX by {
        assert(desc_end(ds[i], page_size) <= u64::MAX);
    }
}

/// An allocation keeps the memory map in order of address and without
/// overlaps: whatever it answers, the map it leaves is ordered.
pub proof fn law_allocation_keeps_order(
    ds: Seq<MemoryDescriptor>,
    nds: Seq<MemoryDescriptor>,
    k: int,
    allocate_type: u32,
    memory_type: u32,
    page_count: u64,
    address: u64,
    page_size: u64,
    r: (Status, u64),
)
    requires
        page_size > 0,
        ordered(ds, page_size),
        ends_fit(ds, page_size),
        0 <= k < ds.len(),
        fits(ds[k], allocate_type, page_count, address, page_size),
        allocate_outcome(ds, nds, k, allocate_type, memory_type, page_count, address, page_size, r),
    ensures
        ordered(nds, page_size),
        ends_fit(nds, page_size),
{
    let d = ds[k];
    let n = d.number_of_pages;
    let st = d.physical_start;
    if n == page_count {
        lemma_retype_ordered(ds, k, with_type(d, memory_type), page_size);
    } else if allocate_type == ALLOCATE_ADDRESS && st != address {
        if ds.len() != MAX_ALLOCATIONS {
            let p = ((address - st) / (page_size as int)) as u64;
            assert(p * page_size <= address - st) by (nonlinear_arith)
                requires p == (address - st) / (page_size as int), address >= st, page_size > 0;
            assert(p + page_count <= n) by (nonlinear_arith)
                requires p * page_size <= address - st, address + page_size * page_count <= st + page_size * n,
                    page_size > 0, p >= 0, page_count >= 0;
            let ds1 = split_seq(ds, k, p, page_size, nds[k + 1].virtual_start);
            lemma_split_ordered(ds, k, p, page_size, nds[k + 1].virtual_start);
            assert(ds1[k + 1] == tail_part(d, p, page_size, nds[k + 1].virtual_start));
            if ds1[k + 1].number_of_pages > page_count {
                if ds.len() + 1 != MAX_ALLOCATIONS {
                    let ds2 = split_seq(ds1, k + 1, page_count, page_size, nds[k + 2].virtual_start);
                    lemma_split_ordered(ds1, k + 1, page_count, page_size, nds[k + 2].virtual_start);
                    assert(ds2[k + 1] == head_part(ds1[k + 1], page_count));
                    lemma_retype_ordered(ds2, k + 1, assign(ds2[k + 1], memory_type), page_size);
                }
            } else {
                lemma_retype_ordered(ds1, k + 1, assign(ds1[k + 1], memory_type), page_size);
            }
        }
    } else {
        if ds.len() != MAX_ALLOCATIONS {
            assert(page_count <= n) by (nonlinear_arith)
                requires
                    allocate_type == ALLOCATE_ADDRESS ==> st == address && address + page_size * page_count <= st
                        + page_size * n,
                    allocate_type != ALLOCATE_ADDRESS ==> n >= page_count,
                    page_size > 0;
            let ds1 = split_seq(ds, k, page_count, page_size, nds[k + 1].virtual_start);
            lemma_split_ordered(ds, k, page_count, page_size, nds[k + 1].virtual_start);
            assert(ds1[k] == head_part(d, page_count));
            lemma_retype_ordered(ds1, k, assign(ds1[k], memory_type), page_size);
        }
    }
}

/// Allocating pages keeps the memory map in order of address and without
/// overlaps, whichever descriptor serves the request, if any does.
pub proof fn law_allocate_pages_keeps_order(
    ds: Seq<MemoryDescriptor>,
    nds: Seq<MemoryDescriptor>,
    allocate_type: u32,
    memory_type: u32,
    page_count: u64,
    address: u64,
    page_size: u64,
    r: (Status, u64),
)
    requires
        page_size > 0,
        ordered(ds, page_size),
        ends_fit(ds, page_size),
        allocation_result(ds, nds, allocate_type, memory_type, page_count, address, page_size, r),
    ensures
        ordered(nds, page_size),
        ends_fit(nds, page_size),
{
    lemma_first_fit_range(ds, 0, allocate_type, page_count, address, page_size);
    if let Some(k) = first_fit(ds, 0, allocate_type, page_count, address, page_size) {
        law_allocation_keeps_order(ds, nds, k, allocate_type, memory_type, page_count, address, page_size, r);
    }
}

/// Merging adjacent free descriptors keeps the map in order, its pages
/// within the address space, and every start at or after the first.
pub proof fn lemma_merge_ordered(ds: Seq<MemoryDescriptor>, page_size: u64)
    requires
        page_size > 0,
        ordered(ds, page_size),
        ends_fit(ds, page_size),
    ensures
        ordered(merge(ds, page_size), page_size),
        ends_fit(merge(ds, page_size), page_size),
        ds.len() > 0 ==> forall|i: int|
            0 <= i < merge(ds, page_size).len() ==> (#[trigger] merge(ds, page_size)[i]).physical_start
                >= ds[0].physical_start,
    decreases ds.len(),
{
    if ds.len() < 2 {
    } else if mergeable(ds[0], ds[1], page_size) {
        let a = ds[0];
        let b = ds[1];
        let c = combine(a, b);
        let ps = page_size as int;
        assert(desc_end(a, page_size) <= b.physical_start);
        assert(desc_end(b, page_size) <= u64::MAX);
        assert(ps * a.number_of_pages + ps * b.number_of_pages == ps * (a.number_of_pages + b.number_of_pages))
            by (nonlinear_arith);
        assert(a.number_of_pages + b.number_of_pages <= u64::MAX) by (nonlinear_arith)
            requires
                ps >= 1,
                a.physical_start + ps * (a.number_of_pages + b.number_of_pages) <= u64::MAX,
                a.physical_start >= 0;
        assert(desc_end(c, page_size) == desc_end(b, page_size));
        let ns = seq![c] + ds.skip(2);
        assert forall|i: int| 0 <= i < ns.len() implies #[trigger] ns[i] == if i == 0 { c } else { ds[i + 1] } by {}
        assert forall|i: int, j: int| 0 <= i < j < ns.len() implies desc_end(#[trigger] ns[i], page_size)
            <= (#[trigger] ns[j]).physical_start by {
            if i == 0 {
                assert(desc_end(ds[1], page_size) <= ds[j + 1].physical_start);
            } else {
                assert(desc_end(ds[i + 1], page_size) <= ds[j + 1].physical_start);
            }
        }
        assert forall|i: int| 0 <= i < ns.len() implies desc_end(#[trigger] ns[i], page_size) <= u64::MAX by {
            if i > 0 {
                assert(desc_end(ds[i + 1], page_size) <= u64::MAX);
            }
        }
        lemma_merge_ordered(ns, page_size);
    } else {
        let rest = ds.skip(1);
        assert forall|i: int, j: int| 0 <= i < j < rest.len() implies desc_end(#[trigger] rest[i], page_size)
            <= (#[trigger] rest[j]).physical_start by {
            assert(desc_end(ds[i + 1], page_size) <= ds[j + 1].physical_start);
        }
        assert forall|i: int| 0 <= i < rest.len() implies desc_end(#[trigger] rest[i], page_size) <= u64::MAX by {
            assert(desc_end(ds[i + 1], page_size) <= u64::MAX);
        }
        lemma_merge_ordered(rest, page_size);
        let m = merge(rest, page_size);
        let ns = seq![ds[0]] + m;
        assert(merge(ds, page_size) == ns);
        assert(desc_end(ds[0], page_size) <= rest[0].physical_start);
        assert(ds[0].physical_start <= desc_end(ds[0], page_size));
        assert forall|i: int, j: int| 0 <= i < j < ns.len() implies desc_end(#[trigger] ns[i], page_size)
            <= (#[trigger] ns[j]).physical_start by {
            if i == 0 {
                assert(ns[j] == m[j - 1]);
                assert(m[j - 1].physical_start >= rest[0].physical_start);
            } else {
                assert(ns[i] == m[i - 1] && ns[j] == m[j - 1]);
            }
        }
        assert forall|i: int| 0 <= i < ns.len() implies desc_end(#[trigger] ns[i], page_size) <= u64::MAX by {
            if i > 0 {
                assert(ns[i] == m[i - 1]);
            }
        }
        assert forall|i: int| 0 <= i < ns.len() implies (#[trigger] ns[i]).physical_start >= ds[0].physical_start by {
            if i > 0 {
                assert(ns[i] == m[i - 1]);
                assert(m[i - 1].physical_start >= rest[0].physical_start);
            }
        }
    }
}

/// Freeing pages keeps the memory map in order of address and without
/// overlaps.
pub proof fn law_free_keeps_order(ds: Seq<MemoryDescriptor>, address: u64, page_size: u64)
    requires
        page_size > 0,
        ordered(ds, page_size),
        ends_fit(ds, page_size),
    ensures
        ordered(free_outcome(ds, address, page_size).1, page_size),
        ends_fit(free_outcome(ds, address, page_size).1, page_size),
{
    lemma_first_at_range(ds, 0, address);
    if let Some(k) = first_at(ds, 0, address) {
        lemma_retype_ordered(ds, k, with_type(ds[k], CONVENTIONAL_MEMORY), page_size);
        lemma_merge_ordered(ds.update(k, with_type(ds[k], CONVENTIONAL_MEMORY)), page_size);
    }
}

/// Appending a range that starts where or after the last one ends, as the
/// initial memory map is built, keeps the map in order.
pub proof fn law_append_keeps_order(ds: Seq<MemoryDescriptor>, d: MemoryDescriptor, page_size: u64)
    requires
        ordered(ds, page_size),
        ds.len() > 0 ==> desc_end(ds.last(), page_size) <= d.physical_start,
    ensures
        ordered(ds.push(d), page_size),
{
    let ns = ds.push(d);
    assert forall|i: int, j: int| 0 <= i < j < ns.len() implies desc_end(#[trigger] ns[i], page_size)
        <= (#[trigger] ns[j]).physical_start by {
        if j == ds.len() {
            if i < ds.len() - 1 {
                assert(desc_end(ds[i], page_size) <= ds[ds.len() - 1].physical_start);
                assert(ds[ds.len() - 1].physical_start <= desc_end(ds[ds.len() - 1], page_size));
            }
        } else {
            assert(desc_end(ds[i], page_size) <= ds[j].physical_start);
        }
    }
}

/// Where a successful allocation lands: at the address asked for (where it
/// lies a whole number of pages into its free range), below the limit asked
/// for, or above 1 MiB, as the allocation type says.
pub proof fn law_allocation_placement(
    ds: Seq<MemoryDescriptor>,
    nds: Seq<MemoryDescriptor>,
    allocate_type: u32,
    memory_type: u32,
    page_count: u64,
    address: u64,
    page_size: u64,
    r: (Status, u64),
)
    requires
        page_size > 0,
        allocation_result(ds, nds, allocate_type, memory_type, page_count, address, page_size, r),
        r.0 == Status::Success,
        forall|i: int| 0 <= i < ds.len() ==> (#[trigger] ds[i]).physical_start % page_size == 0,
        address % page_size == 0,
    ensures
        allocate_type == ALLOCATE_ADDRESS ==> r.1 == address,
        allocate_type == ALLOCATE_MAX_ADDRESS ==> r.1 + page_size * page_count <= address,
        allocate_type == ALLOCATE_ANY_PAGES ==> r.1 > 0x10_0000,
{
    lemma_first_fit_range(ds, 0, allocate_type, page_count, address, page_size);
    let k = first_fit(ds, 0, allocate_type, page_count, address, page_size)->0;
    let d = ds[k];
    let st = d.physical_start;
    if d.number_of_pages != page_count && allocate_type == ALLOCATE_ADDRESS && st != address {
        let p = ((address - st) / (page_size as int)) as u64;
        let ps = page_size as int;
        vstd::arithmetic::div_mod::lemma_fundamental_div_mod(st as int, ps);
        vstd::arithmetic::div_mod::lemma_fundamental_div_mod(address as int, ps);
        assert(address - st == ps * (address as int / ps - st as int / ps)) by (nonlinear_arith)
            requires
                st == ps * (st as int / ps) + st as int % ps,
                address == ps * (address as int / ps) + address as int % ps,
                st as int % ps == 0,
                address as int % ps == 0,
        ;
        vstd::arithmetic::div_mod::lemma_mod_multiples_basic(address as int / ps - st as int / ps, ps);
        assert((address - st) % ps == 0) by (nonlinear_arith)
            requires
                address - st == ps * (address as int / ps - st as int / ps),
                ((address as int / ps - st as int / ps) * ps) % ps == 0,
        ;
        assert(p * page_size == address - st) by (nonlinear_arith)
            requires
                p == (address - st) / (page_size as int),
                (address - st) % (page_size as int) == 0,
                page_size > 0,
        ;
        let ds1 = split_seq(ds, k, p, page_size, nds[k + 1].virtual_start);
        assert(ds1[k + 1] == tail_part(d, p, page_size, nds[k + 1].virtual_start));
        assert(ds1[k + 1].physical_start == address);
    }
}

/// Whether the physical range of descriptor `d` holds `ptr`.
pub open spec fn holds_pointer(d: MemoryDescriptor, ptr: u64, page_size: u64) -> bool {
    d.physical_start <= ptr && ptr < desc_end(d, page_size)
}

proof fn lemma_convert_from(ds: Seq<MemoryDescriptor>, k: int, ptr: u64, page_size: u64)
    requires
        0 <= k <= ds.len(),
        forall|i: int|
            0 <= i < ds.len() ==> (#[trigger] ds[i]).virtual_start + page_size * ds[i].number_of_pages <= u64::MAX,
    ensures
        match convert_spec(ds, k, ptr, page_size) {
            Some(v) => exists|i: int|
                {
                    &&& k <= i < ds.len()
                    &&& holds_pointer(#[trigger] ds[i], ptr, page_size)
                    &&& v - ds[i].virtual_start == ptr - ds[i].physical_start
                    &&& forall|j: int| k <= j < i ==> !holds_pointer(#[trigger] ds[j], ptr, page_size)
                },
            None => forall|i: int| k <= i < ds.len() ==> !holds_pointer(#[trigger] ds[i], ptr, page_size),
        },
    decreases ds.len() - k,
{
    if k < ds.len() {
        if holds_pointer(ds[k], ptr, page_size) {
            let d = ds[k];
            assert(ptr - d.physical_start + d.virtual_start <= u64::MAX);
            assert(holds_pointer(ds[k], ptr, page_size));
        } else {
            lemma_convert_from(ds, k + 1, ptr, page_size);
            match convert_spec(ds, k + 1, ptr, page_size) {
                Some(v) => {
                    let i = choose|i: int|
                        {
                            &&& k + 1 <= i < ds.len()
                            &&& holds_pointer(#[trigger] ds[i], ptr, page_size)
                            &&& v - ds[i].virtual_start == ptr - ds[i].physical_start
                            &&& forall|j: int| k + 1 <= j < i ==> !holds_pointer(#[trigger] ds[j], ptr, page_size)
                        };
                    assert(holds_pointer(ds[i], ptr, page_size));
                },
                None => {},
            }
        }
    }
}

/// Converting a pointer maps it through the first descriptor whose
/// physical range holds it, keeping its offset in that range: the result
/// lies as far past the descriptor's virtual start as `ptr` lies past its
/// physical start. A pointer that no descriptor holds is not converted.
pub proof fn law_convert_keeps_offset(ds: Seq<MemoryDescriptor>, ptr: u64, page_size: u64)
    requires
        forall|i: int|
            0 <= i < ds.len() ==> (#[trigger] ds[i]).virtual_start + page_size * ds[i].number_of_pages <= u64::MAX,
    ensures
        match convert_spec(ds, 0, ptr, page_size) {
            Some(v) => exists|i: int|
                {
                    &&& 0 <= i < ds.len()
                    &&& holds_pointer(#[trigger] ds[i], ptr, page_size)
                    &&& v - ds[i].virtual_start == ptr - ds[i].physical_start
                    &&& forall|j: int| 0 <= j < i ==> !holds_pointer(#[trigger] ds[j], ptr, page_size)
                },
            None => forall|i: int| 0 <= i < ds.len() ==> !holds_pointer(#[trigger] ds[i], ptr, page_size),
        },
{
    lemma_convert_from(ds, 0, ptr, page_size);
}

} // verus!
