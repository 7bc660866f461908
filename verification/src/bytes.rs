//! Little-endian numbers in byte sequences.
use vstd::prelude::*;

verus! {

/// 256 to the power `n`.
pub open spec fn pow256(n: nat) -> int
    decreases n,
{
    if n == 0 {
        1
    } else {
        256 * pow256((n - 1) as nat)
    }
}

/// The little-endian number held by the `n` bytes of `b` from `o` on.
pub open spec fn le(b: Seq<u8>, o: int, n: nat) -> int
    decreases n,
{
    if n == 0 {
        0
    } else {
        b[o] + 256 * le(b, o + 1, (n - 1) as nat)
    }
}

/// The `n` bytes that lay out `x` little-endian (modulo `256^n`).
pub open spec fn le_bytes(x: int, n: nat) -> Seq<u8>
    decreases n,
{
    if n == 0 {
        Seq::empty()
    } else {
        seq![(x % 256) as u8] + le_bytes(x / 256, (n - 1) as nat)
    }
}

/// `n` zero bytes.
pub open spec fn zeros(n: nat) -> Seq<u8> {
    Seq::new(n, |i: int| 0u8)
}

pub proof fn lemma_le_bounds(b: Seq<u8>, o: int, n: nat)
    ensures
        0 <= le(b, o, n) < pow256(n),
    decreases n,
{
    if n > 0 {
        lemma_le_bounds(b, o + 1, (n - 1) as nat);
    }
}

pub proof fn lemma_le_bytes_len(x: int, n: nat)
    ensures
        le_bytes(x, n).len() == n,
    decreases n,
{
    if n > 0 {
        lemma_le_bytes_len(x / 256, (n - 1) as nat);
    }
}

pub proof fn lemma_pow256_8()
    ensures
        pow256(1) == 0x100,
        pow256(2) == 0x1_0000,
        pow256(4) == 0x1_0000_0000,
        pow256(7) == 0x100_0000_0000_0000,
        pow256(8) == 0x1_0000_0000_0000_0000,
{
    reveal_with_fuel(pow256, 9);
}

/// The little-endian number that the layout of `x` holds is `x` modulo
/// `256^n`.
pub proof fn lemma_le_of_le_bytes(x: int, n: nat, s: Seq<u8>, o: int)
    requires
        0 <= x,
        0 <= o,
        o + n <= s.len(),
        s.subrange(o, o + n) == le_bytes(x, n),
    ensures
        le(s, o, n) == x % pow256(n),
    decreases n,
{
    if n > 0 {
        lemma_le_bytes_len(x / 256, (n - 1) as nat);
        assert(s[o] == le_bytes(x, n)[0]);
        assert(s.subrange(o + 1, o + n) =~= le_bytes(x, n).subrange(1, n as int));
        assert(le_bytes(x, n).subrange(1, n as int) =~= le_bytes(x / 256, (n - 1) as nat));
        lemma_le_of_le_bytes(x / 256, (n - 1) as nat, s, o + 1);
        lemma_pow_mono(0, (n - 1) as nat);
        vstd::arithmetic::div_mod::lemma_breakdown(x, 256, pow256((n - 1) as nat));
    } else {
        assert(pow256(0) == 1);
    }
}

/// A number read within a prefix of `b` is the one read in `b`.
pub proof fn lemma_le_prefix(b: Seq<u8>, s: Seq<u8>, o: int, n: nat)
    requires
        0 <= o,
        o + n <= s.len(),
        s.len() <= b.len(),
        s == b.subrange(0, s.len() as int),
    ensures
        le(s, o, n) == le(b, o, n),
    decreases n,
{
    if n > 0 {
        lemma_le_prefix(b, s, o + 1, (n - 1) as nat);
        assert(s[o] == b[o]);
    }
}

/// The little-endian number in the `n` bytes of `b` at `o`.
pub fn get_le(b: &[u8], o: usize, n: usize) -> (r: u64)
    requires
        o + n <= b@.len(),
        n <= 8,
    ensures
        r == le(b@, o as int, n as nat),
{
    let len = b.len();
    let mut r: u64 = 0;
    let mut k: usize = n;
    proof {
        lemma_pow256_8();
    }
    while k > 0
        invariant
            k <= n <= 8,
            o + n <= b@.len(),
            len == b@.len(),
            r == le(b@, o + k, (n - k) as nat),
            pow256(7) == 0x100_0000_0000_0000,
        decreases k,
    {
        proof {
            lemma_le_bounds(b@, o + k, (n - k) as nat);
            lemma_pow_mono((n - k) as nat, 7);
        }
        k = k - 1;
        let byte = b[o + k] as u64;
        r = r * 256 + byte;
    }
    r
}

pub proof fn lemma_pow_mono(a: nat, b: nat)
    requires
        a <= b,
    ensures
        0 < pow256(a) <= pow256(b),
    decreases b,
{
    if a < b {
        lemma_pow_mono(a, (b - 1) as nat);
    } else if a > 0 {
        lemma_pow_mono((a - 1) as nat, (a - 1) as nat);
    }
}

/// Appends the `n` little-endian bytes of `x` to `v`.
pub fn push_le(v: &mut Vec<u8>, x: u64, n: usize)
    ensures
        final(v)@ == old(v)@ + le_bytes(x as int, n as nat),
{
    let ghost v0 = v@;
    let mut cur = x;
    let mut k: usize = 0;
    while k < n
        invariant
            k <= n,
            v0 + le_bytes(x as int, n as nat) == v@ + le_bytes(cur as int, (n - k) as nat),
        decreases n - k,
    {
        let ghost before = v@;
        v.push((cur % 256) as u8);
        proof {
            assert(le_bytes(cur as int, (n - k) as nat) == seq![(cur % 256) as u8] + le_bytes((cur / 256) as int, (n - k - 1) as nat));
            assert(before + le_bytes(cur as int, (n - k) as nat) =~= v@ + le_bytes((cur / 256) as int, (n - k - 1) as nat));
        }
        cur = cur / 256;
        k = k + 1;
    }
    assert(le_bytes(cur as int, 0) =~= Seq::<u8>::empty());
    assert(v@ + le_bytes(cur as int, 0) =~= v@);
}

/// Appends `n` zero bytes to `v`.
pub fn push_zeros(v: &mut Vec<u8>, n: usize)
    ensures
        final(v)@ == old(v)@ + zeros(n as nat),
{
    let ghost v0 = v@;
    let mut k: usize = 0;
    while k < n
        invariant
            k <= n,
            v@ == v0 + zeros(k as nat),
        decreases n - k,
    {
        v.push(0);
        k = k + 1;
        assert(v@ =~= v0 + zeros(k as nat));
    }
}

/// Copies the first `n` bytes of `src` to `dst` at `at`.
pub fn copy_at(dst: &mut Vec<u8>, at: usize, src: &[u8], n: usize)
    requires
        n <= src@.len(),
        at + n <= old(dst)@.len(),
    ensures
        final(dst)@ == old(dst)@.take(at as int) + src@.take(n as int) + old(dst)@.skip(at + n),
{
    let dlen = dst.len();
    let ghost orig = dst@;
    let mut k: usize = 0;
    while k < n
        invariant
            n <= src@.len(),
            at + n <= orig.len(),
            dlen == orig.len(),
            dst@.len() == orig.len(),
            k <= n,
            forall|i: int| 0 <= i < orig.len() ==> #[trigger] dst@[i] == if at <= i < at + k {
                src@[i - at]
            } else {
                orig[i]
            },
        decreases n - k,
    {
        dst.set(at + k, src[k]);
        k = k + 1;
    }
    assert(dst@ =~= orig.take(at as int) + src@.take(n as int) + orig.skip(at + n));
}

} // verus!
