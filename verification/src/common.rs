//! Helpers on NUL-terminated ASCII and UCS-2 strings.
use vstd::prelude::*;

verus! {

/// Index of the first NUL byte of `s`, or its length when it holds none.
pub open spec fn ascii_len_spec(s: Seq<u8>) -> int
    decreases s.len(),
{
    if s.len() == 0 {
        0
    } else if s[0] == 0 {
        0
    } else {
        1 + ascii_len_spec(s.drop_first())
    }
}

pub proof fn lemma_ascii_len_bounds(s: Seq<u8>)
    ensures
        0 <= ascii_len_spec(s) <= s.len(),
        forall|i: int| 0 <= i < ascii_len_spec(s) ==> s[i] != 0,
        ascii_len_spec(s) < s.len() ==> s[ascii_len_spec(s)] == 0,
    decreases s.len(),
{
    if s.len() > 0 && s[0] != 0 {
        lemma_ascii_len_bounds(s.drop_first());
        assert forall|i: int| 0 <= i < ascii_len_spec(s) implies s[i] != 0 by {
            if i > 0 {
                assert(s[i] == s.drop_first()[i - 1]);
            }
        }
    }
}

/// Whether `b` is padding: a NUL byte, or also a space where `with_space`.
pub open spec fn is_pad(b: u8, with_space: bool) -> bool {
    b == 0 || (with_space && b == 32)
}

/// Number of leading padding bytes of `s`.
pub open spec fn leading_pads(s: Seq<u8>, with_space: bool) -> int
    decreases s.len(),
{
    if s.len() == 0 || !is_pad(s[0], with_space) {
        0
    } else {
        1 + leading_pads(s.drop_first(), with_space)
    }
}

/// Number of trailing padding bytes of `s`.
pub open spec fn trailing_pads(s: Seq<u8>, with_space: bool) -> int
    decreases s.len(),
{
    if s.len() == 0 || !is_pad(s.last(), with_space) {
        0
    } else {
        1 + trailing_pads(s.drop_last(), with_space)
    }
}

/// `s` with its leading and trailing padding removed.
pub open spec fn strip_pads(s: Seq<u8>, with_space: bool) -> Seq<u8> {
    let lead = leading_pads(s, with_space);
    if lead == s.len() {
        Seq::empty()
    } else {
        s.subrange(lead, s.len() - trailing_pads(s, with_space))
    }
}

/// `s` with its leading and trailing NUL bytes removed.
pub open spec fn strip_nuls(s: Seq<u8>) -> Seq<u8> {
    strip_pads(s, false)
}

pub proof fn lemma_leading_pads(s: Seq<u8>, w: bool)
    ensures
        0 <= leading_pads(s, w) <= s.len(),
        forall|i: int| 0 <= i < leading_pads(s, w) ==> is_pad(s[i], w),
        leading_pads(s, w) < s.len() ==> !is_pad(s[leading_pads(s, w)], w),
    decreases s.len(),
{
    if s.len() > 0 && is_pad(s[0], w) {
        lemma_leading_pads(s.drop_first(), w);
        assert forall|i: int| 0 <= i < leading_pads(s, w) implies is_pad(s[i], w) by {
            if i > 0 {
                assert(s[i] == s.drop_first()[i - 1]);
            }
        }
    }
}

pub proof fn lemma_trailing_pads(s: Seq<u8>, w: bool)
    ensures
        0 <= trailing_pads(s, w) <= s.len(),
        forall|i: int| s.len() - trailing_pads(s, w) <= i < s.len() ==> is_pad(s[i], w),
        trailing_pads(s, w) < s.len() ==> !is_pad(s[s.len() - 1 - trailing_pads(s, w)], w),
    decreases s.len(),
{
    if s.len() > 0 && is_pad(s.last(), w) {
        lemma_trailing_pads(s.drop_last(), w);
        assert forall|i: int| s.len() - trailing_pads(s, w) <= i < s.len() implies is_pad(s[i], w) by {
            if i < s.len() - 1 {
                assert(s[i] == s.drop_last()[i]);
            }
        }
    }
}

proof fn lemma_leading_prefix(s: Seq<u8>, w: bool, k: int)
    requires
        0 <= k <= s.len(),
        forall|i: int| 0 <= i < k ==> is_pad(s[i], w),
        k == s.len() || !is_pad(s[k], w),
    ensures
        leading_pads(s, w) == k,
    decreases k,
{
    if k > 0 {
        assert forall|i: int| 0 <= i < k - 1 implies is_pad(s.drop_first()[i], w) by {
            assert(s.drop_first()[i] == s[i + 1]);
        }
        if k < s.len() {
            assert(s.drop_first()[k - 1] == s[k]);
        }
        lemma_leading_prefix(s.drop_first(), w, k - 1);
    }
}

proof fn lemma_trailing_suffix(s: Seq<u8>, w: bool, e: int)
    requires
        0 < e <= s.len(),
        forall|i: int| e <= i < s.len() ==> is_pad(s[i], w),
        !is_pad(s[e - 1], w),
    ensures
        trailing_pads(s, w) == s.len() - e,
    decreases s.len() - e,
{
    if e < s.len() {
        assert forall|i: int| e <= i < s.len() - 1 implies is_pad(s.drop_last()[i], w) by {
            assert(s.drop_last()[i] == s[i]);
        }
        assert(s.drop_last()[e - 1] == s[e - 1]);
        lemma_trailing_suffix(s.drop_last(), w, e);
    }
}

/// The bytes of `s` between its leading and its trailing padding: NUL
/// bytes, and spaces too where `with_space`.
pub fn trim_padding(s: &[u8], with_space: bool) -> (r: &[u8])
    ensures
        r@ == strip_pads(s@, with_space),
{
    let n = s.len();
    let mut start: usize = 0;
    while start < n && (s[start] == 0 || (with_space && s[start] == 32))
        invariant
            n == s@.len(),
            start <= n,
            forall|i: int| 0 <= i < start ==> is_pad(s@[i], with_space),
        decreases n - start,
    {
        start = start + 1;
    }
    proof {
        lemma_leading_prefix(s@, with_space, start as int);
    }
    if start == n {
        return vstd::slice::slice_subrange(s, n, n);
    }
    let mut end: usize = n;
    while end > start && (s[end - 1] == 0 || (with_space && s[end - 1] == 32))
        invariant
            n == s@.len(),
            start < end <= n || end == start,
            start < n,
            !is_pad(s@[start as int], with_space),
            forall|i: int| end <= i < n ==> is_pad(s@[i], with_space),
        decreases end,
    {
        end = end - 1;
    }
    proof {
        lemma_trailing_suffix(s@, with_space, end as int);
    }
    vstd::slice::slice_subrange(s, start, end)
}

/// The bytes of `s` between its leading and its trailing NUL bytes.
pub fn ascii_strip(s: &[u8]) -> (r: &[u8])
    ensures
        r@ == strip_nuls(s@),
{
    trim_padding(s, false)
}

/// Index of the first NUL character of `s`, or its length when it holds
/// none.
pub open spec fn str_len_spec(s: Seq<char>) -> int
    decreases s.len(),
{
    if s.len() == 0 {
        0
    } else if s[0] == '\0' {
        0
    } else {
        1 + str_len_spec(s.drop_first())
    }
}

proof fn lemma_str_len_is(s: Seq<char>, k: int)
    requires
        0 <= k <= s.len(),
        forall|i: int| 0 <= i < k ==> s[i] != '\0',
        k == s.len() || s[k] == '\0',
    ensures
        str_len_spec(s) == k,
    decreases k,
{
    if k > 0 {
        assert forall|i: int| 0 <= i < k - 1 implies s.drop_first()[i] != '\0' by {
            assert(s.drop_first()[i] == s[i + 1]);
        }
        if k < s.len() {
            assert(s.drop_first()[k - 1] == s[k]);
        }
        lemma_str_len_is(s.drop_first(), k - 1);
    }
}

/// Number of characters of `input` before its first NUL character.
pub fn ascii_length(input: &str) -> (len: usize)
    ensures
        len == str_len_spec(input@),
{
    let n = input.unicode_len();
    let mut len: usize = 0;
    while len < n && input.get_char(len) != '\0'
        invariant
            n == input@.len(),
            len <= n,
            forall|i: int| 0 <= i < len ==> input@[i] != '\0',
        decreases n - len,
    {
        len = len + 1;
    }
    proof {
        lemma_str_len_is(input@, len as int);
    }
    len
}

/// Number of bytes of `input` before its first NUL byte.
pub fn nul_index(input: &[u8]) -> (len: usize)
    ensures
        len == ascii_len_spec(input@),
{
    proof {
        lemma_ascii_len_bounds(input@);
    }
    let mut len: usize = 0;
    while len < input.len() && input[len] != 0
        invariant
            len <= input@.len(),
            forall|i: int| 0 <= i < len ==> input@[i] != 0,
        decreases input@.len() - len,
    {
        len = len + 1;
    }
    proof {
        lemma_ascii_len_is(input@, len as int);
    }
    len
}

pub proof fn lemma_ascii_len_is(s: Seq<u8>, k: int)
    requires
        0 <= k <= s.len(),
        forall|i: int| 0 <= i < k ==> s[i] != 0,
        k == s.len() || s[k] == 0,
    ensures
        ascii_len_spec(s) == k,
    decreases k,
{
    if k > 0 {
        assert forall|i: int| 0 <= i < k - 1 implies s.drop_first()[i] != 0 by {
            assert(s.drop_first()[i] == s[i + 1]);
        }
        if k < s.len() {
            assert(s.drop_first()[k - 1] == s[k]);
        }
        lemma_ascii_len_is(s.drop_first(), k - 1);
    }
}

/// The low byte of a UCS-2 code unit.
pub open spec fn low_byte(c: u16) -> u8 {
    (c & 0xff) as u8
}

/// Index of the first UCS-2 code unit of `s` whose low byte is zero, or the
/// length of `s` when there is none.
pub open spec fn ucs2_len_spec(s: Seq<u16>) -> int
    decreases s.len(),
{
    if s.len() == 0 {
        0
    } else if low_byte(s[0]) == 0 {
        0
    } else {
        1 + ucs2_len_spec(s.drop_first())
    }
}

pub proof fn lemma_ucs2_len_is(s: Seq<u16>, k: int)
    requires
        0 <= k <= s.len(),
        forall|i: int| 0 <= i < k ==> low_byte(s[i]) != 0,
        k == s.len() || low_byte(s[k]) == 0,
    ensures
        ucs2_len_spec(s) == k,
    decreases k,
{
    if k > 0 {
        assert forall|i: int| 0 <= i < k - 1 implies low_byte(s.drop_first()[i]) != 0 by {
            assert(s.drop_first()[i] == s[i + 1]);
        }
        if k < s.len() {
            assert(s.drop_first()[k - 1] == s[k]);
        }
        lemma_ucs2_len_is(s.drop_first(), k - 1);
    }
}

/// Number of UCS-2 code units before the terminator, reading only low bytes.
pub fn ucs2_as_ascii_length(input: &[u16]) -> (len: usize)
    ensures
        len == ucs2_len_spec(input@),
{
    let mut len: usize = 0;
    while len < input.len() && (input[len] & 0xff) as u8 != 0
        invariant
            len <= input@.len(),
            forall|i: int| 0 <= i < len ==> low_byte(input@[i]) != 0,
        decreases input@.len() - len,
    {
        len = len + 1;
    }
    proof {
        lemma_ucs2_len_is(input@, len as int);
    }
    len
}

/// Copies the low bytes of `input` into `output`, up to and including the
/// terminator, or until `output` is full.
pub fn ucs2_to_ascii(input: &[u16], output: &mut [u8])
    requires
        ucs2_len_spec(input@) < input@.len(),
        old(output)@.len() >= ucs2_len_spec(input@),
    ensures
        final(output)@.len() == old(output)@.len(),
        forall|i: int|
            0 <= i < final(output)@.len() ==> #[trigger] final(output)@[i] == if i <= ucs2_len_spec(input@) {
                low_byte(input@[i])
            } else {
                old(output)@[i]
            },
{
    let ghost k = ucs2_len_spec(input@);
    let ghost n = input@.len();
    let ghost orig = output@;
    proof {
        lemma_ucs2_len_bounds(input@);
    }
    let mut i: usize = 0;
    let mut done = false;
    while i < output.len() && !done
        invariant
            k == ucs2_len_spec(input@),
            0 <= k < input@.len(),
            output@.len() == orig.len(),
            orig.len() >= k,
            i <= k + 1,
            !done ==> i <= k,
            done ==> i == k + 1,
            i <= output@.len(),
            forall|j: int| 0 <= j < k ==> low_byte(input@[j]) != 0,
            low_byte(input@[k]) == 0,
            forall|j: int| 0 <= j < output@.len() ==> #[trigger] output@[j] == if j < i {
                low_byte(input@[j])
            } else {
                orig[j]
            },
        decreases output@.len() - i,
    {
        let b = (input[i] & 0xff) as u8;
        output[i] = b;
        if b == 0 {
            assert(i == k);
            done = true;
        }
        i = i + 1;
    }
}

pub proof fn lemma_ucs2_len_bounds(s: Seq<u16>)
    ensures
        0 <= ucs2_len_spec(s) <= s.len(),
        forall|i: int| 0 <= i < ucs2_len_spec(s) ==> low_byte(s[i]) != 0,
        ucs2_len_spec(s) < s.len() ==> low_byte(s[ucs2_len_spec(s)]) == 0,
    decreases s.len(),
{
    if s.len() > 0 && low_byte(s[0]) != 0 {
        lemma_ucs2_len_bounds(s.drop_first());
        assert forall|i: int| 0 <= i < ucs2_len_spec(s) implies low_byte(s[i]) != 0 by {
            if i > 0 {
                assert(s[i] == s.drop_first()[i - 1]);
            }
        }
    }
}

/// Widens each byte of `input` into a UCS-2 code unit of `output`.
pub fn ascii_to_ucs2(input: &[u8], output: &mut [u16])
    requires
        old(output)@.len() >= input@.len() * 2,
    ensures
        final(output)@.len() == old(output)@.len(),
        forall|i: int|
            0 <= i < final(output)@.len() ==> #[trigger] final(output)@[i] == if i < input@.len() {
                input@[i] as u16
            } else {
                old(output)@[i]
            },
{
    let ghost orig = output@;
    let mut i: usize = 0;
    while i < input.len()
        invariant
            i <= input@.len(),
            output@.len() == orig.len(),
            orig.len() >= input@.len() * 2,
            forall|j: int| 0 <= j < output@.len() ==> #[trigger] output@[j] == if j < i {
                input@[j] as u16
            } else {
                orig[j]
            },
        decreases input@.len() - i,
    {
        output[i] = input[i] as u16;
        i = i + 1;
    }
}

/// Appends the bytes of `d` to `v`.
pub fn append_bytes(v: &mut Vec<u8>, d: &[u8])
    ensures
        final(v)@ == old(v)@ + d@,
{
    let ghost orig = v@;
    let mut i: usize = 0;
    while i < d.len()
        invariant
            i <= d@.len(),
            v@ == orig + d@.take(i as int),
        decreases d@.len() - i,
    {
        v.push(d[i]);
        i = i + 1;
        assert(d@.take(i as int) =~= d@.take(i - 1).push(d@[i - 1]));
    }
    assert(d@.take(d@.len() as int) =~= d@);
}

/// Whether the bytes of `a` are those of `b`.
pub fn bytes_equal(a: &[u8], b: &[u8]) -> (r: bool)
    ensures
        r == (a@ == b@),
{
    if a.len() != b.len() {
        return false;
    }
    let mut i: usize = 0;
    while i < a.len()
        invariant
            a@.len() == b@.len(),
            i <= a@.len(),
            forall|j: int| 0 <= j < i ==> a@[j] == b@[j],
        decreases a@.len() - i,
    {
        if a[i] != b[i] {
            return false;
        }
        i = i + 1;
    }
    assert(a@ =~= b@);
    true
}

/// Widening NUL-free ASCII text `s` to UCS-2 (as `ascii_to_ucs2` does,
/// into a terminated buffer) and narrowing it back (as `ucs2_to_ascii`
/// does) gives `s` again: the UCS-2 string is `s.len()` units long and the
/// low byte of each unit is the byte it came from.
pub proof fn law_ascii_ucs2_roundtrip(s: Seq<u8>)
    requires
        forall|i: int| 0 <= i < s.len() ==> s[i] != 0,
    ensures
        ({
            let w = Seq::new(s.len(), |i: int| s[i] as u16).push(0u16);
            &&& ucs2_len_spec(w) == s.len()
            &&& forall|i: int| 0 <= i < s.len() ==> low_byte(w[i]) == s[i]
        }),
{
    let w = Seq::new(s.len(), |i: int| s[i] as u16).push(0u16);
    assert forall|i: int| 0 <= i < s.len() implies low_byte(w[i]) == s[i] by {
        let b = s[i];
        assert(w[i] == b as u16);
        assert(((b as u16) & 0xff) as u8 == b) by (bit_vector);
    }
    assert(low_byte(0u16) == 0) by (bit_vector);
    lemma_ucs2_len_is(w, s.len() as int);
}

} // verus!
