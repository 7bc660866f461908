//! Boot Loader Specification entries: `/loader/loader.conf` names the
//! default entry (a pattern), `/loader/entries/*.conf` describe kernels.
use vstd::prelude::*;
use crate::block::{sector_buf, SectorRead, SECTOR_SIZE};
use crate::bootinfo::Info;
use crate::bzimage::{self, Kernel, CMDLINE_MAX_LEN};
use crate::common::{ascii_len_spec, strip_nuls, strip_pads, trim_padding};
use crate::fat::{self, absolute, Filesystem, FatType, Node, Read};
use crate::fat::directory::{blank_lfn, dir_scan, entry_budget, long_name_of, root_pos, scan_budget, walk, DirPos};
use crate::mem::PhysicalMemory;
use crate::bytes::zeros;

verus! {

/// Where the entries are.
pub const ENTRY_DIRECTORY: &'static str = "/loader/entries";
/// Room for the kernel and ramdisk paths of an entry.
pub const PATH_LEN: usize = 260;
/// Room for the command line of an entry.
pub const CMDLINE_LEN: usize = 4096;
/// The bytes of a configuration file that are read.
pub const CONFIG_LEN: usize = 4096;
/// How deep `*` wildcards may nest in a pattern.
pub const MAX_PATTERN_DEPTH: usize = 32;

/// What a boot loader entry says: the kernel, the initial ramdisk and the
/// command line, each NUL padded.
pub struct LoaderConfig {
    pub bzimage_path: Vec<u8>,
    pub initrd_path: Vec<u8>,
    pub cmdline: Vec<u8>,
}

#[derive(Clone, Copy, Debug, PartialEq, Eq, Structural)]
pub enum Error {
    File(fat::Error),
    BzImage(bzimage::Error),
    UnterminatedString,
}

/// Whether name `name` from byte `i` on matches pattern `pat` from byte
/// `j` on: `?` stands for one byte, `*` for any run of bytes (tried from
/// the shortest, nested `depth` deep at most), `\` escapes the byte after
/// it, and a NUL ends both; a name or a pattern that ends without its NUL
/// gives `UnterminatedString`, and a `[` set, which is not supported, gives
/// `Unsupported` once the matching reaches it.
pub open spec fn glob(name: Seq<u8>, i: int, pat: Seq<u8>, j: int, depth: nat) -> Result<bool, Error>
    decreases depth, pat.len() - j, name.len() - i, 1int,
{
    if depth == 0 || j < 0 || i < 0 {
        Ok(false)
    } else if j >= pat.len() {
        Err(Error::UnterminatedString)
    } else if i >= name.len() {
        Err(Error::UnterminatedString)
    } else {
        let p = pat[j];
        let f = name[i];
        if p == 0 {
            Ok(f == 0)
        } else if p == 92 {
            if j + 1 >= pat.len() {
                Err(Error::UnterminatedString)
            } else if pat[j + 1] == 0 || pat[j + 1] != f {
                Ok(false)
            } else {
                glob(name, i + 1, pat, j + 2, depth)
            }
        } else if p == 63 {
            if f == 0 {
                Ok(false)
            } else {
                glob(name, i + 1, pat, j + 1, depth)
            }
        } else if p == 42 {
            star(name, i, pat, j + 1, depth)
        } else if p == 91 {
            Err(Error::File(fat::Error::Unsupported))
        } else if p != f {
            Ok(false)
        } else {
            glob(name, i + 1, pat, j + 1, depth)
        }
    }
}

/// Whether a `*` followed by pattern `pat` from `j` on matches name `name`
/// from some byte from `i` on.
pub open spec fn star(name: Seq<u8>, i: int, pat: Seq<u8>, j: int, depth: nat) -> Result<bool, Error>
    decreases depth, pat.len() - j, name.len() - i, 0int,
{
    if depth == 0 || i < 0 || j < 0 || j > pat.len() {
        Ok(false)
    } else if i >= name.len() {
        if j < pat.len() {
            Ok(pat[j] == 0)
        } else {
            Err(Error::UnterminatedString)
        }
    } else {
        match glob(name, i, pat, j, (depth - 1) as nat) {
            Err(e) => Err(e),
            Ok(true) => Ok(true),
            Ok(false) => star(name, i + 1, pat, j, depth),
        }
    }
}

fn glob_match(name: &[u8], i: usize, pat: &[u8], j: usize, depth: usize) -> (r: Result<bool, Error>)
    ensures
        r == glob(name@, i as int, pat@, j as int, depth as nat),
        r matches Err(e) ==> e == Error::UnterminatedString || e == Error::File(fat::Error::Unsupported),
    decreases depth, pat@.len() - j, name@.len() - i, 1int,
{
    if depth == 0 {
        return Ok(false);
    }
    if j >= pat.len() {
        return Err(Error::UnterminatedString);
    }
    if i >= name.len() {
        return Err(Error::UnterminatedString);
    }
    let p = pat[j];
    let f = name[i];
    if p == 0 {
        Ok(f == 0)
    } else if p == 92 {
        if j + 1 >= pat.len() {
            Err(Error::UnterminatedString)
        } else if pat[j + 1] == 0 || pat[j + 1] != f {
            Ok(false)
        } else {
            glob_match(name, i + 1, pat, j + 2, depth)
        }
    } else if p == 63 {
        if f == 0 {
            Ok(false)
        } else {
            glob_match(name, i + 1, pat, j + 1, depth)
        }
    } else if p == 42 {
        star_match(name, i, pat, j + 1, depth)
    } else if p == 91 {
        Err(Error::File(fat::Error::Unsupported))
    } else if p != f {
        Ok(false)
    } else {
        glob_match(name, i + 1, pat, j + 1, depth)
    }
}

fn star_match(name: &[u8], i: usize, pat: &[u8], j: usize, depth: usize) -> (r: Result<bool, Error>)
    requires
        depth > 0,
        j <= pat@.len(),
    ensures
        r == star(name@, i as int, pat@, j as int, depth as nat),
        r matches Err(e) ==> e == Error::UnterminatedString || e == Error::File(fat::Error::Unsupported),
    decreases depth, pat@.len() - j, name@.len() - i, 0int,
{
    if i >= name.len() {
        if j < pat.len() {
            return Ok(pat[j] == 0);
        } else {
            return Err(Error::UnterminatedString);
        }
    }
    match glob_match(name, i, pat, j, depth - 1) {
        Err(e) => Err(e),
        Ok(true) => Ok(true),
        Ok(false) => star_match(name, i + 1, pat, j, depth),
    }
}

/// Whether entry file name `file_name` matches `pattern`; either not
/// being NUL terminated is an error, and so is reaching a `[` set, which is
/// not supported.
pub fn compare_entry(file_name: &[u8], pattern: &[u8]) -> (r: Result<bool, Error>)
    ensures
        r == glob(file_name@, 0, pattern@, 0, MAX_PATTERN_DEPTH as nat),
        r matches Err(e) ==> e == Error::UnterminatedString || e == Error::File(fat::Error::Unsupported),
{
    glob_match(file_name, 0, pattern, 0, MAX_PATTERN_DEPTH)
}

/// Whether `b` is ASCII white space.
pub open spec fn is_ws(b: u8) -> bool {
    b == 32 || (9 <= b && b <= 13)
}

/// `s` without its leading white space.
pub open spec fn trim_start(s: Seq<u8>) -> Seq<u8>
    decreases s.len(),
{
    if s.len() > 0 && is_ws(s[0]) {
        trim_start(s.drop_first())
    } else {
        s
    }
}

/// `s` without its trailing white space.
pub open spec fn trim_end(s: Seq<u8>) -> Seq<u8>
    decreases s.len(),
{
    if s.len() > 0 && is_ws(s.last()) {
        trim_end(s.drop_last())
    } else {
        s
    }
}

/// `s` without leading and trailing white space.
pub open spec fn trim_ws(s: Seq<u8>) -> Seq<u8> {
    trim_end(trim_start(s))
}

/// The trimmed value of `line` for `key`, where the line starts with it.
pub open spec fn key_value(line: Seq<u8>, key: Seq<u8>) -> Option<Seq<u8>> {
    if line.len() >= key.len() && line.take(key.len() as int) == key {
        Some(trim_ws(line.skip(key.len() as int)))
    } else {
        None
    }
}

/// `dst` with `v` written over its start; `None` where `v` is longer.
pub open spec fn overwrite(dst: Seq<u8>, v: Seq<u8>) -> Option<Seq<u8>> {
    if v.len() > dst.len() {
        None
    } else {
        Some(v + dst.skip(v.len() as int))
    }
}

/// Where the line of `data` that starts at `start` ends: at its newline, or
/// at the end of `data`.
pub open spec fn line_end(data: Seq<u8>, start: int) -> int
    decreases data.len() - start,
{
    if start >= data.len() || start < 0 {
        data.len() as int
    } else if data[start] == 10 {
        start
    } else {
        line_end(data, start + 1)
    }
}

/// `acc` after each line of `data` from byte `start` on went through
/// `step`.
pub open spec fn fold_lines<A>(data: Seq<u8>, start: int, acc: A, step: spec_fn(A, Seq<u8>) -> A) -> A
    decreases data.len() - start,
{
    if start < 0 || start >= data.len() {
        acc
    } else {
        let end = line_end(data, start);
        let acc2 = step(acc, data.subrange(start, end));
        if end >= data.len() || end < start {
            acc2
        } else {
            fold_lines(data, end + 1, acc2, step)
        }
    }
}

pub open spec fn key_default() -> Seq<u8> {
    seq![100u8, 101, 102, 97, 117, 108, 116]
}

pub open spec fn key_linux() -> Seq<u8> {
    seq![108u8, 105, 110, 117, 120]
}

pub open spec fn key_options() -> Seq<u8> {
    seq![111u8, 112, 116, 105, 111, 110, 115]
}

pub open spec fn key_initrd() -> Seq<u8> {
    seq![105u8, 110, 105, 116, 114, 100]
}

/// The value of `key` on `line` written over `dst`, where the line has the
/// key; `None` once a value did not fit.
pub open spec fn apply_key(dst: Option<Seq<u8>>, line: Seq<u8>, key: Seq<u8>) -> Option<Seq<u8>> {
    match dst {
        None => None,
        Some(d) => match key_value(line, key) {
            Some(v) => overwrite(d, v),
            None => Some(d),
        },
    }
}

/// The default entry pattern that `loader.conf` text `data` gives: the
/// value of each `default` line written in turn over 260 NUL bytes; `None`
/// where a value is longer than that.
pub open spec fn default_pattern_of(data: Seq<u8>) -> Option<Seq<u8>> {
    fold_lines(data, 0, Some(Seq::new(PATH_LEN as nat, |k: int| 0u8)), default_step())
}

/// What a line of `loader.conf` does to the default pattern.
pub open spec fn default_step() -> spec_fn(Option<Seq<u8>>, Seq<u8>) -> Option<Seq<u8>> {
    |acc: Option<Seq<u8>>, line: Seq<u8>| apply_key(acc, line, key_default())
}

/// Once a value did not fit, the lines that follow change nothing.
pub proof fn lemma_fold_none<A>(data: Seq<u8>, start: int, none: A, step: spec_fn(A, Seq<u8>) -> A)
    requires
        forall|l: Seq<u8>| #[trigger] step(none, l) == none,
    ensures
        fold_lines(data, start, none, step) == none,
    decreases data.len() - start,
{
    if 0 <= start < data.len() {
        let end = line_end(data, start);
        assert(step(none, data.subrange(start, end)) == none);
        if end < data.len() && end >= start {
            lemma_fold_none(data, end + 1, none, step);
        }
    }
}

/// What an entry's text `data` gives: the values of its `linux`, `initrd`
/// and `options` lines, each written in turn over NUL bytes (260, 260 and
/// 4096 of them); `None` where a value is longer than its room.
pub open spec fn entry_of(data: Seq<u8>) -> Option<(Seq<u8>, Seq<u8>, Seq<u8>)> {
    fold_lines(
        data,
        0,
        Some(
            (
                Seq::new(PATH_LEN as nat, |k: int| 0u8),
                Seq::new(PATH_LEN as nat, |k: int| 0u8),
                Seq::new(CMDLINE_LEN as nat, |k: int| 0u8),
            ),
        ),
        entry_step(),
    )
}

/// What a line of an entry does to its kernel, ramdisk and command line.
pub open spec fn entry_step() -> spec_fn(Option<(Seq<u8>, Seq<u8>, Seq<u8>)>, Seq<u8>) -> Option<
    (Seq<u8>, Seq<u8>, Seq<u8>),
> {
    |acc: Option<(Seq<u8>, Seq<u8>, Seq<u8>)>, line: Seq<u8>|
        match acc {
            None => None,
            Some((bz, initrd, cmd)) => match (
                apply_key(Some(bz), line, key_linux()),
                apply_key(Some(cmd), line, key_options()),
                apply_key(Some(initrd), line, key_initrd()),
            ) {
                (Some(bz2), Some(cmd2), Some(initrd2)) => Some((bz2, initrd2, cmd2)),
                _ => None,
            },
        }
}

fn zeros_vec(n: usize) -> (v: Vec<u8>)
    ensures
        v@ == Seq::new(n as nat, |k: int| 0u8),
{
    let mut v: Vec<u8> = Vec::new();
    crate::bytes::push_zeros(&mut v, n);
    assert(v@ =~= Seq::new(n as nat, |k: int| 0u8));
    v
}

/// The bounds of `s` without leading and trailing white space.
fn trim_bounds(s: &[u8], start: usize, end: usize) -> (r: (usize, usize))
    requires
        start <= end <= s@.len(),
    ensures
        start <= r.0 <= r.1 <= end,
        s@.subrange(r.0 as int, r.1 as int) == trim_ws(s@.subrange(start as int, end as int)),
{
    let ghost t = s@.subrange(start as int, end as int);
    let mut a = start;
    while a < end && (s[a] == 32 || (9 <= s[a] && s[a] <= 13))
        invariant
            start <= a <= end <= s@.len(),
            t == s@.subrange(start as int, end as int),
            trim_start(t) == trim_start(s@.subrange(a as int, end as int)),
        decreases end - a,
    {
        assert(s@.subrange(a as int, end as int).drop_first() =~= s@.subrange(a + 1, end as int));
        a = a + 1;
    }
    let mut b = end;
    assert(trim_start(t) == s@.subrange(a as int, end as int));
    while b > a && (s[b - 1] == 32 || (9 <= s[b - 1] && s[b - 1] <= 13))
        invariant
            start <= a <= b <= end <= s@.len(),
            trim_end(trim_start(t)) == trim_end(s@.subrange(a as int, b as int)),
        decreases b,
    {
        assert(s@.subrange(a as int, b as int).drop_last() =~= s@.subrange(a as int, b - 1));
        b = b - 1;
    }
    (a, b)
}

/// Whether `line` (the bytes of `s` from `start` to `end`) starts with
/// `key`.
fn has_key(s: &[u8], start: usize, end: usize, key: &[u8]) -> (r: bool)
    requires
        start <= end <= s@.len(),
    ensures
        r == (s@.subrange(start as int, end as int).len() >= key@.len() && s@.subrange(
            start as int,
            end as int,
        ).take(key@.len() as int) == key@),
{
    if end - start < key.len() {
        return false;
    }
    let mut k: usize = 0;
    while k < key.len()
        invariant
            start <= end <= s@.len(),
            end - start >= key@.len(),
            k <= key@.len(),
            forall|x: int| 0 <= x < k ==> s@[start + x] == key@[x],
        decreases key@.len() - k,
    {
        if s[start + k] != key[k] {
            assert(s@.subrange(start as int, end as int).take(key@.len() as int)[k as int] != key@[k as int]);
            return false;
        }
        k = k + 1;
    }
    assert(s@.subrange(start as int, end as int).take(key@.len() as int) =~= key@);
    true
}

/// Writes the value of `key` on the line `s[start..end]` over `dst`;
/// `false` where it does not fit.
fn apply_key_exec(dst: &mut Vec<u8>, s: &[u8], start: usize, end: usize, key: &[u8]) -> (r: bool)
    requires
        start <= end <= s@.len(),
    ensures
        r ==> apply_key(Some(old(dst)@), s@.subrange(start as int, end as int), key@) == Some(final(dst)@),
        !r ==> apply_key(Some(old(dst)@), s@.subrange(start as int, end as int), key@) is None,
{
    let slen = s.len();
    let ghost line = s@.subrange(start as int, end as int);
    if !has_key(s, start, end, key) {
        return true;
    }
    let (a, b) = trim_bounds(s, start + key.len(), end);
    assert(line.skip(key@.len() as int) =~= s@.subrange(start + key@.len(), end as int));
    let n = b - a;
    if n > dst.len() {
        return false;
    }
    let ghost orig = dst@;
    let mut k: usize = 0;
    while k < n
        invariant
            a + n <= s@.len(),
            slen == s@.len(),
            n <= orig.len(),
            dst@.len() == orig.len(),
            k <= n,
            forall|x: int| 0 <= x < orig.len() ==> #[trigger] dst@[x] == if x < k {
                s@[a + x]
            } else {
                orig[x]
            },
        decreases n - k,
    {
        dst.set(k, s[a + k]);
        k = k + 1;
    }
    assert(dst@ =~= s@.subrange(a as int, b as int) + orig.skip(n as int));
    true
}

/// The `default` key.
fn key_default_vec() -> (v: Vec<u8>)
    ensures
        v@ == key_default(),
{
    let v = vec![100u8, 101, 102, 97, 117, 108, 116];
    assert(v@ =~= key_default());
    v
}

/// The pattern of the default entry that `loader.conf` text `data` gives.
pub fn default_pattern(data: &[u8]) -> (r: Option<Vec<u8>>)
    ensures
        match default_pattern_of(data@) {
            Some(p) => r matches Some(v) && v@ == p,
            None => r is None,
        },
{
    let key = key_default_vec();
    let mut out = zeros_vec(PATH_LEN);
    let n = data.len();
    let mut start: usize = 0;
    let ghost target = default_pattern_of(data@);
    while start < n
        invariant
            n == data@.len(),
            start <= n,
            key@ == key_default(),
            target == default_pattern_of(data@),
            target == fold_lines(data@, start as int, Some(out@), default_step()),
        decreases n - start,
    {
        let mut end = start;
        while end < n && data[end] != 10
            invariant
                start <= end <= n,
                n == data@.len(),
                line_end(data@, start as int) == line_end(data@, end as int),
            decreases n - end,
        {
            end = end + 1;
        }
        let ghost line = data@.subrange(start as int, end as int);
        let ghost before = out@;
        let ok = apply_key_exec(&mut out, data, start, end, key.as_slice());
        assert(default_step()(Some(before), line) == apply_key(Some(before), line, key_default()));
        if !ok {
            proof {
                lemma_fold_none(data@, end + 1, None::<Seq<u8>>, default_step());
            }
            return None;
        }
        if end >= n {
            return Some(out);
        }
        start = end + 1;
    }
    Some(out)
}

fn key_vec(which: u8) -> (v: Vec<u8>)
    ensures
        which == 0 ==> v@ == key_linux(),
        which == 1 ==> v@ == key_options(),
        which != 0 && which != 1 ==> v@ == key_initrd(),
{
    if which == 0 {
        let v = vec![108u8, 105, 110, 117, 120];
        assert(v@ =~= key_linux());
        v
    } else if which == 1 {
        let v = vec![111u8, 112, 116, 105, 111, 110, 115];
        assert(v@ =~= key_options());
        v
    } else {
        let v = vec![105u8, 110, 105, 116, 114, 100];
        assert(v@ =~= key_initrd());
        v
    }
}

/// The kernel, ramdisk and command line that an entry's text `data` gives.
pub fn entry_config(data: &[u8]) -> (r: Option<LoaderConfig>)
    ensures
        match entry_of(data@) {
            Some((bz, initrd, cmd)) => r matches Some(c) && c.bzimage_path@ == bz && c.initrd_path@ == initrd
                && c.cmdline@ == cmd,
            None => r is None,
        },
{
    let linux = key_vec(0);
    let options = key_vec(1);
    let initrd_key = key_vec(2);
    let mut bz = zeros_vec(PATH_LEN);
    let mut initrd = zeros_vec(PATH_LEN);
    let mut cmd = zeros_vec(CMDLINE_LEN);
    let n = data.len();
    let mut start: usize = 0;
    let ghost target = entry_of(data@);
    while start < n
        invariant
            n == data@.len(),
            start <= n,
            linux@ == key_linux(),
            options@ == key_options(),
            initrd_key@ == key_initrd(),
            target == entry_of(data@),
            target == fold_lines(data@, start as int, Some((bz@, initrd@, cmd@)), entry_step()),
        decreases n - start,
    {
        let mut end = start;
        while end < n && data[end] != 10
            invariant
                start <= end <= n,
                n == data@.len(),
                line_end(data@, start as int) == line_end(data@, end as int),
            decreases n - end,
        {
            end = end + 1;
        }
        let ghost line = data@.subrange(start as int, end as int);
        let ghost acc = (bz@, initrd@, cmd@);
        let ok1 = apply_key_exec(&mut bz, data, start, end, linux.as_slice());
        let ok2 = apply_key_exec(&mut cmd, data, start, end, options.as_slice());
        let ok3 = apply_key_exec(&mut initrd, data, start, end, initrd_key.as_slice());
        if !(ok1 && ok2 && ok3) {
            proof {
                assert(entry_step()(Some(acc), line) is None);
                lemma_fold_none(data@, end + 1, None::<(Seq<u8>, Seq<u8>, Seq<u8>)>, entry_step());
            }
            return None;
        }
        assert(entry_step()(Some(acc), line) == Some((bz@, initrd@, cmd@)));
        if end >= n {
            return Some(LoaderConfig { bzimage_path: bz, initrd_path: initrd, cmdline: cmd });
        }
        start = end + 1;
    }
    Some(LoaderConfig { bzimage_path: bz, initrd_path: initrd, cmdline: cmd })
}

/// Reads a configuration file: its first 4096 bytes, NUL padded; files
/// longer than that are not supported. Read from its start, the bytes up
/// to where the reading stopped are those of the file.
fn read_config<R: Read>(f: &mut R) -> (r: Result<Vec<u8>, fat::Error>)
    requires
        old(f).ready(),
    ensures
        final(f).ready(),
        final(f).content() == old(f).content(),
        r matches Ok(d) ==> d@.len() == CONFIG_LEN,
        old(f).cursor() == 0 ==> (r matches Ok(d) ==> 0 <= final(f).cursor() <= CONFIG_LEN && d@.take(
            final(f).cursor(),
        ) == old(f).content().take(final(f).cursor())),
        old(f).cursor() == 0 ==> (r matches Ok(d) ==> d@ == old(f).content().take(final(f).cursor()) + zeros(
            (CONFIG_LEN - final(f).cursor()) as nat,
        )),
        old(f).file_size() > CONFIG_LEN ==> r == Err::<Vec<u8>, fat::Error>(fat::Error::Unsupported),
        old(f).faultless() ==> final(f).faultless(),
        old(f).faultless() && old(f).cursor() == 0 && old(f).file_size() <= CONFIG_LEN && old(f).content().len()
            <= CONFIG_LEN ==> r is Ok && final(f).cursor() == old(f).content().len(),
        old(f).reliable() ==> final(f).reliable() && r != Err::<Vec<u8>, fat::Error>(fat::Error::BlockError),
{
    if f.get_size() as usize > CONFIG_LEN {
        return Err(fat::Error::Unsupported);
    }
    let ghost from_start = f.cursor() == 0;
    let ghost content = f.content();
    let mut data = zeros_vec(CONFIG_LEN);
    let mut buf = sector_buf();
    let mut offset: usize = 0;
    let mut done = false;
    while !done && offset + SECTOR_SIZE <= CONFIG_LEN
        invariant
            f.ready(),
            f.content() == content,
            content == old(f).content(),
            from_start == (old(f).cursor() == 0),
            old(f).file_size() <= CONFIG_LEN,
            data@.len() == CONFIG_LEN,
            buf@.len() == SECTOR_SIZE,
            offset <= CONFIG_LEN,
            from_start ==> 0 <= f.cursor() <= offset,
            from_start ==> f.cursor() == offset || f.cursor() == content.len(),
            from_start ==> data@ == content.take(f.cursor()) + zeros((CONFIG_LEN - f.cursor()) as nat),
            from_start ==> f.cursor() <= content.len(),
            old(f).faultless() ==> f.faultless(),
            old(f).faultless() && done ==> f.cursor() >= content.len(),
            old(f).reliable() ==> f.reliable(),
            offset % 512 == 0,
        decreases CONFIG_LEN - offset + (if done { 0int } else { 1int }),
    {
        let ghost cur = f.cursor();
        let ghost before = data@;
        match f.read(buf.as_mut_slice()) {
            Ok(n) => {
                crate::bytes::copy_at(&mut data, offset, buf.as_slice(), n as usize);
                proof {
                    if from_start {
                        assert(f.cursor() == cur + n);
                        if cur == offset {
                            assert(buf@.take(n as int) == content.subrange(cur, cur + n));
                            assert(data@ =~= content.take(f.cursor()) + zeros((CONFIG_LEN - f.cursor()) as nat));
                        } else {
                            assert(n == 0);
                            assert(data@ =~= before);
                        }
                        assert(data@.take(f.cursor()) =~= content.take(f.cursor()));
                    }
                }
                offset = offset + SECTOR_SIZE;
            },
            Err(fat::Error::EndOfFile) => {
                done = true;
            },
            Err(e) => {
                return Err(e);
            },
        }
    }
    proof {
        if old(f).faultless() && !done {
            assert(offset == CONFIG_LEN) by (nonlinear_arith)
                requires
                    offset % 512 == 0,
                    offset <= 4096,
                    offset + 512 > 4096,
            ;
        }
    }
    Ok(data)
}

/// The pattern of the default entry, from `loader.conf` file `f`.
pub fn default_entry_pattern<R: Read>(f: &mut R) -> (r: Result<Vec<u8>, fat::Error>)
    requires
        old(f).ready(),
    ensures
        final(f).ready(),
        final(f).content() == old(f).content(),
        r matches Ok(p) ==> exists|d: Seq<u8>|
            {
                &&& d.len() == CONFIG_LEN
                &&& #[trigger] default_pattern_of(d) == Some(p@)
                &&& old(f).cursor() == 0 ==> d.take(final(f).cursor()) == old(f).content().take(final(f).cursor())
            },
        old(f).cursor() == 0 ==> (r matches Ok(p) ==> 0 <= final(f).cursor() <= CONFIG_LEN && default_pattern_of(
            old(f).content().take(final(f).cursor()) + zeros((CONFIG_LEN - final(f).cursor()) as nat),
        ) == Some(p@)),
        old(f).reliable() ==> final(f).reliable() && r != Err::<Vec<u8>, fat::Error>(fat::Error::BlockError),
        old(f).file_size() > CONFIG_LEN ==> r == Err::<Vec<u8>, fat::Error>(fat::Error::Unsupported),
        old(f).faultless() ==> final(f).faultless(),
        ({
            let c = old(f).content();
            old(f).faultless() && old(f).cursor() == 0 && old(f).file_size() <= CONFIG_LEN && c.len() <= CONFIG_LEN
                ==> {
                &&& final(f).cursor() == c.len()
                &&& default_pattern_of(c + zeros((CONFIG_LEN - c.len()) as nat)) == match r {
                    Ok(p) => Some(p@),
                    Err(_) => None::<Seq<u8>>,
                }
                &&& r is Ok || r == Err::<Vec<u8>, fat::Error>(fat::Error::Unsupported)
            }
        }),
{
    let data = match read_config(f) {
        Ok(d) => d,
        Err(e) => {
            return Err(e);
        },
    };
    proof {
        let c = old(f).content();
        assert(c.take(c.len() as int) =~= c);
    }
    match default_pattern(data.as_slice()) {
        Some(p) => Ok(p),
        None => Err(fat::Error::Unsupported),
    }
}

/// The kernel, ramdisk and command line of entry file `f`.
pub fn parse_entry<R: Read>(f: &mut R) -> (r: Result<LoaderConfig, fat::Error>)
    requires
        old(f).ready(),
    ensures
        final(f).ready(),
        final(f).content() == old(f).content(),
        r matches Ok(c) ==> exists|d: Seq<u8>|
            {
                &&& d.len() == CONFIG_LEN
                &&& #[trigger] entry_of(d) == Some((c.bzimage_path@, c.initrd_path@, c.cmdline@))
                &&& old(f).cursor() == 0 ==> d.take(final(f).cursor()) == old(f).content().take(final(f).cursor())
            },
        old(f).cursor() == 0 ==> (r matches Ok(c) ==> 0 <= final(f).cursor() <= CONFIG_LEN && entry_of(
            old(f).content().take(final(f).cursor()) + zeros((CONFIG_LEN - final(f).cursor()) as nat),
        ) == Some((c.bzimage_path@, c.initrd_path@, c.cmdline@))),
        old(f).reliable() ==> final(f).reliable() && r != Err::<LoaderConfig, fat::Error>(fat::Error::BlockError),
        old(f).file_size() > CONFIG_LEN ==> r == Err::<LoaderConfig, fat::Error>(fat::Error::Unsupported),
        old(f).faultless() ==> final(f).faultless(),
        ({
            let c = old(f).content();
            old(f).faultless() && old(f).cursor() == 0 && old(f).file_size() <= CONFIG_LEN && c.len() <= CONFIG_LEN
                ==> {
                &&& final(f).cursor() == c.len()
                &&& entry_of(c + zeros((CONFIG_LEN - c.len()) as nat)) == match r {
                    Ok(cfg) => Some((cfg.bzimage_path@, cfg.initrd_path@, cfg.cmdline@)),
                    Err(_) => None,
                }
                &&& r is Ok || r == Err::<LoaderConfig, fat::Error>(fat::Error::Unsupported)
            }
        }),
{
    let data = match read_config(f) {
        Ok(d) => d,
        Err(e) => {
            return Err(e);
        },
    };
    proof {
        let c = old(f).content();
        assert(c.take(c.len() as int) =~= c);
    }
    match entry_config(data.as_slice()) {
        Some(c) => Ok(c),
        None => Err(fat::Error::Unsupported),
    }
}

/// The fallback pattern: any `.conf` file.
pub open spec fn conf_pattern() -> Seq<u8> {
    seq![42u8, 46, 99, 111, 110, 102, 0]
}

/// `/loader/entries`, as bytes.
pub open spec fn entry_directory() -> Seq<u8> {
    seq![47u8, 108, 111, 97, 100, 101, 114, 47, 101, 110, 116, 114, 105, 101, 115]
}

/// `/loader/loader.conf`, as bytes.
pub open spec fn loader_conf_path() -> Seq<u8> {
    seq![47u8, 108, 111, 97, 100, 101, 114, 47, 108, 111, 97, 100, 101, 114, 46, 99, 111, 110, 102]
}

/// A path of at most 256 bytes, absolute, with no NUL before its end.
pub open spec fn openable(p: Seq<u8>) -> bool {
    absolute(p) && p.len() <= 256 && ascii_len_spec(p) < 256
}

fn openable_exec(p: &[u8]) -> (r: bool)
    ensures
        r == openable(p@),
{
    proof {
        crate::common::lemma_ascii_len_bounds(p@);
    }
    fat::absolute_bytes(p) && p.len() <= 256 && crate::common::nul_index(p) < 256
}

/// What looking through a directory from `pos` gives: the long name of the
/// first file that `pattern` matches, or else, once the directory ends,
/// `fallback` (the first `.conf` file met so far); going through no more
/// than `fuel` entries.
pub open spec fn entry_search<D: SectorRead>(
    fs: &Filesystem<D>,
    pos: DirPos,
    pattern: Seq<u8>,
    fallback: Option<Seq<u8>>,
    fuel: nat,
) -> Result<Seq<u8>, Error>
    decreases fuel,
{
    if fuel == 0 {
        Err(Error::File(fat::Error::Unsupported))
    } else {
        let out = dir_scan(fs, pos, blank_lfn(), scan_budget(fs) as nat);
        match out.0 {
            Err(e) => if e == fat::Error::EndOfFile {
                match fallback {
                    Some(n) => Ok(n),
                    None => Err(Error::File(fat::Error::NotFound)),
                }
            } else {
                Err(Error::File(e))
            },
            Ok((rec, l)) => {
                let name = long_name_of(l);
                if rec[11] & 0x10 == 0x10 {
                    entry_search(fs, out.1, pattern, fallback, (fuel - 1) as nat)
                } else {
                    match glob(name, 0, pattern, 0, MAX_PATTERN_DEPTH as nat) {
                        Err(e) => Err(e),
                        Ok(true) => Ok(name),
                        Ok(false) => if fallback is None {
                            match glob(name, 0, conf_pattern(), 0, MAX_PATTERN_DEPTH as nat) {
                                Err(e) => Err(e),
                                Ok(true) => entry_search(fs, out.1, pattern, Some(name), (fuel - 1) as nat),
                                Ok(false) => entry_search(fs, out.1, pattern, None, (fuel - 1) as nat),
                            }
                        } else {
                            entry_search(fs, out.1, pattern, fallback, (fuel - 1) as nat)
                        },
                    }
                }
            },
        }
    }
}

/// The entry that `find_entry` selects for `pattern`: looked for in
/// `/loader/entries`.
pub open spec fn selected_entry<'a, D: SectorRead>(fs: &'a Filesystem<'a, D>, pattern: Seq<u8>) -> Result<
    Seq<u8>,
    Error,
> {
    match walk(fs, root_pos(fs.geometry()).unwrap(), entry_directory()) {
        Err(e) => Err(Error::File(e)),
        Ok(Node::File(_)) => Err(Error::File(fat::Error::NotFound)),
        Ok(Node::Directory(d)) => entry_search(fs, d.pos(), pattern, None, entry_budget(fs) as nat),
    }
}

/// The bytes of an entry name found so far, if any.
pub open spec fn fallback_view(f: Option<Vec<u8>>) -> Option<Seq<u8>> {
    match f {
        Some(v) => Some(v@),
        None => None,
    }
}

/// The long name of the first file of `/loader/entries` that `pattern`
/// matches, or else of its first `.conf` file.
pub fn find_entry<D: SectorRead>(fs: &Filesystem<'_, D>, pattern: &[u8]) -> (r: Result<Vec<u8>, Error>)
    requires
        fs.wf(),
        fs.geometry().fat_type != FatType::Unknown,
    ensures
        r matches Ok(name) ==> name@.len() == 255 && (glob(name@, 0, pattern@, 0, MAX_PATTERN_DEPTH as nat)
            == Ok::<bool, Error>(true) || glob(name@, 0, conf_pattern(), 0, MAX_PATTERN_DEPTH as nat) == Ok::<
            bool,
            Error,
        >(true)),
        r != Err::<Vec<u8>, Error>(Error::File(fat::Error::BlockError)) ==> match r {
            Ok(name) => selected_entry(fs, pattern@) == Ok::<Seq<u8>, Error>(name@),
            Err(e) => selected_entry(fs, pattern@) == Err::<Seq<u8>, Error>(e),
        },
        fs.sound() ==> r != Err::<Vec<u8>, Error>(Error::File(fat::Error::BlockError)),
        !(r matches Err(Error::BzImage(_))),
{
    let dir_path = vec![47u8, 108, 111, 97, 100, 101, 114, 47, 101, 110, 116, 114, 105, 101, 115];
    assert(dir_path@ =~= entry_directory());
    proof {
        crate::common::lemma_ascii_len_is(entry_directory(), 15);
    }
    if !openable_exec(dir_path.as_slice()) {
        return Err(Error::File(fat::Error::NotFound));
    }
    let node = match fs.open_bytes(dir_path.as_slice()) {
        Ok(n) => n,
        Err(e) => {
            return Err(Error::File(e));
        },
    };
    proof {
        fat::directory::lemma_walk_nodes(fs, crate::fat::directory::root_pos(fs.geometry()).unwrap(), dir_path@);
    }
    let mut dir = match node {
        Node::Directory(d) => d,
        Node::File(_) => {
            return Err(Error::File(fat::Error::NotFound));
        },
    };
    let conf = vec![42u8, 46, 99, 111, 110, 102, 0];
    assert(conf@ =~= conf_pattern());
    let mut fallback: Option<Vec<u8>> = None;
    let mut fuel = fs.entry_budget();
    let mut done = false;
    let ghost target = entry_search(fs, dir.pos(), pattern@, None, fuel as nat);
    assert(target == selected_entry(fs, pattern@));
    while !done
        invariant
            dir.filesystem == fs,
            fs.wf(),
            conf@ == conf_pattern(),
            fallback matches Some(n) ==> n@.len() == 255 && glob(n@, 0, conf_pattern(), 0, MAX_PATTERN_DEPTH as nat)
                == Ok::<bool, Error>(true),
            target == selected_entry(fs, pattern@),
            !done ==> target == entry_search(fs, dir.pos(), pattern@, fallback_view(fallback), fuel as nat),
            done ==> target == match fallback_view(fallback) {
                Some(n) => Ok::<Seq<u8>, Error>(n),
                None => Err(Error::File(fat::Error::NotFound)),
            },
        decreases fuel + (if done { 0int } else { 1int }),
    {
        if fuel == 0 {
            return Err(Error::File(fat::Error::Unsupported));
        }
        let ghost p0 = dir.pos();
        let ghost fb = fallback_view(fallback);
        proof {
            assert(target == entry_search(fs, p0, pattern@, fb, fuel as nat));
        }
        match dir.next_entry() {
            Ok(de) => {
                if de.is_file() {
                    let name = de.long_name;
                    match compare_entry(name.as_slice(), pattern) {
                        Ok(true) => {
                            return Ok(name);
                        },
                        Ok(false) => {},
                        Err(e) => {
                            return Err(e);
                        },
                    }
                    if fallback.is_none() {
                        match compare_entry(name.as_slice(), conf.as_slice()) {
                            Ok(true) => {
                                fallback = Some(name);
                            },
                            Ok(false) => {},
                            Err(e) => {
                                return Err(e);
                            },
                        }
                    }
                }
            },
            Err(fat::Error::EndOfFile) => {
                done = true;
            },
            Err(e) => {
                return Err(Error::File(e));
            },
        }
        if !done {
            fuel = fuel - 1;
        }
    }
    match fallback {
        Some(n) => Ok(n),
        None => Err(Error::File(fat::Error::NotFound)),
    }
}

/// `/loader/entries/`, the start of an entry's path.
pub open spec fn entry_prefix() -> Seq<u8> {
    entry_directory().push(47u8)
}

/// The path of entry file `name`: `/loader/entries/` and the name without
/// its NUL padding, NUL padded to 260 bytes.
pub open spec fn entry_path_of(name: Seq<u8>) -> Seq<u8> {
    entry_prefix() + strip_nuls(name) + zeros((PATH_LEN - 16 - strip_nuls(name).len()) as nat)
}

/// The path of the default entry: `/loader/entries/` and the name of the
/// entry file that `find_entry` gives for the pattern of `loader.conf`,
/// NUL padded to 260 bytes.
pub fn default_entry_path<D: SectorRead>(fs: &Filesystem<'_, D>) -> (r: Result<Vec<u8>, Error>)
    requires
        fs.wf(),
        fs.geometry().fat_type != FatType::Unknown,
    ensures
        r matches Ok(p) ==> p@.len() == PATH_LEN && p@.take(16) == entry_prefix(),
        r != Err::<Vec<u8>, Error>(Error::File(fat::Error::BlockError)) ==> match walk(
            fs,
            root_pos(fs.geometry()).unwrap(),
            loader_conf_path(),
        ) {
            Err(e) => r == Err::<Vec<u8>, Error>(Error::File(e)),
            Ok(Node::Directory(_)) => r == Err::<Vec<u8>, Error>(Error::File(fat::Error::NotFound)),
            Ok(Node::File(_)) => true,
        },
        r matches Ok(p) ==> exists|pattern: Seq<u8>|
            {
                &&& #[trigger] selected_entry(fs, pattern) is Ok
                &&& (exists|d: Seq<u8>| d.len() == CONFIG_LEN && #[trigger] default_pattern_of(d) == Some(pattern))
                &&& p@ == entry_path_of(selected_entry(fs, pattern)->Ok_0)
            },
        fs.sound() ==> r != Err::<Vec<u8>, Error>(Error::File(fat::Error::BlockError)),
        !(r matches Err(Error::BzImage(_))),
        fs.sound() && conf_entry_path(fs) is Some ==> match conf_entry_path(fs)->0 {
            Ok(p) => r matches Ok(v) && v@ == p,
            Err(e) => r == Err::<Vec<u8>, Error>(e),
        },
{
    let conf_path = vec![47u8, 108, 111, 97, 100, 101, 114, 47, 108, 111, 97, 100, 101, 114, 46, 99, 111, 110, 102];
    assert(conf_path@ =~= loader_conf_path());
    proof {
        crate::common::lemma_ascii_len_is(loader_conf_path(), 19);
    }
    if !openable_exec(conf_path.as_slice()) {
        return Err(Error::File(fat::Error::NotFound));
    }
    let node = match fs.open_bytes(conf_path.as_slice()) {
        Ok(n) => n,
        Err(e) => {
            return Err(Error::File(e));
        },
    };
    proof {
        fat::directory::lemma_walk_nodes(fs, crate::fat::directory::root_pos(fs.geometry()).unwrap(), conf_path@);
    }
    let mut f = match node {
        Node::File(f) => f,
        Node::Directory(_) => {
            return Err(Error::File(fat::Error::NotFound));
        },
    };
    let ghost cf = f;
    proof {
        assert(cf.content().len() == cf.size);
    }
    let pattern = match default_entry_pattern(&mut f) {
        Ok(p) => p,
        Err(e) => {
            return Err(Error::File(e));
        },
    };
    let entry = match find_entry(fs, pattern.as_slice()) {
        Ok(e) => e,
        Err(e) => {
            return Err(e);
        },
    };
    let name = trim_padding(entry.as_slice(), false);
    if name.len() > PATH_LEN - 16 {
        return Err(Error::File(fat::Error::Unsupported));
    }
    let mut path = vec![47u8, 108, 111, 97, 100, 101, 114, 47, 101, 110, 116, 114, 105, 101, 115, 47];
    assert(path@ =~= entry_prefix());
    crate::common::append_bytes(&mut path, name);
    let rest = PATH_LEN - path.len();
    crate::bytes::push_zeros(&mut path, rest);
    assert(path@.take(16) =~= entry_prefix());
    assert(selected_entry(fs, pattern@) == Ok::<Seq<u8>, Error>(entry@));
    assert(path@ == entry_path_of(entry@));
    Ok(path)
}

/// Whether entry file `ef`, at path `epath` (NUL padded), directs the
/// loading of a kernel: its first `n` bytes, NUL padded to 4096, configure
/// a kernel at a path that the filesystem holds, and an initial ramdisk,
/// where one is named, at a path that it holds too.
pub open spec fn entry_directs<'a, D: SectorRead>(
    fs: &'a Filesystem<'a, D>,
    epath: Seq<u8>,
    ef: fat::File<'a, D>,
    n: int,
) -> bool {
    let root = root_pos(fs.geometry()).unwrap();
    &&& walk(fs, root, strip_nuls(epath)) == Ok::<Node<'a, D>, fat::Error>(Node::File(ef))
    &&& 0 <= n <= CONFIG_LEN
    &&& entry_of(ef.content().take(n) + zeros((CONFIG_LEN - n) as nat)) matches Some(cfg) && {
        &&& walk(fs, root, strip_nuls(cfg.0)) is Ok
        &&& strip_nuls(cfg.1).len() > 0 ==> walk(fs, root, strip_nuls(cfg.1)) is Ok
    }
}

/// `c` NUL padded to the bytes of a configuration file that are read.
pub open spec fn padded(c: Seq<u8>) -> Seq<u8> {
    c + zeros((CONFIG_LEN - c.len()) as nat)
}

/// What path `path` names from the root of `fs`.
pub open spec fn at_root<'a, D: SectorRead>(fs: &'a Filesystem<'a, D>, path: Seq<u8>) -> Result<Node<'a, D>, fat::Error> {
    walk(fs, root_pos(fs.geometry()).unwrap(), path)
}

/// The path of the default entry that `loader.conf` on `fs` selects (see
/// `default_entry_path`); `None` where `loader.conf` is a file whose reads
/// may fail, which leaves the answer to the device.
pub open spec fn conf_entry_path<'a, D: SectorRead>(fs: &'a Filesystem<'a, D>) -> Option<Result<Seq<u8>, Error>> {
    match at_root(fs, loader_conf_path()) {
        Err(e) => Some(Err(Error::File(e))),
        Ok(Node::Directory(_)) => Some(Err(Error::File(fat::Error::NotFound))),
        Ok(Node::File(cf)) => if !cf.faultless() {
            None
        } else if cf.size > CONFIG_LEN {
            Some(Err(Error::File(fat::Error::Unsupported)))
        } else {
            match default_pattern_of(padded(cf.content())) {
                None => Some(Err(Error::File(fat::Error::Unsupported))),
                Some(pattern) => match selected_entry(fs, pattern) {
                    Err(e) => Some(Err(e)),
                    Ok(name) => if strip_nuls(name).len() > PATH_LEN - 16 {
                        Some(Err(Error::File(fat::Error::Unsupported)))
                    } else {
                        Some(Ok(entry_path_of(name)))
                    },
                },
            }
        },
    }
}

/// The setup header of a loaded kernel whose file holds header `h`.
pub open spec fn loaded_header(h: crate::boot::Header) -> crate::boot::Header {
    crate::boot::Header {
        type_of_loader: 0xff,
        code32_start: bzimage::KERNEL_LOCATION as u32,
        cmd_line_ptr: bzimage::CMDLINE_START as u32,
        ..h
    }
}

/// The E820 table that a kernel prepared from memory map `m` holds.
pub open spec fn e820_table_of(m: Seq<crate::bootinfo::MemoryEntry>) -> Seq<crate::boot::E820Entry> {
    let n = if m.len() % 256 > crate::boot::E820_MAX_ENTRIES {
        crate::boot::E820_MAX_ENTRIES as int
    } else {
        (m.len() % 256) as int
    };
    Seq::new(n as nat, |i: int| crate::boot::e820_of(m[i]))
}

/// The command line length after `addition` is appended to one of `len`
/// bytes.
pub open spec fn cmdline_after(len: int, addition: Seq<u8>) -> int {
    if addition.len() > 0 {
        len + 1 + addition.len()
    } else {
        len
    }
}

/// Whether `addition` fits after a command line of `len` bytes, in a room
/// of `size` bytes that the kernel gives.
pub open spec fn cmdline_room(len: int, addition: Seq<u8>, size: int) -> bool {
    addition.len() > 0 ==> len + 1 + addition.len() < size && len + 1 + addition.len() + 1 <= CMDLINE_MAX_LEN
}

/// The command line placed for the kernel: the boot protocol's, then the
/// entry's options, each after a space, and a NUL; nothing where both are
/// empty.
pub open spec fn cmdline_bytes(boot: Seq<u8>, options: Seq<u8>) -> Seq<u8> {
    let first = if boot.len() > 0 { seq![32u8] + boot } else { Seq::empty() };
    let second = if options.len() > 0 { seq![32u8] + options } else { Seq::empty() };
    if boot.len() == 0 && options.len() == 0 {
        Seq::empty()
    } else {
        first + second + seq![0u8]
    }
}

/// Whether a command line of `len` bytes, the boot protocol's then the
/// options, was placed: from memory `before` to memory `after`, the bytes
/// at the command line's address are those of `cmdline_bytes`.
pub open spec fn cmdline_placed(
    len: u64,
    before: Option<spec_fn(int) -> u8>,
    after: Option<spec_fn(int) -> u8>,
    boot: Seq<u8>,
    options: Seq<u8>,
) -> bool {
    let cl = cmdline_bytes(boot, options);
    &&& len == cmdline_after(cmdline_after(0, boot), options)
    &&& before is Some ==> (after matches Some(m2) && forall|i: int|
        0 <= i < cl.len() ==> m2(bzimage::CMDLINE_START + i) == cl[i])
}

/// What loading the kernel and initial ramdisk of entry configuration
/// `cfg` gives, with boot command line `boot` and memory map `m` (see
/// `entry_outcome`).
pub open spec fn kernel_outcome<'a, D: SectorRead>(
    fs: &'a Filesystem<'a, D>,
    cfg: (Seq<u8>, Seq<u8>, Seq<u8>),
    boot: Seq<u8>,
    m: Seq<crate::bootinfo::MemoryEntry>,
) -> Option<Result<(), Error>> {
    let kp = strip_nuls(cfg.0);
    if !openable(kp) {
        Some(Err(Error::File(fat::Error::Unsupported)))
    } else {
        match at_root(fs, kp) {
            Err(e) => Some(Err(Error::File(e))),
            Ok(Node::Directory(_)) => None,
            Ok(Node::File(kf)) => {
                let c = kf.content();
                if !kf.faultless() || c.len() < 1024 {
                    None
                } else {
                    let h = crate::boot::header_of(c, crate::boot::HEADER_START as int);
                    match bzimage::header_check(h) {
                        Err(e) => Some(Err(Error::BzImage(e))),
                        Ok(()) => if bzimage::setup_bytes(h) > c.len() {
                            Some(Err(Error::BzImage(bzimage::Error::File(fat::Error::EndOfFile))))
                        } else if bzimage::setup_bytes(h) == c.len() {
                            None
                        } else {
                            initrd_outcome(fs, cfg, boot, m, loaded_header(h))
                        },
                    }
                }
            },
        }
    }
}

/// What loading the initial ramdisk that `cfg` names, if any, and placing
/// the command line give, once the kernel's header is `h` (see
/// `entry_outcome`).
pub open spec fn initrd_outcome<'a, D: SectorRead>(
    fs: &'a Filesystem<'a, D>,
    cfg: (Seq<u8>, Seq<u8>, Seq<u8>),
    boot: Seq<u8>,
    m: Seq<crate::bootinfo::MemoryEntry>,
    h: crate::boot::Header,
) -> Option<Result<(), Error>> {
    let ip = strip_nuls(cfg.1);
    let loaded: Option<Result<(), Error>> = if ip.len() == 0 {
        Some(Ok(()))
    } else if !openable(ip) {
        Some(Err(Error::File(fat::Error::Unsupported)))
    } else {
        match at_root(fs, ip) {
            Err(e) => Some(Err(Error::File(e))),
            Ok(Node::Directory(_)) => None,
            Ok(Node::File(irf)) => if !irf.faultless() || irf.size == 0 {
                None
            } else {
                match bzimage::initrd_max_start(h, irf.size as int) {
                    None => Some(Err(Error::BzImage(bzimage::Error::NoInitrdMemory))),
                    Some(mx) => match bzimage::initrd_best(e820_table_of(m), irf.size as int, mx) {
                        None => Some(Err(Error::BzImage(bzimage::Error::NoInitrdMemory))),
                        Some(_) => Some(Ok(())),
                    },
                }
            },
        }
    };
    let opts = strip_nuls(cfg.2);
    match loaded {
        Some(Ok(())) => if !cmdline_room(0, boot, h.cmdline_size as int) {
            Some(Err(Error::File(fat::Error::Unsupported)))
        } else if !cmdline_room(cmdline_after(0, boot), opts, h.cmdline_size as int) {
            Some(Err(Error::File(fat::Error::Unsupported)))
        } else {
            Some(Ok(()))
        },
        other => other,
    }
}

/// What loading the default entry of `fs` gives (see
/// `load_default_entry`), with boot command line `boot` and memory map
/// `m`, where the filesystem is sound: `None` where a file read may fail
/// for a broken cluster chain, or where its answer rests on the reader
/// (a kernel or ramdisk path that names a directory, a kernel of no more
/// than its setup sectors, an empty ramdisk).
pub open spec fn entry_outcome<'a, D: SectorRead>(
    fs: &'a Filesystem<'a, D>,
    boot: Seq<u8>,
    m: Seq<crate::bootinfo::MemoryEntry>,
) -> Option<Result<(), Error>> {
    match conf_entry_path(fs) {
        None => None,
        Some(Err(e)) => Some(Err(e)),
        Some(Ok(p)) => {
            let ep = strip_nuls(p);
            if !openable(ep) {
                Some(Err(Error::File(fat::Error::Unsupported)))
            } else {
                match at_root(fs, ep) {
                    Err(e) => Some(Err(Error::File(e))),
                    Ok(Node::Directory(_)) => Some(Err(Error::File(fat::Error::NotFound))),
                    Ok(Node::File(ef)) => if !ef.faultless() {
                        None
                    } else if ef.size > CONFIG_LEN {
                        Some(Err(Error::File(fat::Error::Unsupported)))
                    } else {
                        match entry_of(padded(ef.content())) {
                            None => Some(Err(Error::File(fat::Error::Unsupported))),
                            Some(cfg) => kernel_outcome(fs, cfg, boot, m),
                        }
                    },
                }
            }
        },
    }
}

/// Loads the default entry: its kernel, its initial ramdisk where it names
/// one, and its command line after the boot protocol's.
pub fn load_default_entry<D: SectorRead, I: Info, M: PhysicalMemory>(
    fs: &Filesystem<'_, D>,
    info: &I,
    mem: &mut M,
) -> (r: Result<Kernel, Error>)
    requires
        fs.wf(),
        fs.geometry().fat_type != FatType::Unknown,
    ensures
        r matches Ok(k) ==> {
            let h = k.params.hdr;
            &&& k.params.wf()
            &&& h.boot_flag == bzimage::BOOT_FLAG
            &&& h.header == bzimage::HDRS_MAGIC
            &&& h.type_of_loader == 0xff
            &&& h.code32_start == bzimage::KERNEL_LOCATION
            &&& h.cmd_line_ptr == bzimage::CMDLINE_START
        },
        r is Ok ==> exists|epath: Seq<u8>, ef: fat::File<'_, D>, n: int|
            {
                &&& #[trigger] entry_directs(fs, epath, ef, n)
                &&& exists|pattern: Seq<u8>|
                    {
                        &&& #[trigger] selected_entry(fs, pattern) is Ok
                        &&& (exists|d: Seq<u8>| d.len() == CONFIG_LEN && #[trigger] default_pattern_of(d) == Some(pattern))
                        &&& epath == entry_path_of(selected_entry(fs, pattern)->Ok_0)
                    }
            },
        r != Err::<Kernel, Error>(Error::File(fat::Error::BlockError)) ==> match walk(
            fs,
            root_pos(fs.geometry()).unwrap(),
            loader_conf_path(),
        ) {
            Err(e) => r == Err::<Kernel, Error>(Error::File(e)),
            Ok(Node::Directory(_)) => r == Err::<Kernel, Error>(Error::File(fat::Error::NotFound)),
            Ok(Node::File(_)) => true,
        },
        fs.sound() ==> r != Err::<Kernel, Error>(Error::File(fat::Error::BlockError)) && r != Err::<Kernel, Error>(
            Error::BzImage(bzimage::Error::File(fat::Error::BlockError)),
        ),
        r matches Ok(k) ==> exists|epath: Seq<u8>, ef: fat::File<'_, D>, n: int|
            {
                &&& #[trigger] entry_directs(fs, epath, ef, n)
                &&& info.cmdline_spec() matches Some(bc) ==> cmdline_placed(
                    k.cmdline_len,
                    old(mem).bytes(),
                    final(mem).bytes(),
                    bc,
                    strip_nuls((entry_of(ef.content().take(n) + zeros((CONFIG_LEN - n) as nat))->0).2),
                )
            },
        ({
            let bc = info.cmdline_spec();
            let mm = info.memory_map();
            fs.sound() && bc is Some && mm is Some && entry_outcome(fs, bc->0, mm->0) is Some ==> match entry_outcome(
                fs,
                bc->0,
                mm->0,
            )->0 {
                Ok(()) => r is Ok,
                Err(e) => r == Err::<Kernel, Error>(e),
            }
        }),
{
    let entry_path = match default_entry_path(fs) {
        Ok(p) => p,
        Err(e) => {
            return Err(e);
        },
    };
    let path = trim_padding(entry_path.as_slice(), false);
    if !openable_exec(path) {
        return Err(Error::File(fat::Error::Unsupported));
    }
    let node = match fs.open_bytes(path) {
        Ok(n) => n,
        Err(e) => {
            return Err(Error::File(e));
        },
    };
    proof {
        fat::directory::lemma_walk_nodes(fs, crate::fat::directory::root_pos(fs.geometry()).unwrap(), path@);
    }
    let mut f = match node {
        Node::File(f) => f,
        Node::Directory(_) => {
            return Err(Error::File(fat::Error::NotFound));
        },
    };
    let ghost ef = f;
    let entry = match parse_entry(&mut f) {
        Ok(c) => c,
        Err(e) => {
            return Err(Error::File(e));
        },
    };
    let ghost n = f.cursor();
    let ghost root = crate::fat::directory::root_pos(fs.geometry()).unwrap();
    let r = load_entry(fs, &entry, info, mem);
    proof {
        if r is Ok {
            assert(entry_directs(fs, entry_path@, ef, n));
        }
    }
    r
}

/// Loads the kernel, the initial ramdisk where one is named, and the
/// command line (the boot protocol's, then the options) of entry `entry`.
fn load_entry<D: SectorRead, I: Info, M: PhysicalMemory>(
    fs: &Filesystem<'_, D>,
    entry: &LoaderConfig,
    info: &I,
    mem: &mut M,
) -> (r: Result<Kernel, Error>)
    requires
        fs.wf(),
        fs.geometry().fat_type != FatType::Unknown,
    ensures
        r matches Ok(k) ==> {
            let h = k.params.hdr;
            &&& k.params.wf()
            &&& h.boot_flag == bzimage::BOOT_FLAG
            &&& h.header == bzimage::HDRS_MAGIC
            &&& h.type_of_loader == 0xff
            &&& h.code32_start == bzimage::KERNEL_LOCATION
            &&& h.cmd_line_ptr == bzimage::CMDLINE_START
        },
        r is Ok ==> at_root(fs, strip_nuls(entry.bzimage_path@)) is Ok && (strip_nuls(entry.initrd_path@).len() > 0
            ==> at_root(fs, strip_nuls(entry.initrd_path@)) is Ok),
        r matches Ok(k) ==> (info.cmdline_spec() matches Some(bc) ==> cmdline_placed(
            k.cmdline_len,
            old(mem).bytes(),
            final(mem).bytes(),
            bc,
            strip_nuls(entry.cmdline@),
        )),
        fs.sound() ==> r != Err::<Kernel, Error>(Error::File(fat::Error::BlockError)) && r != Err::<Kernel, Error>(
            Error::BzImage(bzimage::Error::File(fat::Error::BlockError)),
        ),
        ({
            let bc = info.cmdline_spec();
            let mm = info.memory_map();
            let cfg = (entry.bzimage_path@, entry.initrd_path@, entry.cmdline@);
            fs.sound() && bc is Some && mm is Some && kernel_outcome(fs, cfg, bc->0, mm->0) is Some ==> match kernel_outcome(
                fs,
                cfg,
                bc->0,
                mm->0,
            )->0 {
                Ok(()) => r is Ok,
                Err(e) => r == Err::<Kernel, Error>(e),
            }
        }),
{
    let ghost root = crate::fat::directory::root_pos(fs.geometry()).unwrap();
    let bzimage_path = trim_padding(entry.bzimage_path.as_slice(), false);
    let mut kernel = Kernel::new(info);
    proof {
        if info.memory_map() is Some {
            let m = info.memory_map()->0;
            let p = kernel.params;
            assert(p.table().take(p.entry_count() as int) =~= e820_table_of(m));
        }
    }

    if !openable_exec(bzimage_path) {
        return Err(Error::File(fat::Error::Unsupported));
    }
    let mut bzimage_file = match fs.open_bytes(bzimage_path) {
        Ok(n) => n,
        Err(e) => {
            return Err(Error::File(e));
        },
    };
    proof {
        fat::directory::lemma_walk_nodes(fs, crate::fat::directory::root_pos(fs.geometry()).unwrap(), bzimage_path@);
    }
    assert(walk(fs, root, bzimage_path@) is Ok);
    let ghost kn = bzimage_file;
    let ghost p0 = kernel.params;
    match kernel.load_kernel(&mut bzimage_file, mem) {
        Ok(()) => {},
        Err(e) => {
            return Err(Error::BzImage(e));
        },
    }
    proof {
        if kn is File {
            let kf = kn->File_0;
            assert(kn.content() == kf.content());
            assert(kn.file_size() == kf.size);
            assert(kf.content().len() == kf.size);
            if kf.content().len() >= 1024 {
                assert(kernel.params.hdr == loaded_header(crate::boot::header_of(kf.content(), crate::boot::HEADER_START as int)));
            }
        }
        assert(kernel.params.table() == p0.table());
        assert(kernel.params.entry_count() == p0.entry_count());
    }

    let r = finish_entry(fs, &mut kernel, entry, info, mem);
    match r {
        Ok(()) => Ok(kernel),
        Err(e) => Err(e),
    }
}

/// Loads the initial ramdisk that `entry` names, if any, for `kernel`, and
/// places its command line: the boot protocol's, then the entry's options.
fn finish_entry<D: SectorRead, I: Info, M: PhysicalMemory>(
    fs: &Filesystem<'_, D>,
    kernel: &mut Kernel,
    entry: &LoaderConfig,
    info: &I,
    mem: &mut M,
) -> (r: Result<(), Error>)
    requires
        fs.wf(),
        fs.geometry().fat_type != FatType::Unknown,
        old(kernel).params.wf(),
        old(kernel).cmdline_len == 0,
    ensures
        final(kernel).params.wf(),
        final(kernel).params.hdr == (crate::boot::Header {
            ramdisk_image: final(kernel).params.hdr.ramdisk_image,
            ramdisk_size: final(kernel).params.hdr.ramdisk_size,
            ..old(kernel).params.hdr
        }),
        r is Ok ==> (strip_nuls(entry.initrd_path@).len() > 0 ==> at_root(fs, strip_nuls(entry.initrd_path@)) is Ok),
        r is Ok ==> (info.cmdline_spec() matches Some(bc) ==> cmdline_placed(
            final(kernel).cmdline_len,
            old(mem).bytes(),
            final(mem).bytes(),
            bc,
            strip_nuls(entry.cmdline@),
        )),
        fs.sound() ==> r != Err::<(), Error>(Error::File(fat::Error::BlockError)) && r != Err::<(), Error>(
            Error::BzImage(bzimage::Error::File(fat::Error::BlockError)),
        ),
        ({
            let bc = info.cmdline_spec();
            let mm = info.memory_map();
            let cfg = (entry.bzimage_path@, entry.initrd_path@, entry.cmdline@);
            let p = old(kernel).params;
            fs.sound() && bc is Some && mm is Some && p.table().take(p.entry_count() as int) == e820_table_of(mm->0)
                && initrd_outcome(fs, cfg, bc->0, mm->0, p.hdr) is Some ==> match initrd_outcome(
                fs,
                cfg,
                bc->0,
                mm->0,
                p.hdr,
            )->0 {
                Ok(()) => r is Ok,
                Err(e) => r == Err::<(), Error>(e),
            }
        }),
{
    let ghost root = crate::fat::directory::root_pos(fs.geometry()).unwrap();
    let initrd_path = trim_padding(entry.initrd_path.as_slice(), false);
    let cmdline = trim_padding(entry.cmdline.as_slice(), false);
    if initrd_path.len() > 0 {
        if !openable_exec(initrd_path) {
            return Err(Error::File(fat::Error::Unsupported));
        }
        let mut initrd_file = match fs.open_bytes(initrd_path) {
            Ok(n) => n,
            Err(e) => {
                return Err(Error::File(e));
            },
        };
        proof {
            fat::directory::lemma_walk_nodes(fs, crate::fat::directory::root_pos(fs.geometry()).unwrap(), initrd_path@);
        }
        assert(walk(fs, root, initrd_path@) is Ok);
        match kernel.load_initrd(&mut initrd_file, mem) {
            Ok(()) => {},
            Err(e) => {
                return Err(Error::BzImage(e));
            },
        }
    }

    let boot_cmdline = info.cmdline();
    if !cmdline_fits(kernel, boot_cmdline) {
        return Err(Error::File(fat::Error::Unsupported));
    }
    kernel.append_cmdline(boot_cmdline, mem);
    if !cmdline_fits(kernel, cmdline) {
        return Err(Error::File(fat::Error::Unsupported));
    }
    kernel.append_cmdline(cmdline, mem);
    Ok(())
}

/// Whether `addition` fits on the command line of `kernel`.
fn cmdline_fits(kernel: &Kernel, addition: &[u8]) -> (r: bool)
    ensures
        r == (addition@.len() > 0 ==> kernel.cmdline_len + 1 + addition@.len() < kernel.params.hdr.cmdline_size
            && kernel.cmdline_len + 1 + addition@.len() + 1 <= CMDLINE_MAX_LEN),
{
    if addition.len() == 0 {
        return true;
    }
    let len = addition.len() as u64;
    if kernel.cmdline_len > CMDLINE_MAX_LEN || len > CMDLINE_MAX_LEN {
        return false;
    }
    kernel.cmdline_len + 1 + len < kernel.params.hdr.cmdline_size as u64 && kernel.cmdline_len + 1 + len + 1
        <= CMDLINE_MAX_LEN
}

} // verus!
