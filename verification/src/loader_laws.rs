//! What the entry patterns match.
use vstd::prelude::*;
use crate::block::SectorRead;
use crate::fat::{Filesystem, Node};
use crate::fat::directory::{blank_lfn, dir_scan, entry_budget, long_name_of, root_pos, scan_budget, walk, DirPos};
use crate::loader::{conf_pattern, entry_directory, entry_search, glob, selected_entry, star, Error, MAX_PATTERN_DEPTH};

verus! {

/// The pattern `*` (NUL terminated).
pub open spec fn star_pattern() -> Seq<u8> {
    seq![42u8, 0u8]
}

proof fn lemma_star_tail(name: Seq<u8>, i: int, k: int, depth: nat)
    requires
        0 <= i <= name.len(),
        0 <= k < name.len(),
        name[k] == 0,
        depth >= 1,
        depth >= 2 ==> i <= k,
    ensures
        star(name, i, star_pattern(), 1, depth) == Ok::<bool, Error>(true),
    decreases name.len() - i,
{
    if i < name.len() {
        assert(glob(name, i, star_pattern(), 1, (depth - 1) as nat) == if depth - 1 == 0 {
            Ok::<bool, Error>(false)
        } else {
            Ok::<bool, Error>(name[i] == 0)
        });
        if depth == 1 || name[i] != 0 {
            lemma_star_tail(name, i + 1, k, depth);
        }
    }
}

/// Law: `*` matches every name that has its NUL terminator.
pub proof fn law_star_matches_all(name: Seq<u8>, k: int, depth: nat)
    requires
        0 <= k < name.len(),
        name[k] == 0,
        depth >= 1,
    ensures
        glob(name, 0, star_pattern(), 0, depth) == Ok::<bool, Error>(true),
{
    lemma_star_tail(name, 0, k, depth);
}

/// Whether `s` holds none of the bytes special to patterns before `k`.
pub open spec fn plain_before(s: Seq<u8>, k: int) -> bool {
    forall|j: int| 0 <= j < k ==> s[j] != 0 && s[j] != 92 && s[j] != 63 && s[j] != 42 && s[j] != 91
}

proof fn lemma_exact_from(s: Seq<u8>, i: int, k: int, depth: nat)
    requires
        0 <= i <= k < s.len(),
        s[k] == 0,
        plain_before(s, k),
        depth >= 1,
    ensures
        glob(s, i, s, i, depth) == Ok::<bool, Error>(true),
    decreases k - i,
{
    if i < k {
        lemma_exact_from(s, i + 1, k, depth);
    }
}

/// Law: a NUL-terminated name without special bytes, taken as a pattern,
/// matches itself.
pub proof fn law_name_matches_itself(s: Seq<u8>, k: int, depth: nat)
    requires
        0 <= k < s.len(),
        s[k] == 0,
        plain_before(s, k),
        depth >= 1,
    ensures
        glob(s, 0, s, 0, depth) == Ok::<bool, Error>(true),
{
    lemma_exact_from(s, 0, k, depth);
}

/// The long names of the files (not the subdirectories) of a directory,
/// in directory order, from `pos` until its end, going through no more
/// than `fuel` entries.
pub open spec fn file_names<D: SectorRead>(fs: &Filesystem<D>, pos: DirPos, fuel: nat) -> Seq<Seq<u8>>
    decreases fuel,
{
    if fuel == 0 {
        Seq::empty()
    } else {
        let out = dir_scan(fs, pos, blank_lfn(), scan_budget(fs) as nat);
        match out.0 {
            Err(_) => Seq::empty(),
            Ok((rec, l)) => if rec[11] & 0x10 == 0x10 {
                file_names(fs, out.1, (fuel - 1) as nat)
            } else {
                seq![long_name_of(l)] + file_names(fs, out.1, (fuel - 1) as nat)
            },
        }
    }
}

/// The long names of the files of `/loader/entries`, in directory order.
pub open spec fn entry_file_names<'a, D: SectorRead>(fs: &'a Filesystem<'a, D>) -> Seq<Seq<u8>> {
    match walk(fs, root_pos(fs.geometry()).unwrap(), entry_directory()) {
        Ok(Node::Directory(d)) => file_names(fs, d.pos(), entry_budget(fs) as nat),
        _ => Seq::empty(),
    }
}

/// Whether `name` matches `pattern`.
pub open spec fn matches_pattern(name: Seq<u8>, pattern: Seq<u8>) -> bool {
    glob(name, 0, pattern, 0, MAX_PATTERN_DEPTH as nat) == Ok::<bool, Error>(true)
}

/// `names[i]` is the first of `names` that matches `*.conf`.
pub open spec fn first_conf(names: Seq<Seq<u8>>, i: int) -> bool {
    &&& 0 <= i < names.len()
    &&& matches_pattern(names[i], conf_pattern())
    &&& forall|j: int| 0 <= j < i ==> !matches_pattern(#[trigger] names[j], conf_pattern())
}

proof fn lemma_fallback_search<D: SectorRead>(
    fs: &Filesystem<D>,
    pos: DirPos,
    pattern: Seq<u8>,
    fallback: Option<Seq<u8>>,
    fuel: nat,
    n: Seq<u8>,
)
    requires
        entry_search(fs, pos, pattern, fallback, fuel) == Ok::<Seq<u8>, Error>(n),
        forall|i: int|
            0 <= i < file_names(fs, pos, fuel).len() ==> !matches_pattern(
                #[trigger] file_names(fs, pos, fuel)[i],
                pattern,
            ),
    ensures
        fallback matches Some(f) ==> n == f,
        fallback is None ==> exists|i: int| #[trigger] first_conf(file_names(fs, pos, fuel), i) && file_names(fs, pos, fuel)[i] == n,
    decreases fuel,
{
    let names = file_names(fs, pos, fuel);
    if fuel > 0 {
        let out = dir_scan(fs, pos, blank_lfn(), scan_budget(fs) as nat);
        match out.0 {
            Err(_) => {},
            Ok((rec, l)) => {
                let rest = file_names(fs, out.1, (fuel - 1) as nat);
                let name = long_name_of(l);
                if rec[11] & 0x10 == 0x10 {
                    assert(names == rest);
                    lemma_fallback_search(fs, out.1, pattern, fallback, (fuel - 1) as nat, n);
                } else {
                    assert(names == seq![name] + rest);
                    assert(names[0] == name);
                    assert forall|i: int| 0 <= i < rest.len() implies !matches_pattern(#[trigger] rest[i], pattern) by {
                        assert(names[i + 1] == rest[i]);
                    }
                    if fallback is None {
                        match glob(name, 0, conf_pattern(), 0, MAX_PATTERN_DEPTH as nat) {
                            Ok(true) => {
                                lemma_fallback_search(fs, out.1, pattern, Some(name), (fuel - 1) as nat, n);
                                assert(first_conf(names, 0));
                            },
                            Ok(false) => {
                                lemma_fallback_search(fs, out.1, pattern, None, (fuel - 1) as nat, n);
                                let i = choose|i: int| #[trigger] first_conf(rest, i) && rest[i] == n;
                                assert(names[i + 1] == rest[i]);
                                assert forall|j: int| 0 <= j < i + 1 implies !matches_pattern(
                                    #[trigger] names[j],
                                    conf_pattern(),
                                ) by {
                                    if j > 0 {
                                        assert(names[j] == rest[j - 1]);
                                    }
                                }
                                assert(first_conf(names, i + 1));
                            },
                            Err(_) => {},
                        }
                    } else {
                        lemma_fallback_search(fs, out.1, pattern, fallback, (fuel - 1) as nat, n);
                    }
                }
            },
        }
    }
}

/// Where no file of `/loader/entries` matches the pattern, the entry
/// selected is the first file in directory order that matches `*.conf`:
/// no earlier file matches it.
pub proof fn law_fallback_is_first_conf<'a, D: SectorRead>(fs: &'a Filesystem<'a, D>, pattern: Seq<u8>, n: Seq<u8>)
    requires
        selected_entry(fs, pattern) == Ok::<Seq<u8>, Error>(n),
        forall|i: int|
            0 <= i < entry_file_names(fs).len() ==> !matches_pattern(#[trigger] entry_file_names(fs)[i], pattern),
    ensures
        exists|i: int| #[trigger] first_conf(entry_file_names(fs), i) && entry_file_names(fs)[i] == n,
{
    match walk(fs, root_pos(fs.geometry()).unwrap(), entry_directory()) {
        Ok(Node::Directory(d)) => {
            let names = file_names(fs, d.pos(), entry_budget(fs) as nat);
            assert(entry_file_names(fs) == names);
            assert(entry_search(fs, d.pos(), pattern, None, entry_budget(fs) as nat) == Ok::<Seq<u8>, Error>(n));
            assert forall|i: int| 0 <= i < names.len() implies !matches_pattern(#[trigger] names[i], pattern) by {
                assert(entry_file_names(fs)[i] == names[i]);
            }
            lemma_fallback_search(fs, d.pos(), pattern, None, entry_budget(fs) as nat, n);
        },
        _ => {},
    }
}

proof fn lemma_match_search<D: SectorRead>(
    fs: &Filesystem<D>,
    pos: DirPos,
    pattern: Seq<u8>,
    fallback: Option<Seq<u8>>,
    fuel: nat,
    n: Seq<u8>,
    i: int,
)
    requires
        entry_search(fs, pos, pattern, fallback, fuel) == Ok::<Seq<u8>, Error>(n),
        0 <= i < file_names(fs, pos, fuel).len(),
        matches_pattern(file_names(fs, pos, fuel)[i], pattern),
        forall|j: int| 0 <= j < i ==> !matches_pattern(#[trigger] file_names(fs, pos, fuel)[j], pattern),
    ensures
        n == file_names(fs, pos, fuel)[i],
    decreases fuel,
{
    let names = file_names(fs, pos, fuel);
    let out = dir_scan(fs, pos, blank_lfn(), scan_budget(fs) as nat);
    match out.0 {
        Err(_) => {},
        Ok((rec, l)) => {
            let rest = file_names(fs, out.1, (fuel - 1) as nat);
            let name = long_name_of(l);
            if rec[11] & 0x10 == 0x10 {
                assert(names == rest);
                lemma_match_search(fs, out.1, pattern, fallback, (fuel - 1) as nat, n, i);
            } else {
                assert(names == seq![name] + rest);
                assert(names[0] == name);
                if i > 0 {
                    assert(!matches_pattern(names[0], pattern));
                    assert(names[i] == rest[i - 1]);
                    assert forall|j: int| 0 <= j < i - 1 implies !matches_pattern(#[trigger] rest[j], pattern) by {
                        assert(names[j + 1] == rest[j]);
                    }
                    let fb2 = if fallback is None {
                        match glob(name, 0, conf_pattern(), 0, MAX_PATTERN_DEPTH as nat) {
                            Ok(true) => Some(name),
                            _ => None,
                        }
                    } else {
                        fallback
                    };
                    lemma_match_search(fs, out.1, pattern, fb2, (fuel - 1) as nat, n, i - 1);
                }
            }
        },
    }
}

/// Where a file of `/loader/entries` matches the pattern, the entry
/// selected is the first such file in directory order.
pub proof fn law_first_match_selected<'a, D: SectorRead>(
    fs: &'a Filesystem<'a, D>,
    pattern: Seq<u8>,
    n: Seq<u8>,
    i: int,
)
    requires
        selected_entry(fs, pattern) == Ok::<Seq<u8>, Error>(n),
        0 <= i < entry_file_names(fs).len(),
        matches_pattern(entry_file_names(fs)[i], pattern),
        forall|j: int| 0 <= j < i ==> !matches_pattern(#[trigger] entry_file_names(fs)[j], pattern),
    ensures
        n == entry_file_names(fs)[i],
{
    match walk(fs, root_pos(fs.geometry()).unwrap(), entry_directory()) {
        Ok(Node::Directory(d)) => {
            let names = file_names(fs, d.pos(), entry_budget(fs) as nat);
            assert(entry_file_names(fs) == names);
            assert(entry_search(fs, d.pos(), pattern, None, entry_budget(fs) as nat) == Ok::<Seq<u8>, Error>(n));
            assert forall|j: int| 0 <= j < i implies !matches_pattern(#[trigger] names[j], pattern) by {
                assert(entry_file_names(fs)[j] == names[j]);
            }
            lemma_match_search(fs, d.pos(), pattern, None, entry_budget(fs) as nat, n, i);
        },
        _ => {},
    }
}

} // verus!
