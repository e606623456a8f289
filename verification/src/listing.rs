//! Choosing report files, listing their directories, and choosing an output stream.
use vstd::prelude::*;
use crate::path::{is_junit_xml, is_junit_xml_path, parent_dir, parent_dir_text};
use crate::text::{chars_less, chars_lt, to_chars, lemma_chars_lt_irreflexive,
    lemma_chars_lt_total, lemma_chars_lt_transitive};

verus! {

/// An entry met while walking a directory tree: its path, when that is
/// valid UTF-8, and whether it is a regular file.
pub struct WalkEntry {
    pub path: Option<String>,
    pub is_file: bool,
}

/// The paths of the entries that are JUnit XML report files, in walk order.
pub open spec fn selected_files(entries: Seq<WalkEntry>) -> Seq<Seq<char>>
    decreases entries.len(),
{
    if entries.len() == 0 {
        Seq::empty()
    } else {
        let e = entries.last();
        let front = selected_files(entries.drop_last());
        match e.path {
            Some(p) => if e.is_file && is_junit_xml_path(p@) {
                front.push(p@)
            } else {
                front
            },
            None => front,
        }
    }
}

/// The views of a list of strings.
pub open spec fn string_views(v: Seq<String>) -> Seq<Seq<char>> {
    v.map_values(|s: String| s@)
}

/// Keeps the regular files with a UTF-8 path that `is_junit_xml` accepts, in walk order.
pub fn select_junit_files(entries: &Vec<WalkEntry>) -> (files: Vec<String>)
    ensures
        string_views(files@) == selected_files(entries@),
{
    let mut files: Vec<String> = Vec::new();
    let mut i: usize = 0;
    assert(string_views(files@) =~= selected_files(entries@.take(0)));
    while i < entries.len()
        invariant
            i <= entries@.len(),
            string_views(files@) == selected_files(entries@.take(i as int)),
        decreases entries@.len() - i,
    {
        let e = &entries[i];
        assert(entries@.take(i + 1).drop_last() =~= entries@.take(i as int));
        assert(entries@.take(i + 1).last() == *e);
        let ghost before = files@;
        match &e.path {
            Some(p) => {
                if e.is_file && is_junit_xml(p.as_str()) {
                    files.push(p.clone());
                    assert(string_views(files@) =~= string_views(before).push(p@));
                }
            },
            None => {},
        }
        i = i + 1;
    }
    assert(entries@.take(entries@.len() as int) =~= entries@);
    files
}

/// Every element sorts before every later one: the list is sorted and has no duplicates.
pub open spec fn strictly_sorted(s: Seq<Seq<char>>) -> bool {
    forall|i: int, j: int| 0 <= i < j < s.len() ==> chars_lt(#[trigger] s[i], #[trigger] s[j])
}

/// A strictly sorted list holds no element twice: the directory listing has no duplicates.
pub proof fn law_sorted_has_no_duplicates(s: Seq<Seq<char>>)
    requires
        strictly_sorted(s),
    ensures
        forall|i: int, j: int| 0 <= i < j < s.len() ==> #[trigger] s[i] != #[trigger] s[j],
{
    assert forall|i: int, j: int| 0 <= i < j < s.len() implies #[trigger] s[i] != #[trigger] s[j] by {
        assert(chars_lt(s[i], s[j]));
        if s[i] == s[j] {
            lemma_chars_lt_irreflexive(s[i]);
        }
    }
}

/// `d` is the directory of one of the first `upto` files.
pub open spec fn is_dir_of_some(files: Seq<String>, upto: int, d: Seq<char>) -> bool {
    exists|k: int| 0 <= k < upto && parent_dir_text(#[trigger] files[k]@) == d
}

/// Lists the directories that hold the given files, each once, sorted.
/// A file's directory is its `Path::parent` (`.` where there is none).
pub fn result_directories(files: &Vec<String>) -> (dirs: Vec<String>)
    ensures
        strictly_sorted(string_views(dirs@)),
        forall|d: Seq<char>|
            string_views(dirs@).contains(d) <==> is_dir_of_some(files@, files@.len() as int, d),
{
    let mut dirs: Vec<String> = Vec::new();
    let n = files.len();
    let mut i: usize = 0;
    while i < n
        invariant
            i <= n,
            n == files@.len(),
            strictly_sorted(string_views(dirs@)),
            forall|d: Seq<char>|
                string_views(dirs@).contains(d) <==> is_dir_of_some(files@, i as int, d),
        decreases n - i,
    {
        let p = parent_dir(files[i].as_str());
        let pc = to_chars(p.as_str());
        let ghost dv = string_views(dirs@);
        let m = dirs.len();
        let mut j: usize = 0;
        while j < m
            invariant
                j <= m,
                m == dirs@.len(),
                dv == string_views(dirs@),
                pc@ == p@,
                forall|k: int| 0 <= k < j ==> chars_lt(#[trigger] dv[k], p@),
            ensures
                j <= m,
                forall|k: int| 0 <= k < j ==> chars_lt(#[trigger] dv[k], p@),
                j < m ==> !chars_lt(dv[j as int], p@),
            decreases m - j,
        {
            let dc = to_chars(dirs[j].as_str());
            assert(dv[j as int] == dirs@[j as int]@);
            if chars_less(&dc, &pc) {
                j = j + 1;
            } else {
                break;
            }
        }
        let present = j < m && dirs[j] == p;
        let ghost pv = p@;
        if !present {
            proof {
                if j < m {
                    lemma_chars_lt_total(dv[j as int], pv);
                }
            }
            dirs.insert(j, p);
            let ghost nv = string_views(dirs@);
            assert(nv =~= dv.take(j as int).push(pv) + dv.subrange(j as int, m as int));
            assert forall|a: int, b: int| 0 <= a < b < nv.len() implies chars_lt(
                #[trigger] nv[a],
                #[trigger] nv[b],
            ) by {
                if a < j && b < j {
                    assert(nv[a] == dv[a] && nv[b] == dv[b]);
                } else if a < j && b == j {
                    assert(nv[a] == dv[a]);
                } else if a < j {
                    assert(nv[a] == dv[a] && nv[b] == dv[b - 1]);
                    assert(chars_lt(dv[a], dv[b - 1]));
                } else if a == j {
                    assert(nv[b] == dv[b - 1]);
                    if b - 1 > j {
                        lemma_chars_lt_transitive(pv, dv[j as int], dv[b - 1]);
                    }
                } else {
                    assert(nv[a] == dv[a - 1] && nv[b] == dv[b - 1]);
                }
            }
            assert forall|d: Seq<char>|
                nv.contains(d) <==> is_dir_of_some(files@, i + 1, d) by {
                if nv.contains(d) {
                    let x = choose|x: int| 0 <= x < nv.len() && nv[x] == d;
                    if x == j {
                        assert(parent_dir_text(files@[i as int]@) == d);
                    } else if x < j {
                        assert(dv[x] == d);
                        assert(dv.contains(d));
                        let k = choose|k: int| 0 <= k < i && parent_dir_text(#[trigger] files@[k]@) == d;
                        assert(0 <= k < i + 1);
                    } else {
                        assert(dv[x - 1] == d);
                        assert(dv.contains(d));
                        let k = choose|k: int| 0 <= k < i && parent_dir_text(#[trigger] files@[k]@) == d;
                        assert(0 <= k < i + 1);
                    }
                }
                if is_dir_of_some(files@, i + 1, d) {
                    let k = choose|k: int| 0 <= k < i + 1 && parent_dir_text(#[trigger] files@[k]@) == d;
                    if k == i {
                        assert(nv[j as int] == d);
                    } else {
                        assert(is_dir_of_some(files@, i as int, d));
                        assert(dv.contains(d));
                        let x = choose|x: int| 0 <= x < dv.len() && dv[x] == d;
                        if x < j {
                            assert(nv[x] == d);
                        } else {
                            assert(nv[x + 1] == d);
                        }
                    }
                }
            }
        } else {
            assert(dv[j as int] == pv);
            assert forall|d: Seq<char>|
                dv.contains(d) <==> is_dir_of_some(files@, i + 1, d) by {
                if is_dir_of_some(files@, i + 1, d) {
                    let k = choose|k: int| 0 <= k < i + 1 && parent_dir_text(#[trigger] files@[k]@) == d;
                    if k == i {
                        assert(dv[j as int] == d);
                    } else {
                        assert(is_dir_of_some(files@, i as int, d));
                    }
                }
                if dv.contains(d) {
                    let k = choose|k: int| 0 <= k < i && parent_dir_text(#[trigger] files@[k]@) == d;
                    assert(0 <= k < i + 1);
                }
            }
        }
        i = i + 1;
    }
    dirs
}

/// The element whose text `output` prints: `system-out` for `--sysout`,
/// `system-err` for `--syserr`; none when both or neither are given, which
/// the command refuses.
pub fn output_tag(sysout: bool, syserr: bool) -> (r: Option<&'static str>)
    ensures
        match r {
            Some(t) => sysout != syserr && t@ == (if sysout {
                "system-out"@
            } else {
                "system-err"@
            }),
            None => sysout == syserr,
        },
{
    if sysout == syserr {
        None
    } else if sysout {
        Some("system-out")
    } else {
        Some("system-err")
    }
}

} // verus!
