//! Unix path text: components, file names, parents, and which files are JUnit reports.
use vstd::prelude::*;
use crate::text::to_chars;

verus! {

// ---- comparing character sequences with literals ----

/// `a` starts with `p`.
pub open spec fn has_prefix(a: Seq<char>, p: Seq<char>) -> bool {
    p.len() <= a.len() && a.take(p.len() as int) == p
}

/// `a` ends with `p`.
pub open spec fn has_suffix(a: Seq<char>, p: Seq<char>) -> bool {
    p.len() <= a.len() && a.subrange(a.len() - p.len(), a.len() as int) == p
}

/// Whether `a` holds exactly the characters of `lit`.
pub fn chars_equal(a: &Vec<char>, lit: &str) -> (r: bool)
    ensures
        r == (a@ == lit@),
{
    let n = lit.unicode_len();
    if a.len() != n {
        return false;
    }
    let mut i: usize = 0;
    while i < n
        invariant
            i <= n,
            n == a@.len(),
            n == lit@.len(),
            forall|j: int| 0 <= j < i ==> a@[j] == lit@[j],
        decreases n - i,
    {
        if a[i] != lit.get_char(i) {
            return false;
        }
        i = i + 1;
    }
    assert(a@ =~= lit@);
    true
}

/// Whether `a` starts with the characters of `lit`.
pub fn chars_have_prefix(a: &Vec<char>, lit: &str) -> (r: bool)
    ensures
        r == has_prefix(a@, lit@),
{
    let n = lit.unicode_len();
    if a.len() < n {
        return false;
    }
    let mut i: usize = 0;
    while i < n
        invariant
            i <= n,
            n <= a@.len(),
            n == lit@.len(),
            forall|j: int| 0 <= j < i ==> a@[j] == lit@[j],
        decreases n - i,
    {
        if a[i] != lit.get_char(i) {
            assert(a@.take(n as int)[i as int] != lit@[i as int]);
            return false;
        }
        i = i + 1;
    }
    assert(a@.take(n as int) =~= lit@);
    true
}

/// Whether `a` ends with the characters of `lit`.
pub fn chars_have_suffix(a: &Vec<char>, lit: &str) -> (r: bool)
    ensures
        r == has_suffix(a@, lit@),
{
    let n = lit.unicode_len();
    let m = a.len();
    if m < n {
        return false;
    }
    let off = m - n;
    let mut i: usize = 0;
    while i < n
        invariant
            i <= n,
            off + n == m,
            m == a@.len(),
            n == lit@.len(),
            forall|j: int| 0 <= j < i ==> a@[off + j] == lit@[j],
        decreases n - i,
    {
        if a[off + i] != lit.get_char(i) {
            assert(a@.subrange(off as int, m as int)[i as int] != lit@[i as int]);
            return false;
        }
        i = i + 1;
    }
    assert(a@.subrange(off as int, m as int) =~= lit@);
    true
}

// ---- components ----

/// A segment between separators that names something: not empty and not `.`.
pub open spec fn is_named_segment(c: Seq<char>) -> bool {
    c.len() > 0 && c != seq!['.']
}

/// Reading `s` left to right: the named segments finished so far, and the segment being read.
pub open spec fn split_scan(s: Seq<char>) -> (Seq<Seq<char>>, Seq<char>)
    decreases s.len(),
{
    if s.len() == 0 {
        (Seq::empty(), Seq::empty())
    } else {
        let (done, cur) = split_scan(s.drop_last());
        if s.last() == '/' {
            (if is_named_segment(cur) { done.push(cur) } else { done }, Seq::empty())
        } else {
            (done, cur.push(s.last()))
        }
    }
}

/// The components of a path, as `Path::components` yields the normal and `..`
/// ones: the `/`-separated segments, without empty ones and without `.`.
pub open spec fn path_components(s: Seq<char>) -> Seq<Seq<char>> {
    let (done, cur) = split_scan(s);
    if is_named_segment(cur) {
        done.push(cur)
    } else {
        done
    }
}

/// The final component of a path, or empty where `Path::file_name` has none
/// (no components, or a final `..`).
pub open spec fn file_name(s: Seq<char>) -> Seq<char> {
    let cs = path_components(s);
    if cs.len() == 0 || cs.last() == seq!['.', '.'] {
        Seq::empty()
    } else {
        cs.last()
    }
}

/// A directory that build tools write JUnit reports into.
pub open spec fn is_report_dir_name(c: Seq<char>) -> bool {
    c == "surefire-reports"@ || c == "test-results"@ || c == "surefire-it-reports"@
}

/// Some directory above the file (not the file itself) is a report directory.
pub open spec fn under_report_dir(s: Seq<char>) -> bool {
    let cs = path_components(s);
    exists|i: int| 0 <= i < cs.len() - 1 && is_report_dir_name(#[trigger] cs[i])
}

/// A JUnit XML report: an `.xml` file whose name starts with `TEST-`, or any
/// `.xml` file below a report directory, at any depth.
pub open spec fn is_junit_xml_path(s: Seq<char>) -> bool {
    let name = file_name(s);
    has_suffix(name, ".xml"@) && (has_prefix(name, "TEST-"@) || under_report_dir(s))
}

/// Every `.xml` file whose name starts with `TEST-` is a report, wherever it lies,
/// and a report's file name always ends in `.xml`.
pub proof fn law_report_names(s: Seq<char>)
    ensures
        has_suffix(file_name(s), ".xml"@) && has_prefix(file_name(s), "TEST-"@) ==> is_junit_xml_path(s),
        is_junit_xml_path(s) ==> has_suffix(file_name(s), ".xml"@),
        has_suffix(file_name(s), ".xml"@) && under_report_dir(s) ==> is_junit_xml_path(s),
{
}

/// A path is a report only when its file name ends in `.xml` and either
/// starts with `TEST-` or some component before the file name is exactly
/// `surefire-reports`, `test-results` or `surefire-it-reports`; and every such
/// path is a report.
pub proof fn law_report_exactly(s: Seq<char>)
    ensures
        is_junit_xml_path(s) <==> has_suffix(file_name(s), ".xml"@) && (has_prefix(
            file_name(s),
            "TEST-"@,
        ) || exists|i: int|
            0 <= i < path_components(s).len() - 1 && (#[trigger] path_components(s)[i]
                == "surefire-reports"@ || path_components(s)[i] == "test-results"@
                || path_components(s)[i] == "surefire-it-reports"@)),
{
}

/// Splits `s` into its components.
pub fn components(s: &str) -> (cs: Vec<Vec<char>>)
    ensures
        cs@.len() == path_components(s@).len(),
        forall|i: int| 0 <= i < cs@.len() ==> #[trigger] cs@[i]@ == path_components(s@)[i],
{
    let v = to_chars(s);
    let n = v.len();
    let mut done: Vec<Vec<char>> = Vec::new();
    let mut cur: Vec<char> = Vec::new();
    let mut i: usize = 0;
    while i < n
        invariant
            i <= n,
            n == v@.len(),
            v@ == s@,
            done@.len() == split_scan(s@.take(i as int)).0.len(),
            forall|j: int| 0 <= j < done@.len() ==> #[trigger] done@[j]@ == split_scan(s@.take(i as int)).0[j],
            cur@ == split_scan(s@.take(i as int)).1,
        decreases n - i,
    {
        let ghost t = s@.take(i + 1);
        assert(t.drop_last() =~= s@.take(i as int));
        let c = v[i];
        if c == '/' {
            let keep = cur.len() > 0 && !(cur.len() == 1 && cur[0] == '.');
            assert(keep == is_named_segment(cur@)) by {
                if cur@.len() == 1 && cur@[0] == '.' {
                    assert(cur@ =~= seq!['.']);
                }
                if cur@ == seq!['.'] {
                    assert(cur@[0] == '.');
                }
            }
            if keep {
                let finished = cur;
                done.push(finished);
            }
            cur = Vec::new();
        } else {
            cur.push(c);
        }
        i = i + 1;
    }
    assert(s@.take(n as int) =~= s@);
    let keep = cur.len() > 0 && !(cur.len() == 1 && cur[0] == '.');
    assert(keep == is_named_segment(cur@)) by {
        if cur@.len() == 1 && cur@[0] == '.' {
            assert(cur@ =~= seq!['.']);
        }
        if cur@ == seq!['.'] {
            assert(cur@[0] == '.');
        }
    }
    if keep {
        done.push(cur);
    }
    done
}

/// Whether a file at `path` is a JUnit XML report: its name ends in `.xml`
/// and either starts with `TEST-` or the file lies below a `surefire-reports`,
/// `test-results` or `surefire-it-reports` directory.
pub fn is_junit_xml(path: &str) -> (r: bool)
    ensures
        r == is_junit_xml_path(path@),
{
    let cs = components(path);
    let k = cs.len();
    let ghost pcs = path_components(path@);
    if k == 0 {
        proof {
            reveal_strlit(".xml");
        }
        assert(file_name(path@) =~= Seq::<char>::empty());
        return false;
    }
    let name = &cs[k - 1];
    assert(pcs.last() == name@);
    if chars_equal(name, "..") {
        proof {
            reveal_strlit("..");
            reveal_strlit(".xml");
            assert(".."@ =~= seq!['.', '.']);
        }
        assert(file_name(path@) =~= Seq::<char>::empty());
        return false;
    }
    proof {
        reveal_strlit("..");
        assert(pcs.last() == name@);
        assert(name@ != seq!['.', '.']) by {
            if name@ == seq!['.', '.'] {
                assert(name@ =~= ".."@);
            }
        }
        assert(file_name(path@) == name@);
    }
    if !chars_have_suffix(name, ".xml") {
        return false;
    }
    if chars_have_prefix(name, "TEST-") {
        return true;
    }
    lies_under_report_dir(&cs, path)
}

/// Whether some component before the last one names a report directory.
fn lies_under_report_dir(cs: &Vec<Vec<char>>, path: &str) -> (r: bool)
    requires
        cs@.len() == path_components(path@).len(),
        forall|j: int| 0 <= j < cs@.len() ==> #[trigger] cs@[j]@ == path_components(path@)[j],
    ensures
        r == under_report_dir(path@),
{
    let ghost pcs = path_components(path@);
    let k = cs.len();
    if k == 0 {
        return false;
    }
    let mut i: usize = 0;
    while i < k - 1
        invariant
            0 < k,
            i <= k - 1,
            k == cs@.len(),
            k == pcs.len(),
            pcs == path_components(path@),
            forall|j: int| 0 <= j < cs@.len() ==> #[trigger] cs@[j]@ == pcs[j],
            forall|j: int| 0 <= j < i ==> !is_report_dir_name(#[trigger] pcs[j]),
        decreases k - i,
    {
        let c = &cs[i];
        if chars_equal(c, "surefire-reports") || chars_equal(c, "test-results") || chars_equal(
            c,
            "surefire-it-reports",
        ) {
            assert(is_report_dir_name(pcs[i as int]));
            return true;
        }
        i = i + 1;
    }
    assert(forall|j: int| 0 <= j < pcs.len() - 1 ==> !is_report_dir_name(#[trigger] pcs[j]));
    false
}


// ---- parents ----

/// The path starts at the root directory.
pub open spec fn has_root(s: Seq<char>) -> bool {
    s.len() > 0 && s[0] == '/'
}

/// A relative path that starts with a `.` component (`.` or `./...`).
pub open spec fn has_cur_dir(s: Seq<char>) -> bool {
    !has_root(s) && s.len() > 0 && s[0] == '.' && (s.len() == 1 || s[1] == '/')
}

/// Where the components after the root or leading `.` begin.
pub open spec fn body_start(s: Seq<char>) -> int {
    if has_root(s) || has_cur_dir(s) {
        1
    } else {
        0
    }
}

/// The position of the last `/` in `s[lo..hi]`, or `lo - 1` when there is none.
pub open spec fn last_sep(s: Seq<char>, lo: int, hi: int) -> int
    decreases hi - lo,
{
    if hi <= lo {
        lo - 1
    } else if s[hi - 1] == '/' {
        hi - 1
    } else {
        last_sep(s, lo, hi - 1)
    }
}

/// `last_sep` lies between `lo - 1` and `hi - 1`.
pub proof fn lemma_last_sep_bounds(s: Seq<char>, lo: int, hi: int)
    requires
        lo <= hi,
    ensures
        lo - 1 <= last_sep(s, lo, hi) < hi,
        last_sep(s, lo, hi) >= lo ==> s[last_sep(s, lo, hi)] == '/',
    decreases hi - lo,
{
    if hi > lo && s[hi - 1] != '/' {
        lemma_last_sep_bounds(s, lo, hi - 1);
    }
}

/// Where the last segment of `s[..e]` starts, reading the body from `b`.
pub open spec fn back_start(s: Seq<char>, b: int, e: int) -> int {
    last_sep(s, b, e) + 1
}

/// The end of what remains of `s[..e]` once its last segment and the `/`
/// before it are taken off.
pub open spec fn back_rest(s: Seq<char>, b: int, e: int) -> int {
    let k = last_sep(s, b, e);
    if k >= b {
        k
    } else {
        b
    }
}

/// The last segment of `s[..e]` is empty or `.`, so that it is no component.
pub open spec fn back_is_skipped(s: Seq<char>, b: int, e: int) -> bool {
    let st = back_start(s, b, e);
    e == st || (e == st + 1 && s[st] == '.')
}

/// The end of `s[..e]` once trailing separators and `.` segments are taken off.
pub open spec fn trim_back(s: Seq<char>, b: int, e: int) -> int
    decreases e,
{
    if e <= b || b < 0 {
        e
    } else if back_is_skipped(s, b, e) {
        proof {
            lemma_last_sep_bounds(s, b, e);
        }
        trim_back(s, b, back_rest(s, b, e))
    } else {
        e
    }
}

/// The end of the parent of `s[..e]`, when its body holds a component.
pub open spec fn parent_end(s: Seq<char>, b: int, e: int) -> Option<int>
    decreases e,
{
    if e <= b || b < 0 {
        None
    } else if back_is_skipped(s, b, e) {
        proof {
            lemma_last_sep_bounds(s, b, e);
        }
        parent_end(s, b, back_rest(s, b, e))
    } else {
        proof {
            lemma_last_sep_bounds(s, b, e);
        }
        Some(trim_back(s, b, back_rest(s, b, e)))
    }
}

/// The parent of a path, as `Path::parent` gives it on Unix: the path without
/// its last component and the separators and `.` segments before it; `""`
/// for a single relative component or `.`; none for `/` and for `""`.
pub open spec fn path_parent(s: Seq<char>) -> Option<Seq<char>> {
    match parent_end(s, body_start(s), s.len() as int) {
        Some(e) => Some(s.take(e)),
        None => if has_cur_dir(s) {
            Some(Seq::empty())
        } else {
            None
        },
    }
}

/// The directory that holds a file, as the results listing shows it: its parent, or `.` without one.
pub open spec fn parent_dir_text(s: Seq<char>) -> Seq<char> {
    match path_parent(s) {
        Some(p) => p,
        None => "."@,
    }
}

/// The last segment of `v[..e]`: where it starts and where the rest ends.
fn back_segment(v: &Vec<char>, b: usize, e: usize) -> (r: (usize, usize))
    requires
        b <= e <= v@.len(),
    ensures
        r.0 == back_start(v@, b as int, e as int),
        r.1 == back_rest(v@, b as int, e as int),
        b <= r.0 <= e,
        b <= r.1 <= e,
        e > b ==> r.1 < e,
{
    let mut j = e;
    while j > b && v[j - 1] != '/'
        invariant
            b <= j <= e,
            e <= v@.len(),
            last_sep(v@, b as int, e as int) == last_sep(v@, b as int, j as int),
        decreases j,
    {
        j = j - 1;
    }
    proof {
        lemma_last_sep_bounds(v@, b as int, e as int);
    }
    if j > b {
        (j, j - 1)
    } else {
        (b, b)
    }
}

/// Whether the segment `v[st..e]` is empty or `.`.
fn segment_is_skipped(v: &Vec<char>, st: usize, e: usize) -> (r: bool)
    requires
        st <= e <= v@.len(),
    ensures
        r == (e == st || (e == st + 1 && v@[st as int] == '.')),
{
    e == st || (e == st + 1 && v[st] == '.')
}

/// The directory that holds the file at `path`: `Path::parent` as text, or `.` where there is none.
pub fn parent_dir(path: &str) -> (r: String)
    ensures
        r@ == parent_dir_text(path@),
{
    let v = to_chars(path);
    let n = v.len();
    let ghost s = path@;
    let root = n > 0 && v[0] == '/';
    let cur = !root && n > 0 && v[0] == '.' && (n == 1 || v[1] == '/');
    let b: usize = if root || cur { 1 } else { 0 };
    assert(b == body_start(s));
    let mut e = n;
    let mut found = false;
    while e > b && !found
        invariant
            b <= e <= n,
            n == v@.len(),
            v@ == s,
            b == body_start(s),
            !found ==> parent_end(s, b as int, n as int) == parent_end(s, b as int, e as int),
            found ==> parent_end(s, b as int, n as int) == Some(trim_back(s, b as int, e as int)),
        decreases e,
    {
        let (st, rest) = back_segment(&v, b, e);
        if !segment_is_skipped(&v, st, e) {
            found = true;
        }
        e = rest;
    }
    if !found {
        proof {
            reveal_strlit(".");
        }
        if cur {
            return String::new();
        } else {
            return String::from_str(".");
        }
    }
    while e > b
        invariant
            b <= e <= n,
            n == v@.len(),
            v@ == s,
            parent_end(s, b as int, n as int) == Some(trim_back(s, b as int, e as int)),
        ensures
            parent_end(s, b as int, n as int) == Some(trim_back(s, b as int, e as int)),
            trim_back(s, b as int, e as int) == e,
        decreases e,
    {
        let (st, rest) = back_segment(&v, b, e);
        if !segment_is_skipped(&v, st, e) {
            break;
        }
        e = rest;
    }
    String::from_str(path.substring_char(0, e))
}

} // verus!
