//! Reduction of per-file results into the parts of a digest.

use vstd::prelude::*;
use rayon::slice::ParallelSliceMut;
use crate::digest::{FileInfo, FileProcessResult, FileSizeInfo, ScanMetrics, SizeMetrics};
use crate::lang::{file_name, file_name_of};
use crate::text::str_eq;

verus! {

/// Whether a result has a detected language.
pub open spec fn is_known(r: FileProcessResult) -> bool {
    r.language@ != "Unknown"@
}

/// Sum of the sizes of all results.
pub open spec fn total_size(rs: Seq<FileProcessResult>) -> int
    decreases rs.len(),
{
    if rs.len() == 0 {
        0
    } else {
        total_size(rs.drop_last()) + rs.last().size
    }
}

/// Sum of the sizes of the sampled results.
pub open spec fn analyzed_size(rs: Seq<FileProcessResult>) -> int
    decreases rs.len(),
{
    if rs.len() == 0 {
        0
    } else {
        analyzed_size(rs.drop_last()) + if rs.last().is_analyzed {
            rs.last().size as int
        } else {
            0
        }
    }
}

/// Sum of the line counts of all results.
pub open spec fn line_total(rs: Seq<FileProcessResult>) -> int
    decreases rs.len(),
{
    if rs.len() == 0 {
        0
    } else {
        line_total(rs.drop_last()) + rs.last().lines
    }
}

/// The bytes a result adds to its language's total: its size where it was sampled.
pub open spec fn sampled_bytes(r: FileProcessResult) -> int {
    if r.is_analyzed { r.size as int } else { 0 }
}

/// Sum of the sizes of the sampled results in language `l` (never `Unknown`).
pub open spec fn language_size(rs: Seq<FileProcessResult>, l: Seq<char>) -> int
    decreases rs.len(),
{
    if rs.len() == 0 {
        0
    } else {
        language_size(rs.drop_last(), l) + if is_known(rs.last()) && rs.last().language@ == l {
            sampled_bytes(rs.last())
        } else {
            0
        }
    }
}

/// `d` with `x` appended unless it already holds it.
pub open spec fn push_new(d: Seq<Seq<char>>, x: Seq<char>) -> Seq<Seq<char>> {
    if d.contains(x) {
        d
    } else {
        d.push(x)
    }
}

/// The detected languages, each once, in order of first appearance.
pub open spec fn languages_seen(rs: Seq<FileProcessResult>) -> Seq<Seq<char>>
    decreases rs.len(),
{
    if rs.len() == 0 {
        Seq::empty()
    } else if is_known(rs.last()) {
        push_new(languages_seen(rs.drop_last()), rs.last().language@)
    } else {
        languages_seen(rs.drop_last())
    }
}

/// The sampled files, in order.
pub open spec fn sampled(rs: Seq<FileProcessResult>) -> Seq<FileInfo>
    decreases rs.len(),
{
    if rs.len() == 0 {
        Seq::empty()
    } else {
        match rs.last().file_info {
            Some(f) => sampled(rs.drop_last()).push(f),
            None => sampled(rs.drop_last()),
        }
    }
}

/// Whether a result shows in the directory listing: it was sampled and has a parent.
pub open spec fn listed(r: FileProcessResult) -> bool {
    r.file_info is Some && r.parent is Some
}

/// The directories of the listing, each once, in order of first appearance.
pub open spec fn dirs_listed(rs: Seq<FileProcessResult>) -> Seq<Seq<char>>
    decreases rs.len(),
{
    if rs.len() == 0 {
        Seq::empty()
    } else if listed(rs.last()) {
        push_new(dirs_listed(rs.drop_last()), rs.last().parent->0@)
    } else {
        dirs_listed(rs.drop_last())
    }
}

/// The file names listed under directory `d`, in order.
pub open spec fn names_in_dir(rs: Seq<FileProcessResult>, d: Seq<char>) -> Seq<Seq<char>>
    decreases rs.len(),
{
    if rs.len() == 0 {
        Seq::empty()
    } else if listed(rs.last()) && rs.last().parent->0@ == d {
        names_in_dir(rs.drop_last(), d).push(file_name_of(rs.last().path@))
    } else {
        names_in_dir(rs.drop_last(), d)
    }
}

/// Result `a` ranks before result `b`: it is larger, or as large and discovered earlier.
pub open spec fn ranks_before(rs: Seq<FileProcessResult>, a: int, b: int) -> bool {
    rs[a].size > rs[b].size || (rs[a].size == rs[b].size && a < b)
}

/// `f` is the size record of `r`.
pub open spec fn describes(f: FileSizeInfo, r: FileProcessResult) -> bool {
    f.path@ == r.path@ && f.size_bytes == r.size && f.language@ == r.language@
}

/// `top` lists, at positions `ix`, the first `min(10, n)` results in ranking order.
pub open spec fn top_ranked(rs: Seq<FileProcessResult>, ix: Seq<int>, top: Seq<FileSizeInfo>) -> bool {
    &&& ix.len() == top.len()
    &&& top.len() == if rs.len() < 10 { rs.len() } else { 10 }
    &&& forall|k: int| 0 <= k < ix.len() ==> 0 <= #[trigger] ix[k] < rs.len() && describes(top[k], rs[ix[k]])
    &&& forall|k: int, l: int| 0 <= k < l < ix.len() ==> ranks_before(rs, #[trigger] ix[k], #[trigger] ix[l])
    &&& forall|j: int, k: int| 0 <= j < rs.len() && !ix.contains(j) && 0 <= k < ix.len() ==> #[trigger] ranks_before(rs, ix[k], j)
}

/// The parts of a digest that the results determine.
pub struct Aggregate {
    pub files: Vec<FileInfo>,
    pub structure: Vec<(String, Vec<String>)>,
    pub technologies: Vec<String>,
    pub metrics: ScanMetrics,
    pub size_metrics: SizeMetrics,
}

/// The views of a list of strings.
pub open spec fn views(v: Seq<String>) -> Seq<Seq<char>> {
    v.map_values(|s: String| s@)
}

/// The aggregate that `results` determine.
pub open spec fn aggregates(rs: Seq<FileProcessResult>, a: Aggregate) -> bool {
    &&& a.files@ == sampled(rs)
    &&& a.metrics.total_files == rs.len()
    &&& a.metrics.total_lines == line_total(rs)
    &&& a.metrics.analyzed_files == sampled(rs).len()
    &&& a.size_metrics.total_size_bytes == total_size(rs)
    &&& a.size_metrics.analyzed_size_bytes == analyzed_size(rs)
    &&& views(a.technologies@) == languages_seen(rs)
    &&& a.size_metrics.size_by_language@.len() == languages_seen(rs).len()
    &&& forall|i: int| 0 <= i < languages_seen(rs).len() ==>
        (#[trigger] a.size_metrics.size_by_language@[i]).0@ == languages_seen(rs)[i]
        && a.size_metrics.size_by_language@[i].1 == language_size(rs, languages_seen(rs)[i])
    &&& a.structure@.len() == dirs_listed(rs).len()
    &&& forall|i: int| 0 <= i < dirs_listed(rs).len() ==>
        (#[trigger] a.structure@[i]).0@ == dirs_listed(rs)[i]
        && views(a.structure@[i].1@) == names_in_dir(rs, dirs_listed(rs)[i])
    &&& exists|ix: Seq<int>| top_ranked(rs, ix, a.size_metrics.largest_files@)
}

proof fn lemma_push_new(d: Seq<Seq<char>>, x: Seq<char>)
    requires
        d.no_duplicates(),
    ensures
        push_new(d, x).no_duplicates(),
        push_new(d, x).contains(x),
        forall|y: Seq<char>| d.contains(y) ==> push_new(d, x).contains(y),
        forall|y: Seq<char>| #[trigger] push_new(d, x).contains(y) ==> d.contains(y) || y == x,
{
    if !d.contains(x) {
        let e = d.push(x);
        assert(e[d.len() as int] == x);
        assert forall|y: Seq<char>| d.contains(y) implies e.contains(y) by {
            let i = choose|i: int| 0 <= i < d.len() && d[i] == y;
            assert(e[i] == y);
        }
        assert forall|y: Seq<char>| #[trigger] e.contains(y) implies d.contains(y) || y == x by {
            let i = choose|i: int| 0 <= i < e.len() && e[i] == y;
            if i < d.len() {
                assert(d[i] == y);
            }
        }
    }
}

proof fn lemma_prefix(rs: Seq<FileProcessResult>, i: int)
    requires
        0 <= i < rs.len(),
    ensures
        rs.subrange(0, i + 1).drop_last() == rs.subrange(0, i),
        rs.subrange(0, i + 1).last() == rs[i],
{
    assert(rs.subrange(0, i + 1).drop_last() =~= rs.subrange(0, i));
}

proof fn lemma_totals_grow(rs: Seq<FileProcessResult>, i: int)
    requires
        0 <= i <= rs.len(),
    ensures
        total_size(rs.subrange(0, i)) <= total_size(rs),
        line_total(rs.subrange(0, i)) <= line_total(rs),
    decreases rs.len() - i,
{
    if i < rs.len() {
        lemma_totals_grow(rs, i + 1);
        lemma_prefix(rs, i);
    } else {
        assert(rs.subrange(0, i) == rs);
    }
}

proof fn lemma_parts_bounded(rs: Seq<FileProcessResult>, l: Seq<char>)
    ensures
        0 <= analyzed_size(rs) <= total_size(rs),
        0 <= language_size(rs, l) <= total_size(rs),
        0 <= line_total(rs),
    decreases rs.len(),
{
    if rs.len() > 0 {
        lemma_parts_bounded(rs.drop_last(), l);
    }
}

proof fn lemma_languages(rs: Seq<FileProcessResult>)
    ensures
        languages_seen(rs).no_duplicates(),
        forall|l: Seq<char>| !languages_seen(rs).contains(l) ==> language_size(rs, l) == 0,
        forall|k: int| 0 <= k < rs.len() && is_known(rs[k]) ==> languages_seen(rs).contains(#[trigger] rs[k].language@),
    decreases rs.len(),
{
    if rs.len() > 0 {
        let p = rs.drop_last();
        lemma_languages(p);
        if is_known(rs.last()) {
            lemma_push_new(languages_seen(p), rs.last().language@);
        }
        assert forall|l: Seq<char>| !languages_seen(rs).contains(l) implies language_size(rs, l) == 0 by {
            if is_known(rs.last()) {
                assert(languages_seen(p).contains(l) ==> languages_seen(rs).contains(l));
                assert(languages_seen(rs).contains(rs.last().language@));
            }
            assert(!languages_seen(p).contains(l));
            assert(language_size(p, l) == 0);
        }
        assert forall|k: int| 0 <= k < rs.len() && is_known(rs[k]) implies languages_seen(rs).contains(
            #[trigger] rs[k].language@,
        ) by {
            if k < rs.len() - 1 {
                assert(p[k] == rs[k]);
            }
        }
    }
}

proof fn lemma_dirs(rs: Seq<FileProcessResult>)
    ensures
        dirs_listed(rs).no_duplicates(),
        forall|d: Seq<char>| !dirs_listed(rs).contains(d) ==> names_in_dir(rs, d) == Seq::<Seq<char>>::empty(),
    decreases rs.len(),
{
    if rs.len() > 0 {
        let p = rs.drop_last();
        lemma_dirs(p);
        if listed(rs.last()) {
            lemma_push_new(dirs_listed(p), rs.last().parent->0@);
        }
        assert forall|d: Seq<char>| !dirs_listed(rs).contains(d) implies names_in_dir(rs, d) == Seq::<Seq<char>>::empty() by {
            if listed(rs.last()) {
                assert(dirs_listed(p).contains(d) ==> dirs_listed(rs).contains(d));
                assert(dirs_listed(rs).contains(rs.last().parent->0@));
            }
            assert(!dirs_listed(p).contains(d));
            assert(names_in_dir(p, d) == Seq::<Seq<char>>::empty());
        }
    }
}

proof fn lemma_language_found(p: Seq<FileProcessResult>, r: FileProcessResult, ls: Seq<u64>, k: int, add: u64)
    requires
        is_known(r),
        languages_seen(p).no_duplicates(),
        ls.len() == languages_seen(p).len(),
        0 <= k < ls.len(),
        languages_seen(p)[k] == r.language@,
        forall|j: int| 0 <= j < ls.len() ==> #[trigger] ls[j] == language_size(p, languages_seen(p)[j]),
        add == sampled_bytes(r),
        ls[k] + add <= u64::MAX,
    ensures
        languages_seen(p.push(r)) == languages_seen(p),
        forall|j: int| 0 <= j < ls.len() ==> #[trigger] ls.update(k, (ls[k] + add) as u64)[j] == language_size(
            p.push(r),
            languages_seen(p.push(r))[j],
        ),
{
    let q = p.push(r);
    assert(q.drop_last() == p);
    assert(languages_seen(p).contains(r.language@));
    assert forall|j: int| 0 <= j < ls.len() implies #[trigger] ls.update(k, (ls[k] + add) as u64)[j]
        == language_size(q, languages_seen(q)[j]) by {
        if j != k {
            assert(languages_seen(p)[j] != languages_seen(p)[k]);
        }
    }
}

proof fn lemma_language_new(p: Seq<FileProcessResult>, r: FileProcessResult, ls: Seq<u64>, add: u64)
    requires
        add == sampled_bytes(r),
        is_known(r),
        forall|j: int| 0 <= j < languages_seen(p).len() ==> languages_seen(p)[j] != r.language@,
        ls.len() == languages_seen(p).len(),
        forall|j: int| 0 <= j < ls.len() ==> #[trigger] ls[j] == language_size(p, languages_seen(p)[j]),
    ensures
        languages_seen(p.push(r)) == languages_seen(p).push(r.language@),
        forall|j: int| 0 <= j < ls.len() + 1 ==> #[trigger] ls.push(add)[j] == language_size(
            p.push(r),
            languages_seen(p.push(r))[j],
        ),
{
    let q = p.push(r);
    assert(q.drop_last() == p);
    lemma_languages(p);
    assert(!languages_seen(p).contains(r.language@));
    assert forall|j: int| 0 <= j < ls.len() + 1 implies #[trigger] ls.push(add)[j] == language_size(
        q,
        languages_seen(q)[j],
    ) by {
        assert(languages_seen(q) == languages_seen(p).push(r.language@));
        if j < ls.len() {
            assert(languages_seen(q)[j] == languages_seen(p)[j]);
            assert(languages_seen(p)[j] != r.language@);
            assert(ls.push(add)[j] == ls[j]);
        } else {
            assert(languages_seen(q)[j] == r.language@);
            assert(language_size(p, r.language@) == 0);
        }
    }
}

proof fn lemma_dir_new(
    p: Seq<FileProcessResult>,
    r: FileProcessResult,
    st: Seq<(String, Vec<String>)>,
    e: (String, Vec<String>),
)
    requires
        listed(r),
        forall|j: int| 0 <= j < dirs_listed(p).len() ==> dirs_listed(p)[j] != r.parent->0@,
        st.len() == dirs_listed(p).len(),
        forall|k: int| 0 <= k < st.len() ==> (#[trigger] st[k]).0@ == dirs_listed(p)[k] && views(st[k].1@)
            == names_in_dir(p, dirs_listed(p)[k]),
        e.0@ == r.parent->0@,
        views(e.1@) == seq![file_name_of(r.path@)],
    ensures
        st.push(e).len() == dirs_listed(p.push(r)).len(),
        forall|k: int| 0 <= k < st.push(e).len() ==> (#[trigger] st.push(e)[k]).0@ == dirs_listed(p.push(r))[k]
            && views(st.push(e)[k].1@) == names_in_dir(p.push(r), dirs_listed(p.push(r))[k]),
{
    let q = p.push(r);
    assert(q.drop_last() == p);
    lemma_dirs(p);
    assert(!dirs_listed(p).contains(r.parent->0@));
    assert(dirs_listed(q) == dirs_listed(p).push(r.parent->0@));
    assert forall|k: int| 0 <= k < st.push(e).len() implies (#[trigger] st.push(e)[k]).0@ == dirs_listed(q)[k]
        && views(st.push(e)[k].1@) == names_in_dir(q, dirs_listed(q)[k]) by {
        if k < st.len() {
            assert(st.push(e)[k] == st[k]);
            assert(dirs_listed(p)[k] != r.parent->0@);
        } else {
            assert(names_in_dir(p, r.parent->0@) == Seq::<Seq<char>>::empty());
            assert(names_in_dir(q, r.parent->0@) =~= seq![file_name_of(r.path@)]);
        }
    }
}

/// Position of the string equal to `s` in `v`, or `v.len()` when there is none.
fn position_of(v: &Vec<String>, s: &str) -> (r: usize)
    ensures
        r <= v@.len(),
        r < v@.len() ==> v@[r as int]@ == s@,
        r == v@.len() ==> !views(v@).contains(s@),
{
    let mut i: usize = 0;
    while i < v.len()
        invariant
            i <= v@.len(),
            forall|k: int| 0 <= k < i ==> v@[k]@ != s@,
        decreases v.len() - i,
    {
        if str_eq(v[i].as_str(), s) {
            return i;
        }
        i = i + 1;
    }
    proof {
        if views(v@).contains(s@) {
            let k = choose|k: int| 0 <= k < views(v@).len() && views(v@)[k] == s@;
            assert(v@[k]@ == s@);
        }
    }
    v.len()
}

/// Whether `a` precedes `b` in the order of sort keys.
pub open spec fn key_le(a: (u64, usize), b: (u64, usize)) -> bool {
    a.0 < b.0 || (a.0 == b.0 && a.1 <= b.1)
}

/// Relies on rayon's `ParallelSliceMut::par_sort_unstable`: the same elements,
/// in ascending order under the lexicographic order of tuples.
#[verifier::external_body]
fn par_sort_keys(v: Vec<(u64, usize)>) -> (r: Vec<(u64, usize)>)
    ensures
        r@.to_multiset() == v@.to_multiset(),
        forall|i: int, j: int| 0 <= i < j < r@.len() ==> key_le(#[trigger] r@[i], #[trigger] r@[j]),
{
    let mut v = v;
    v.par_sort_unstable();
    v
}

/// The size records of the ten largest results, largest first, ties in
/// discovery order.
fn largest_files(results: &Vec<FileProcessResult>) -> (r: Vec<FileSizeInfo>)
    ensures
        exists|ix: Seq<int>| top_ranked(results@, ix, r@),
{
    let ghost rs = results@;
    let n = results.len();
    let mut keys: Vec<(u64, usize)> = Vec::new();
    let mut i: usize = 0;
    while i < n
        invariant
            n == rs.len(),
            rs == results@,
            i <= n,
            keys@.len() == i,
            forall|k: int| 0 <= k < i ==> #[trigger] keys@[k] == ((u64::MAX - rs[k].size) as u64, k as usize),
        decreases n - i,
    {
        keys.push((u64::MAX - results[i].size, i));
        i = i + 1;
    }
    proof {
        assert(keys@.no_duplicates());
        keys@.lemma_multiset_has_no_duplicates();
    }
    let sorted = par_sort_keys(keys);
    proof {
        broadcast use vstd::seq_lib::group_to_multiset_ensures;
        sorted@.to_multiset_ensures();
        keys@.to_multiset_ensures();
        assert(sorted@.len() == keys@.len());
        sorted@.lemma_multiset_has_no_duplicates_conv();
        assert forall|k: int| 0 <= k < sorted@.len() implies (#[trigger] sorted@[k]).1 < n
            && sorted@[k] == keys@[sorted@[k].1 as int] by {
            assert(sorted@.contains(sorted@[k]));
            assert(sorted@.to_multiset().count(sorted@[k]) > 0);
            assert(keys@.contains(sorted@[k]));
        }
        assert forall|j: int| 0 <= j < n implies #[trigger] sorted@.contains(keys@[j]) by {
            assert(keys@.contains(keys@[j]));
            assert(keys@.to_multiset().count(keys@[j]) > 0);
        }
    }
    let m: usize = if n < 10 { n } else { 10 };
    let mut top: Vec<FileSizeInfo> = Vec::new();
    let ghost mut ix: Seq<int> = Seq::empty();
    let mut k: usize = 0;
    while k < m
        invariant
            rs == results@,
            n == rs.len(),
            m == if n < 10 { n } else { 10 },
            sorted@.len() == n,
            k <= m,
            top@.len() == k,
            ix.len() == k,
            forall|p: int| 0 <= p < k ==> #[trigger] ix[p] == sorted@[p].1 as int,
            forall|p: int| 0 <= p < sorted@.len() ==> (#[trigger] sorted@[p]).1 < n,
            forall|p: int| 0 <= p < k ==> describes(#[trigger] top@[p], rs[ix[p]]),
        decreases m - k,
    {
        let idx = sorted[k].1;
        let r = &results[idx];
        top.push(FileSizeInfo { path: r.path.clone(), size_bytes: r.size, language: r.language.clone() });
        proof {
            ix = ix.push(idx as int);
        }
        k = k + 1;
    }
    proof {
        assert(sorted@.len() == keys@.len()) by {
            broadcast use vstd::seq_lib::group_to_multiset_ensures;
        }
        assert forall|a: int, b: int| 0 <= a < b < ix.len() implies ranks_before(rs, #[trigger] ix[a], #[trigger] ix[b]) by {
            assert(key_le(sorted@[a], sorted@[b]));
            assert(sorted@[a] != sorted@[b]);
            assert(sorted@[a] == keys@[ix[a]]);
            assert(sorted@[b] == keys@[ix[b]]);
        }
        assert forall|j: int, a: int| 0 <= j < rs.len() && !ix.contains(j) && 0 <= a < ix.len() implies #[trigger] ranks_before(rs, ix[a], j) by {
            assert(sorted@.contains(keys@[j]));
            let p = choose|p: int| 0 <= p < sorted@.len() && sorted@[p] == keys@[j];
            if p < m {
                assert(ix[p] == j);
            }
            assert(key_le(sorted@[a], sorted@[p]));
            assert(sorted@[a] != sorted@[p]);
            assert(sorted@[a] == keys@[ix[a]]);
        }
        assert(top_ranked(rs, ix, top@));
    }
    top
}

/// Whether the byte and line totals of `results` fit in 64 bits.
pub open spec fn totals_fit_spec(rs: Seq<FileProcessResult>) -> bool {
    total_size(rs) <= u64::MAX && line_total(rs) <= u64::MAX
}

/// Whether the byte and line totals of `results` fit in 64 bits, which
/// `aggregate_results` needs.
pub fn totals_fit(results: &Vec<FileProcessResult>) -> (r: bool)
    ensures
        r == totals_fit_spec(results@),
{
    let ghost rs = results@;
    let mut size: u64 = 0;
    let mut lines: u64 = 0;
    let mut i: usize = 0;
    while i < results.len()
        invariant
            rs == results@,
            i <= rs.len(),
            size == total_size(rs.subrange(0, i as int)),
            lines == line_total(rs.subrange(0, i as int)),
        decreases results.len() - i,
    {
        proof {
            lemma_prefix(rs, i as int);
            lemma_totals_grow(rs, i + 1);
        }
        let r = &results[i];
        if r.size > u64::MAX - size || r.lines as u64 > u64::MAX - lines {
            proof {
                let q = rs.subrange(0, i + 1);
                lemma_totals_grow(rs, i + 1);
                lemma_parts_bounded(q, Seq::empty());
            }
            return false;
        }
        size = size + r.size;
        lines = lines + r.lines as u64;
        i = i + 1;
    }
    assert(rs.subrange(0, rs.len() as int) == rs);
    true
}

/// Reduces per-file results to the digest's files, directory listing,
/// languages, counts and size statistics.
pub fn aggregate_results(results: Vec<FileProcessResult>) -> (a: Aggregate)
    requires
        totals_fit_spec(results@),
    ensures
        aggregates(results@, a),
{
    let ghost rs = results@;
    let mut files: Vec<FileInfo> = Vec::new();
    let mut structure: Vec<(String, Vec<String>)> = Vec::new();
    let mut techs: Vec<String> = Vec::new();
    let mut lang_sizes: Vec<u64> = Vec::new();
    let mut size: u64 = 0;
    let mut analyzed: u64 = 0;
    let mut lines: u64 = 0;
    let mut i: usize = 0;
    while i < results.len()
        invariant
            rs == results@,
            totals_fit_spec(rs),
            i <= rs.len(),
            files@ == sampled(rs.subrange(0, i as int)),
            size == total_size(rs.subrange(0, i as int)),
            analyzed == analyzed_size(rs.subrange(0, i as int)),
            lines == line_total(rs.subrange(0, i as int)),
            views(techs@) == languages_seen(rs.subrange(0, i as int)),
            lang_sizes@.len() == techs@.len(),
            forall|k: int| 0 <= k < lang_sizes@.len() ==> #[trigger] lang_sizes@[k] == language_size(
                rs.subrange(0, i as int),
                languages_seen(rs.subrange(0, i as int))[k],
            ),
            structure@.len() == dirs_listed(rs.subrange(0, i as int)).len(),
            forall|k: int| 0 <= k < structure@.len() ==> (#[trigger] structure@[k]).0@ == dirs_listed(
                rs.subrange(0, i as int),
            )[k] && views(structure@[k].1@) == names_in_dir(
                rs.subrange(0, i as int),
                dirs_listed(rs.subrange(0, i as int))[k],
            ),
        decreases results.len() - i,
    {
        let ghost p = rs.subrange(0, i as int);
        let ghost q = rs.subrange(0, i + 1);
        proof {
            lemma_prefix(rs, i as int);
            lemma_totals_grow(rs, i + 1);
            lemma_parts_bounded(q, Seq::empty());
            lemma_languages(p);
            lemma_dirs(p);
        }
        let r = &results[i];
        assert(q.last() == *r);
        size = size + r.size;
        if r.is_analyzed {
            analyzed = analyzed + r.size;
        }
        lines = lines + r.lines as u64;
        if !str_eq(r.language.as_str(), "Unknown") {
            let add: u64 = if r.is_analyzed { r.size } else { 0 };
            let k = position_of(&techs, r.language.as_str());
            proof {
                lemma_parts_bounded(q, r.language@);
            }
            if k < techs.len() {
                proof {
                    assert(views(techs@)[k as int] == r.language@);
                    assert(languages_seen(p).contains(r.language@));
                    assert(languages_seen(q) == languages_seen(p));
                }
                let v = lang_sizes[k] + add;
                let ghost ls0 = lang_sizes@;
                lang_sizes.set(k, v);
                proof {
                    assert(q =~= p.push(*r));
                    lemma_language_found(p, *r, ls0, k as int, add);
                    assert(lang_sizes@ =~= ls0.update(k as int, v));
                }
            } else {
                let ghost techs0 = techs@;
                let ghost ls0 = lang_sizes@;
                proof {
                    assert forall|j: int| 0 <= j < languages_seen(p).len() implies languages_seen(p)[j] != r.language@ by {
                        assert(views(techs@)[j] == techs@[j]@);
                    }
                }
                techs.push(r.language.clone());
                lang_sizes.push(add);
                proof {
                    assert(q =~= p.push(*r));
                    lemma_language_new(p, *r, ls0, add);
                    assert(lang_sizes@ =~= ls0.push(add));
                    assert(views(techs@) =~= views(techs0).push(r.language@)) by {
                        assert(techs@ == techs0.push(r.language));
                    }
                }
            }
        } else {
            proof {
                assert(languages_seen(q) == languages_seen(p));
                assert forall|j: int| 0 <= j < lang_sizes@.len() implies #[trigger] lang_sizes@[j]
                    == language_size(q, languages_seen(q)[j]) by {}
            }
        }
        proof {
            if !listed(*r) {
                assert(dirs_listed(q) == dirs_listed(p));
                assert forall|k: int| 0 <= k < structure@.len() implies (#[trigger] structure@[k]).0@
                    == dirs_listed(q)[k] && views(structure@[k].1@) == names_in_dir(q, dirs_listed(q)[k]) by {}
            }
        }
        match &r.file_info {
            Some(fi) => {
                files.push(fi.copy());
                match &r.parent {
                    Some(parent) => {
                        let name = file_name(r.path.as_str());
                        let ghost st0 = structure@;
                        let k = position_of_dir(&structure, parent.as_str());
                        if k < structure.len() {
                            proof {
                                assert(dirs_listed(p)[k as int] == parent@);
                                assert(dirs_listed(p).contains(parent@));
                                assert(dirs_listed(q) == dirs_listed(p));
                            }
                            let (d, mut inner) = structure.remove(k);
                            let ghost inner0 = inner@;
                            inner.push(name);
                            let ghost e = (d, inner);
                            structure.insert(k, (d, inner));
                            proof {
                                assert(structure@ =~= st0.update(k as int, e));
                                assert(e.0 == st0[k as int].0);
                                assert(inner0 == st0[k as int].1@);
                                assert(names_in_dir(q, parent@) == names_in_dir(p, parent@).push(file_name_of(r.path@)));
                                assert forall|j: int| 0 <= j < structure@.len() implies (#[trigger] structure@[j]).0@
                                    == dirs_listed(q)[j] && views(structure@[j].1@) == names_in_dir(q, dirs_listed(q)[j]) by {
                                    if j != k {
                                        assert(structure@[j] == st0[j]);
                                        assert(dirs_listed(p)[j] != dirs_listed(p)[k as int]);
                                    } else {
                                        assert(views(structure@[j].1@) =~= views(st0[j].1@).push(file_name_of(r.path@)));
                                    }
                                }
                            }
                        } else {
                            let mut inner: Vec<String> = Vec::new();
                            inner.push(name);
                            structure.push((parent.clone(), inner));
                            proof {
                                assert forall|j: int| 0 <= j < dirs_listed(p).len() implies dirs_listed(p)[j] != parent@ by {
                                    assert(st0[j].0@ == dirs_listed(p)[j]);
                                }
                                assert(q =~= p.push(*r));
                                let e = structure@.last();
                                assert(views(e.1@) =~= seq![file_name_of(r.path@)]);
                                lemma_dir_new(p, *r, st0, e);
                                assert(structure@ =~= st0.push(e));
                            }
                        }
                    },
                    None => {},
                }
            },
            None => {},
        }
        i = i + 1;
    }
    proof {
        assert(rs.subrange(0, rs.len() as int) == rs);
    }
    let mut size_by_language: Vec<(String, u64)> = Vec::new();
    let mut k: usize = 0;
    while k < techs.len()
        invariant
            k <= techs@.len(),
            lang_sizes@.len() == techs@.len(),
            size_by_language@.len() == k,
            forall|j: int| 0 <= j < k ==> (#[trigger] size_by_language@[j]) == (techs@[j], lang_sizes@[j]),
        decreases techs.len() - k,
    {
        size_by_language.push((techs[k].clone(), lang_sizes[k]));
        k = k + 1;
    }
    let largest = largest_files(&results);
    let ghost ix = choose|ix: Seq<int>| top_ranked(rs, ix, largest@);
    assert(top_ranked(rs, ix, largest@));
    let analyzed_files = files.len();
    let a = Aggregate {
        files,
        structure,
        technologies: techs,
        metrics: ScanMetrics { total_files: results.len(), total_lines: lines, analyzed_files },
        size_metrics: SizeMetrics {
            total_size_bytes: size,
            analyzed_size_bytes: analyzed,
            largest_files: largest,
            size_by_language,
        },
    };
    proof {
        assert forall|j: int| 0 <= j < languages_seen(rs).len() implies
            (#[trigger] a.size_metrics.size_by_language@[j]).0@ == languages_seen(rs)[j]
            && a.size_metrics.size_by_language@[j].1 == language_size(rs, languages_seen(rs)[j]) by {
            assert(views(a.technologies@)[j] == a.technologies@[j]@);
        }
        assert(a.files@ == sampled(rs));
        assert(a.metrics.total_lines == line_total(rs));
        assert(a.size_metrics.analyzed_size_bytes == analyzed_size(rs));
        assert(views(a.technologies@) == languages_seen(rs));
        assert(a.structure@.len() == dirs_listed(rs).len());
        assert(top_ranked(rs, ix, a.size_metrics.largest_files@));
    }
    a
}

/// Position of the directory `d` in a listing, or its length when absent.
fn position_of_dir(v: &Vec<(String, Vec<String>)>, d: &str) -> (r: usize)
    ensures
        r <= v@.len(),
        r < v@.len() ==> v@[r as int].0@ == d@,
        r == v@.len() ==> forall|k: int| 0 <= k < v@.len() ==> v@[k].0@ != d@,
{
    let mut i: usize = 0;
    while i < v.len()
        invariant
            i <= v@.len(),
            forall|k: int| 0 <= k < i ==> v@[k].0@ != d@,
        decreases v.len() - i,
    {
        if str_eq(v[i].0.as_str(), d) {
            return i;
        }
        i = i + 1;
    }
    v.len()
}

/// Sum of the byte counts of a per-language table.
pub open spec fn table_total(t: Seq<(String, u64)>) -> int
    decreases t.len(),
{
    if t.len() == 0 {
        0
    } else {
        table_total(t.drop_last()) + t.last().1
    }
}

/// Sum of `language_size(rs, l)` over the languages `ls`.
pub open spec fn sizes_over(rs: Seq<FileProcessResult>, ls: Seq<Seq<char>>) -> int
    decreases ls.len(),
{
    if ls.len() == 0 {
        0
    } else {
        sizes_over(rs, ls.drop_last()) + language_size(rs, ls.last())
    }
}

/// Sum of the sizes of the sampled results with a detected language.
pub open spec fn known_size(rs: Seq<FileProcessResult>) -> int
    decreases rs.len(),
{
    if rs.len() == 0 {
        0
    } else {
        known_size(rs.drop_last()) + if is_known(rs.last()) {
            sampled_bytes(rs.last())
        } else {
            0
        }
    }
}

proof fn lemma_sizes_over_step(p: Seq<FileProcessResult>, r: FileProcessResult, ls: Seq<Seq<char>>)
    requires
        ls.no_duplicates(),
    ensures
        sizes_over(p.push(r), ls) == sizes_over(p, ls) + if is_known(r) && ls.contains(r.language@) {
            sampled_bytes(r)
        } else {
            0
        },
    decreases ls.len(),
{
    let q = p.push(r);
    assert(q.drop_last() == p);
    if ls.len() > 0 {
        let init = ls.drop_last();
        assert(init.no_duplicates());
        lemma_sizes_over_step(p, r, init);
        if ls.contains(r.language@) {
            let i = choose|i: int| 0 <= i < ls.len() && ls[i] == r.language@;
            if i < ls.len() - 1 {
                assert(init[i] == r.language@);
                assert(ls.last() != r.language@);
            }
        }
        if init.contains(r.language@) {
            let i = choose|i: int| 0 <= i < init.len() && init[i] == r.language@;
            assert(ls[i] == r.language@);
        }
    }
}

proof fn lemma_sizes_over_known(rs: Seq<FileProcessResult>)
    ensures
        sizes_over(rs, languages_seen(rs)) == known_size(rs),
    decreases rs.len(),
{
    if rs.len() > 0 {
        let p = rs.drop_last();
        let r = rs.last();
        assert(rs == p.push(r));
        lemma_sizes_over_known(p);
        lemma_languages(p);
        lemma_sizes_over_step(p, r, languages_seen(p));
        if is_known(r) && !languages_seen(p).contains(r.language@) {
            assert(languages_seen(rs) == languages_seen(p).push(r.language@));
            assert(languages_seen(rs).drop_last() == languages_seen(p));
            assert(language_size(p, r.language@) == 0);
        }
    }
}

proof fn lemma_table_total(t: Seq<(String, u64)>, rs: Seq<FileProcessResult>, ls: Seq<Seq<char>>)
    requires
        t.len() == ls.len(),
        forall|i: int| 0 <= i < ls.len() ==> (#[trigger] t[i]).1 == language_size(rs, ls[i]),
    ensures
        table_total(t) == sizes_over(rs, ls),
    decreases t.len(),
{
    if t.len() > 0 {
        lemma_table_total(t.drop_last(), rs, ls.drop_last());
    }
}

proof fn lemma_sampled_known(rs: Seq<FileProcessResult>)
    requires
        forall|k: int| 0 <= k < rs.len() && (#[trigger] rs[k]).is_analyzed ==> is_known(rs[k]),
    ensures
        known_size(rs) == analyzed_size(rs),
    decreases rs.len(),
{
    if rs.len() > 0 {
        let p = rs.drop_last();
        assert forall|k: int| 0 <= k < p.len() && (#[trigger] p[k]).is_analyzed implies is_known(p[k]) by {
            assert(p[k] == rs[k]);
        }
        lemma_sampled_known(p);
        assert(rs.last() == rs[rs.len() - 1]);
    }
}

/// Where every sampled file has a detected language, the bytes per
/// language add up to the analysed bytes.
pub proof fn size_by_language_sums_to_analyzed(rs: Seq<FileProcessResult>, a: Aggregate)
    requires
        aggregates(rs, a),
        forall|k: int| 0 <= k < rs.len() && (#[trigger] rs[k]).is_analyzed ==> is_known(rs[k]),
    ensures
        table_total(a.size_metrics.size_by_language@) == a.size_metrics.analyzed_size_bytes,
{
    lemma_table_total(a.size_metrics.size_by_language@, rs, languages_seen(rs));
    lemma_sizes_over_known(rs);
    lemma_sampled_known(rs);
}

/// The bytes per language always add up to the bytes of the sampled files
/// with a detected language.
pub proof fn size_by_language_sums_to_known(rs: Seq<FileProcessResult>, a: Aggregate)
    requires
        aggregates(rs, a),
    ensures
        table_total(a.size_metrics.size_by_language@) == known_size(rs),
{
    lemma_table_total(a.size_metrics.size_by_language@, rs, languages_seen(rs));
    lemma_sizes_over_known(rs);
}

/// The largest files hold at most ten records, in non-increasing order of
/// size; strictly decreasing where no two files have the same size.
pub proof fn largest_files_ordered(rs: Seq<FileProcessResult>, a: Aggregate)
    requires
        aggregates(rs, a),
    ensures
        a.size_metrics.largest_files@.len() <= 10,
        forall|k: int, l: int| 0 <= k < l < a.size_metrics.largest_files@.len() ==>
            (#[trigger] a.size_metrics.largest_files@[k]).size_bytes >= (#[trigger] a.size_metrics.largest_files@[l]).size_bytes,
        (forall|i: int, j: int| 0 <= i < j < rs.len() ==> (#[trigger] rs[i]).size != (#[trigger] rs[j]).size) ==>
            forall|k: int, l: int| 0 <= k < l < a.size_metrics.largest_files@.len() ==>
                (#[trigger] a.size_metrics.largest_files@[k]).size_bytes > (#[trigger] a.size_metrics.largest_files@[l]).size_bytes,
{
    let top = a.size_metrics.largest_files@;
    let ix = choose|ix: Seq<int>| top_ranked(rs, ix, top);
    assert forall|k: int, l: int| 0 <= k < l < top.len() implies (#[trigger] top[k]).size_bytes >= (#[trigger] top[l]).size_bytes by {
        assert(ranks_before(rs, ix[k], ix[l]));
    }
    if forall|i: int, j: int| 0 <= i < j < rs.len() ==> (#[trigger] rs[i]).size != (#[trigger] rs[j]).size {
        assert forall|k: int, l: int| 0 <= k < l < top.len() implies (#[trigger] top[k]).size_bytes > (#[trigger] top[l]).size_bytes by {
            assert(ranks_before(rs, ix[k], ix[l]));
            if ix[k] < ix[l] {
                assert(rs[ix[k]].size != rs[ix[l]].size);
            }
        }
    }
}

} // verus!
