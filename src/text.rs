//! Character-level helpers over strings.

use vstd::prelude::*;

verus! {

broadcast use vstd::string::axiom_spec_iter;

/// Whether `needle` occurs in `hay` starting at index `i`.
pub open spec fn occurs_at(hay: Seq<char>, needle: Seq<char>, i: int) -> bool {
    0 <= i && i + needle.len() <= hay.len() && hay.subrange(i, i + needle.len()) == needle
}

/// Whether `needle` occurs anywhere in `hay`.
pub open spec fn seq_contains(hay: Seq<char>, needle: Seq<char>) -> bool {
    exists|i: int| occurs_at(hay, needle, i)
}

/// Whether `s` begins with `p`.
pub open spec fn starts_with(s: Seq<char>, p: Seq<char>) -> bool {
    p.len() <= s.len() && s.subrange(0, p.len() as int) == p
}

/// Whether `s` ends with `p`.
pub open spec fn ends_with(s: Seq<char>, p: Seq<char>) -> bool {
    p.len() <= s.len() && s.subrange(s.len() - p.len(), s.len() as int) == p
}

/// The characters of `s`, in order.
pub fn chars_of(s: &str) -> (r: Vec<char>)
    ensures
        r@ == s@,
{
    let mut out: Vec<char> = Vec::new();
    for c in it: s.chars()
        invariant
            out@ == it.seq().subrange(0, it.index() as int),
            it.seq() == s@,
    {
        out.push(c);
    }
    out
}

/// Relies on std's `String::push`: the character is appended at the end.
#[verifier::external_body]
pub(crate) fn push_char(s: &mut String, c: char)
    ensures
        final(s)@ == old(s)@.push(c),
{
    s.push(c);
}

/// A string holding `cs[lo..hi]`.
pub fn string_of_range(cs: &Vec<char>, lo: usize, hi: usize) -> (r: String)
    requires
        lo <= hi <= cs@.len(),
    ensures
        r@ == cs@.subrange(lo as int, hi as int),
{
    let mut out = String::new();
    let mut i: usize = lo;
    while i < hi
        invariant
            lo <= i <= hi <= cs@.len(),
            out@ == cs@.subrange(lo as int, i as int),
        decreases hi - i,
    {
        push_char(&mut out, cs[i]);
        assert(cs@.subrange(lo as int, i + 1) == cs@.subrange(lo as int, i as int).push(cs@[i as int]));
        i = i + 1;
    }
    out
}

/// A string holding all of `cs`.
pub fn string_of(cs: &Vec<char>) -> (r: String)
    ensures
        r@ == cs@,
{
    let r = string_of_range(cs, 0, cs.len());
    assert(cs@.subrange(0, cs@.len() as int) == cs@);
    r
}

/// An owned copy of `s`.
pub fn owned(s: &str) -> (r: String)
    ensures
        r@ == s@,
{
    s.to_owned()
}

/// Whether two strings hold the same characters.
pub fn str_eq(a: &str, b: &str) -> (r: bool)
    ensures
        r == (a@ == b@),
{
    a.to_owned() == b.to_owned()
}

/// Whether `needle` occurs in `hay` at index `i`.
fn matches_at(hay: &Vec<char>, needle: &Vec<char>, i: usize) -> (r: bool)
    requires
        i <= hay@.len(),
    ensures
        r == occurs_at(hay@, needle@, i as int),
{
    if needle.len() > hay.len() - i {
        return false;
    }
    let mut k: usize = 0;
    while k < needle.len()
        invariant
            i + needle.len() <= hay.len(),
            k <= needle@.len(),
            forall|j: int| 0 <= j < k ==> hay@[i + j] == needle@[j],
        decreases needle.len() - k,
    {
        if hay[i + k] != needle[k] {
            assert(hay@.subrange(i as int, i + needle@.len())[k as int] != needle@[k as int]);
            return false;
        }
        k = k + 1;
    }
    assert(hay@.subrange(i as int, i + needle@.len()) =~= needle@);
    true
}

/// Whether `needle` occurs anywhere in `hay`.
pub fn contains_chars(hay: &Vec<char>, needle: &Vec<char>) -> (r: bool)
    ensures
        r == seq_contains(hay@, needle@),
{
    if needle.len() > hay.len() {
        return false;
    }
    if needle.len() == 0 {
        assert(hay@.subrange(0, 0) =~= needle@);
        assert(occurs_at(hay@, needle@, 0));
        return true;
    }
    let last = hay.len() - needle.len();
    let mut i: usize = 0;
    while i <= last
        invariant
            needle@.len() > 0,
            last == hay@.len() - needle@.len(),
            last < hay.len(),
            i <= last + 1,
            forall|j: int| 0 <= j < i ==> !occurs_at(hay@, needle@, j),
        decreases last + 1 - i,
    {
        if matches_at(hay, needle, i) {
            return true;
        }
        i = i + 1;
    }
    assert forall|j: int| !occurs_at(hay@, needle@, j) by {
        if 0 <= j && j + needle@.len() <= hay@.len() {
            assert(j <= last);
        }
    }
    false
}

/// Whether `lit` occurs anywhere in `hay`.
pub fn contains_str(hay: &Vec<char>, lit: &str) -> (r: bool)
    ensures
        r == seq_contains(hay@, lit@),
{
    let needle = chars_of(lit);
    contains_chars(hay, &needle)
}

/// Whether `c` is white space, as `char::is_whitespace` defines it (the
/// Unicode White_Space property).
pub open spec fn is_ws(c: char) -> bool {
    c == '\t' || c == '\n' || c == '\u{0B}' || c == '\u{0C}' || c == '\r' || c == ' ' || c == '\u{85}'
        || c == '\u{A0}' || c == '\u{1680}' || ('\u{2000}' <= c && c <= '\u{200A}') || c == '\u{2028}'
        || c == '\u{2029}' || c == '\u{202F}' || c == '\u{205F}' || c == '\u{3000}'
}

/// Whether `c` is white space.
pub fn is_whitespace(c: char) -> (r: bool)
    ensures
        r == is_ws(c),
{
    c == '\t' || c == '\n' || c == '\u{0B}' || c == '\u{0C}' || c == '\r' || c == ' ' || c == '\u{85}'
        || c == '\u{A0}' || c == '\u{1680}' || ('\u{2000}' <= c && c <= '\u{200A}') || c == '\u{2028}'
        || c == '\u{2029}' || c == '\u{202F}' || c == '\u{205F}' || c == '\u{3000}'
}

/// `s` without its leading white space.
pub open spec fn trim_start(s: Seq<char>) -> Seq<char>
    decreases s.len(),
{
    if s.len() > 0 && is_ws(s[0]) { trim_start(s.drop_first()) } else { s }
}

/// `s` without its trailing white space.
pub open spec fn trim_end(s: Seq<char>) -> Seq<char>
    decreases s.len(),
{
    if s.len() > 0 && is_ws(s.last()) { trim_end(s.drop_last()) } else { s }
}

/// `s` without leading and trailing white space.
pub open spec fn trim(s: Seq<char>) -> Seq<char> {
    trim_end(trim_start(s))
}

/// Index of the first `c` in `s`, or -1.
pub open spec fn first_index_of(s: Seq<char>, c: char) -> int
    decreases s.len(),
{
    if s.len() == 0 {
        -1
    } else if s[0] == c {
        0
    } else if first_index_of(s.drop_first(), c) < 0 {
        -1
    } else {
        first_index_of(s.drop_first(), c) + 1
    }
}

/// `l` without one trailing carriage return.
pub open spec fn strip_cr(l: Seq<char>) -> Seq<char> {
    if l.len() > 0 && l.last() == '\r' { l.drop_last() } else { l }
}

/// The lines of `s`, as `str::lines` gives them: split at each line feed,
/// a carriage return before it dropped; no empty line after a final line feed.
pub open spec fn lines_of(s: Seq<char>) -> Seq<Seq<char>>
    decreases s.len(),
{
    if s.len() == 0 {
        Seq::empty()
    } else {
        let i = first_index_of(s, '\n');
        if i < 0 || i >= s.len() {
            seq![s]
        } else {
            seq![strip_cr(s.subrange(0, i))] + lines_of(s.subrange(i + 1, s.len() as int))
        }
    }
}

/// Index of the first `c` at or after `from` in `cs`, or `cs.len()`.
fn find_from(cs: &Vec<char>, c: char, from: usize) -> (r: usize)
    requires
        from <= cs@.len(),
    ensures
        from <= r <= cs@.len(),
        r < cs@.len() ==> cs@[r as int] == c,
        forall|j: int| from <= j < r ==> cs@[j] != c,
{
    let mut i = from;
    while i < cs.len()
        invariant
            from <= i <= cs@.len(),
            forall|j: int| from <= j < i ==> cs@[j] != c,
        decreases cs.len() - i,
    {
        if cs[i] == c {
            return i;
        }
        i = i + 1;
    }
    i
}

proof fn lemma_first_index_at(s: Seq<char>, c: char, k: int)
    requires
        0 <= k <= s.len(),
        k < s.len() ==> s[k] == c,
        forall|j: int| 0 <= j < k ==> s[j] != c,
    ensures
        first_index_of(s, c) == if k < s.len() { k } else { -1 },
    decreases s.len(),
{
    if s.len() > 0 && k > 0 {
        assert forall|j: int| 0 <= j < k - 1 implies s.drop_first()[j] != c by {
            assert(s.drop_first()[j] == s[j + 1]);
        }
        lemma_first_index_at(s.drop_first(), c, k - 1);
    }
}

/// The lines of `s`.
pub fn lines(s: &str) -> (r: Vec<String>)
    ensures
        r@.map_values(|x: String| x@) == lines_of(s@),
{
    let cs = chars_of(s);
    let mut out: Vec<String> = Vec::new();
    let mut start: usize = 0;
    proof {
        assert(cs@.subrange(0, cs@.len() as int) == cs@);
        assert(out@.map_values(|x: String| x@) + lines_of(cs@) =~= lines_of(cs@));
    }
    while start < cs.len()
        invariant
            start <= cs@.len(),
            cs@ == s@,
            out@.map_values(|x: String| x@) + lines_of(cs@.subrange(start as int, cs@.len() as int)) == lines_of(s@),
        decreases cs.len() - start,
    {
        let ghost rest = cs@.subrange(start as int, cs@.len() as int);
        let nl = find_from(&cs, '\n', start);
        proof {
            lemma_first_index_at(rest, '\n', nl - start);
        }
        let mut end = nl;
        if end > start && cs[end - 1] == '\r' && nl < cs.len() {
            end = end - 1;
        }
        let line = string_of_range(&cs, start, end);
        let ghost o0 = out@;
        out.push(line);
        proof {
            assert(out@.map_values(|x: String| x@) =~= o0.map_values(|x: String| x@).push(line@));
            if nl < cs.len() {
                assert(rest.subrange(0, nl - start) == cs@.subrange(start as int, nl as int));
                assert(rest.subrange(nl - start + 1, rest.len() as int) == cs@.subrange(nl + 1, cs@.len() as int));
                assert(line@ == strip_cr(rest.subrange(0, nl - start)));
                assert(lines_of(rest) == seq![line@] + lines_of(cs@.subrange(nl + 1, cs@.len() as int)));
            } else {
                assert(rest == cs@.subrange(start as int, nl as int));
                assert(lines_of(rest) == seq![line@]);
                assert(lines_of(cs@.subrange(cs@.len() as int, cs@.len() as int)) =~= Seq::<Seq<char>>::empty());
            }
            assert(o0.map_values(|x: String| x@).push(line@) =~= o0.map_values(|x: String| x@) + seq![line@]);
        }
        if nl < cs.len() {
            start = nl + 1;
        } else {
            start = cs.len();
        }
    }
    proof {
        assert(lines_of(cs@.subrange(start as int, cs@.len() as int)) =~= Seq::<Seq<char>>::empty());
        assert(out@.map_values(|x: String| x@) + Seq::<Seq<char>>::empty() =~= out@.map_values(|x: String| x@));
    }
    out
}

/// `s` without leading and trailing white space.
pub fn trimmed(s: &str) -> (r: String)
    ensures
        r@ == trim(s@),
{
    let cs = chars_of(s);
    let mut a: usize = 0;
    proof {
        assert(cs@.subrange(0, cs@.len() as int) == cs@);
    }
    while a < cs.len() && is_whitespace(cs[a])
        invariant
            a <= cs@.len(),
            trim_start(cs@) == trim_start(cs@.subrange(a as int, cs@.len() as int)),
        decreases cs.len() - a,
    {
        assert(cs@.subrange(a as int, cs@.len() as int).drop_first() == cs@.subrange(a + 1, cs@.len() as int));
        a = a + 1;
    }
    let mut b: usize = cs.len();
    assert(trim_start(cs@) == cs@.subrange(a as int, b as int));
    while b > a && is_whitespace(cs[b - 1])
        invariant
            a <= b <= cs@.len(),
            trim(cs@) == trim_end(cs@.subrange(a as int, b as int)),
        decreases b - a,
    {
        assert(cs@.subrange(a as int, b as int).drop_last() == cs@.subrange(a as int, b - 1));
        b = b - 1;
    }
    string_of_range(&cs, a, b)
}

/// Index of the first occurrence of `sep` in `s`, or -1.
pub open spec fn first_occurrence(s: Seq<char>, sep: Seq<char>) -> int
    decreases s.len(),
{
    if s.len() < sep.len() {
        -1
    } else if occurs_at(s, sep, 0) {
        0
    } else if s.len() == 0 || first_occurrence(s.drop_first(), sep) < 0 {
        -1
    } else {
        first_occurrence(s.drop_first(), sep) + 1
    }
}

/// The pieces of `s` between the occurrences of `sep`, as `str::split` gives them.
pub open spec fn split_on(s: Seq<char>, sep: Seq<char>) -> Seq<Seq<char>>
    decreases s.len(),
{
    let i = first_occurrence(s, sep);
    if sep.len() == 0 || i < 0 || i + sep.len() > s.len() {
        seq![s]
    } else {
        seq![s.subrange(0, i)] + split_on(s.subrange(i + sep.len(), s.len() as int), sep)
    }
}

proof fn lemma_first_occurrence_at(s: Seq<char>, sep: Seq<char>, k: int)
    requires
        sep.len() > 0,
        0 <= k <= s.len(),
        k < s.len() ==> occurs_at(s, sep, k),
        k == s.len() ==> forall|j: int| 0 <= j <= s.len() ==> !occurs_at(s, sep, j),
        forall|j: int| 0 <= j < k ==> !occurs_at(s, sep, j),
    ensures
        first_occurrence(s, sep) == if k < s.len() { k } else { -1 },
    decreases s.len(),
{
    if s.len() >= sep.len() && !occurs_at(s, sep, 0) && s.len() > 0 {
        let t = s.drop_first();
        assert forall|j: int| 0 <= j <= t.len() && occurs_at(t, sep, j) implies occurs_at(s, sep, j + 1) by {
            assert(t.subrange(j, j + sep.len()) == s.subrange(j + 1, j + 1 + sep.len()));
        }
        assert forall|j: int| 0 <= j <= s.len() && j >= 1 && occurs_at(s, sep, j) implies occurs_at(t, sep, j - 1) by {
            assert(t.subrange(j - 1, j - 1 + sep.len()) == s.subrange(j, j + sep.len()));
        }
        if k == s.len() {
            lemma_first_occurrence_at(t, sep, t.len() as int);
        } else {
            lemma_first_occurrence_at(t, sep, k - 1);
        }
    } else if s.len() < sep.len() {
        if k < s.len() {
            assert(false);
        }
    }
}

/// The pieces of `s` between the occurrences of `sep`.
pub fn split_text(s: &str, sep: &str) -> (r: Vec<String>)
    requires
        sep@.len() > 0,
    ensures
        r@.map_values(|x: String| x@) == split_on(s@, sep@),
{
    let cs = chars_of(s);
    let needle = chars_of(sep);
    let mut out: Vec<String> = Vec::new();
    let mut start: usize = 0;
    let mut i: usize = 0;
    proof {
        assert(cs@.subrange(0, cs@.len() as int) == cs@);
        assert(out@.map_values(|x: String| x@) + split_on(cs@, needle@) =~= split_on(cs@, needle@));
    }
    while i < cs.len()
        invariant
            cs@ == s@,
            needle@ == sep@,
            needle@.len() > 0,
            start <= i <= cs@.len(),
            forall|j: int| start <= j < i ==> !occurs_at(cs@, needle@, j),
            out@.map_values(|x: String| x@) + split_on(cs@.subrange(start as int, cs@.len() as int), needle@) == split_on(s@, sep@),
        decreases cs.len() - i,
    {
        if matches_at(&cs, &needle, i) {
            let ghost rest = cs@.subrange(start as int, cs@.len() as int);
            proof {
                assert forall|j: int| 0 <= j < i - start implies !occurs_at(rest, needle@, j) by {
                    if occurs_at(rest, needle@, j) {
                        assert(rest.subrange(j, j + needle@.len()) == cs@.subrange(start + j, start + j + needle@.len()));
                        assert(occurs_at(cs@, needle@, start + j));
                    }
                }
                assert(rest.subrange(i - start, i - start + needle@.len()) == cs@.subrange(i as int, i + needle@.len()));
                lemma_first_occurrence_at(rest, needle@, i - start);
                assert(rest.subrange(0, i - start) == cs@.subrange(start as int, i as int));
                assert(rest.subrange(i - start + needle@.len(), rest.len() as int) == cs@.subrange(i + needle@.len(), cs@.len() as int));
            }
            let piece = string_of_range(&cs, start, i);
            let ghost o0 = out@;
            out.push(piece);
            proof {
                assert(out@.map_values(|x: String| x@) =~= o0.map_values(|x: String| x@) + seq![piece@]);
            }
            start = i + needle.len();
            i = start;
        } else {
            i = i + 1;
        }
    }
    let ghost rest = cs@.subrange(start as int, cs@.len() as int);
    proof {
        assert forall|j: int| 0 <= j <= rest.len() implies !occurs_at(rest, needle@, j) by {
            if occurs_at(rest, needle@, j) {
                assert(rest.subrange(j, j + needle@.len()) == cs@.subrange(start + j, start + j + needle@.len()));
                assert(occurs_at(cs@, needle@, start + j));
            }
        }
        lemma_first_occurrence_at(rest, needle@, rest.len() as int);
    }
    let last = string_of_range(&cs, start, cs.len());
    let ghost o0 = out@;
    out.push(last);
    proof {
        assert(out@.map_values(|x: String| x@) =~= o0.map_values(|x: String| x@) + seq![last@]);
    }
    out
}

} // verus!
