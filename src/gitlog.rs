//! Reading what git prints: the commit log, the branch list, the remotes
//! and the commit count.

use vstd::prelude::*;
use crate::text::{chars_of, is_whitespace, is_ws, lines, lines_of, split_on, split_text, starts_with, str_eq, string_of_range, trim, trim_start, trimmed};

verus! {

/// A git remote.
#[derive(Debug, Clone)]
pub struct GitRemote {
    pub name: String,
    pub url: String,
}

/// What the picker shows of a repository's git state.
#[derive(Debug, Clone)]
pub struct GitStatus {
    pub is_git_repo: bool,
    pub has_uncommitted_changes: bool,
    pub uncommitted_files: Vec<String>,
    pub current_branch: Option<String>,
    pub last_commit_date: Option<String>,
    pub commit_count: Option<usize>,
    pub remotes: Vec<GitRemote>,
}

/// One commit of the log.
#[derive(Debug, Clone)]
pub struct GitCommit {
    pub hash: String,
    pub author: String,
    pub date: String,
    pub message: String,
}

/// The recent history of a repository.
#[derive(Debug, Clone)]
pub struct GitLog {
    pub commits: Vec<GitCommit>,
    pub total_commits: usize,
    pub branches: Vec<String>,
    pub current_branch: Option<String>,
}

/// The line that the log format puts after each commit.
pub open spec fn commit_separator() -> Seq<char> {
    "---COMMIT-SEPARATOR---"@
}

/// The lines `ls` joined with line feeds.
pub open spec fn join_lines(ls: Seq<Seq<char>>) -> Seq<char>
    decreases ls.len(),
{
    if ls.len() == 0 {
        Seq::empty()
    } else if ls.len() == 1 {
        ls[0]
    } else {
        join_lines(ls.drop_last()) + seq!['\n'] + ls.last()
    }
}

/// The commit a log block describes: hash, author, date and message lines,
/// where the trimmed block has at least four lines.
pub open spec fn commit_fields(block: Seq<char>) -> Option<(Seq<char>, Seq<char>, Seq<char>, Seq<char>)> {
    let ls = lines_of(trim(block));
    if ls.len() >= 4 {
        Some((ls[0], ls[1], ls[2], join_lines(ls.subrange(3, ls.len() as int))))
    } else {
        None
    }
}

/// The commits that the blocks describe, in order.
pub open spec fn commits_in(blocks: Seq<Seq<char>>) -> Seq<(Seq<char>, Seq<char>, Seq<char>, Seq<char>)>
    decreases blocks.len(),
{
    if blocks.len() == 0 {
        Seq::empty()
    } else {
        let rest = commits_in(blocks.drop_last());
        match commit_fields(blocks.last()) {
            Some(c) => rest.push(c),
            None => rest,
        }
    }
}

/// The fields of a commit.
pub open spec fn commit_view(c: GitCommit) -> (Seq<char>, Seq<char>, Seq<char>, Seq<char>) {
    (c.hash@, c.author@, c.date@, c.message@)
}

/// The views of a list of strings.
pub open spec fn views(v: Seq<String>) -> Seq<Seq<char>> {
    v.map_values(|s: String| s@)
}

/// `ls[from..]` joined with line feeds.
fn join_from(ls: &Vec<String>, from: usize) -> (r: String)
    requires
        from <= ls@.len(),
    ensures
        r@ == join_lines(views(ls@).subrange(from as int, ls@.len() as int)),
{
    let mut out = String::new();
    let mut i = from;
    proof {
        assert(views(ls@).subrange(from as int, from as int) =~= Seq::<Seq<char>>::empty());
    }
    while i < ls.len()
        invariant
            from <= i <= ls@.len(),
            out@ == join_lines(views(ls@).subrange(from as int, i as int)),
        decreases ls.len() - i,
    {
        let ghost prev = views(ls@).subrange(from as int, i as int);
        let ghost next = views(ls@).subrange(from as int, i + 1);
        proof {
            assert(next.drop_last() == prev);
            assert(next.last() == ls@[i as int]@);
        }
        if i > from {
            out.append("\n");
            proof {
                reveal_strlit("\n");
            }
        }
        out.append(ls[i].as_str());
        proof {
            if i > from {
                assert(out@ == join_lines(prev) + seq!['\n'] + ls@[i as int]@);
            } else {
                assert(prev.len() == 0);
                assert(out@ =~= ls@[i as int]@);
            }
        }
        i = i + 1;
    }
    out
}

/// The commits of a `git log` text whose entries end with the commit separator.
pub fn parse_git_log(text: &str) -> (r: Vec<GitCommit>)
    ensures
        r@.map_values(|c: GitCommit| commit_view(c)) == commits_in(split_on(text@, commit_separator())),
{
    proof {
        reveal_strlit("---COMMIT-SEPARATOR---");
    }
    let blocks = split_text(text, "---COMMIT-SEPARATOR---");
    let ghost bs = views(blocks@);
    let mut out: Vec<GitCommit> = Vec::new();
    let mut i: usize = 0;
    while i < blocks.len()
        invariant
            bs == views(blocks@),
            bs == split_on(text@, commit_separator()),
            i <= blocks@.len(),
            out@.map_values(|c: GitCommit| commit_view(c)) == commits_in(bs.subrange(0, i as int)),
        decreases blocks.len() - i,
    {
        proof {
            assert(bs.subrange(0, i + 1).drop_last() == bs.subrange(0, i as int));
            assert(bs.subrange(0, i + 1).last() == blocks@[i as int]@);
        }
        let t = trimmed(blocks[i].as_str());
        let ls = lines(t.as_str());
        if ls.len() >= 4 {
            let message = join_from(&ls, 3);
            let c = GitCommit { hash: ls[0].clone(), author: ls[1].clone(), date: ls[2].clone(), message };
            let ghost o0 = out@;
            out.push(c);
            proof {
                assert(views(ls@)[0] == ls@[0]@);
                assert(views(ls@)[1] == ls@[1]@);
                assert(views(ls@)[2] == ls@[2]@);
                assert(out@.map_values(|c: GitCommit| commit_view(c)) =~= o0.map_values(|c: GitCommit| commit_view(c)).push(commit_view(c)));
            }
        }
        i = i + 1;
    }
    proof {
        assert(bs.subrange(0, bs.len() as int) == bs);
    }
    out
}

/// `s` without every leading repetition of `p`.
pub open spec fn strip_all(s: Seq<char>, p: Seq<char>) -> Seq<char>
    decreases s.len(),
{
    if p.len() > 0 && starts_with(s, p) { strip_all(s.subrange(p.len() as int, s.len() as int), p) } else { s }
}

/// The branch names of a `git branch -a` text: each line trimmed, the
/// current-branch marker removed, empty lines left out.
pub open spec fn branches_in(ls: Seq<Seq<char>>) -> Seq<Seq<char>>
    decreases ls.len(),
{
    if ls.len() == 0 {
        Seq::empty()
    } else {
        let rest = branches_in(ls.drop_last());
        let b = strip_all(trim(ls.last()), seq!['*', ' ']);
        if b.len() > 0 { rest.push(b) } else { rest }
    }
}

fn strip_marker(s: &str) -> (r: String)
    ensures
        r@ == strip_all(s@, seq!['*', ' ']),
{
    let cs = chars_of(s);
    let ghost m = seq!['*', ' '];
    let mut a: usize = 0;
    proof {
        assert(cs@.subrange(0, cs@.len() as int) == cs@);
    }
    while cs.len() - a >= 2 && cs[a] == '*' && cs[a + 1] == ' '
        invariant
            m == seq!['*', ' '],
            a <= cs@.len(),
            strip_all(s@, m) == strip_all(cs@.subrange(a as int, cs@.len() as int), m),
        decreases cs.len() - a,
    {
        proof {
            let t = cs@.subrange(a as int, cs@.len() as int);
            assert(t.subrange(0, 2) =~= m);
            assert(t.subrange(2, t.len() as int) =~= cs@.subrange(a + 2, cs@.len() as int));
        }
        a = a + 2;
    }
    proof {
        let t = cs@.subrange(a as int, cs@.len() as int);
        if starts_with(t, m) {
            assert(t[0] == t.subrange(0, 2)[0]);
            assert(t[1] == t.subrange(0, 2)[1]);
        }
    }
    string_of_range(&cs, a, cs.len())
}

/// The branch names of a `git branch -a` text.
pub fn parse_branches(text: &str) -> (r: Vec<String>)
    ensures
        views(r@) == branches_in(lines_of(text@)),
{
    let ls = lines(text);
    let ghost lv = views(ls@);
    let mut out: Vec<String> = Vec::new();
    let mut i: usize = 0;
    while i < ls.len()
        invariant
            lv == views(ls@),
            lv == lines_of(text@),
            i <= ls@.len(),
            views(out@) == branches_in(lv.subrange(0, i as int)),
        decreases ls.len() - i,
    {
        proof {
            assert(lv.subrange(0, i + 1).drop_last() == lv.subrange(0, i as int));
            assert(lv.subrange(0, i + 1).last() == ls@[i as int]@);
        }
        let t = trimmed(ls[i].as_str());
        let b = strip_marker(t.as_str());
        if !b.as_str().is_empty() {
            let ghost o0 = out@;
            out.push(b);
            proof {
                assert(views(out@) =~= views(o0).push(out@.last()@));
            }
        }
        i = i + 1;
    }
    proof {
        assert(lv.subrange(0, lv.len() as int) == lv);
    }
    out
}

/// Length of the leading run of non-white-space characters of `t`.
pub open spec fn word_len(t: Seq<char>) -> int
    decreases t.len(),
{
    if t.len() == 0 || is_ws(t[0]) { 0 } else { word_len(t.drop_first()) + 1 }
}

proof fn lemma_word_len(t: Seq<char>)
    ensures
        0 <= word_len(t) <= t.len(),
    decreases t.len(),
{
    if t.len() > 0 && !is_ws(t[0]) {
        lemma_word_len(t.drop_first());
    }
}

/// The first two white-space-separated words of a `git remote -v` line,
/// where it has two: the remote's name and URL.
pub open spec fn remote_fields(line: Seq<char>) -> Option<(Seq<char>, Seq<char>)> {
    let t = trim_start(line);
    let n = word_len(t);
    let r = trim_start(t.subrange(n, t.len() as int));
    let u = word_len(r);
    if n > 0 && u > 0 {
        Some((t.subrange(0, n), r.subrange(0, u)))
    } else {
        None
    }
}

/// The remotes of a `git remote -v` text, each name once (its first line).
pub open spec fn remotes_in(ls: Seq<Seq<char>>) -> Seq<(Seq<char>, Seq<char>)>
    decreases ls.len(),
{
    if ls.len() == 0 {
        Seq::empty()
    } else {
        let rest = remotes_in(ls.drop_last());
        match remote_fields(ls.last()) {
            Some(f) => if exists|i: int| 0 <= i < rest.len() && (#[trigger] rest[i]).0 == f.0 { rest } else { rest.push(f) },
            None => rest,
        }
    }
}

/// Index of the first character at or after `from` that is not white space.
fn skip_ws(cs: &Vec<char>, from: usize) -> (r: usize)
    requires
        from <= cs@.len(),
    ensures
        from <= r <= cs@.len(),
        cs@.subrange(r as int, cs@.len() as int) == trim_start(cs@.subrange(from as int, cs@.len() as int)),
{
    let mut i = from;
    while i < cs.len() && is_whitespace(cs[i])
        invariant
            from <= i <= cs@.len(),
            trim_start(cs@.subrange(from as int, cs@.len() as int)) == trim_start(cs@.subrange(i as int, cs@.len() as int)),
        decreases cs.len() - i,
    {
        assert(cs@.subrange(i as int, cs@.len() as int).drop_first() == cs@.subrange(i + 1, cs@.len() as int));
        i = i + 1;
    }
    i
}

/// Index of the first white-space character at or after `from`, or the end.
fn word_end(cs: &Vec<char>, from: usize) -> (r: usize)
    requires
        from <= cs@.len(),
    ensures
        from <= r <= cs@.len(),
        r - from == word_len(cs@.subrange(from as int, cs@.len() as int)),
{
    let mut i = from;
    while i < cs.len() && !is_whitespace(cs[i])
        invariant
            from <= i <= cs@.len(),
            word_len(cs@.subrange(from as int, cs@.len() as int)) == (i - from) + word_len(cs@.subrange(i as int, cs@.len() as int)),
        decreases cs.len() - i,
    {
        assert(cs@.subrange(i as int, cs@.len() as int).drop_first() == cs@.subrange(i + 1, cs@.len() as int));
        i = i + 1;
    }
    i
}

/// The name and URL on a `git remote -v` line, where it has both.
fn remote_on_line(line: &str) -> (r: Option<(String, String)>)
    ensures
        r matches Some(p) ==> remote_fields(line@) == Some((p.0@, p.1@)),
        r is None ==> remote_fields(line@) is None,
{
    let cs = chars_of(line);
    proof {
        assert(cs@.subrange(0, cs@.len() as int) == cs@);
    }
    let a = skip_ws(&cs, 0);
    let b = word_end(&cs, a);
    let c = skip_ws(&cs, b);
    let d = word_end(&cs, c);
    let ghost t = cs@.subrange(a as int, cs@.len() as int);
    proof {
        lemma_word_len(t);
        assert(t.subrange(b - a, t.len() as int) == cs@.subrange(b as int, cs@.len() as int));
        let rr = cs@.subrange(c as int, cs@.len() as int);
        assert(t.subrange(0, b - a) == cs@.subrange(a as int, b as int));
        assert(rr.subrange(0, d - c) == cs@.subrange(c as int, d as int));
    }
    if b > a && d > c {
        Some((string_of_range(&cs, a, b), string_of_range(&cs, c, d)))
    } else {
        None
    }
}

/// The remotes of a `git remote -v` text, each name once.
pub fn parse_remotes(text: &str) -> (r: Vec<GitRemote>)
    ensures
        r@.map_values(|g: GitRemote| (g.name@, g.url@)) == remotes_in(lines_of(text@)),
{
    let ls = lines(text);
    let ghost lv = views(ls@);
    let mut out: Vec<GitRemote> = Vec::new();
    let mut i: usize = 0;
    while i < ls.len()
        invariant
            lv == views(ls@),
            lv == lines_of(text@),
            i <= ls@.len(),
            out@.map_values(|g: GitRemote| (g.name@, g.url@)) == remotes_in(lv.subrange(0, i as int)),
        decreases ls.len() - i,
    {
        let ghost q = lv.subrange(0, i + 1);
        let ghost rest = remotes_in(lv.subrange(0, i as int));
        proof {
            assert(q.drop_last() == lv.subrange(0, i as int));
            assert(q.last() == ls@[i as int]@);
        }
        match remote_on_line(ls[i].as_str()) {
            Some((name, url)) => {
                let mut seen = false;
                let mut k: usize = 0;
                while k < out.len()
                    invariant
                        k <= out@.len(),
                        rest == out@.map_values(|g: GitRemote| (g.name@, g.url@)),
                        seen == exists|j: int| 0 <= j < k && (#[trigger] rest[j]).0 == name@,
                    decreases out.len() - k,
                {
                    if str_eq(out[k].name.as_str(), name.as_str()) {
                        seen = true;
                    }
                    proof {
                        if seen {
                            if out@[k as int].name@ == name@ {
                                assert(rest[k as int].0 == name@);
                            }
                        }
                        if exists|j: int| 0 <= j < k + 1 && (#[trigger] rest[j]).0 == name@ {
                            let j = choose|j: int| 0 <= j < k + 1 && (#[trigger] rest[j]).0 == name@;
                            if j == k {
                                assert(out@[k as int].name@ == name@);
                            }
                        }
                    }
                    k = k + 1;
                }
                if !seen {
                    let ghost o0 = out@;
                    let g = GitRemote { name, url };
                    let ghost gv = (g.name@, g.url@);
                    out.push(g);
                    proof {
                        assert(out@.map_values(|g: GitRemote| (g.name@, g.url@)) =~= o0.map_values(|g: GitRemote| (g.name@, g.url@)).push(gv));
                    }
                }
            },
            None => {},
        }
        i = i + 1;
    }
    proof {
        assert(lv.subrange(0, lv.len() as int) == lv);
    }
    out
}

/// Whether every character of `s` is an ASCII digit.
pub open spec fn all_digits(s: Seq<char>) -> bool {
    forall|i: int| 0 <= i < s.len() ==> '0' <= #[trigger] s[i] <= '9'
}

/// The number the decimal digits `s` spell.
pub open spec fn digits_value(s: Seq<char>) -> int
    decreases s.len(),
{
    if s.len() == 0 { 0 } else { digits_value(s.drop_last()) * 10 + (s.last() as int - '0' as int) }
}

/// What `usize::from_str` makes of `s`: an optional `+` and at least one
/// digit, of a value that fits.
pub open spec fn parsed_count(s: Seq<char>) -> Option<int> {
    let d = if s.len() > 0 && s[0] == '+' { s.drop_first() } else { s };
    if d.len() > 0 && all_digits(d) && digits_value(d) <= usize::MAX { Some(digits_value(d)) } else { None }
}

proof fn lemma_digits_grow(s: Seq<char>, i: int)
    requires
        all_digits(s),
        0 <= i <= s.len(),
    ensures
        0 <= digits_value(s.subrange(0, i)) <= digits_value(s),
    decreases s.len() - i,
{
    if i < s.len() {
        lemma_digits_grow(s, i + 1);
        assert(s.subrange(0, i + 1).drop_last() == s.subrange(0, i));
        assert(s.subrange(0, i + 1).last() == s[i]);
        assert('0' <= s[i] <= '9');
    } else {
        assert(s.subrange(0, i) == s);
        lemma_digits_nonneg(s);
    }
}

proof fn lemma_digits_nonneg(s: Seq<char>)
    requires
        all_digits(s),
    ensures
        digits_value(s) >= 0,
    decreases s.len(),
{
    if s.len() > 0 {
        assert(all_digits(s.drop_last())) by {
            assert forall|i: int| 0 <= i < s.drop_last().len() implies '0' <= #[trigger] s.drop_last()[i] <= '9' by {
                assert(s.drop_last()[i] == s[i]);
            }
        }
        lemma_digits_nonneg(s.drop_last());
        assert('0' <= s[s.len() - 1] <= '9');
    }
}

/// The number a trimmed `git rev-list --count` text holds, if it is one.
pub fn parse_count(text: &str) -> (r: Option<usize>)
    ensures
        r matches Some(n) ==> parsed_count(trim(text@)) == Some(n as int),
        r is None ==> parsed_count(trim(text@)) is None,
{
    let t = trimmed(text);
    let cs = chars_of(t.as_str());
    let start: usize = if cs.len() > 0 && cs[0] == '+' { 1 } else { 0 };
    let ghost d = cs@.subrange(start as int, cs@.len() as int);
    proof {
        if start == 1 {
            assert(d == cs@.drop_first());
        } else {
            assert(d == cs@);
        }
    }
    proof {
        assert(cs@ == trim(text@));
        assert(parsed_count(cs@) == (if d.len() > 0 && all_digits(d) && digits_value(d) <= usize::MAX {
            Some(digits_value(d))
        } else {
            None
        }));
    }
    if start >= cs.len() {
        return None;
    }
    let mut v: usize = 0;
    let mut i: usize = start;
    while i < cs.len()
        invariant
            start <= i <= cs@.len(),
            cs@ == trim(text@),
            d == cs@.subrange(start as int, cs@.len() as int),
            parsed_count(cs@) == (if d.len() > 0 && all_digits(d) && digits_value(d) <= usize::MAX {
                Some(digits_value(d))
            } else {
                None
            }),
            all_digits(d.subrange(0, i - start)),
            v == digits_value(d.subrange(0, i - start)),
        decreases cs.len() - i,
    {
        let c = cs[i];
        let ghost p = d.subrange(0, i - start);
        let ghost q = d.subrange(0, i + 1 - start);
        proof {
            assert(q.drop_last() == p);
            assert(q.last() == c);
        }
        if c < '0' || c > '9' {
            proof {
                assert(d[i - start] == c);
                assert(!all_digits(d));
            }
            return None;
        }
        let digit = (c as u32 - '0' as u32) as usize;
        if v > (usize::MAX - digit) / 10 {
            proof {
                assert(all_digits(q)) by {
                    assert forall|j: int| 0 <= j < q.len() implies '0' <= #[trigger] q[j] <= '9' by {
                        if j < p.len() {
                            assert(q[j] == p[j]);
                        }
                    }
                }
                assert(digits_value(q) == v * 10 + digit);
                assert(v * 10 + digit > usize::MAX) by (nonlinear_arith)
                    requires
                        v > (usize::MAX - digit) / 10,
                        digit <= 9,
                ;
                if all_digits(d) {
                    lemma_digits_grow(d, i + 1 - start);
                    assert(digits_value(d) > usize::MAX);
                }
            }
            return None;
        }
        proof {
            assert(v * 10 + digit <= usize::MAX) by (nonlinear_arith)
                requires
                    v <= (usize::MAX - digit) / 10,
                    digit <= 9,
            ;
        }
        v = v * 10 + digit;
        proof {
            assert(all_digits(q)) by {
                assert forall|j: int| 0 <= j < q.len() implies '0' <= #[trigger] q[j] <= '9' by {
                    if j < p.len() {
                        assert(q[j] == p[j]);
                    }
                }
            }
        }
        i = i + 1;
    }
    proof {
        assert(d.subrange(0, cs@.len() - start) == d);
    }
    Some(v)
}

/// The history of a repository from git's outputs: the log text, the
/// branch list and the commit count where git gave them, and the current
/// branch (trimmed). Without a count, the number of parsed commits stands in.
pub fn git_log_from(log_text: &str, branches_text: Option<String>, head_text: Option<String>, count_text: Option<String>) -> (g: GitLog)
    ensures
        g.commits@.map_values(|c: GitCommit| commit_view(c)) == commits_in(split_on(log_text@, commit_separator())),
        views(g.branches@) == match branches_text {
            Some(t) => branches_in(lines_of(t@)),
            None => Seq::<Seq<char>>::empty(),
        },
        g.current_branch matches Some(b) ==> head_text matches Some(h) && b@ == trim(h@),
        g.current_branch is None ==> head_text is None,
        g.total_commits == match count_text {
            Some(t) => match parsed_count(trim(t@)) {
                Some(n) => n,
                None => g.commits@.len() as int,
            },
            None => g.commits@.len() as int,
        },
{
    let commits = parse_git_log(log_text);
    let branches = match &branches_text {
        Some(t) => parse_branches(t.as_str()),
        None => Vec::new(),
    };
    proof {
        if branches_text is None {
            assert(views(branches@) =~= Seq::<Seq<char>>::empty());
        }
    }
    let current_branch = match &head_text {
        Some(h) => Some(trimmed(h.as_str())),
        None => None,
    };
    let total_commits = match &count_text {
        Some(t) => match parse_count(t.as_str()) {
            Some(n) => n,
            None => commits.len(),
        },
        None => commits.len(),
    };
    GitLog { commits, total_commits, branches, current_branch }
}

/// The git state the picker shows: whether the directory is a repository,
/// and its remotes where git listed them.
pub fn git_status_from(is_git_repo: bool, remote_text: Option<String>) -> (s: GitStatus)
    ensures
        s.is_git_repo == is_git_repo,
        !s.has_uncommitted_changes,
        s.uncommitted_files@.len() == 0,
        s.current_branch is None && s.last_commit_date is None && s.commit_count is None,
        s.remotes@.map_values(|g: GitRemote| (g.name@, g.url@)) == match remote_text {
            Some(t) => if is_git_repo { remotes_in(lines_of(t@)) } else { Seq::empty() },
            None => Seq::<(Seq<char>, Seq<char>)>::empty(),
        },
{
    let remotes = match &remote_text {
        Some(t) if is_git_repo => parse_remotes(t.as_str()),
        _ => Vec::new(),
    };
    proof {
        if remote_text is None || !is_git_repo {
            assert(remotes@.map_values(|g: GitRemote| (g.name@, g.url@)) =~= Seq::<(Seq<char>, Seq<char>)>::empty());
        }
    }
    GitStatus {
        is_git_repo,
        has_uncommitted_changes: false,
        uncommitted_files: Vec::new(),
        current_branch: None,
        last_commit_date: None,
        commit_count: None,
        remotes,
    }
}

} // verus!
