//! Reading a model's reply: the reasoning block, the list of ideas, and the
//! key features of a summary.

use vstd::prelude::*;
use vstd::utf8::encode_utf8;
use crate::gitlog::strip_all;
use crate::text::{chars_of, contains_str, first_occurrence, lines, lines_of, push_char, seq_contains, starts_with, string_of_range, trim, trimmed};

verus! {

/// Where `s` holds a `<think>` tag followed later by `</think>`: the text
/// between the first such tag and the first closing tag after it, and the
/// text after that closing tag.
pub open spec fn think_split(s: Seq<char>) -> Option<(Seq<char>, Seq<char>)> {
    let i = first_occurrence(s, "<think>"@);
    let rest = s.subrange(i + 7, s.len() as int);
    let j = first_occurrence(rest, "</think>"@);
    if i < 0 || j < 0 {
        None
    } else {
        Some((rest.subrange(0, j), rest.subrange(j + 8, rest.len() as int)))
    }
}

/// Relies on regex's `Regex::captures` for `(?s)<think>(.*?)</think>(.*)`:
/// the leftmost match, whose lazy first group ends at the first closing tag
/// after the opening one and whose second group runs to the end.
#[verifier::external_body]
fn think_captures(s: &str) -> (r: Option<(String, String)>)
    ensures
        r matches Some(p) ==> think_split(s@) == Some((p.0@, p.1@)),
        r is None ==> think_split(s@) is None,
{
    let re = regex::Regex::new(r"(?s)<think>(.*?)</think>(.*)").unwrap();
    match re.captures(s) {
        Some(c) => Some((
            c.get(1).map_or("", |m| m.as_str()).to_string(),
            c.get(2).map_or("", |m| m.as_str()).to_string(),
        )),
        None => None,
    }
}

/// Splits a reply into its reasoning (trimmed) and its answer (trimmed);
/// a reply without a reasoning block is all answer, as it stands.
pub fn extract_thinking_and_response(content: &str) -> (r: (Option<String>, String))
    ensures
        match think_split(content@) {
            Some((t, a)) => r.0 matches Some(x) && x@ == trim(t) && r.1@ == trim(a),
            None => r.0 is None && r.1@ == content@,
        },
{
    match think_captures(content) {
        Some((thinking, response)) => (Some(trimmed(thinking.as_str())), trimmed(response.as_str())),
        None => (None, content.to_owned()),
    }
}

/// `s` without its leading run of `c`.
pub open spec fn strip_char(s: Seq<char>, c: char) -> Seq<char>
    decreases s.len(),
{
    if s.len() > 0 && s[0] == c { strip_char(s.drop_first(), c) } else { s }
}

/// The feature a summary line states: a trimmed line that starts with a
/// dash or a bullet, without them, trimmed, non-empty and under 200 bytes.
pub open spec fn feature_of(line: Seq<char>) -> Option<Seq<char>> {
    let t = trim(line);
    if t.len() > 0 && (t[0] == '-' || t[0] == '•') {
        let f = trim(strip_char(strip_char(t, '-'), '•'));
        if f.len() > 0 && (encode_utf8(f).len() as usize) < 200 { Some(f) } else { None }
    } else {
        None
    }
}

/// The features the lines state, in order.
pub open spec fn features_in(ls: Seq<Seq<char>>) -> Seq<Seq<char>>
    decreases ls.len(),
{
    if ls.len() == 0 {
        Seq::empty()
    } else {
        match feature_of(ls.last()) {
            Some(f) => features_in(ls.drop_last()).push(f),
            None => features_in(ls.drop_last()),
        }
    }
}

fn strip_leading(s: &str, c: char) -> (r: String)
    ensures
        r@ == strip_char(s@, c),
{
    let cs = chars_of(s);
    let mut a: usize = 0;
    proof {
        assert(cs@.subrange(0, cs@.len() as int) == cs@);
    }
    while a < cs.len() && cs[a] == c
        invariant
            a <= cs@.len(),
            strip_char(s@, c) == strip_char(cs@.subrange(a as int, cs@.len() as int), c),
        decreases cs.len() - a,
    {
        assert(cs@.subrange(a as int, cs@.len() as int).drop_first() == cs@.subrange(a + 1, cs@.len() as int));
        a = a + 1;
    }
    string_of_range(&cs, a, cs.len())
}

/// The views of a list of strings.
pub open spec fn views(v: Seq<String>) -> Seq<Seq<char>> {
    v.map_values(|s: String| s@)
}

/// The key features a summary lists as dash or bullet lines.
pub fn extract_key_features(summary: &str) -> (r: Vec<String>)
    ensures
        views(r@) == features_in(lines_of(summary@)),
{
    let ls = lines(summary);
    let ghost lv = views(ls@);
    let mut out: Vec<String> = Vec::new();
    let mut i: usize = 0;
    while i < ls.len()
        invariant
            lv == views(ls@),
            lv == lines_of(summary@),
            i <= ls@.len(),
            views(out@) == features_in(lv.subrange(0, i as int)),
        decreases ls.len() - i,
    {
        proof {
            assert(lv.subrange(0, i + 1).drop_last() == lv.subrange(0, i as int));
            assert(lv.subrange(0, i + 1).last() == ls@[i as int]@);
        }
        let t = trimmed(ls[i].as_str());
        let tc = chars_of(t.as_str());
        if tc.len() > 0 && (tc[0] == '-' || tc[0] == '•') {
            let a = strip_leading(t.as_str(), '-');
            let b = strip_leading(a.as_str(), '•');
            let f = trimmed(b.as_str());
            if !f.as_str().is_empty() && f.as_str().len() < 200 {
                let ghost o0 = out@;
                out.push(f);
                proof {
                    assert(views(out@) =~= views(o0).push(out@.last()@));
                }
            }
        }
        i = i + 1;
    }
    proof {
        assert(lv.subrange(0, lv.len() as int) == lv);
    }
    out
}

/// Name for what `char::is_numeric` says of a character.
pub uninterp spec fn numeric(c: char) -> bool;

/// Relies on std's `char::is_numeric`: whether the character is numeric,
/// which depends on the character alone.
#[verifier::external_body]
fn is_numeric_char(c: char) -> (r: bool)
    ensures
        r == numeric(c),
{
    c.is_numeric()
}

/// `s` without its leading run of numeric characters.
pub open spec fn strip_numeric(s: Seq<char>) -> Seq<char>
    decreases s.len(),
{
    if s.len() > 0 && numeric(s[0]) { strip_numeric(s.drop_first()) } else { s }
}

/// Whether trimmed line `l` starts a new idea: a number with a dot in the
/// line, or a bullet, dash or star followed by a space.
pub open spec fn starts_idea(l: Seq<char>) -> bool {
    (l.len() > 0 && numeric(l[0]) && seq_contains(l, seq!['.']))
        || starts_with(l, seq!['•', ' ']) || starts_with(l, seq!['-', ' ']) || starts_with(l, seq!['*', ' '])
}

/// The text of an idea's first line, without its number or bullet.
pub open spec fn idea_text(l: Seq<char>) -> Seq<char> {
    trim(strip_all(strip_all(strip_all(strip_char(strip_char(strip_numeric(l), '.'), ')'), seq!['•', ' ']), seq!['-', ' ']), seq!['*', ' ']))
}

/// The ideas finished so far and the one being gathered, after the lines `ls` (trimmed).
pub open spec fn gather(ls: Seq<Seq<char>>) -> (Seq<Seq<char>>, Seq<char>)
    decreases ls.len(),
{
    if ls.len() == 0 {
        (Seq::empty(), Seq::empty())
    } else {
        let (ideas, cur) = gather(ls.drop_last());
        let l = trim(ls.last());
        let flush = starts_idea(l) && trim(cur).len() > 0;
        let ideas1 = if flush { ideas.push(trim(cur)) } else { ideas };
        let cur1 = if flush { Seq::empty() } else { cur };
        if starts_idea(l) {
            (ideas1, cur1 + idea_text(l))
        } else if cur1.len() > 0 {
            (ideas1, cur1 + seq![' '] + l)
        } else {
            (ideas1, cur1 + l)
        }
    }
}

/// The ideas longer than twenty bytes, in order.
pub open spec fn long_ideas(ideas: Seq<Seq<char>>) -> Seq<Seq<char>>
    decreases ideas.len(),
{
    if ideas.len() == 0 {
        Seq::empty()
    } else if (encode_utf8(ideas.last()).len() as usize) > 20 {
        long_ideas(ideas.drop_last()).push(ideas.last())
    } else {
        long_ideas(ideas.drop_last())
    }
}

/// The ideas of a reply: each numbered or bulleted line starts one, later
/// lines join it, and ideas of twenty bytes or fewer are dropped.
pub open spec fn ideas_of(content: Seq<char>) -> Seq<Seq<char>> {
    let (ideas, cur) = gather(lines_of(content));
    long_ideas(if trim(cur).len() > 0 { ideas.push(trim(cur)) } else { ideas })
}

fn strip_leading_numeric(s: &str) -> (r: String)
    ensures
        r@ == strip_numeric(s@),
{
    let cs = chars_of(s);
    let mut a: usize = 0;
    proof {
        assert(cs@.subrange(0, cs@.len() as int) == cs@);
    }
    while a < cs.len() && is_numeric_char(cs[a])
        invariant
            a <= cs@.len(),
            strip_numeric(s@) == strip_numeric(cs@.subrange(a as int, cs@.len() as int)),
        decreases cs.len() - a,
    {
        assert(cs@.subrange(a as int, cs@.len() as int).drop_first() == cs@.subrange(a + 1, cs@.len() as int));
        a = a + 1;
    }
    string_of_range(&cs, a, cs.len())
}

fn strip_pair(s: &str, x: char, y: char) -> (r: String)
    ensures
        r@ == strip_all(s@, seq![x, y]),
{
    let cs = chars_of(s);
    let ghost m = seq![x, y];
    let mut a: usize = 0;
    proof {
        assert(cs@.subrange(0, cs@.len() as int) == cs@);
    }
    while cs.len() - a >= 2 && cs[a] == x && cs[a + 1] == y
        invariant
            m == seq![x, y],
            a <= cs@.len(),
            strip_all(s@, m) == strip_all(cs@.subrange(a as int, cs@.len() as int), m),
        decreases cs.len() - a,
    {
        proof {
            let t = cs@.subrange(a as int, cs@.len() as int);
            assert(t.subrange(0, 2) =~= m);
            assert(t.subrange(2, t.len() as int) =~= cs@.subrange(a + 2, cs@.len() as int));
        }
        a = a + 2;
    }
    proof {
        let t = cs@.subrange(a as int, cs@.len() as int);
        if starts_with(t, m) {
            assert(t[0] == t.subrange(0, 2)[0]);
            assert(t[1] == t.subrange(0, 2)[1]);
        }
    }
    string_of_range(&cs, a, cs.len())
}

fn begins_with_pair(cs: &Vec<char>, x: char, y: char) -> (r: bool)
    ensures
        r == starts_with(cs@, seq![x, y]),
{
    if cs.len() >= 2 && cs[0] == x && cs[1] == y {
        assert(cs@.subrange(0, 2) =~= seq![x, y]);
        true
    } else {
        proof {
            if starts_with(cs@, seq![x, y]) {
                assert(cs@[0] == cs@.subrange(0, 2)[0]);
                assert(cs@[1] == cs@.subrange(0, 2)[1]);
            }
        }
        false
    }
}

/// The ideas of a model's reply, in order.
pub fn parse_structured_response(content: &str) -> (r: Vec<String>)
    ensures
        views(r@) == ideas_of(content@),
{
    let ls = lines(content);
    let ghost lv = views(ls@);
    let mut ideas: Vec<String> = Vec::new();
    let mut cur = String::new();
    let mut i: usize = 0;
    while i < ls.len()
        invariant
            lv == views(ls@),
            lv == lines_of(content@),
            i <= ls@.len(),
            (views(ideas@), cur@) == gather(lv.subrange(0, i as int)),
        decreases ls.len() - i,
    {
        proof {
            assert(lv.subrange(0, i + 1).drop_last() == lv.subrange(0, i as int));
            assert(lv.subrange(0, i + 1).last() == ls@[i as int]@);
        }
        let line = trimmed(ls[i].as_str());
        let lc = chars_of(line.as_str());
        let is_new = (lc.len() > 0 && is_numeric_char(lc[0]) && contains_str(&lc, "."))
            || begins_with_pair(&lc, '•', ' ') || begins_with_pair(&lc, '-', ' ') || begins_with_pair(&lc, '*', ' ');
        proof {
            reveal_strlit(".");
            assert("."@ == seq!['.']);
        }
        let cur_trim = trimmed(cur.as_str());
        if is_new && !cur_trim.as_str().is_empty() {
            let ghost i0 = ideas@;
            ideas.push(cur_trim);
            proof {
                assert(views(ideas@) =~= views(i0).push(ideas@.last()@));
            }
            cur = String::new();
        }
        if is_new {
            let a = strip_leading_numeric(line.as_str());
            let b = strip_leading(a.as_str(), '.');
            let c = strip_leading(b.as_str(), ')');
            let d = strip_pair(c.as_str(), '•', ' ');
            let e = strip_pair(d.as_str(), '-', ' ');
            let f = strip_pair(e.as_str(), '*', ' ');
            let g = trimmed(f.as_str());
            cur.append(g.as_str());
        } else if !cur.as_str().is_empty() {
            push_char(&mut cur, ' ');
            cur.append(line.as_str());
            proof {
                assert(cur@ =~= gather(lv.subrange(0, i + 1)).1);
            }
        } else {
            cur.append(line.as_str());
        }
        i = i + 1;
    }
    proof {
        assert(lv.subrange(0, lv.len() as int) == lv);
    }
    let last = trimmed(cur.as_str());
    if !last.as_str().is_empty() {
        let ghost i0 = ideas@;
        ideas.push(last);
        proof {
            assert(views(ideas@) =~= views(i0).push(ideas@.last()@));
        }
    }
    let ghost all = views(ideas@);
    let mut out: Vec<String> = Vec::new();
    let mut k: usize = 0;
    while k < ideas.len()
        invariant
            all == views(ideas@),
            k <= ideas@.len(),
            views(out@) == long_ideas(all.subrange(0, k as int)),
        decreases ideas.len() - k,
    {
        proof {
            assert(all.subrange(0, k + 1).drop_last() == all.subrange(0, k as int));
            assert(all.subrange(0, k + 1).last() == ideas@[k as int]@);
        }
        if ideas[k].as_str().len() > 20 {
            let ghost o0 = out@;
            out.push(ideas[k].clone());
            proof {
                assert(views(out@) =~= views(o0).push(out@.last()@));
            }
        }
        k = k + 1;
    }
    proof {
        assert(all.subrange(0, all.len() as int) == all);
    }
    out
}

} // verus!
