//! Per-file processing: which files are sampled, and what each contributes.

use vstd::prelude::*;
use vstd::utf8::encode_utf8;
use crate::digest::{copy_opt_string, FileDescriptor, FileInfo, FileProcessResult};
use crate::lang::{get_language_from_extension, language_of_path, parent_dir, parent_of};
use crate::text::{chars_of, owned};

verus! {

/// Size and sample budgets of a scan.
#[derive(Debug, Clone, Copy, PartialEq, Eq)]
pub struct LazyLoadConfig {
    pub initial_scan_limit: usize,
    pub sample_content_limit: usize,
    pub max_file_size: u64,
    pub batch_size: usize,
    pub channel_buffer_size: usize,
}

impl LazyLoadConfig {
    /// The budgets of a lazy scan of an ordinary project.
    pub fn standard() -> (r: LazyLoadConfig)
        ensures
            r.initial_scan_limit == 100,
            r.sample_content_limit == 20,
            r.max_file_size == 100_000,
            r.batch_size == 10,
            r.channel_buffer_size == 100,
    {
        LazyLoadConfig {
            initial_scan_limit: 100,
            sample_content_limit: 20,
            max_file_size: 100_000,
            batch_size: 10,
            channel_buffer_size: 100,
        }
    }

    /// The budgets of a lazy scan: larger for a favorite project.
    pub fn lazy(is_favorite: bool) -> (r: LazyLoadConfig)
        ensures
            r.initial_scan_limit == if is_favorite { 150usize } else { 100usize },
            r.sample_content_limit == if is_favorite { 30usize } else { 20usize },
            r.max_file_size == if is_favorite { 150_000u64 } else { 100_000u64 },
            r.batch_size == if is_favorite { 15usize } else { 10usize },
            r.channel_buffer_size == 100,
    {
        let mut c = LazyLoadConfig::standard();
        if is_favorite {
            c.initial_scan_limit = 150;
            c.sample_content_limit = 30;
            c.max_file_size = 150_000;
            c.batch_size = 15;
        }
        c
    }

    /// The budgets of a full scan: no file cap, and larger ones for a favorite project.
    pub fn full(is_favorite: bool) -> (r: LazyLoadConfig)
        ensures
            r.initial_scan_limit == if is_favorite { usize::MAX } else { 100usize },
            r.sample_content_limit == if is_favorite { 50usize } else { 20usize },
            r.max_file_size == if is_favorite { 200_000u64 } else { 100_000u64 },
            r.batch_size == if is_favorite { 32usize } else { 10usize },
            r.channel_buffer_size == 100,
    {
        let mut c = LazyLoadConfig::standard();
        if is_favorite {
            c.initial_scan_limit = usize::MAX;
            c.sample_content_limit = 50;
            c.max_file_size = 200_000;
            c.batch_size = 32;
        }
        c
    }
}

impl Default for LazyLoadConfig {
    fn default() -> (r: LazyLoadConfig)
        ensures
            r == LazyLoadConfig::standard_spec(),
    {
        LazyLoadConfig::standard()
    }
}

impl LazyLoadConfig {
    /// The budgets of a lazy scan, as a value.
    pub open spec fn lazy_spec(is_favorite: bool) -> LazyLoadConfig {
        LazyLoadConfig {
            initial_scan_limit: if is_favorite { 150 } else { 100 },
            sample_content_limit: if is_favorite { 30 } else { 20 },
            max_file_size: if is_favorite { 150_000 } else { 100_000 },
            batch_size: if is_favorite { 15 } else { 10 },
            channel_buffer_size: 100,
        }
    }

    /// The budgets of a full scan, as a value.
    pub open spec fn full_spec(is_favorite: bool) -> LazyLoadConfig {
        LazyLoadConfig {
            initial_scan_limit: if is_favorite { usize::MAX } else { 100 },
            sample_content_limit: if is_favorite { 50 } else { 20 },
            max_file_size: if is_favorite { 200_000 } else { 100_000 },
            batch_size: if is_favorite { 32 } else { 10 },
            channel_buffer_size: 100,
        }
    }

    /// The standard budgets, as a value.
    pub open spec fn standard_spec() -> LazyLoadConfig {
        LazyLoadConfig {
            initial_scan_limit: 100,
            sample_content_limit: 20,
            max_file_size: 100_000,
            batch_size: 10,
            channel_buffer_size: 100,
        }
    }
}

/// Files at or above this size are never sampled.
pub open spec fn max_content_size(is_favorite: bool) -> u64 {
    if is_favorite { 150_000 } else { 100_000 }
}

/// How many bytes of a sampled file are read.
pub open spec fn content_limit(is_favorite: bool) -> usize {
    if is_favorite { 7500 } else { 5000 }
}

/// Files at or above this size are never sampled.
pub fn max_content_size_for(is_favorite: bool) -> (r: u64)
    ensures
        r == max_content_size(is_favorite),
{
    if is_favorite { 150_000 } else { 100_000 }
}

/// How many bytes of a sampled file are read.
pub fn content_limit_for(is_favorite: bool) -> (r: usize)
    ensures
        r == content_limit(is_favorite),
{
    if is_favorite { 7500 } else { 5000 }
}

/// Number of `true` entries.
pub open spec fn count_true(s: Seq<bool>) -> int
    decreases s.len(),
{
    if s.len() == 0 {
        0
    } else {
        count_true(s.drop_last()) + if s.last() { 1int } else { 0int }
    }
}

/// The sampling plan: in discovery order, a file is sampled while it is
/// smaller than `max` and fewer than `limit` files have been sampled before it.
pub open spec fn plan_of(files: Seq<FileDescriptor>, max: u64, limit: usize) -> Seq<bool>
    decreases files.len(),
{
    if files.len() == 0 {
        Seq::empty()
    } else {
        let p = plan_of(files.drop_last(), max, limit);
        p.push(files.last().size < max && count_true(p) < limit)
    }
}

proof fn lemma_plan_len(files: Seq<FileDescriptor>, max: u64, limit: usize)
    ensures
        plan_of(files, max, limit).len() == files.len(),
        0 <= count_true(plan_of(files, max, limit)) <= limit,
    decreases files.len(),
{
    if files.len() > 0 {
        lemma_plan_len(files.drop_last(), max, limit);
        let p = plan_of(files.drop_last(), max, limit);
        let b = files.last().size < max && count_true(p) < limit;
        assert(p.push(b).drop_last() == p);
    }
}

/// Which of `files` get their content sampled.
pub fn sampling_plan(files: &Vec<FileDescriptor>, is_favorite: bool, sample_limit: usize) -> (r: Vec<bool>)
    ensures
        r@ == plan_of(files@, max_content_size(is_favorite), sample_limit),
{
    let max = max_content_size_for(is_favorite);
    let mut plan: Vec<bool> = Vec::new();
    let mut taken: usize = 0;
    let mut i: usize = 0;
    while i < files.len()
        invariant
            max == max_content_size(is_favorite),
            i <= files@.len(),
            plan@ == plan_of(files@.subrange(0, i as int), max, sample_limit),
            taken == count_true(plan@),
        decreases files.len() - i,
    {
        proof {
            assert(files@.subrange(0, i + 1).drop_last() == files@.subrange(0, i as int));
            lemma_plan_len(files@.subrange(0, i as int), max, sample_limit);
        }
        let take = files[i].size < max && taken < sample_limit;
        let ghost plan0 = plan@;
        plan.push(take);
        proof {
            assert(plan@.drop_last() == plan0);
        }
        if take {
            taken = taken + 1;
        }
        i = i + 1;
    }
    assert(files@.subrange(0, files@.len() as int) == files@);
    plan
}

/// Number of lines in `s`, counted as `str::lines` does: one per line
/// terminator, plus one for a last line without one.
pub open spec fn lines_in(s: Seq<char>) -> int {
    if s.len() == 0 {
        0
    } else {
        newlines_in(s) + if s.last() == '\n' { 0int } else { 1int }
    }
}

/// Number of `\n` characters in `s`.
pub open spec fn newlines_in(s: Seq<char>) -> int
    decreases s.len(),
{
    if s.len() == 0 {
        0
    } else {
        newlines_in(s.drop_last()) + if s.last() == '\n' { 1int } else { 0int }
    }
}

proof fn lemma_newlines_le(s: Seq<char>)
    ensures
        0 <= newlines_in(s) <= s.len(),
    decreases s.len(),
{
    if s.len() > 0 {
        lemma_newlines_le(s.drop_last());
    }
}

/// Number of lines in `s`.
pub fn line_count(s: &str) -> (r: usize)
    ensures
        r == lines_in(s@),
{
    let cs = chars_of(s);
    let mut n: usize = 0;
    let mut i: usize = 0;
    while i < cs.len()
        invariant
            i <= cs@.len(),
            n == newlines_in(cs@.subrange(0, i as int)),
        decreases cs.len() - i,
    {
        proof {
            assert(cs@.subrange(0, i + 1).drop_last() == cs@.subrange(0, i as int));
            lemma_newlines_le(cs@.subrange(0, i + 1));
        }
        if cs[i] == '\n' {
            n = n + 1;
        }
        i = i + 1;
    }
    assert(cs@.subrange(0, cs@.len() as int) == cs@);
    if cs.len() == 0 {
        0
    } else if cs[cs.len() - 1] == '\n' {
        n
    } else {
        proof {
            assert(newlines_in(cs@) == newlines_in(cs@.drop_last()));
            lemma_newlines_le(cs@.drop_last());
        }
        n + 1
    }
}

/// The content kept of a sampled prefix: marked as cut where the prefix
/// filled the whole byte budget.
pub open spec fn kept_content(prefix: Seq<char>, limit: usize) -> Seq<char> {
    if encode_utf8(prefix).len() as usize >= limit {
        prefix + "...(truncated)"@
    } else {
        prefix
    }
}

/// What processing makes of file `d`: sampled where the plan says so and its
/// prefix could be read; otherwise counted by size alone.
pub open spec fn processed(
    d: FileDescriptor,
    planned: bool,
    prefix: Option<String>,
    limit: usize,
    r: FileProcessResult,
) -> bool {
    &&& r.path == d.path
    &&& r.size == d.size
    &&& r.language == d.language
    &&& r.parent == d.parent
    &&& if planned && prefix is Some {
        &&& r.is_analyzed
        &&& r.lines == lines_in(prefix->0@)
        &&& r.file_info matches Some(f) && f.path == d.path && f.language == d.language && f.size == d.size
            && f.content@ == kept_content(prefix->0@, limit)
    } else {
        &&& !r.is_analyzed
        &&& r.lines == 0
        &&& r.file_info is None
    }
}

/// The result of processing file `d`, given whether it is to be sampled and
/// the prefix that was read of it (`None` where it could not be read).
pub fn process_file(d: &FileDescriptor, planned: bool, prefix: &Option<String>, limit: usize) -> (r: FileProcessResult)
    ensures
        processed(*d, planned, *prefix, limit, r),
{
    if planned && prefix.is_some() {
        let text = prefix.as_ref().unwrap();
        let lines = line_count(text.as_str());
        let content = if text.as_str().len() >= limit {
            let mut c = text.clone();
            c.append("...(truncated)");
            c
        } else {
            text.clone()
        };
        FileProcessResult {
            file_info: Some(
                FileInfo { path: d.path.clone(), content, language: d.language.clone(), size: d.size },
            ),
            lines,
            language: d.language.clone(),
            parent: copy_opt_string(&d.parent),
            path: d.path.clone(),
            size: d.size,
            is_analyzed: true,
        }
    } else {
        FileProcessResult {
            file_info: None,
            lines: 0,
            language: d.language.clone(),
            parent: copy_opt_string(&d.parent),
            path: d.path.clone(),
            size: d.size,
            is_analyzed: false,
        }
    }
}

/// Processes every file: samples those that the plan picks and whose prefix
/// was read, and records the others by size alone.
pub fn process_files(
    files: &Vec<FileDescriptor>,
    is_favorite: bool,
    sample_limit: usize,
    prefixes: &Vec<Option<String>>,
) -> (r: Vec<FileProcessResult>)
    requires
        prefixes@.len() == files@.len(),
    ensures
        r@.len() == files@.len(),
        forall|i: int| 0 <= i < files@.len() ==> processed(
            files@[i],
            plan_of(files@, max_content_size(is_favorite), sample_limit)[i],
            prefixes@[i],
            content_limit(is_favorite),
            #[trigger] r@[i],
        ),
{
    let plan = sampling_plan(files, is_favorite, sample_limit);
    proof {
        lemma_plan_len(files@, max_content_size(is_favorite), sample_limit);
    }
    let limit = content_limit_for(is_favorite);
    let mut out: Vec<FileProcessResult> = Vec::new();
    let mut i: usize = 0;
    while i < files.len()
        invariant
            plan@ == plan_of(files@, max_content_size(is_favorite), sample_limit),
            plan@.len() == files@.len(),
            prefixes@.len() == files@.len(),
            limit == content_limit(is_favorite),
            i <= files@.len(),
            out@.len() == i,
            forall|j: int| 0 <= j < i ==> processed(files@[j], plan@[j], prefixes@[j], limit, #[trigger] out@[j]),
        decreases files.len() - i,
    {
        let r = process_file(&files[i], plan[i], &prefixes[i], limit);
        out.push(r);
        i = i + 1;
    }
    out
}

/// The language the file at `p` is recorded with.
pub open spec fn describes_file(d: FileDescriptor, path: Seq<char>, size: u64) -> bool {
    d.path@ == path && d.size == size && d.language@ == language_of_path(path)
        && match parent_of(path) {
            Some(q) => d.parent matches Some(x) && x@ == q,
            None => d.parent is None,
        }
}

impl FileDescriptor {
    /// The record of a discovered file of `size` bytes at `path`.
    pub fn new(path: &str, size: u64) -> (r: FileDescriptor)
        ensures
            describes_file(r, path@, size),
    {
        FileDescriptor {
            path: owned(path),
            size,
            language: get_language_from_extension(path),
            parent: parent_dir(path),
        }
    }
}

} // verus!
