//! One scan, as a state that discovery and processing events advance: the
//! decisions of the full and the lazy scan, without their I/O.

use vstd::prelude::*;
use crate::aggregate::{aggregate_results, aggregates, totals_fit, totals_fit_spec};
use crate::digest::{FileDescriptor, FileProcessResult, RepoAnalysis, ScanProgress};
use crate::lang::{analyzable, file_name_of, should_analyze_file};
use crate::process::{content_limit, max_content_size, plan_of, process_files, processed, LazyLoadConfig};
use crate::progress::{bumped, ProgressTracker};
use crate::scan::{build_digest, fresh_digest, lazy_scan_progress, lemma_selection_len, prefix, selection, LazyCollector};

verus! {

/// Whether a scan consults the cache, and which discovery it runs.
#[derive(Debug, Clone, Copy, PartialEq, Eq)]
pub enum ScanMode {
    /// Serve a cached digest where one is valid, else scan lazily.
    CachedOrLazy,
    /// Serve a cached digest where one is valid, else scan fully.
    CachedOrFull,
    /// Scan lazily without looking at the cache.
    Lazy,
    /// Scan fully without looking at the cache.
    Full,
}

/// The mode of a scan asked with these flags: `force` and
/// `force_full_rescan` skip the cache, and only a full rescan turns a lazy
/// scan into a full one.
pub fn scan_mode(force: bool, lazy: bool, force_full_rescan: bool) -> (m: ScanMode)
    ensures
        m == if force || force_full_rescan {
            if lazy && !force_full_rescan { ScanMode::Lazy } else { ScanMode::Full }
        } else if lazy {
            ScanMode::CachedOrLazy
        } else {
            ScanMode::CachedOrFull
        },
{
    if force || force_full_rescan {
        if lazy && !force_full_rescan { ScanMode::Lazy } else { ScanMode::Full }
    } else if lazy {
        ScanMode::CachedOrLazy
    } else {
        ScanMode::CachedOrFull
    }
}

/// Whether a scan in mode `m` looks at the cache first.
pub fn consults_cache(m: ScanMode) -> (r: bool)
    ensures
        r == (m == ScanMode::CachedOrLazy || m == ScanMode::CachedOrFull),
{
    match m {
        ScanMode::CachedOrLazy | ScanMode::CachedOrFull => true,
        _ => false,
    }
}

/// Whether a scan in mode `m` discovers lazily.
pub fn discovers_lazily(m: ScanMode) -> (r: bool)
    ensures
        r == (m == ScanMode::CachedOrLazy || m == ScanMode::Lazy),
{
    match m {
        ScanMode::CachedOrLazy | ScanMode::Lazy => true,
        _ => false,
    }
}

/// The state of one running scan.
#[derive(Clone)]
pub struct ScanSession {
    pub root: String,
    pub is_favorite: bool,
    pub lazy: bool,
    pub config: LazyLoadConfig,
    pub tracker: ProgressTracker,
    /// Lazy mode: the candidates collected so far.
    pub collector: LazyCollector,
    /// Full mode: every eligible file, in discovery order.
    pub files: Vec<FileDescriptor>,
    /// Eligible files discovery has found so far.
    pub eligible_seen: usize,
    pub cancelled: bool,
}

impl ScanSession {
    pub open spec fn wf(&self) -> bool {
        &&& self.collector.wf()
        &&& self.collector.limit == self.config.initial_scan_limit
        &&& all_analyzable(self.files@)
        &&& all_analyzable(self.collector.changed_seen@)
        &&& all_analyzable(self.collector.unchanged_seen@)
        &&& self.collector.changed_seen@.len() + self.collector.unchanged_seen@.len() <= self.eligible_seen
        &&& self.files@.len() <= self.eligible_seen
    }

    /// A scan of `root` in discovery, with the budgets of its mode.
    pub fn new(root: String, is_favorite: bool, lazy: bool) -> (s: ScanSession)
        ensures
            s.wf(),
            s.root == root,
            s.is_favorite == is_favorite,
            s.lazy == lazy,
            s.config == if lazy { LazyLoadConfig::lazy_spec(is_favorite) } else { LazyLoadConfig::full_spec(is_favorite) },
            s.tracker.phase@ == "discovery"@,
            s.collector.changed_seen@.len() == 0,
            s.collector.unchanged_seen@.len() == 0,
            s.files@.len() == 0,
            s.eligible_seen == 0,
            !s.cancelled,
    {
        let config = if lazy { LazyLoadConfig::lazy(is_favorite) } else { LazyLoadConfig::full(is_favorite) };
        let mut tracker = ProgressTracker::new();
        tracker.set_phase("discovery");
        ScanSession {
            root,
            is_favorite,
            lazy,
            config,
            tracker,
            collector: LazyCollector::new(config.initial_scan_limit),
            files: Vec::new(),
            eligible_seen: 0,
            cancelled: false,
        }
    }

    /// Discovery met a directory.
    pub fn on_directory(&mut self)
        requires
            old(self).wf(),
        ensures
            final(self).wf(),
            *final(self) == (ScanSession { tracker: final(self).tracker, ..*old(self) }),
            final(self).tracker == (ProgressTracker { dirs_seen: bumped(old(self).tracker.dirs_seen), ..old(self).tracker }),
    {
        self.tracker.increment_dirs_seen();
    }

    /// Discovery met the file at `path`, of `size` bytes where its metadata
    /// could be read, whose cached metadata is still valid where `unchanged`.
    /// A filtered-out file is only counted. An eligible one is counted and,
    /// where its size is known, offered: in lazy mode to the collector, as a
    /// changed or an unchanged file (the selection is made when processing
    /// begins), in full mode to the list of files.
    pub fn on_file(&mut self, path: &str, size: Option<u64>, unchanged: bool)
        requires
            old(self).wf(),
        ensures
            final(self).wf(),
            final(self).lazy == old(self).lazy,
            final(self).is_favorite == old(self).is_favorite,
            final(self).config == old(self).config,
            final(self).cancelled == old(self).cancelled,
            final(self).root == old(self).root,
            final(self).tracker == (ProgressTracker {
                files_discovered: bumped(old(self).tracker.files_discovered),
                skipped_filtered: if analyzable(path@) {
                    old(self).tracker.skipped_filtered
                } else {
                    bumped(old(self).tracker.skipped_filtered)
                },
                ..old(self).tracker
            }),
            !analyzable(path@) ==> {
                &&& final(self).tracker.skipped_filtered == bumped(old(self).tracker.skipped_filtered)
                &&& final(self).eligible_seen == old(self).eligible_seen
                &&& final(self).files@ == old(self).files@
                &&& final(self).collector.changed_seen@ == old(self).collector.changed_seen@
                &&& final(self).collector.unchanged_seen@ == old(self).collector.unchanged_seen@
            },
            analyzable(path@) ==> {
                &&& final(self).eligible_seen == bumped_count(old(self).eligible_seen)
                &&& final(self).tracker.skipped_filtered == old(self).tracker.skipped_filtered
                &&& if size is Some && old(self).eligible_seen < usize::MAX && !old(self).lazy {
                    final(self).files@.len() == old(self).files@.len() + 1
                        && final(self).files@.drop_last() == old(self).files@
                        && crate::process::describes_file(final(self).files@.last(), path@, size->0)
                } else {
                    final(self).files@ == old(self).files@
                }
                &&& final(self).collector.limit == old(self).collector.limit
                &&& if size is Some && old(self).eligible_seen < usize::MAX && old(self).lazy {
                    if unchanged {
                        &&& final(self).collector.unchanged_seen@.len() == old(self).collector.unchanged_seen@.len() + 1
                        &&& final(self).collector.unchanged_seen@.drop_last() == old(self).collector.unchanged_seen@
                        &&& crate::process::describes_file(final(self).collector.unchanged_seen@.last(), path@, size->0)
                        &&& final(self).collector.changed_seen@ == old(self).collector.changed_seen@
                    } else {
                        &&& final(self).collector.changed_seen@.len() == old(self).collector.changed_seen@.len() + 1
                        &&& final(self).collector.changed_seen@.drop_last() == old(self).collector.changed_seen@
                        &&& crate::process::describes_file(final(self).collector.changed_seen@.last(), path@, size->0)
                        &&& final(self).collector.unchanged_seen@ == old(self).collector.unchanged_seen@
                    }
                } else {
                    final(self).collector.changed_seen@ == old(self).collector.changed_seen@
                        && final(self).collector.unchanged_seen@ == old(self).collector.unchanged_seen@
                }
            },
    {
        self.tracker.increment_discovered();
        if !should_analyze_file(path) {
            self.tracker.increment_skipped_filtered();
            return;
        }
        if self.eligible_seen == usize::MAX {
            return;
        }
        self.eligible_seen = self.eligible_seen + 1;
        match size {
            Some(n) => {
                let d = FileDescriptor::new(path, n);
                if self.lazy {
                    let ghost c0 = self.collector.changed_seen@;
                    let ghost u0 = self.collector.unchanged_seen@;
                    let ghost dd = d;
                    self.collector.offer(d, unchanged);
                    proof {
                        if unchanged {
                            assert(self.collector.unchanged_seen@.drop_last() =~= u0);
                            assert(self.collector.unchanged_seen@.last() == dd);
                        } else {
                            assert(self.collector.changed_seen@.drop_last() =~= c0);
                            assert(self.collector.changed_seen@.last() == dd);
                        }
                    }
                } else {
                    self.files.push(d);
                }
            },
            None => {},
        }
    }

    /// A cancel request was seen.
    pub fn cancel(&mut self)
        requires
            old(self).wf(),
        ensures
            final(self).wf(),
            *final(self) == (ScanSession { cancelled: true, ..*old(self) }),
    {
        self.cancelled = true;
    }

    /// Ends discovery: switches to processing and returns the files to
    /// process (lazy mode: changed ones first), with their totals recorded.
    pub fn begin_processing(&mut self) -> (r: Vec<FileDescriptor>)
        requires
            old(self).wf(),
        ensures
            final(self).wf(),
            final(self).lazy == old(self).lazy,
            final(self).config == old(self).config,
            final(self).cancelled == old(self).cancelled,
            final(self).eligible_seen == old(self).eligible_seen,
            final(self).is_favorite == old(self).is_favorite,
            final(self).tracker.phase@ == "processing"@,
            final(self).tracker.total_files == r@.len(),
            r@ == if old(self).lazy {
                selection(old(self).collector.changed_seen@, old(self).collector.unchanged_seen@, old(self).collector.limit)
            } else {
                old(self).files@
            },
            all_analyzable(r@),
            old(self).lazy ==> r@.len() <= old(self).config.initial_scan_limit,
            r@.len() <= old(self).eligible_seen,
            final(self).root == old(self).root,
    {
        let mut out: Vec<FileDescriptor> = Vec::new();
        if self.lazy {
            let mut col = LazyCollector::new(self.config.initial_scan_limit);
            std::mem::swap(&mut col, &mut self.collector);
            let ghost c0 = col.changed_seen@;
            let ghost u0 = col.unchanged_seen@;
            let ghost lim = col.limit;
            out = col.finish();
            proof {
                lemma_selection_len(c0, u0, lim);
                let k = prefix(c0, lim as int).len();
                assert forall|i: int| 0 <= i < out@.len() implies analyzable(#[trigger] out@[i].path@) by {
                    if i < k {
                        assert(out@[i] == c0[i]);
                    } else {
                        assert(out@[i] == u0[i - k]);
                    }
                }
            }
        } else {
            std::mem::swap(&mut out, &mut self.files);
        }
        self.tracker.set_phase("processing");
        self.tracker.set_total_files(out.len());
        let mut bytes: usize = 0;
        let mut i: usize = 0;
        while i < out.len()
            invariant
                i <= out@.len(),
            decreases out.len() - i,
        {
            let s = out[i].size;
            if s as u128 > (usize::MAX - bytes) as u128 {
                bytes = usize::MAX;
            } else {
                bytes = bytes + s as usize;
            }
            i = i + 1;
        }
        self.tracker.set_total_bytes(bytes);
        out
    }

    /// How many files processing may sample: the lazy budget, or in full
    /// mode every file (at least the full budget).
    pub fn sample_limit(&self, n_files: usize) -> (r: usize)
        ensures
            r == if self.lazy {
                self.config.sample_content_limit
            } else if n_files >= self.config.sample_content_limit {
                n_files
            } else {
                self.config.sample_content_limit
            },
    {
        if self.lazy {
            self.config.sample_content_limit
        } else if n_files >= self.config.sample_content_limit {
            n_files
        } else {
            self.config.sample_content_limit
        }
    }

    /// Ends the scan: processes `files` with the prefixes read of them
    /// (`None` where none was read) and assembles the digest stamped
    /// `generated_at`. A lazy digest reports its progress, incomplete once
    /// cancelled. `None` where the byte or line totals overflow.
    pub fn finish(&mut self, files: &Vec<FileDescriptor>, prefixes: &Vec<Option<String>>, generated_at: String) -> (r: Option<RepoAnalysis>)
        requires
            old(self).wf(),
            prefixes@.len() == files@.len(),
        ensures
            final(self).wf(),
            final(self).tracker.is_complete,
            final(self).tracker.phase@ == if old(self).cancelled { "cancelled"@ } else { "complete"@ },
            exists|rs: Seq<FileProcessResult>| {
                &&& rs.len() == files@.len()
                &&& forall|i: int| 0 <= i < files@.len() ==> processed(
                    files@[i],
                    plan_of(files@, max_content_size(old(self).is_favorite), self_limit(*old(self), files@.len()))[i],
                    prefixes@[i],
                    content_limit(old(self).is_favorite),
                    #[trigger] rs[i],
                )
                &&& (r is Some <==> totals_fit_spec(rs))
                &&& r matches Some(d) ==> exists|a: crate::aggregate::Aggregate| {
                    &&& aggregates(rs, a)
                    &&& fresh_digest(a, generated_at@, old(self).lazy, scan_progress_of(*old(self), files@.len()), d)
                }
            },
    {
        let limit = self.sample_limit(files.len());
        let results = process_files(files, self.is_favorite, limit, prefixes);
        if self.cancelled {
            self.tracker.set_phase("cancelled");
        } else {
            self.tracker.set_phase("complete");
        }
        self.tracker.mark_complete();
        let ghost rs = results@;
        if !totals_fit(&results) {
            proof {
                assert(rs.len() == files@.len());
            }
            return None;
        }
        let progress = if self.lazy {
            Some(lazy_scan_progress(files.len(), self.config.initial_scan_limit, self.eligible_seen, self.cancelled))
        } else {
            None
        };
        let agg = aggregate_results(results);
        let ghost a = agg;
        let d = build_digest(agg, generated_at, self.lazy, progress);
        proof {
            assert(rs.len() == files@.len());
            assert(aggregates(rs, a));
        }
        Some(d)
    }
}

/// `n + 1`, held at the largest `usize`.
pub open spec fn bumped_count(n: usize) -> usize {
    if n == usize::MAX { n } else { (n + 1) as usize }
}

/// The sample budget of a session over `n` files.
pub open spec fn self_limit(s: ScanSession, n: nat) -> usize {
    if s.lazy {
        s.config.sample_content_limit
    } else if n >= s.config.sample_content_limit {
        n as usize
    } else {
        s.config.sample_content_limit
    }
}

/// The progress a session's digest reports after processing `n` files.
pub open spec fn scan_progress_of(s: ScanSession, n: nat) -> Option<ScanProgress> {
    if s.lazy {
        Some(ScanProgress {
            files_scanned: n as usize,
            scan_limit: s.config.initial_scan_limit,
            is_complete: !s.cancelled && n >= s.eligible_seen,
            estimated_total_files: Some(s.eligible_seen),
        })
    } else {
        None
    }
}

/// Whether every file of `fs` passes the file filter.
pub open spec fn all_analyzable(fs: Seq<FileDescriptor>) -> bool {
    forall|i: int| 0 <= i < fs.len() ==> analyzable(#[trigger] fs[i].path@)
}

proof fn lemma_sampled_from(rs: Seq<FileProcessResult>, k: int)
    requires
        0 <= k < crate::aggregate::sampled(rs).len(),
    ensures
        exists|i: int| 0 <= i < rs.len() && (#[trigger] rs[i]).file_info == Some(crate::aggregate::sampled(rs)[k]),
    decreases rs.len(),
{
    let p = rs.drop_last();
    match rs.last().file_info {
        Some(f) => {
            if k < crate::aggregate::sampled(p).len() {
                lemma_sampled_from(p, k);
                let i = choose|i: int| 0 <= i < p.len() && (#[trigger] p[i]).file_info == Some(crate::aggregate::sampled(p)[k]);
                assert(rs[i] == p[i]);
            } else {
                assert(rs[rs.len() - 1].file_info == Some(crate::aggregate::sampled(rs)[k]));
            }
        },
        None => {
            lemma_sampled_from(p, k);
            let i = choose|i: int| 0 <= i < p.len() && (#[trigger] p[i]).file_info == Some(crate::aggregate::sampled(p)[k]);
            assert(rs[i] == p[i]);
        },
    }
}

/// Whether `name` in directory `dir` names a file of `files` that passes the
/// filter: its file name, with `dir` as its parent.
pub open spec fn names_analyzable_file(files: Seq<FileDescriptor>, dir: Seq<char>, name: Seq<char>) -> bool {
    exists|i: int| 0 <= i < files.len() && analyzable(#[trigger] files[i].path@) && files[i].parent is Some
        && files[i].parent->0@ == dir && file_name_of(files[i].path@) == name
}

proof fn lemma_names_from(rs: Seq<FileProcessResult>, d: Seq<char>, j: int)
    requires
        0 <= j < crate::aggregate::names_in_dir(rs, d).len(),
    ensures
        exists|i: int| 0 <= i < rs.len() && crate::aggregate::listed(#[trigger] rs[i]) && rs[i].parent->0@ == d
            && file_name_of(rs[i].path@) == crate::aggregate::names_in_dir(rs, d)[j],
    decreases rs.len(),
{
    let p = rs.drop_last();
    let r = rs.last();
    if crate::aggregate::listed(r) && r.parent->0@ == d && j == crate::aggregate::names_in_dir(p, d).len() {
        assert(rs[rs.len() - 1] == r);
    } else {
        lemma_names_from(p, d, j);
        let i = choose|i: int| 0 <= i < p.len() && crate::aggregate::listed(#[trigger] p[i]) && p[i].parent->0@ == d
            && file_name_of(p[i].path@) == crate::aggregate::names_in_dir(p, d)[j];
        assert(rs[i] == p[i]);
    }
}

/// A digest built from files that all pass the filter holds no other:
/// every sampled file, every entry of the largest files, and every name of
/// the directory listing (the name and parent of such a file) does too. With
/// `begin_processing`, which only hands out such files, no file under a
/// denied directory or with a denied extension reaches a digest.
pub proof fn digest_holds_only_analyzable(
    files: Seq<FileDescriptor>,
    plan: Seq<bool>,
    prefixes: Seq<Option<String>>,
    limit: usize,
    rs: Seq<FileProcessResult>,
    a: crate::aggregate::Aggregate,
    generated_at: Seq<char>,
    lazy: bool,
    progress: Option<ScanProgress>,
    d: RepoAnalysis,
)
    requires
        all_analyzable(files),
        rs.len() == files.len(),
        plan.len() == files.len(),
        prefixes.len() == files.len(),
        forall|i: int| 0 <= i < files.len() ==> processed(files[i], plan[i], prefixes[i], limit, #[trigger] rs[i]),
        aggregates(rs, a),
        fresh_digest(a, generated_at, lazy, progress, d),
    ensures
        forall|k: int| 0 <= k < d.files@.len() ==> analyzable(#[trigger] d.files@[k].path@),
        forall|k: int| 0 <= k < d.size_metrics.largest_files@.len() ==> analyzable(#[trigger] d.size_metrics.largest_files@[k].path@),
        forall|k: int, j: int| #![trigger d.structure@[k].1@[j]] 0 <= k < d.structure@.len() && 0 <= j < d.structure@[k].1@.len()
            ==> names_analyzable_file(files, d.structure@[k].0@, d.structure@[k].1@[j]@),
{
    assert forall|k: int| 0 <= k < d.files@.len() implies analyzable(#[trigger] d.files@[k].path@) by {
        lemma_sampled_from(rs, k);
        let i = choose|i: int| 0 <= i < rs.len() && (#[trigger] rs[i]).file_info == Some(crate::aggregate::sampled(rs)[k]);
        assert(processed(files[i], plan[i], prefixes[i], limit, rs[i]));
        assert(analyzable(files[i].path@));
    }
    let top = d.size_metrics.largest_files@;
    let ix = choose|ix: Seq<int>| crate::aggregate::top_ranked(rs, ix, top);
    assert forall|k: int| 0 <= k < top.len() implies analyzable(#[trigger] top[k].path@) by {
        assert(0 <= ix[k] < rs.len());
        assert(crate::aggregate::describes(top[k], rs[ix[k]]));
        assert(processed(files[ix[k]], plan[ix[k]], prefixes[ix[k]], limit, rs[ix[k]]));
        assert(analyzable(files[ix[k]].path@));
    }
    assert forall|k: int, j: int| #![trigger d.structure@[k].1@[j]] 0 <= k < d.structure@.len() && 0 <= j < d.structure@[k].1@.len()
        implies names_analyzable_file(files, d.structure@[k].0@, d.structure@[k].1@[j]@) by {
        let dir = crate::aggregate::dirs_listed(rs)[k];
        assert(crate::aggregate::views(d.structure@[k].1@) == crate::aggregate::names_in_dir(rs, dir));
        assert(crate::aggregate::views(d.structure@[k].1@)[j] == d.structure@[k].1@[j]@);
        lemma_names_from(rs, dir, j);
        let i = choose|i: int| 0 <= i < rs.len() && crate::aggregate::listed(#[trigger] rs[i]) && rs[i].parent->0@ == dir
            && file_name_of(rs[i].path@) == crate::aggregate::names_in_dir(rs, dir)[j];
        assert(processed(files[i], plan[i], prefixes[i], limit, rs[i]));
        assert(analyzable(files[i].path@));
        assert(d.structure@[k].0@ == dir);
    }
}

/// A lazy session that was offered more eligible files than its limit
/// (sizes known) selects exactly `limit` of them, and the digest that
/// `finish` makes of that selection reports `limit` files scanned, the
/// number of eligible files discovered as the estimated total, and an
/// incomplete scan.
pub proof fn lazy_session_reports_limit(s: ScanSession)
    requires
        s.wf(),
        s.lazy,
        s.collector.changed_seen@.len() + s.collector.unchanged_seen@.len() > s.config.initial_scan_limit,
    ensures
        selection(s.collector.changed_seen@, s.collector.unchanged_seen@, s.collector.limit).len() == s.config.initial_scan_limit,
        scan_progress_of(s, s.config.initial_scan_limit as nat) == Some(ScanProgress {
            files_scanned: s.config.initial_scan_limit,
            scan_limit: s.config.initial_scan_limit,
            is_complete: false,
            estimated_total_files: Some(s.eligible_seen),
        }),
{
    lemma_selection_len(s.collector.changed_seen@, s.collector.unchanged_seen@, s.collector.limit);
}

} // verus!
