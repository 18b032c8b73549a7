//! The decisions of a scan: which discovered files a lazy scan keeps, how
//! far it got, and the digest it returns.

use vstd::prelude::*;
use crate::aggregate::Aggregate;
use crate::digest::{FileDescriptor, RepoAnalysis, ScanProgress};

verus! {

/// The files a lazy scan has collected so far: changed ones (no valid
/// cached metadata) and unchanged ones, each in discovery order and each
/// kept up to the limit, with every file offered so far.
#[derive(Clone)]
pub struct LazyCollector {
    pub changed: Vec<FileDescriptor>,
    pub unchanged: Vec<FileDescriptor>,
    pub limit: usize,
    /// Every changed file offered, in order.
    pub changed_seen: Ghost<Seq<FileDescriptor>>,
    /// Every unchanged file offered, in order.
    pub unchanged_seen: Ghost<Seq<FileDescriptor>>,
}

/// The first `n` elements of `s`, or all of it where it is shorter.
pub open spec fn prefix<T>(s: Seq<T>, n: int) -> Seq<T> {
    if s.len() <= n { s } else { s.subrange(0, n) }
}

/// The files a lazy scan keeps of the changed files `ch` and the unchanged
/// files `un`, at most `limit`: changed files fill the limit first, each
/// kind in discovery order.
pub open spec fn selection(ch: Seq<FileDescriptor>, un: Seq<FileDescriptor>, limit: usize) -> Seq<FileDescriptor> {
    prefix(ch, limit as int) + prefix(un, limit - prefix(ch, limit as int).len())
}

/// The changed files among the candidates, in order.
pub open spec fn changed_of(cands: Seq<(FileDescriptor, bool)>) -> Seq<FileDescriptor>
    decreases cands.len(),
{
    if cands.len() == 0 {
        Seq::empty()
    } else if cands.last().1 {
        changed_of(cands.drop_last())
    } else {
        changed_of(cands.drop_last()).push(cands.last().0)
    }
}

/// The unchanged files among the candidates, in order.
pub open spec fn unchanged_of(cands: Seq<(FileDescriptor, bool)>) -> Seq<FileDescriptor>
    decreases cands.len(),
{
    if cands.len() == 0 {
        Seq::empty()
    } else if cands.last().1 {
        unchanged_of(cands.drop_last()).push(cands.last().0)
    } else {
        unchanged_of(cands.drop_last())
    }
}

/// The files a lazy scan keeps of the candidates `cands` (each a file and
/// whether its cached metadata is still valid).
pub open spec fn collected(cands: Seq<(FileDescriptor, bool)>, limit: usize) -> Seq<FileDescriptor> {
    selection(changed_of(cands), unchanged_of(cands), limit)
}

pub proof fn lemma_selection_len(ch: Seq<FileDescriptor>, un: Seq<FileDescriptor>, limit: usize)
    ensures
        selection(ch, un, limit).len() == if ch.len() + un.len() < limit { (ch.len() + un.len()) as int } else { limit as int },
{
}

proof fn lemma_split_len(cands: Seq<(FileDescriptor, bool)>)
    ensures
        changed_of(cands).len() + unchanged_of(cands).len() == cands.len(),
    decreases cands.len(),
{
    if cands.len() > 0 {
        lemma_split_len(cands.drop_last());
    }
}

impl LazyCollector {
    /// Number of files the scan keeps of those offered so far.
    pub open spec fn count(&self) -> int {
        selection(self.changed_seen@, self.unchanged_seen@, self.limit).len() as int
    }

    pub open spec fn wf(&self) -> bool {
        &&& self.changed@ == prefix(self.changed_seen@, self.limit as int)
        &&& self.unchanged@ == prefix(self.unchanged_seen@, self.limit as int)
    }

    /// An empty collector that keeps at most `limit` files.
    pub fn new(limit: usize) -> (r: LazyCollector)
        ensures
            r.wf(),
            r.limit == limit,
            r.changed_seen@ == Seq::<FileDescriptor>::empty(),
            r.unchanged_seen@ == Seq::<FileDescriptor>::empty(),
    {
        LazyCollector {
            changed: Vec::new(),
            unchanged: Vec::new(),
            limit,
            changed_seen: Ghost(Seq::empty()),
            unchanged_seen: Ghost(Seq::empty()),
        }
    }

    /// Number of files the scan keeps of those offered so far.
    pub fn collected_count(&self) -> (r: usize)
        requires
            self.wf(),
        ensures
            r == self.count(),
    {
        let k = self.changed.len();
        let room = self.limit - k;
        if self.unchanged.len() < room { k + self.unchanged.len() } else { self.limit }
    }

    /// Whether the limit is taken up by changed files alone, so that no
    /// file offered later can be kept.
    pub fn is_full(&self) -> (r: bool)
        requires
            self.wf(),
        ensures
            r == (self.changed_seen@.len() >= self.limit),
    {
        self.changed.len() >= self.limit
    }

    /// Offers a discovered file, unchanged where its cached metadata is
    /// still valid. It is held while fewer than `limit` files of its kind
    /// were offered before it; returns whether it was held.
    pub fn offer(&mut self, d: FileDescriptor, unchanged: bool) -> (r: bool)
        requires
            old(self).wf(),
        ensures
            final(self).wf(),
            final(self).limit == old(self).limit,
            unchanged ==> final(self).unchanged_seen@ == old(self).unchanged_seen@.push(d)
                && final(self).changed_seen@ == old(self).changed_seen@
                && r == (old(self).unchanged_seen@.len() < old(self).limit),
            !unchanged ==> final(self).changed_seen@ == old(self).changed_seen@.push(d)
                && final(self).unchanged_seen@ == old(self).unchanged_seen@
                && r == (old(self).changed_seen@.len() < old(self).limit),
    {
        if unchanged {
            let ghost s0 = self.unchanged_seen@;
            self.unchanged_seen = Ghost(s0.push(d));
            if self.unchanged.len() < self.limit {
                self.unchanged.push(d);
                proof {
                    assert(self.unchanged@ =~= prefix(self.unchanged_seen@, self.limit as int));
                }
                true
            } else {
                proof {
                    assert(self.unchanged@ =~= prefix(self.unchanged_seen@, self.limit as int));
                }
                false
            }
        } else {
            let ghost s0 = self.changed_seen@;
            self.changed_seen = Ghost(s0.push(d));
            if self.changed.len() < self.limit {
                self.changed.push(d);
                proof {
                    assert(self.changed@ =~= prefix(self.changed_seen@, self.limit as int));
                }
                true
            } else {
                proof {
                    assert(self.changed@ =~= prefix(self.changed_seen@, self.limit as int));
                }
                false
            }
        }
    }

    /// The files kept: the changed ones, then unchanged ones up to the limit.
    pub fn finish(self) -> (r: Vec<FileDescriptor>)
        requires
            self.wf(),
        ensures
            r@ == selection(self.changed_seen@, self.unchanged_seen@, self.limit),
            r@.len() <= self.limit,
    {
        let room = self.limit - self.changed.len();
        let mut out = self.changed;
        let ghost c0 = out@;
        let mut i: usize = 0;
        while i < self.unchanged.len() && i < room
            invariant
                i <= self.unchanged@.len(),
                i <= room,
                out@ == c0 + self.unchanged@.subrange(0, i as int),
            decreases self.unchanged.len() - i,
        {
            out.push(self.unchanged[i].copy());
            proof {
                assert(self.unchanged@.subrange(0, i + 1) =~= self.unchanged@.subrange(0, i as int).push(self.unchanged@[i as int]));
                assert(c0 + self.unchanged@.subrange(0, i + 1) =~= (c0 + self.unchanged@.subrange(0, i as int)).push(self.unchanged@[i as int]));
            }
            i = i + 1;
        }
        proof {
            let sel = selection(self.changed_seen@, self.unchanged_seen@, self.limit);
            assert(prefix(self.unchanged_seen@, self.limit - c0.len()) =~= self.unchanged@.subrange(0, i as int));
            assert(out@ =~= sel);
        }
        out
    }
}

/// Collects `cands` (each a discovered file and whether its cached metadata
/// is still valid) into a lazy candidate list: changed files first, up to
/// `limit`, then unchanged ones while there is room.
pub fn collect_candidates(cands: &Vec<(FileDescriptor, bool)>, limit: usize) -> (r: Vec<FileDescriptor>)
    ensures
        r@ == collected(cands@, limit),
        r@.len() == if cands@.len() < limit { cands@.len() as int } else { limit as int },
{
    let ghost cs = cands@;
    let mut col = LazyCollector::new(limit);
    let mut i: usize = 0;
    proof {
        assert(cs.subrange(0, 0) =~= Seq::<(FileDescriptor, bool)>::empty());
    }
    while i < cands.len()
        invariant
            cs == cands@,
            col.wf(),
            col.limit == limit,
            i <= cs.len(),
            col.changed_seen@ == changed_of(cs.subrange(0, i as int)),
            col.unchanged_seen@ == unchanged_of(cs.subrange(0, i as int)),
        decreases cands.len() - i,
    {
        let d = cands[i].0.copy();
        let unchanged = cands[i].1;
        proof {
            assert(cs.subrange(0, i + 1).drop_last() == cs.subrange(0, i as int));
            assert(cs.subrange(0, i + 1).last() == cs[i as int]);
        }
        col.offer(d, unchanged);
        i = i + 1;
    }
    proof {
        assert(cs.subrange(0, cs.len() as int) == cs);
        lemma_split_len(cs);
        lemma_selection_len(changed_of(cs), unchanged_of(cs), limit);
    }
    col.finish()
}

/// How far a lazy scan got: `collected` files kept out of `discovered`
/// eligible ones found; never complete once cancelled.
pub fn lazy_scan_progress(collected: usize, limit: usize, discovered: usize, cancelled: bool) -> (r: ScanProgress)
    ensures
        r.files_scanned == collected,
        r.scan_limit == limit,
        r.is_complete == (!cancelled && collected >= discovered),
        r.estimated_total_files == Some(discovered),
{
    ScanProgress {
        files_scanned: collected,
        scan_limit: limit,
        is_complete: !cancelled && collected >= discovered,
        estimated_total_files: Some(discovered),
    }
}

/// The digest a fresh scan returns.
pub open spec fn fresh_digest(a: Aggregate, generated_at: Seq<char>, lazy: bool, progress: Option<ScanProgress>, d: RepoAnalysis) -> bool {
    &&& d.files == a.files
    &&& d.structure == a.structure
    &&& d.technologies == a.technologies
    &&& d.metrics == a.metrics
    &&& d.size_metrics == a.size_metrics
    &&& d.generated_at matches Some(g) && g@ == generated_at
    &&& d.from_cache == Some(false)
    &&& d.is_lazy_scan == Some(lazy)
    &&& d.scan_progress == progress
}

/// Assembles the digest of a fresh scan from its aggregate.
pub fn build_digest(a: Aggregate, generated_at: String, lazy: bool, progress: Option<ScanProgress>) -> (d: RepoAnalysis)
    ensures
        fresh_digest(a, generated_at@, lazy, progress, d),
{
    RepoAnalysis {
        files: a.files,
        structure: a.structure,
        technologies: a.technologies,
        metrics: a.metrics,
        size_metrics: a.size_metrics,
        generated_at: Some(generated_at),
        from_cache: Some(false),
        is_lazy_scan: Some(lazy),
        scan_progress: progress,
    }
}

/// A lazy scan keeps exactly `limit` files where more eligible files were
/// discovered, and all of them otherwise; of them, as many changed files as
/// were found (up to the limit), and unchanged files only where no changed
/// file was left out.
pub proof fn lazy_scan_bound(ch: Seq<FileDescriptor>, un: Seq<FileDescriptor>, limit: usize)
    ensures
        ch.len() + un.len() > limit ==> selection(ch, un, limit).len() == limit,
        ch.len() + un.len() <= limit ==> selection(ch, un, limit).len() == ch.len() + un.len(),
        selection(ch, un, limit).subrange(0, prefix(ch, limit as int).len() as int) == prefix(ch, limit as int),
        prefix(ch, limit as int).len() == if ch.len() < limit { ch.len() as int } else { limit as int },
        selection(ch, un, limit).len() > prefix(ch, limit as int).len() ==> ch.len() < limit,
{
    lemma_selection_len(ch, un, limit);
    assert(selection(ch, un, limit).subrange(0, prefix(ch, limit as int).len() as int) =~= prefix(ch, limit as int));
}

} // verus!
