//! The whole-digest cache, the per-file metadata cache, the directory
//! metadata record and the favorites list that set scan budgets.

use vstd::prelude::*;
use crate::digest::RepoAnalysis;
use crate::filecount::{countable, ListedFile};
use crate::lang::should_count_file;
use crate::strmap::StrMap;
use crate::text::{owned, str_eq};

verus! {

/// A cached digest of one project root.
#[derive(Debug, Clone)]
pub struct AnalysisCacheEntry {
    pub path: String,
    /// The root's modification time when the digest was made.
    pub last_modified: u64,
    /// When the digest was cached, in seconds since the epoch.
    pub cached_at: u64,
    pub analysis: RepoAnalysis,
}

/// Cached picker metadata of one directory.
#[derive(Debug, Clone)]
pub struct ProjectMetaCacheEntry {
    pub path: String,
    pub description: Option<String>,
    pub is_git_repo: bool,
    pub last_modified: u64,
    pub cached_at: u64,
}

/// Cached metadata of one file.
#[derive(Debug, Clone)]
pub struct FileMetadata {
    pub path: String,
    pub language: String,
    pub size: u64,
    pub last_modified: u64,
    pub cached_at: u64,
    pub short_hash: Option<u64>,
}

/// Cached metadata of files, by absolute path.
#[derive(Debug, Clone)]
pub struct FileMetadataCache {
    pub entries: StrMap<FileMetadata>,
    pub cache_version: u32,
}

/// What the file system says of a path now.
#[derive(Debug, Clone, Copy, PartialEq, Eq)]
pub enum FileStamp {
    /// The path cannot be accessed.
    Missing,
    /// The path exists but has no readable modification time.
    NoTime,
    /// The path was last modified at this time, in seconds since the epoch.
    Modified(u64),
}

/// The projects marked as favorites.
#[derive(Debug, Clone)]
pub struct FavoriteProjects {
    pub favorites: Vec<String>,
    pub last_updated: String,
}

/// Name for what chrono renders for a UTC time `secs` seconds after the
/// epoch, in RFC 3339 form.
pub uninterp spec fn rfc3339_utc(secs: int) -> Seq<char>;

/// The last second of the year 9999, well inside chrono's range.
pub open spec fn last_renderable_second() -> int {
    253402300799
}

/// Relies on chrono's `DateTime::<Utc>::from_timestamp` (no value only for a
/// time out of its range, which reaches far beyond the years 1970 to 9999)
/// and `DateTime::to_rfc3339` (the RFC 3339 text, which depends on the time
/// alone).
#[verifier::external_body]
fn utc_rfc3339(secs: i64) -> (r: Option<String>)
    ensures
        0 <= secs <= last_renderable_second() ==> r is Some,
        r matches Some(s) ==> s@ == rfc3339_utc(secs as int),
{
    match chrono::DateTime::<chrono::Utc>::from_timestamp(secs, 0) {
        Some(t) => Some(t.to_rfc3339()),
        None => None,
    }
}

/// How long a cached digest is served: an hour, two for a favorite.
pub open spec fn digest_ttl(is_favorite: bool) -> u64 {
    if is_favorite { 7200 } else { 3600 }
}

/// How long a cached digest is served.
pub fn digest_ttl_for(is_favorite: bool) -> (r: u64)
    ensures
        r == digest_ttl(is_favorite),
{
    if is_favorite { 7200 } else { 3600 }
}

/// Whether entry `e` is served at `now`: no forced or full rescan was asked
/// for, the root has not been modified since (`root_modified` is its
/// modification time now), and the entry is younger than the TTL.
pub open spec fn cache_hit(e: AnalysisCacheEntry, root_modified: u64, now: u64, is_favorite: bool, force: bool, full: bool) -> bool {
    &&& !force
    &&& !full
    &&& e.last_modified >= root_modified
    &&& e.cached_at <= now
    &&& now - e.cached_at < digest_ttl(is_favorite)
}

/// The digest served from the cache: the cached one, marked as coming from
/// the cache and stamped with `stamp`.
pub open spec fn served(a: RepoAnalysis, stamp: String) -> RepoAnalysis {
    RepoAnalysis {
        files: a.files,
        structure: a.structure,
        technologies: a.technologies,
        metrics: a.metrics,
        size_metrics: a.size_metrics,
        generated_at: Some(stamp),
        from_cache: Some(true),
        is_lazy_scan: a.is_lazy_scan,
        scan_progress: a.scan_progress,
    }
}

/// The cached digest of `e` where it is served at `now`, stamped with `stamp`.
pub fn cached_digest_at(
    e: AnalysisCacheEntry,
    root_modified: u64,
    now: u64,
    is_favorite: bool,
    force: bool,
    full: bool,
    stamp: String,
) -> (r: Option<RepoAnalysis>)
    ensures
        r == if cache_hit(e, root_modified, now, is_favorite, force, full) {
            Some(served(e.analysis, stamp))
        } else {
            None::<RepoAnalysis>
        },
{
    if force || full || e.last_modified < root_modified || e.cached_at > now
        || now - e.cached_at >= digest_ttl_for(is_favorite) {
        return None;
    }
    let mut a = e.analysis;
    a.from_cache = Some(true);
    a.generated_at = Some(stamp);
    Some(a)
}

/// The cached digest of `e` where it is served at `now`, stamped with the
/// time it was cached (or `now_stamp` where that time is past the year 9999
/// and cannot be rendered).
pub fn cached_digest(
    e: AnalysisCacheEntry,
    root_modified: u64,
    now: u64,
    is_favorite: bool,
    force: bool,
    full: bool,
    now_stamp: String,
) -> (r: Option<RepoAnalysis>)
    ensures
        r is Some <==> cache_hit(e, root_modified, now, is_favorite, force, full),
        r matches Some(a) ==> a.generated_at matches Some(g) && a == served(e.analysis, g)
            && (g@ == rfc3339_utc(e.cached_at as i64 as int) || g == now_stamp)
            && (e.cached_at <= last_renderable_second() ==> g@ == rfc3339_utc(e.cached_at as int)),
{
    let ghost e0 = e;
    let ghost now0 = now_stamp;
    let stamp = match utc_rfc3339(e.cached_at as i64) {
        Some(s) => s,
        None => now_stamp,
    };
    let ghost st = stamp;
    let r = cached_digest_at(e, root_modified, now, is_favorite, force, full, stamp);
    proof {
        if r is Some {
            assert(r->0 == served(e0.analysis, st));
            assert(st@ == rfc3339_utc(e0.cached_at as i64 as int) || st == now0);
        }
    }
    r
}

/// The cache entry of a digest of `path` made when the root's modification
/// time was `root_modified`, cached at `now`.
pub fn make_cache_entry(path: String, analysis: RepoAnalysis, root_modified: u64, now: u64) -> (e: AnalysisCacheEntry)
    ensures
        e.path == path,
        e.analysis == analysis,
        e.last_modified == root_modified,
        e.cached_at == now,
{
    AnalysisCacheEntry { path, last_modified: root_modified, cached_at: now, analysis }
}

/// Scanning an unchanged root again within the TTL, without forcing, is
/// served from the cache: the same digest with identical metrics, marked as
/// coming from the cache.
pub proof fn rescan_within_ttl_hits_cache(
    e: AnalysisCacheEntry,
    d: RepoAnalysis,
    root_modified: u64,
    now: u64,
    is_favorite: bool,
    stamp: String,
)
    requires
        e.analysis == d,
        e.last_modified == root_modified,
        e.cached_at <= now,
        now - e.cached_at < digest_ttl(is_favorite),
    ensures
        cache_hit(e, root_modified, now, is_favorite, false, false),
        served(d, stamp).from_cache == Some(true),
        served(d, stamp).metrics == d.metrics,
        served(d, stamp).size_metrics == d.size_metrics,
        served(d, stamp).technologies == d.technologies,
        served(d, stamp).files == d.files,
        served(d, stamp).structure == d.structure,
{
}

impl FavoriteProjects {
    /// Whether `path` is a favorite.
    pub fn is_favorite(&self, path: &str) -> (r: bool)
        ensures
            r == exists|i: int| 0 <= i < self.favorites@.len() && (#[trigger] self.favorites@[i])@ == path@,
    {
        let mut i: usize = 0;
        while i < self.favorites.len()
            invariant
                i <= self.favorites@.len(),
                forall|j: int| 0 <= j < i ==> self.favorites@[j]@ != path@,
            decreases self.favorites.len() - i,
        {
            if str_eq(self.favorites[i].as_str(), path) {
                assert(self.favorites@[i as int]@ == path@);
                return true;
            }
            i = i + 1;
        }
        false
    }
}

/// Whether cached metadata `m` still describes a file stamped `s`.
pub open spec fn still_matches(m: FileMetadata, s: FileStamp) -> bool {
    s == FileStamp::Modified(m.last_modified)
}

/// The error for a file that cannot be accessed.
pub open spec fn inaccessible_message(path: Seq<char>) -> Seq<char> {
    "Cannot access file: "@ + path
}

/// Sum of the sizes of the still valid entries, saturating at the largest `u64`.
pub open spec fn valid_size_total(es: Seq<(String, FileMetadata)>, stamps: Seq<FileStamp>) -> int
    decreases es.len(),
{
    if es.len() == 0 || stamps.len() < es.len() {
        0
    } else {
        let t = valid_size_total(es.drop_last(), stamps.subrange(0, es.len() - 1))
            + if still_matches(es.last().1, stamps[es.len() - 1]) { es.last().1.size as int } else { 0int };
        if t > u64::MAX { u64::MAX as int } else { t }
    }
}

/// Number of still valid entries.
pub open spec fn valid_count(es: Seq<(String, FileMetadata)>, stamps: Seq<FileStamp>) -> int
    decreases es.len(),
{
    if es.len() == 0 || stamps.len() < es.len() {
        0
    } else {
        valid_count(es.drop_last(), stamps.subrange(0, es.len() - 1))
            + if still_matches(es.last().1, stamps[es.len() - 1]) { 1int } else { 0int }
    }
}

impl FileMetadataCache {
    pub open spec fn wf(&self) -> bool {
        self.entries.wf()
    }

    /// An empty cache.
    pub fn new() -> (r: FileMetadataCache)
        ensures
            r.wf(),
            r.entries@ == Map::<Seq<char>, FileMetadata>::empty(),
            r.cache_version == 1,
    {
        FileMetadataCache { entries: StrMap::new(), cache_version: 1 }
    }

    /// The cached metadata of `path`, where the file (stamped `stamp` now)
    /// has not been modified since it was cached.
    pub fn get_valid_metadata(&self, path: &str, stamp: FileStamp) -> (r: Option<&FileMetadata>)
        requires
            self.wf(),
        ensures
            r is Some <==> self.entries@.contains_key(path@) && still_matches(self.entries@[path@], stamp),
            r matches Some(m) ==> *m == self.entries@[path@],
    {
        match self.entries.get(path) {
            Some(m) => {
                match stamp {
                    FileStamp::Modified(t) => {
                        if t == m.last_modified {
                            Some(m)
                        } else {
                            None
                        }
                    },
                    _ => None,
                }
            },
            None => None,
        }
    }

    /// Records the metadata of the file at `file_path` (stamped `stamp`), cached at `now`.
    pub fn insert_metadata(&mut self, file_path: String, language: String, size: u64, stamp: FileStamp, now: u64) -> (r: Result<(), String>)
        requires
            old(self).wf(),
        ensures
            final(self).wf(),
            final(self).cache_version == old(self).cache_version,
            r matches Err(e) ==> stamp == FileStamp::Missing && e@ == inaccessible_message(file_path@)
                && final(self).entries@ == old(self).entries@,
            r is Ok ==> stamp != FileStamp::Missing && final(self).entries@ == old(self).entries@.insert(
                file_path@,
                FileMetadata {
                    path: file_path,
                    language,
                    size,
                    last_modified: match stamp { FileStamp::Modified(t) => t, _ => 0 },
                    cached_at: now,
                    short_hash: None,
                },
            ),
    {
        self.insert_metadata_with_hash(file_path, language, size, None, stamp, now)
    }

    /// Records the metadata of the file at `file_path` (stamped `stamp`),
    /// with a hash of its first bytes, cached at `now`.
    pub fn insert_metadata_with_hash(
        &mut self,
        file_path: String,
        language: String,
        size: u64,
        short_hash: Option<u64>,
        stamp: FileStamp,
        now: u64,
    ) -> (r: Result<(), String>)
        requires
            old(self).wf(),
        ensures
            final(self).wf(),
            final(self).cache_version == old(self).cache_version,
            r matches Err(e) ==> stamp == FileStamp::Missing && e@ == inaccessible_message(file_path@)
                && final(self).entries@ == old(self).entries@,
            r is Ok ==> stamp != FileStamp::Missing && final(self).entries@ == old(self).entries@.insert(
                file_path@,
                FileMetadata {
                    path: file_path,
                    language,
                    size,
                    last_modified: match stamp { FileStamp::Modified(t) => t, _ => 0 },
                    cached_at: now,
                    short_hash,
                },
            ),
    {
        let mod_time: u64 = match stamp {
            FileStamp::Missing => {
                let mut e = owned("Cannot access file: ");
                e.append(file_path.as_str());
                return Err(e);
            },
            FileStamp::NoTime => 0,
            FileStamp::Modified(t) => t,
        };
        let key = file_path.clone();
        let m = FileMetadata { path: file_path, language, size, last_modified: mod_time, cached_at: now, short_hash };
        self.entries.insert(key, m);
        Ok(())
    }

    /// Drops the entries cached `ttl_seconds` or more before `now` (or after it).
    pub fn prune_old_entries(&mut self, ttl_seconds: u64, now: u64)
        requires
            old(self).wf(),
        ensures
            final(self).wf(),
            final(self).cache_version == old(self).cache_version,
            final(self).entries@ == old(self).entries@.restrict(Set::new(|k: Seq<char>|
                old(self).entries@.contains_key(k) && old(self).entries@[k].cached_at <= now
                    && now - old(self).entries@[k].cached_at < ttl_seconds)),
    {
        let ghost es = self.entries.entries@;
        let mut keep: Vec<bool> = Vec::new();
        let mut i: usize = 0;
        while i < self.entries.entries.len()
            invariant
                self.entries.entries@ == es,
                i <= es.len(),
                keep@.len() == i,
                forall|j: int| 0 <= j < i ==> #[trigger] keep@[j] == (es[j].1.cached_at <= now && now - es[j].1.cached_at < ttl_seconds),
            decreases es.len() - i,
        {
            let c = self.entries.entries[i].1.cached_at;
            keep.push(c <= now && now - c < ttl_seconds);
            i = i + 1;
        }
        let ghost m0 = self.entries@;
        self.entries.retain_flags(&keep);
        proof {
            let a = Set::new(|k: Seq<char>| exists|j: int| 0 <= j < keep@.len() && keep@[j] && (#[trigger] es[j]).0@ == k);
            let b = Set::new(|k: Seq<char>| m0.contains_key(k) && m0[k].cached_at <= now && now - m0[k].cached_at < ttl_seconds);
            assert forall|k: Seq<char>| m0.contains_key(k) implies (a.contains(k) <==> b.contains(k)) by {
                let j = choose|j: int| 0 <= j < es.len() && (#[trigger] es[j]).0@ == k;
                crate::strmap::lemma_map_at(es, j);
                if a.contains(k) {
                    let j2 = choose|j2: int| 0 <= j2 < keep@.len() && keep@[j2] && (#[trigger] es[j2]).0@ == k;
                    crate::strmap::lemma_map_at(es, j2);
                }
            }
            assert(m0.restrict(a) =~= m0.restrict(b));
        }
    }

    /// Drops the entries whose file (stamped by `stamps`, one per entry in
    /// order) is gone or was modified since it was cached.
    pub fn validate_and_clean(&mut self, stamps: &Vec<FileStamp>)
        requires
            old(self).wf(),
            stamps@.len() == old(self).entries.entries@.len(),
        ensures
            final(self).wf(),
            final(self).cache_version == old(self).cache_version,
            final(self).entries@ == old(self).entries@.restrict(Set::new(|k: Seq<char>| exists|i: int| 0 <= i < stamps@.len()
                && still_matches((#[trigger] old(self).entries.entries@[i]).1, stamps@[i]) && old(self).entries.entries@[i].0@ == k)),
    {
        let ghost es = self.entries.entries@;
        let mut keep: Vec<bool> = Vec::new();
        let mut i: usize = 0;
        while i < stamps.len()
            invariant
                self.entries.entries@ == es,
                stamps@.len() == es.len(),
                i <= es.len(),
                keep@.len() == i,
                forall|j: int| 0 <= j < i ==> #[trigger] keep@[j] == still_matches(es[j].1, stamps@[j]),
            decreases es.len() - i,
        {
            let ok = match stamps[i] {
                FileStamp::Modified(t) => t == self.entries.entries[i].1.last_modified,
                _ => false,
            };
            keep.push(ok);
            i = i + 1;
        }
        let ghost m0 = self.entries@;
        self.entries.retain_flags(&keep);
        proof {
            let a = Set::new(|k: Seq<char>| exists|j: int| 0 <= j < keep@.len() && keep@[j] && (#[trigger] es[j]).0@ == k);
            let b = Set::new(|k: Seq<char>| exists|j: int| 0 <= j < stamps@.len() && still_matches((#[trigger] es[j]).1, stamps@[j]) && es[j].0@ == k);
            assert(a =~= b) by {
                assert forall|k: Seq<char>| a.contains(k) implies b.contains(k) by {
                    let j = choose|j: int| 0 <= j < keep@.len() && keep@[j] && (#[trigger] es[j]).0@ == k;
                    assert(still_matches(es[j].1, stamps@[j]));
                }
                assert forall|k: Seq<char>| b.contains(k) implies a.contains(k) by {
                    let j = choose|j: int| 0 <= j < stamps@.len() && still_matches((#[trigger] es[j]).1, stamps@[j]) && es[j].0@ == k;
                    assert(keep@[j]);
                }
            }
        }
    }

    /// The number of entries, of still valid ones (by `stamps`, one per
    /// entry in order), and the bytes of the valid ones.
    pub fn get_stats(&self, stamps: &Vec<FileStamp>) -> (r: (usize, usize, u64))
        requires
            self.wf(),
            stamps@.len() == self.entries.entries@.len(),
        ensures
            r.0 == self.entries@.dom().len(),
            r.1 == valid_count(self.entries.entries@, stamps@),
            r.2 == valid_size_total(self.entries.entries@, stamps@),
    {
        let ghost es = self.entries.entries@;
        let mut valid: usize = 0;
        let mut total: u64 = 0;
        let mut i: usize = 0;
        while i < stamps.len()
            invariant
                self.entries.entries@ == es,
                stamps@.len() == es.len(),
                i <= es.len(),
                valid <= i,
                valid == valid_count(es.subrange(0, i as int), stamps@.subrange(0, i as int)),
                total == valid_size_total(es.subrange(0, i as int), stamps@.subrange(0, i as int)),
            decreases es.len() - i,
        {
            proof {
                assert(es.subrange(0, i + 1).drop_last() == es.subrange(0, i as int));
                assert(stamps@.subrange(0, i + 1).subrange(0, i as int) == stamps@.subrange(0, i as int));
            }
            let m = &self.entries.entries[i].1;
            let ok = match stamps[i] {
                FileStamp::Modified(t) => t == m.last_modified,
                _ => false,
            };
            if ok {
                valid = valid + 1;
                if m.size > u64::MAX - total {
                    total = u64::MAX;
                } else {
                    total = total + m.size;
                }
            }
            i = i + 1;
        }
        proof {
            assert(es.subrange(0, es.len() as int) == es);
            assert(stamps@.subrange(0, es.len() as int) == stamps@);
        }
        (self.entries.len(), valid, total)
    }

    /// The files of `listing` that the counter counts and whose cached
    /// metadata is missing or older than their modification time.
    pub fn incremental_scan(&self, listing: &Vec<ListedFile>) -> (r: Result<Vec<String>, String>)
        requires
            self.wf(),
        ensures
            r matches Ok(v) && v@.map_values(|s: String| s@) == needing_update(self.entries@, listing@),
    {
        let ghost l = listing@;
        let mut out: Vec<String> = Vec::new();
        let mut i: usize = 0;
        while i < listing.len()
            invariant
                l == listing@,
                self.wf(),
                i <= l.len(),
                out@.map_values(|s: String| s@) == needing_update(self.entries@, l.subrange(0, i as int)),
            decreases listing.len() - i,
        {
            proof {
                assert(l.subrange(0, i + 1).drop_last() == l.subrange(0, i as int));
                assert(l.subrange(0, i + 1).last() == l[i as int]);
            }
            let e = &listing[i];
            let ghost out0 = out@;
            if should_count_file(e.path.as_str()) {
                match e.modified {
                    Some(t) => {
                        let fresh = match self.entries.get(e.path.as_str()) {
                            Some(m) => m.last_modified == t,
                            None => false,
                        };
                        if !fresh {
                            out.push(e.path.clone());
                            proof {
                                assert(out@.map_values(|s: String| s@) =~= out0.map_values(|s: String| s@).push(e.path@));
                            }
                        }
                    },
                    None => {},
                }
            }
            i = i + 1;
        }
        proof {
            assert(l.subrange(0, l.len() as int) == l);
        }
        Ok(out)
    }
}

/// The paths of `l`, in order, that are counted, have a modification time,
/// and whose cached metadata in `m` is missing or records another time.
pub open spec fn needing_update(m: Map<Seq<char>, FileMetadata>, l: Seq<ListedFile>) -> Seq<Seq<char>>
    decreases l.len(),
{
    if l.len() == 0 {
        Seq::empty()
    } else {
        let e = l.last();
        let rest = needing_update(m, l.drop_last());
        if countable(e.path@) && e.modified is Some && !(m.contains_key(e.path@) && m[e.path@].last_modified == e.modified->0) {
            rest.push(e.path@)
        } else {
            rest
        }
    }
}

} // verus!
