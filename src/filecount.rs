//! The per-project file count cache: how many files a project holds, with an
//! inventory of their modification times for incremental updates.

use vstd::prelude::*;
use crate::lang::{passes_filter, should_count_file, uncounted_extensions};
use crate::strmap::StrMap;
use crate::text::owned;

verus! {

/// A file found under a project root, with its modification time in seconds
/// since the epoch where it could be read.
#[derive(Debug, Clone)]
pub struct ListedFile {
    pub path: String,
    pub modified: Option<u64>,
}

/// Cached file count of one project.
#[derive(Debug, Clone)]
pub struct FileCountCache {
    pub path: String,
    pub count: usize,
    pub last_modified: u64,
    pub cached_at: u64,
    /// Modification time of each counted file, by path.
    pub file_inventory: Option<StrMap<u64>>,
}

/// Cached file counts of all projects.
#[derive(Debug, Clone)]
pub struct GlobalFileCountCache {
    pub projects: StrMap<FileCountCache>,
    pub last_cleanup: u64,
}

/// A cached count is considered stale after a day.
pub open spec fn max_cache_age() -> u64 {
    86_400
}

/// Projects that no longer exist are dropped at most once an hour.
pub open spec fn cleanup_interval() -> u64 {
    3600
}

/// Whether the file counter counts the file at `p`.
pub open spec fn countable(p: Seq<char>) -> bool {
    passes_filter(p, uncounted_extensions())
}

/// Whether listing entry `e` brings news for inventory `m`: it is counted,
/// has a modification time, and `m` does not already record that time.
pub open spec fn brings_news(m: Map<Seq<char>, u64>, e: ListedFile) -> bool {
    countable(e.path@) && e.modified is Some && !(m.contains_key(e.path@) && m[e.path@] == e.modified->0)
}

/// The inventory after recording the listing's modification times.
pub open spec fn recorded(inv: Map<Seq<char>, u64>, l: Seq<ListedFile>) -> Map<Seq<char>, u64>
    decreases l.len(),
{
    if l.len() == 0 {
        inv
    } else {
        let m = recorded(inv, l.drop_last());
        if brings_news(m, l.last()) {
            m.insert(l.last().path@, l.last().modified->0)
        } else {
            m
        }
    }
}

/// Whether recording the listing changed a modification time or added a file.
pub open spec fn news_seen(inv: Map<Seq<char>, u64>, l: Seq<ListedFile>) -> bool
    decreases l.len(),
{
    if l.len() == 0 {
        false
    } else {
        news_seen(inv, l.drop_last()) || brings_news(recorded(inv, l.drop_last()), l.last())
    }
}

/// Number of counted files in a listing.
pub open spec fn counted(l: Seq<ListedFile>) -> int
    decreases l.len(),
{
    if l.len() == 0 {
        0
    } else {
        counted(l.drop_last()) + if countable(l.last().path@) { 1int } else { 0int }
    }
}

/// The paths of a listing.
pub open spec fn listed_paths(l: Seq<ListedFile>) -> Set<Seq<char>> {
    Set::new(|k: Seq<char>| exists|i: int| 0 <= i < l.len() && (#[trigger] l[i]).path@ == k)
}

/// The inventory that an update with listing `l` arrives at.
pub open spec fn updated_inventory(inv: Map<Seq<char>, u64>, l: Seq<ListedFile>) -> Map<Seq<char>, u64> {
    recorded(inv, l).restrict(listed_paths(l))
}

/// Whether an update with listing `l` reports a change: a file is new or
/// modified, or a recorded file is gone.
pub open spec fn update_changes(inv: Map<Seq<char>, u64>, l: Seq<ListedFile>) -> bool {
    news_seen(inv, l) || !recorded(inv, l).dom().subset_of(listed_paths(l))
}

impl FileCountCache {
    /// The inventory as a map, empty where there is none.
    pub open spec fn inventory(&self) -> Map<Seq<char>, u64> {
        match self.file_inventory {
            Some(m) => m@,
            None => Map::empty(),
        }
    }

    pub open spec fn wf(&self) -> bool {
        self.file_inventory matches Some(m) ==> m.wf()
    }

    /// An empty cache for the project at `path`.
    pub fn new(path: String) -> (r: FileCountCache)
        ensures
            r.wf(),
            r.path == path,
            r.count == 0,
            r.last_modified == 0,
            r.cached_at == 0,
            r.file_inventory matches Some(m) && m@ == Map::<Seq<char>, u64>::empty(),
    {
        FileCountCache { path, count: 0, last_modified: 0, cached_at: 0, file_inventory: Some(StrMap::new()) }
    }

    /// Updates the count from `listing`, the files now under the project root
    /// (`root_modified` is the root's modification time, `now` the time).
    /// Returns whether a file is new, modified or gone. Where that is so, or
    /// the count moved, the count, inventory and time stamps are replaced;
    /// otherwise the cache stays as it was.
    pub fn incremental_update(&mut self, listing: &Vec<ListedFile>, root_modified: u64, now: u64) -> (r: Result<bool, String>)
        requires
            old(self).wf(),
        ensures
            final(self).wf(),
            r == Ok::<bool, String>(update_changes(old(self).inventory(), listing@)),
            final(self).path == old(self).path,
            if update_changes(old(self).inventory(), listing@) || old(self).count != counted(listing@) {
                &&& final(self).count == counted(listing@)
                &&& final(self).file_inventory matches Some(m) && m@ == updated_inventory(old(self).inventory(), listing@)
                &&& final(self).cached_at == now
                &&& final(self).last_modified == root_modified
            } else {
                *final(self) == *old(self)
            },
    {
        let ghost inv0 = self.inventory();
        let ghost l = listing@;
        let mut inv: StrMap<u64> = match &self.file_inventory {
            Some(m) => m.copy(),
            None => StrMap::new(),
        };
        assert(inv@ == inv0);
        let mut changed = false;
        let mut new_count: usize = 0;
        let mut i: usize = 0;
        while i < listing.len()
            invariant
                l == listing@,
                inv.wf(),
                i <= l.len(),
                inv@ == recorded(inv0, l.subrange(0, i as int)),
                changed == news_seen(inv0, l.subrange(0, i as int)),
                new_count == counted(l.subrange(0, i as int)),
                new_count <= i,
            decreases listing.len() - i,
        {
            proof {
                assert(l.subrange(0, i + 1).drop_last() == l.subrange(0, i as int));
                assert(l.subrange(0, i + 1).last() == l[i as int]);
            }
            let e = &listing[i];
            if should_count_file(e.path.as_str()) {
                new_count = new_count + 1;
                match e.modified {
                    Some(m) => {
                        let same = match inv.get(e.path.as_str()) {
                            Some(v) => *v == m,
                            None => false,
                        };
                        if !same {
                            inv.insert(e.path.clone(), m);
                            changed = true;
                        }
                    },
                    None => {},
                }
            }
            i = i + 1;
        }
        proof {
            assert(l.subrange(0, l.len() as int) == l);
        }
        let ghost rec = inv@;
        let mut keep: Vec<bool> = Vec::new();
        let mut gone = false;
        let mut j: usize = 0;
        while j < inv.entries.len()
            invariant
                l == listing@,
                inv.wf(),
                inv@ == rec,
                j <= inv.entries@.len(),
                keep@.len() == j,
                forall|a: int| 0 <= a < j ==> #[trigger] keep@[a] == listed_paths(l).contains(inv.entries@[a].0@),
                gone == exists|a: int| 0 <= a < j && !(#[trigger] keep@[a]),
            decreases inv.entries.len() - j,
        {
            let present = is_listed(listing, inv.entries[j].0.as_str());
            let ghost keep0 = keep@;
            keep.push(present);
            if !present {
                gone = true;
            }
            proof {
                if exists|a: int| 0 <= a < j + 1 && !(#[trigger] keep@[a]) {
                    let a = choose|a: int| 0 <= a < j + 1 && !(#[trigger] keep@[a]);
                    if a < j {
                        assert(keep0[a] == keep@[a]);
                    }
                }
                if !present {
                    assert(!keep@[j as int]);
                }
                if exists|a: int| 0 <= a < j && !(#[trigger] keep0[a]) {
                    let a = choose|a: int| 0 <= a < j && !(#[trigger] keep0[a]);
                    assert(!keep@[a]);
                }
            }
            j = j + 1;
        }
        proof {
            assert(gone == !rec.dom().subset_of(listed_paths(l))) by {
                if gone {
                    let a = choose|a: int| 0 <= a < j && !(#[trigger] keep@[a]);
                    crate::strmap::lemma_map_at(inv.entries@, a);
                    assert(rec.dom().contains(inv.entries@[a].0@));
                }
                if !rec.dom().subset_of(listed_paths(l)) {
                    let k = choose|k: Seq<char>| rec.dom().contains(k) && !listed_paths(l).contains(k);
                    let a = choose|a: int| 0 <= a < inv.entries@.len() && (#[trigger] inv.entries@[a]).0@ == k;
                    assert(!keep@[a]);
                }
            }
        }
        let ghost ents = inv.entries@;
        inv.retain_flags(&keep);
        proof {
            let kset = Set::new(|k: Seq<char>| exists|a: int| 0 <= a < keep@.len() && keep@[a] && (#[trigger] ents[a]).0@ == k);
            assert forall|k: Seq<char>| rec.contains_key(k) implies (kset.contains(k) <==> listed_paths(l).contains(k)) by {
                let a = choose|a: int| 0 <= a < ents.len() && (#[trigger] ents[a]).0@ == k;
                if kset.contains(k) {
                    let b = choose|b: int| 0 <= b < keep@.len() && keep@[b] && (#[trigger] ents[b]).0@ == k;
                    assert(keep@[b] == listed_paths(l).contains(ents[b].0@));
                } else {
                    assert(keep@[a] == listed_paths(l).contains(ents[a].0@));
                }
            }
            assert(inv@ =~= updated_inventory(inv0, l));
        }
        let any_change = changed || gone;
        if any_change || self.count != new_count {
            self.count = new_count;
            self.file_inventory = Some(inv);
            self.cached_at = now;
            self.last_modified = root_modified;
        }
        Ok(any_change)
    }

    /// Whether the cached count can still be trusted: the root has not been
    /// modified since, and the count is at most a day old.
    pub fn is_likely_valid(&self, root_modified: u64, now: u64) -> (r: bool)
        ensures
            r == (root_modified <= self.last_modified && self.cached_at <= now && now - self.cached_at <= max_cache_age()),
    {
        if root_modified > self.last_modified {
            return false;
        }
        if now < self.cached_at || now - self.cached_at > 24 * 60 * 60 {
            return false;
        }
        true
    }
}

/// Number of inventory entries (in order, `stamps` giving each file's
/// current modification time where it can be read) whose file was modified
/// since it was recorded.
pub open spec fn modified_count(es: Seq<(String, u64)>, stamps: Seq<Option<u64>>) -> int
    decreases es.len(),
{
    if es.len() == 0 || stamps.len() < es.len() {
        0
    } else {
        modified_count(es.drop_last(), stamps.subrange(0, es.len() - 1)) + match stamps[es.len() - 1] {
            Some(t) => if t != es.last().1 { 1int } else { 0int },
            None => 0int,
        }
    }
}

impl FileCountCache {
    /// How many recorded files were modified since they were recorded
    /// (`stamps`: one per inventory entry, in order); the largest `usize`,
    /// asking for a full rescan, where there is no inventory.
    pub fn get_modified_count(&self, stamps: &Vec<Option<u64>>) -> (r: usize)
        requires
            self.file_inventory matches Some(m) ==> stamps@.len() == m.entries@.len(),
        ensures
            r == match self.file_inventory {
                Some(m) => modified_count(m.entries@, stamps@),
                None => usize::MAX as int,
            },
    {
        let inv = match &self.file_inventory {
            Some(m) => m,
            None => {
                return usize::MAX;
            },
        };
        let ghost es = inv.entries@;
        let mut n: usize = 0;
        let mut i: usize = 0;
        while i < stamps.len()
            invariant
                es == inv.entries@,
                stamps@.len() == es.len(),
                i <= es.len(),
                n <= i,
                n == modified_count(es.subrange(0, i as int), stamps@.subrange(0, i as int)),
            decreases stamps.len() - i,
        {
            proof {
                assert(es.subrange(0, i + 1).drop_last() == es.subrange(0, i as int));
                assert(stamps@.subrange(0, i + 1).subrange(0, i as int) == stamps@.subrange(0, i as int));
            }
            match stamps[i] {
                Some(t) => {
                    if t != inv.entries[i].1 {
                        n = n + 1;
                    }
                },
                None => {},
            }
            i = i + 1;
        }
        proof {
            assert(es.subrange(0, es.len() as int) == es);
            assert(stamps@.subrange(0, es.len() as int) == stamps@);
        }
        n
    }
}

/// Whether some file of `listing` is at `path`.
fn is_listed(listing: &Vec<ListedFile>, path: &str) -> (r: bool)
    ensures
        r == listed_paths(listing@).contains(path@),
{
    let mut i: usize = 0;
    while i < listing.len()
        invariant
            i <= listing@.len(),
            forall|a: int| 0 <= a < i ==> listing@[a].path@ != path@,
        decreases listing.len() - i,
    {
        if crate::text::str_eq(listing[i].path.as_str(), path) {
            assert(listing@[i as int].path@ == path@);
            return true;
        }
        i = i + 1;
    }
    false
}

/// The files under one project root, as an update of the global cache takes them.
#[derive(Debug, Clone)]
pub struct ProjectListing {
    pub path: String,
    pub listing: Vec<ListedFile>,
    pub root_modified: u64,
}

/// Whether a count with these time stamps can be trusted at `now`, the root
/// having been modified at `root_modified`.
pub open spec fn still_valid(last_modified: u64, cached_at: u64, root_modified: u64, now: u64) -> bool {
    root_modified <= last_modified && cached_at <= now && now - cached_at <= max_cache_age()
}

/// The inventory of project `p` before an update: empty for a new project.
pub open spec fn base_inventory(m: Map<Seq<char>, FileCountCache>, p: Seq<char>) -> Map<Seq<char>, u64> {
    if m.contains_key(p) { m[p].inventory() } else { Map::empty() }
}

/// The count of project `p` before an update: zero for a new project.
pub open spec fn base_count(m: Map<Seq<char>, FileCountCache>, p: Seq<char>) -> int {
    if m.contains_key(p) { m[p].count as int } else { 0 }
}

/// Whether the cache of project `p` is trusted for an incremental update.
pub open spec fn base_trusted(m: Map<Seq<char>, FileCountCache>, p: Seq<char>, root_modified: u64, now: u64) -> bool {
    if m.contains_key(p) {
        m[p].file_inventory is Some && still_valid(m[p].last_modified, m[p].cached_at, root_modified, now)
    } else {
        still_valid(0, 0, root_modified, now)
    }
}

/// The count reported for path `k` by a batch: that of its last listing.
pub open spec fn batch_count_for(ps: Seq<ProjectListing>, k: Seq<char>) -> int
    decreases ps.len(),
{
    if ps.len() == 0 {
        0
    } else if ps.last().path@ == k {
        counted(ps.last().listing@)
    } else {
        batch_count_for(ps.drop_last(), k)
    }
}

/// The paths of a batch.
pub open spec fn batch_paths(ps: Seq<ProjectListing>) -> Set<Seq<char>> {
    Set::new(|k: Seq<char>| exists|i: int| 0 <= i < ps.len() && (#[trigger] ps[i]).path@ == k)
}

impl GlobalFileCountCache {
    pub open spec fn wf(&self) -> bool {
        &&& self.projects.wf()
        &&& forall|k: Seq<char>| #[trigger] self.projects@.contains_key(k) ==> self.projects@[k].wf()
    }

    /// An empty cache, last cleaned up at `now`.
    pub fn new(now: u64) -> (r: GlobalFileCountCache)
        ensures
            r.wf(),
            r.projects@ == Map::<Seq<char>, FileCountCache>::empty(),
            r.last_cleanup == now,
    {
        GlobalFileCountCache { projects: StrMap::new(), last_cleanup: now }
    }

    /// Updates the count of the project at `project_path` from `listing`,
    /// the files now under it. Returns the new count, and whether anything
    /// changed: always so where the cached count was not trusted (missing
    /// inventory, modified root, or older than a day).
    pub fn update_project(&mut self, project_path: &str, listing: &Vec<ListedFile>, root_modified: u64, now: u64) -> (r: Result<(usize, bool), String>)
        requires
            old(self).wf(),
        ensures
            final(self).wf(),
            final(self).last_cleanup == old(self).last_cleanup,
            final(self).projects@ == old(self).projects@.insert(project_path@, final(self).projects@[project_path@]),
            ({
                let m = old(self).projects@;
                let p = project_path@;
                let c = final(self).projects@[p];
                let changes = update_changes(base_inventory(m, p), listing@);
                &&& if changes || base_count(m, p) != counted(listing@) {
                    &&& c.count == counted(listing@)
                    &&& c.inventory() == updated_inventory(base_inventory(m, p), listing@)
                    &&& c.cached_at == now
                    &&& c.last_modified == root_modified
                } else {
                    &&& c.count == base_count(m, p)
                    &&& c.inventory() == base_inventory(m, p)
                }
                &&& r == Ok::<(usize, bool), String>((c.count, if base_trusted(m, p, root_modified, now) { changes } else { true }))
            }),
    {
        let ghost m = self.projects@;
        let mut cache = match self.projects.remove(project_path) {
            Some(c) => c,
            None => FileCountCache::new(owned(project_path)),
        };
        proof {
            if m.contains_key(project_path@) {
                assert(cache == m[project_path@]);
            }
        }
        let trusted = cache.is_likely_valid(root_modified, now) && cache.file_inventory.is_some();
        let changed = match cache.incremental_update(listing, root_modified, now) {
            Ok(c) => c,
            Err(e) => {
                return Err(e);
            },
        };
        let count = cache.count;
        let ghost c = cache;
        self.projects.insert(owned(project_path), cache);
        proof {
            assert(self.projects@ =~= m.insert(project_path@, c));
            assert(self.projects@[project_path@] == c);
            assert forall|k: Seq<char>| #[trigger] self.projects@.contains_key(k) implies self.projects@[k].wf() by {
                if k != project_path@ {
                    assert(m.contains_key(k));
                }
            }
        }
        if trusted {
            Ok((count, changed))
        } else {
            Ok((count, true))
        }
    }

    /// Updates every project of `projects` in turn, returning each path's
    /// count and change flag (a path listed twice reports its last update).
    pub fn batch_update(&mut self, projects: &Vec<ProjectListing>, now: u64) -> (r: StrMap<(usize, bool)>)
        requires
            old(self).wf(),
        ensures
            final(self).wf(),
            r.wf(),
            r@.dom() == batch_paths(projects@),
            final(self).projects@.dom() == old(self).projects@.dom().union(batch_paths(projects@)),
            forall|k: Seq<char>| #[trigger] r@.contains_key(k) ==> r@[k].0 == batch_count_for(projects@, k),
            forall|k: Seq<char>| #[trigger] r@.contains_key(k) ==> r@[k].0 == final(self).projects@[k].count,
            forall|k: Seq<char>| old(self).projects@.contains_key(k) && !batch_paths(projects@).contains(k)
                ==> #[trigger] final(self).projects@[k] == old(self).projects@[k],
    {
        let ghost ps = projects@;
        let ghost dom0 = self.projects@.dom();
        let ghost m0 = self.projects@;
        let mut results: StrMap<(usize, bool)> = StrMap::new();
        let mut i: usize = 0;
        while i < projects.len()
            invariant
                ps == projects@,
                self.wf(),
                results.wf(),
                i <= ps.len(),
                results@.dom() == batch_paths(ps.subrange(0, i as int)),
                self.projects@.dom() == dom0.union(batch_paths(ps.subrange(0, i as int))),
                forall|k: Seq<char>| #[trigger] results@.contains_key(k) ==> results@[k].0 == batch_count_for(ps.subrange(0, i as int), k),
                forall|k: Seq<char>| #[trigger] results@.contains_key(k) ==> results@[k].0 == self.projects@[k].count,
                forall|k: Seq<char>| m0.contains_key(k) && !batch_paths(ps.subrange(0, i as int)).contains(k)
                    ==> #[trigger] self.projects@[k] == m0[k],
            decreases projects.len() - i,
        {
            let p = &projects[i];
            let ghost q = ps.subrange(0, i + 1);
            proof {
                assert(q.drop_last() == ps.subrange(0, i as int));
                assert(q.last() == ps[i as int]);
                assert(batch_paths(q) =~= batch_paths(ps.subrange(0, i as int)).insert(p.path@)) by {
                    assert forall|k: Seq<char>| batch_paths(q).contains(k) implies batch_paths(ps.subrange(0, i as int)).insert(p.path@).contains(k) by {
                        let a = choose|a: int| 0 <= a < q.len() && (#[trigger] q[a]).path@ == k;
                        if a < i {
                            assert(ps.subrange(0, i as int)[a] == q[a]);
                        }
                    }
                    assert forall|k: Seq<char>| batch_paths(ps.subrange(0, i as int)).insert(p.path@).contains(k) implies batch_paths(q).contains(k) by {
                        if k == p.path@ {
                            assert(q[i as int].path@ == k);
                        } else {
                            let a = choose|a: int| 0 <= a < i && (#[trigger] ps.subrange(0, i as int)[a]).path@ == k;
                            assert(q[a] == ps.subrange(0, i as int)[a]);
                        }
                    }
                }
            }
            let ghost before = self.projects@;
            let res = self.update_project(p.path.as_str(), &p.listing, p.root_modified, now);
            proof {
                assert(self.projects@.dom() =~= before.dom().insert(p.path@));
            }
            match res {
                Ok(v) => {
                    results.insert(p.path.clone(), v);
                },
                Err(_) => {},
            }
            i = i + 1;
        }
        proof {
            assert(ps.subrange(0, ps.len() as int) == ps);
        }
        results
    }

    /// Drops the projects that no longer exist (`exists` holds one flag per
    /// project entry, in order), at most once per hour; a clock that went
    /// back also counts as due.
    pub fn cleanup_if_needed(&mut self, now: u64, exists: &Vec<bool>)
        requires
            old(self).wf(),
            exists@.len() == old(self).projects.entries@.len(),
        ensures
            final(self).wf(),
            if now < old(self).last_cleanup || now - old(self).last_cleanup > cleanup_interval() {
                &&& final(self).projects@ == old(self).projects@.restrict(Set::new(|k: Seq<char>| exists|i: int| 0 <= i < exists@.len() && exists@[i] && (#[trigger] old(self).projects.entries@[i]).0@ == k))
                &&& final(self).last_cleanup == now
            } else {
                *final(self) == *old(self)
            },
    {
        if now < self.last_cleanup || now - self.last_cleanup > 3600 {
            let ghost m = self.projects@;
            self.projects.retain_flags(exists);
            self.last_cleanup = now;
            proof {
                assert forall|k: Seq<char>| #[trigger] self.projects@.contains_key(k) implies self.projects@[k].wf() by {
                    assert(m.contains_key(k));
                }
            }
        }
    }
}

} // verus!
