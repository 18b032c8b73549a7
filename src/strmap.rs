//! A map keyed by strings, kept as a vector of entries with distinct keys.

use vstd::prelude::*;
use crate::text::str_eq;

verus! {

/// A map from strings to values; entries keep their order of insertion.
#[derive(Debug, Clone)]
pub struct StrMap<V> {
    pub entries: Vec<(String, V)>,
}

/// Whether the keys of `s` are distinct.
pub open spec fn distinct_keys<V>(s: Seq<(String, V)>) -> bool {
    forall|i: int, j: int| 0 <= i < s.len() && 0 <= j < s.len() && i != j ==> (#[trigger] s[i]).0@ != (#[trigger] s[j]).0@
}

/// Whether some entry of `s` has key `k`.
pub open spec fn has_key<V>(s: Seq<(String, V)>, k: Seq<char>) -> bool {
    exists|i: int| 0 <= i < s.len() && (#[trigger] s[i]).0@ == k
}

/// The map that the entries `s` describe.
pub open spec fn map_of<V>(s: Seq<(String, V)>) -> Map<Seq<char>, V> {
    Map::new(
        |k: Seq<char>| has_key(s, k),
        |k: Seq<char>| s[choose|i: int| 0 <= i < s.len() && (#[trigger] s[i]).0@ == k].1,
    )
}

/// Entry `i` is what the map holds for its key.
pub proof fn lemma_map_at<V>(s: Seq<(String, V)>, i: int)
    requires
        distinct_keys(s),
        0 <= i < s.len(),
    ensures
        map_of(s).contains_key(s[i].0@),
        map_of(s)[s[i].0@] == s[i].1,
{
    assert(has_key(s, s[i].0@));
    let j = choose|j: int| 0 <= j < s.len() && (#[trigger] s[j]).0@ == s[i].0@;
    assert(j == i);
}

impl<V> View for StrMap<V> {
    type V = Map<Seq<char>, V>;

    open spec fn view(&self) -> Map<Seq<char>, V> {
        map_of(self.entries@)
    }
}

impl<V> StrMap<V> {
    /// The keys are distinct.
    pub open spec fn wf(&self) -> bool {
        distinct_keys(self.entries@)
    }

    /// An empty map.
    pub fn new() -> (r: StrMap<V>)
        ensures
            r.wf(),
            r@ == Map::<Seq<char>, V>::empty(),
    {
        let r = StrMap { entries: Vec::new() };
        assert(r@ =~= Map::<Seq<char>, V>::empty());
        r
    }

    /// Number of keys.
    pub fn len(&self) -> (r: usize)
        requires
            self.wf(),
        ensures
            r == self@.dom().len(),
            r == self.entries@.len(),
    {
        proof {
            self.lemma_dom_len();
        }
        self.entries.len()
    }

    proof fn lemma_dom_len(&self)
        requires
            self.wf(),
        ensures
            self@.dom().len() == self.entries@.len(),
            self@.dom().finite(),
    {
        let s = self.entries@;
        let keys = s.map_values(|e: (String, V)| e.0@);
        assert forall|i: int, j: int| 0 <= i < keys.len() && 0 <= j < keys.len() && i != j implies keys[i] != keys[j] by {
            assert(s[i].0@ != s[j].0@);
        }
        assert(keys.no_duplicates());
        keys.unique_seq_to_set();
        assert(keys.to_set() =~= self@.dom()) by {
            assert forall|k: Seq<char>| keys.to_set().contains(k) implies self@.dom().contains(k) by {
                let i = choose|i: int| 0 <= i < keys.len() && keys[i] == k;
                assert(s[i].0@ == k);
            }
            assert forall|k: Seq<char>| self@.dom().contains(k) implies keys.to_set().contains(k) by {
                let i = choose|i: int| 0 <= i < s.len() && (#[trigger] s[i]).0@ == k;
                assert(keys[i] == k);
            }
        }
    }

    /// Position of key `k` among the entries, or their number when absent.
    pub fn position(&self, k: &str) -> (r: usize)
        requires
            self.wf(),
        ensures
            r <= self.entries@.len(),
            r < self.entries@.len() ==> self.entries@[r as int].0@ == k@,
            r == self.entries@.len() <==> !self@.contains_key(k@),
    {
        let mut i: usize = 0;
        while i < self.entries.len()
            invariant
                self.wf(),
                i <= self.entries@.len(),
                forall|j: int| 0 <= j < i ==> self.entries@[j].0@ != k@,
            decreases self.entries.len() - i,
        {
            if str_eq(self.entries[i].0.as_str(), k) {
                proof {
                    lemma_map_at(self.entries@, i as int);
                }
                return i;
            }
            i = i + 1;
        }
        i
    }

    /// Whether `k` is a key.
    pub fn contains_key(&self, k: &str) -> (r: bool)
        requires
            self.wf(),
        ensures
            r == self@.contains_key(k@),
    {
        self.position(k) < self.entries.len()
    }

    /// The value of key `k`, if any.
    pub fn get(&self, k: &str) -> (r: Option<&V>)
        requires
            self.wf(),
        ensures
            r matches Some(v) ==> self@.contains_key(k@) && self@[k@] == *v,
            r is None ==> !self@.contains_key(k@),
    {
        let i = self.position(k);
        if i < self.entries.len() {
            proof {
                lemma_map_at(self.entries@, i as int);
            }
            Some(&self.entries[i].1)
        } else {
            None
        }
    }

    /// Sets the value of key `k`, replacing the entry where it exists, or
    /// appending one where it does not.
    pub fn insert(&mut self, k: String, v: V)
        requires
            old(self).wf(),
        ensures
            final(self).wf(),
            final(self)@ == old(self)@.insert(k@, v),
    {
        let i = self.position(k.as_str());
        let ghost s0 = self.entries@;
        let ghost kv = k@;
        if i < self.entries.len() {
            self.entries.set(i, (k, v));
            proof {
                let s = self.entries@;
                assert(distinct_keys(s)) by {
                    assert forall|a: int, b: int| 0 <= a < s.len() && 0 <= b < s.len() && a != b implies (#[trigger] s[a]).0@ != (#[trigger] s[b]).0@ by {
                        assert(s0[a].0@ != s0[b].0@);
                    }
                }
                assert forall|x: Seq<char>| #[trigger] has_key(s, x) == has_key(s0, x) by {
                    if has_key(s, x) {
                        let j = choose|j: int| 0 <= j < s.len() && (#[trigger] s[j]).0@ == x;
                        assert(s0[j].0@ == x);
                    }
                    if has_key(s0, x) {
                        let j = choose|j: int| 0 <= j < s0.len() && (#[trigger] s0[j]).0@ == x;
                        assert(s[j].0@ == x);
                    }
                }
                assert forall|x: Seq<char>| has_key(s, x) implies map_of(s)[x] == map_of(s0).insert(kv, v)[x] by {
                    let j = choose|j: int| 0 <= j < s.len() && (#[trigger] s[j]).0@ == x;
                    lemma_map_at(s, j);
                    if j != i {
                        lemma_map_at(s0, j);
                    }
                }
                assert(map_of(s) =~= map_of(s0).insert(kv, v));
            }
        } else {
            self.entries.push((k, v));
            proof {
                let s = self.entries@;
                assert(distinct_keys(s)) by {
                    assert forall|a: int, b: int| 0 <= a < s.len() && 0 <= b < s.len() && a != b implies (#[trigger] s[a]).0@ != (#[trigger] s[b]).0@ by {
                        if a < s0.len() && b < s0.len() {
                            assert(s0[a].0@ != s0[b].0@);
                        } else if a < s0.len() {
                            assert(s[a] == s0[a]);
                            assert(!has_key(s0, kv));
                        } else {
                            assert(s[b] == s0[b]);
                            assert(!has_key(s0, kv));
                        }
                    }
                }
                assert forall|x: Seq<char>| #[trigger] has_key(s, x) == (has_key(s0, x) || x == kv) by {
                    if has_key(s, x) {
                        let j = choose|j: int| 0 <= j < s.len() && (#[trigger] s[j]).0@ == x;
                        if j < s0.len() {
                            assert(s0[j].0@ == x);
                        }
                    }
                    if has_key(s0, x) {
                        let j = choose|j: int| 0 <= j < s0.len() && (#[trigger] s0[j]).0@ == x;
                        assert(s[j].0@ == x);
                    }
                    if x == kv {
                        assert(s[s0.len() as int].0@ == x);
                    }
                }
                assert forall|x: Seq<char>| has_key(s, x) implies map_of(s)[x] == map_of(s0).insert(kv, v)[x] by {
                    let j = choose|j: int| 0 <= j < s.len() && (#[trigger] s[j]).0@ == x;
                    lemma_map_at(s, j);
                    if j < s0.len() {
                        assert(s[j] == s0[j]);
                        lemma_map_at(s0, j);
                    }
                }
                assert(map_of(s) =~= map_of(s0).insert(kv, v));
            }
        }
    }

    /// Removes key `k`, returning its value if it was there.
    pub fn remove(&mut self, k: &str) -> (r: Option<V>)
        requires
            old(self).wf(),
        ensures
            final(self).wf(),
            final(self)@ == old(self)@.remove(k@),
            r matches Some(v) ==> old(self)@.contains_key(k@) && old(self)@[k@] == v,
            r is None ==> !old(self)@.contains_key(k@),
    {
        let i = self.position(k);
        let ghost s0 = self.entries@;
        if i < self.entries.len() {
            proof {
                lemma_map_at(s0, i as int);
            }
            let (_, v) = self.entries.remove(i);
            proof {
                let s = self.entries@;
                assert(s =~= s0.remove(i as int));
                assert forall|a: int| 0 <= a < s.len() implies #[trigger] s[a] == s0[if a < i { a } else { a + 1 }] by {}
                assert(distinct_keys(s)) by {
                    assert forall|a: int, b: int| 0 <= a < s.len() && 0 <= b < s.len() && a != b implies (#[trigger] s[a]).0@ != (#[trigger] s[b]).0@ by {
                        let a0 = if a < i { a } else { a + 1 };
                        let b0 = if b < i { b } else { b + 1 };
                        assert(s0[a0].0@ != s0[b0].0@);
                    }
                }
                assert forall|x: Seq<char>| #[trigger] has_key(s, x) == (has_key(s0, x) && x != k@) by {
                    if has_key(s, x) {
                        let j = choose|j: int| 0 <= j < s.len() && (#[trigger] s[j]).0@ == x;
                        let j0 = if j < i { j } else { j + 1 };
                        assert(s0[j0].0@ == x);
                        assert(s0[j0].0@ != s0[i as int].0@);
                    }
                    if has_key(s0, x) && x != k@ {
                        let j = choose|j: int| 0 <= j < s0.len() && (#[trigger] s0[j]).0@ == x;
                        assert(j != i);
                        let j1 = if j < i { j } else { j - 1 };
                        assert(s[j1].0@ == x);
                    }
                }
                assert forall|x: Seq<char>| has_key(s, x) implies map_of(s)[x] == map_of(s0).remove(k@)[x] by {
                    let j = choose|j: int| 0 <= j < s.len() && (#[trigger] s[j]).0@ == x;
                    lemma_map_at(s, j);
                    let j0 = if j < i { j } else { j + 1 };
                    lemma_map_at(s0, j0);
                }
                assert(map_of(s) =~= map_of(s0).remove(k@));
            }
            Some(v)
        } else {
            proof {
                assert(map_of(s0) =~= map_of(s0).remove(k@));
            }
            None
        }
    }
}

/// Whether one of `v` holds `k`.
pub open spec fn names_hold(v: Seq<String>, k: Seq<char>) -> bool {
    exists|j: int| 0 <= j < v.len() && (#[trigger] v[j])@ == k
}

/// Whether an entry of `s` before `i` whose flag is unset has key `k`.
pub open spec fn unkept_before<V>(s: Seq<(String, V)>, keep: Seq<bool>, i: int, k: Seq<char>) -> bool {
    exists|j: int| 0 <= j < i && !keep[j] && (#[trigger] s[j]).0@ == k
}

impl<V> StrMap<V> {
    /// Removes every key of `keys`.
    pub fn remove_all(&mut self, keys: &Vec<String>)
        requires
            old(self).wf(),
        ensures
            final(self).wf(),
            final(self)@ == old(self)@.remove_keys(Set::new(|k: Seq<char>| exists|i: int| 0 <= i < keys@.len() && (#[trigger] keys@[i])@ == k)),
    {
        let ghost m0 = self@;
        let mut i: usize = 0;
        while i < keys.len()
            invariant
                self.wf(),
                i <= keys@.len(),
                self@ == m0.remove_keys(Set::new(|k: Seq<char>| exists|j: int| 0 <= j < i && (#[trigger] keys@[j])@ == k)),
            decreases keys.len() - i,
        {
            let ghost before = self@;
            let _ = self.remove(keys[i].as_str());
            proof {
                let s0 = Set::new(|k: Seq<char>| exists|j: int| 0 <= j < i && (#[trigger] keys@[j])@ == k);
                let s1 = Set::new(|k: Seq<char>| exists|j: int| 0 <= j < i + 1 && (#[trigger] keys@[j])@ == k);
                assert(s1 =~= s0.insert(keys@[i as int]@)) by {
                    assert forall|k: Seq<char>| s1.contains(k) implies s0.insert(keys@[i as int]@).contains(k) by {
                        let j = choose|j: int| 0 <= j < i + 1 && (#[trigger] keys@[j])@ == k;
                        if j < i {
                            assert(s0.contains(k));
                        }
                    }
                    assert forall|k: Seq<char>| s0.insert(keys@[i as int]@).contains(k) implies s1.contains(k) by {
                        if s0.contains(k) {
                            let j = choose|j: int| 0 <= j < i && (#[trigger] keys@[j])@ == k;
                            assert(keys@[j]@ == k);
                        } else {
                            assert(keys@[i as int]@ == k);
                        }
                    }
                }
                assert(self@ =~= m0.remove_keys(s1));
            }
            i = i + 1;
        }
    }

    /// Keeps the entries whose flag in `keep` (one per entry, in order) is set.
    pub fn retain_flags(&mut self, keep: &Vec<bool>)
        requires
            old(self).wf(),
            keep@.len() == old(self).entries@.len(),
        ensures
            final(self).wf(),
            final(self)@ == old(self)@.restrict(Set::new(|k: Seq<char>| exists|i: int| 0 <= i < keep@.len() && keep@[i] && (#[trigger] old(self).entries@[i]).0@ == k)),
    {
        let ghost s0 = self.entries@;
        let mut dropped: Vec<String> = Vec::new();
        let mut i: usize = 0;
        while i < keep.len()
            invariant
                self.entries@ == s0,
                keep@.len() == s0.len(),
                i <= s0.len(),
                forall|k: Seq<char>| #[trigger] names_hold(dropped@, k) == unkept_before(s0, keep@, i as int, k),
            decreases keep.len() - i,
        {
            if !keep[i] {
                let ghost d0 = dropped@;
                dropped.push(self.entries[i].0.clone());
                proof {
                    assert forall|k: Seq<char>| #[trigger] names_hold(dropped@, k) == unkept_before(s0, keep@, i + 1, k) by {
                        if names_hold(dropped@, k) {
                            let j = choose|j: int| 0 <= j < dropped@.len() && (#[trigger] dropped@[j])@ == k;
                            if j < d0.len() {
                                assert(d0[j]@ == k);
                                assert(names_hold(d0, k));
                                assert(unkept_before(s0, keep@, i as int, k));
                                let j3 = choose|j3: int| 0 <= j3 < i && !keep@[j3] && (#[trigger] s0[j3]).0@ == k;
                                assert(0 <= j3 < i + 1 && !keep@[j3] && s0[j3].0@ == k);
                            } else {
                                assert(s0[i as int].0@ == k);
                                assert(0 <= i < i + 1 && !keep@[i as int] && s0[i as int].0@ == k);
                            }
                        }
                        if unkept_before(s0, keep@, i + 1, k) {
                            let j = choose|j: int| 0 <= j < i + 1 && !keep@[j] && (#[trigger] s0[j]).0@ == k;
                            if j < i {
                                assert(unkept_before(s0, keep@, i as int, k));
                                assert(names_hold(d0, k));
                                let j2 = choose|j2: int| 0 <= j2 < d0.len() && (#[trigger] d0[j2])@ == k;
                                assert(dropped@[j2]@ == k);
                            } else {
                                assert(dropped@[d0.len() as int]@ == k);
                            }
                        }
                    }
                }
            } else {
                proof {
                    assert forall|k: Seq<char>| #[trigger] names_hold(dropped@, k) == unkept_before(s0, keep@, i + 1, k) by {
                        if unkept_before(s0, keep@, i + 1, k) {
                            let j = choose|j: int| 0 <= j < i + 1 && !keep@[j] && (#[trigger] s0[j]).0@ == k;
                            assert(j < i);
                            assert(unkept_before(s0, keep@, i as int, k));
                        }
                    }
                }
            }
            i = i + 1;
        }
        let ghost m0 = self@;
        self.remove_all(&dropped);
        proof {
            let dset = Set::new(|k: Seq<char>| exists|j: int| 0 <= j < dropped@.len() && (#[trigger] dropped@[j])@ == k);
            let kset = Set::new(|k: Seq<char>| exists|j: int| 0 <= j < keep@.len() && keep@[j] && (#[trigger] s0[j]).0@ == k);
            assert forall|k: Seq<char>| m0.contains_key(k) implies (dset.contains(k) <==> !kset.contains(k)) by {
                let j = choose|j: int| 0 <= j < s0.len() && (#[trigger] s0[j]).0@ == k;
                assert(dset.contains(k) == names_hold(dropped@, k));
                assert(names_hold(dropped@, k) == unkept_before(s0, keep@, keep@.len() as int, k));
                if dset.contains(k) {
                    let j2 = choose|j2: int| 0 <= j2 < s0.len() && !keep@[j2] && (#[trigger] s0[j2]).0@ == k;
                    if kset.contains(k) {
                        let j3 = choose|j3: int| 0 <= j3 < keep@.len() && keep@[j3] && (#[trigger] s0[j3]).0@ == k;
                        assert(j2 == j3);
                    }
                } else {
                    if !keep@[j] {
                        assert(exists|j4: int| 0 <= j4 < s0.len() && !keep@[j4] && (#[trigger] s0[j4]).0@ == k);
                    }
                    assert(kset.contains(k));
                }
            }
            assert(self@ =~= m0.restrict(kset));
        }
    }
}

impl<V: Copy> StrMap<V> {
    /// An entry-by-entry copy.
    pub fn copy(&self) -> (r: StrMap<V>)
        ensures
            r.entries@ == self.entries@,
    {
        let mut entries: Vec<(String, V)> = Vec::new();
        let mut i: usize = 0;
        while i < self.entries.len()
            invariant
                i <= self.entries@.len(),
                entries@ == self.entries@.subrange(0, i as int),
            decreases self.entries.len() - i,
        {
            entries.push((self.entries[i].0.clone(), self.entries[i].1));
            proof {
                assert(self.entries@.subrange(0, i + 1) =~= self.entries@.subrange(0, i as int).push(self.entries@[i as int]));
            }
            i = i + 1;
        }
        assert(self.entries@.subrange(0, self.entries@.len() as int) == self.entries@);
        StrMap { entries }
    }
}

} // verus!
