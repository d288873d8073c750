//! The in-memory cache of resolved branch ancestor chains, keyed by
//! `(stream_id, branch_id)`; creating a branch drops a stream's entries.
use vstd::prelude::*;

use crate::text::text_equals;

verus! {

/// A cache from `(stream_id, branch_id)` to a resolved value.
pub struct BranchCache<V> {
    entries: Vec<(String, String, V)>,
}

/// The key of a cache entry.
pub open spec fn entry_key<V>(e: (String, String, V)) -> (Seq<char>, Seq<char>) {
    (e.0@, e.1@)
}

/// The map that a list of entries with distinct keys stands for.
pub open spec fn entries_map<V>(entries: Seq<(String, String, V)>) -> Map<(Seq<char>, Seq<char>), V>
    decreases entries.len(),
{
    if entries.len() == 0 {
        Map::empty()
    } else {
        entries_map(entries.drop_last()).insert(entry_key(entries.last()), entries.last().2)
    }
}

/// No two entries share a key.
pub open spec fn distinct_keys<V>(entries: Seq<(String, String, V)>) -> bool {
    forall|a: int, b: int|
        0 <= a < b < entries.len() ==> entry_key(entries[a]) != entry_key(entries[b])
}

/// With distinct keys, the map holds exactly the entries' keys, each with its value.
proof fn lemma_entries_map<V>(entries: Seq<(String, String, V)>)
    requires
        distinct_keys(entries),
    ensures
        forall|k: (Seq<char>, Seq<char>)|
            #![trigger entries_map(entries).contains_key(k)]
            entries_map(entries).contains_key(k) <==> exists|i: int|
                0 <= i < entries.len() && entry_key(entries[i]) == k,
        forall|i: int|
            0 <= i < entries.len() ==> #[trigger] entries_map(entries)[entry_key(entries[i])]
                == entries[i].2,
    decreases entries.len(),
{
    if entries.len() > 0 {
        let init = entries.drop_last();
        let last = entries.last();
        let m0 = entries_map(init);
        assert(entries_map(entries) == m0.insert(entry_key(last), last.2));
        assert(distinct_keys(init));
        lemma_entries_map(init);
        assert forall|k: (Seq<char>, Seq<char>)|
            #![trigger entries_map(entries).contains_key(k)]
            entries_map(entries).contains_key(k) implies exists|i: int|
                0 <= i < entries.len() && entry_key(entries[i]) == k by {
            if k != entry_key(last) {
                assert(m0.contains_key(k));
                let i = choose|i: int| 0 <= i < init.len() && entry_key(init[i]) == k;
                assert(init[i] == entries[i]);
                assert(entry_key(entries[i]) == k);
            } else {
                assert(entry_key(entries[entries.len() - 1]) == k);
            }
        }
        assert forall|k: (Seq<char>, Seq<char>)|
            (exists|i: int| 0 <= i < entries.len() && entry_key(entries[i]) == k) implies
            #[trigger] entries_map(entries).contains_key(k) by {
            let i = choose|i: int| 0 <= i < entries.len() && entry_key(entries[i]) == k;
            if i < entries.len() - 1 {
                assert(init[i] == entries[i]);
                assert(entry_key(init[i]) == k);
                assert(m0.contains_key(k));
            }
        }
        assert forall|i: int| 0 <= i < entries.len() implies #[trigger] entries_map(entries)[entry_key(
            entries[i],
        )] == entries[i].2 by {
            if i < entries.len() - 1 {
                assert(entries[i] == init[i]);
                assert(entry_key(entries[i]) != entry_key(last));
                assert(m0[entry_key(init[i])] == init[i].2);
            }
        }
    }
}

/// Two entry lists with distinct keys and the same key/value pairs stand for the same map.
proof fn lemma_entries_map_ext<V>(a: Seq<(String, String, V)>, m: Map<(Seq<char>, Seq<char>), V>)
    requires
        distinct_keys(a),
        forall|k: (Seq<char>, Seq<char>)|
            #![trigger m.contains_key(k)]
            m.contains_key(k) <==> exists|i: int| 0 <= i < a.len() && entry_key(a[i]) == k,
        forall|i: int| 0 <= i < a.len() ==> #[trigger] m[entry_key(a[i])] == a[i].2,
    ensures
        entries_map(a) == m,
{
    lemma_entries_map(a);
    assert forall|k: (Seq<char>, Seq<char>)| #[trigger] entries_map(a).contains_key(k) implies entries_map(
        a,
    )[k] == m[k] by {
        let i = choose|i: int| 0 <= i < a.len() && entry_key(a[i]) == k;
    }
    assert(entries_map(a) =~= m);
}

/// The key/value pairs of a cache left after dropping the entries of `stream_id`.
pub open spec fn without_stream<V>(m: Map<(Seq<char>, Seq<char>), V>, stream_id: Seq<char>) -> Map<
    (Seq<char>, Seq<char>),
    V,
> {
    m.restrict(m.dom().filter(|k: (Seq<char>, Seq<char>)| k.0 != stream_id))
}

/// A value cached for a key is what a later lookup of that key finds, and
/// caching it leaves every other key as it was.
pub proof fn lemma_lookup_after_insert<V>(
    m: Map<(Seq<char>, Seq<char>), V>,
    key: (Seq<char>, Seq<char>),
    value: V,
    other: (Seq<char>, Seq<char>),
)
    requires
        other != key,
    ensures
        m.insert(key, value).contains_key(key),
        m.insert(key, value)[key] == value,
        m.insert(key, value).contains_key(other) == m.contains_key(other),
        m.contains_key(other) ==> m.insert(key, value)[other] == m[other],
{
}

/// Dropping a stream's entries leaves no key of that stream, and keeps every
/// key of another stream with its value.
pub proof fn lemma_invalidate_stream<V>(
    m: Map<(Seq<char>, Seq<char>), V>,
    stream_id: Seq<char>,
    key: (Seq<char>, Seq<char>),
)
    ensures
        key.0 == stream_id ==> !without_stream(m, stream_id).contains_key(key),
        key.0 != stream_id ==> (without_stream(m, stream_id).contains_key(key)
            == m.contains_key(key)),
        key.0 != stream_id && m.contains_key(key) ==> without_stream(m, stream_id)[key] == m[key],
{
}

impl<V> BranchCache<V> {
    /// The cache as a map from `(stream_id, branch_id)`.
    pub closed spec fn view(&self) -> Map<(Seq<char>, Seq<char>), V> {
        entries_map(self.entries@)
    }

    /// The cache's entries have distinct keys.
    pub closed spec fn wf(&self) -> bool {
        distinct_keys(self.entries@)
    }

    /// An empty cache.
    pub fn new() -> (c: BranchCache<V>)
        ensures
            c.wf(),
            c.view() == Map::<(Seq<char>, Seq<char>), V>::empty(),
    {
        BranchCache { entries: Vec::new() }
    }

    fn find(&self, stream_id: &str, branch_id: &str) -> (r: Option<usize>)
        requires
            self.wf(),
        ensures
            match r {
                Some(i) => i < self.entries@.len() && entry_key(self.entries@[i as int]) == (
                stream_id@, branch_id@),
                None => forall|i: int|
                    0 <= i < self.entries@.len() ==> entry_key(self.entries@[i]) != (stream_id@, branch_id@),
            },
    {
        let mut i: usize = 0;
        while i < self.entries.len()
            invariant
                0 <= i <= self.entries@.len(),
                forall|k: int|
                    0 <= k < i ==> entry_key(self.entries@[k]) != (stream_id@, branch_id@),
            decreases self.entries@.len() - i,
        {
            let e = &self.entries[i];
            if text_equals(e.0.as_str(), stream_id) && text_equals(e.1.as_str(), branch_id) {
                return Some(i);
            }
            i = i + 1;
        }
        None
    }

    /// The cached value of `(stream_id, branch_id)`, if any.
    pub fn get(&self, stream_id: &str, branch_id: &str) -> (r: Option<&V>)
        requires
            self.wf(),
        ensures
            match r {
                Some(v) => self.view().contains_key((stream_id@, branch_id@)) && *v == self.view()[(
                stream_id@, branch_id@)],
                None => !self.view().contains_key((stream_id@, branch_id@)),
            },
    {
        proof {
            lemma_entries_map(self.entries@);
        }
        match self.find(stream_id, branch_id) {
            Some(i) => Some(&self.entries[i].2),
            None => None,
        }
    }

    /// Cache `value` for `(stream_id, branch_id)`, replacing an earlier value.
    pub fn insert(&mut self, stream_id: String, branch_id: String, value: V)
        requires
            old(self).wf(),
        ensures
            final(self).wf(),
            final(self).view() == old(self).view().insert((stream_id@, branch_id@), value),
    {
        let ghost old_entries = self.entries@;
        let ghost k = (stream_id@, branch_id@);
        proof {
            lemma_entries_map(old_entries);
        }
        let found = self.find(stream_id.as_str(), branch_id.as_str());
        match found {
            Some(i) => {
                self.entries.set(i, (stream_id, branch_id, value));
                proof {
                    let ne = self.entries@;
                    assert forall|a: int, b: int| 0 <= a < b < ne.len() implies entry_key(ne[a])
                        != entry_key(ne[b]) by {
                        if a != i && b != i {
                            assert(ne[a] == old_entries[a] && ne[b] == old_entries[b]);
                        } else if a == i {
                            assert(ne[b] == old_entries[b]);
                        } else {
                            assert(ne[a] == old_entries[a]);
                        }
                    }
                    let m = entries_map(old_entries).insert(k, value);
                    assert forall|kk: (Seq<char>, Seq<char>)| #![trigger m.contains_key(kk)]
                        m.contains_key(kk) <==> exists|j: int|
                        0 <= j < ne.len() && entry_key(ne[j]) == kk by {
                        if m.contains_key(kk) && kk != k {
                            let j = choose|j: int| 0 <= j < old_entries.len() && entry_key(old_entries[j]) == kk;
                            assert(ne[j] == old_entries[j]);
                        }
                        if kk == k {
                            assert(entry_key(ne[i as int]) == kk);
                        }
                        if exists|j: int| 0 <= j < ne.len() && entry_key(ne[j]) == kk {
                            let j = choose|j: int| 0 <= j < ne.len() && entry_key(ne[j]) == kk;
                            if j != i {
                                assert(ne[j] == old_entries[j]);
                            }
                        }
                    }
                    assert forall|j: int| 0 <= j < ne.len() implies #[trigger] m[entry_key(ne[j])] == ne[j].2 by {
                        if j != i {
                            assert(ne[j] == old_entries[j]);
                        }
                    }
                    lemma_entries_map_ext(ne, m);
                }
            },
            None => {
                self.entries.push((stream_id, branch_id, value));
                proof {
                    let ne = self.entries@;
                    assert(ne.drop_last() =~= old_entries);
                    assert forall|a: int, b: int| 0 <= a < b < ne.len() implies entry_key(ne[a])
                        != entry_key(ne[b]) by {
                        assert(ne[a] == old_entries[a]);
                        if b < old_entries.len() {
                            assert(ne[b] == old_entries[b]);
                        }
                    }
                }
            },
        }
    }

    /// Drop every cached value of `stream_id`, whatever its branch.
    pub fn invalidate_stream(&mut self, stream_id: &str)
        requires
            old(self).wf(),
        ensures
            final(self).wf(),
            final(self).view() == without_stream(old(self).view(), stream_id@),
    {
        let ghost old_entries = self.entries@;
        proof {
            lemma_entries_map(old_entries);
        }
        let mut kept: Vec<(String, String, V)> = Vec::new();
        let mut rest: Vec<(String, String, V)> = Vec::new();
        std::mem::swap(&mut rest, &mut self.entries);
        let ghost mut idx: Seq<int> = Seq::empty();
        let ghost n = rest@.len();
        // take entries from the back, keeping those of other streams
        while rest.len() > 0
            invariant
                rest@ == old_entries.take(rest@.len() as int),
                rest@.len() <= old_entries.len(),
                distinct_keys(old_entries),
                kept@.len() == idx.len(),
                forall|m: int| 0 <= m < idx.len() ==> rest@.len() <= #[trigger] idx[m] < old_entries.len(),
                forall|m: int| 0 <= m < idx.len() ==> #[trigger] kept@[m] == old_entries[idx[m]],
                forall|a: int, b: int| 0 <= a < b < idx.len() ==> idx[a] != idx[b],
                forall|m: int| 0 <= m < kept@.len() ==> (#[trigger] kept@[m]).0@ != stream_id@,
                forall|j: int|
                    rest@.len() <= j < old_entries.len() && (#[trigger] old_entries[j]).0@ != stream_id@
                        ==> exists|m: int| 0 <= m < idx.len() && idx[m] == j,
            decreases rest@.len(),
        {
            let ghost before = rest@;
            let e = rest.pop().unwrap();
            let ghost j = rest@.len() as int;
            proof {
                assert(before == rest@.push(e));
                assert(e == old_entries[j]);
                assert(rest@ =~= old_entries.take(j));
            }
            let ghost old_idx = idx;
            if !text_equals(e.0.as_str(), stream_id) {
                kept.push(e);
                proof {
                    idx = idx.push(j);
                }
            }
            proof {
                assert forall|jj: int|
                    rest@.len() <= jj < old_entries.len() && (#[trigger] old_entries[jj]).0@ != stream_id@
                        implies exists|m: int| 0 <= m < idx.len() && idx[m] == jj by {
                    if jj == j {
                        assert(idx == old_idx.push(j));
                        assert(idx[idx.len() - 1] == j);
                    } else {
                        let m = choose|m: int| 0 <= m < old_idx.len() && old_idx[m] == jj;
                        assert(idx[m] == jj);
                    }
                }
            }
        }
        self.entries = kept;
        proof {
            let ne = self.entries@;
            let om = entries_map(old_entries);
            let m = om.restrict(om.dom().filter(|k: (Seq<char>, Seq<char>)| k.0 != stream_id@));
            assert forall|a: int, b: int| 0 <= a < b < ne.len() implies entry_key(ne[a]) != entry_key(ne[b]) by {
                assert(ne[a] == old_entries[idx[a]]);
                assert(ne[b] == old_entries[idx[b]]);
                if idx[a] < idx[b] {
                } else {
                }
            }
            assert forall|kk: (Seq<char>, Seq<char>)| #![trigger m.contains_key(kk)]
                m.contains_key(kk) <==> exists|jm: int| 0 <= jm < ne.len() && entry_key(ne[jm]) == kk by {
                if m.contains_key(kk) {
                    assert(om.contains_key(kk));
                    let j = choose|j: int| 0 <= j < old_entries.len() && entry_key(old_entries[j]) == kk;
                    assert(old_entries[j].0@ != stream_id@);
                    let mm = choose|mm: int| 0 <= mm < idx.len() && idx[mm] == j;
                    assert(entry_key(ne[mm]) == kk);
                }
                if exists|jm: int| 0 <= jm < ne.len() && entry_key(ne[jm]) == kk {
                    let jm = choose|jm: int| 0 <= jm < ne.len() && entry_key(ne[jm]) == kk;
                    assert(ne[jm] == old_entries[idx[jm]]);
                    assert(om.contains_key(kk));
                }
            }
            assert forall|jm: int| 0 <= jm < ne.len() implies #[trigger] m[entry_key(ne[jm])] == ne[jm].2 by {
                assert(ne[jm] == old_entries[idx[jm]]);
            }
            lemma_entries_map_ext(ne, m);
        }
    }
}

} // verus!
