//! An association table from 64-bit identifiers to values, with each key
//! held at most once.
//!
//! The replication core keys everything by such tables: the server lobby
//! (connection identifier to player entity), the authority store (entity
//! identifier to entity state), the client's network mapping (server entity
//! identifier to local entity) and the client registry. The table exposes
//! both a map view, for lookup contracts, and the underlying insertion-order
//! sequence of pairs, for the operations that must enumerate every entry
//! (catch-up, snapshots, lifetime sweeps).

use vstd::prelude::*;

verus! {

/// The map described by a sequence of key-value pairs: later pairs win.
pub open spec fn map_of<V>(s: Seq<(u64, V)>) -> Map<u64, V>
    decreases s.len(),
{
    if s.len() == 0 {
        Map::empty()
    } else {
        map_of(s.drop_last()).insert(s.last().0, s.last().1)
    }
}

/// Keys pairwise distinct.
pub open spec fn distinct_keys<V>(s: Seq<(u64, V)>) -> bool {
    forall|i: int, j: int| 0 <= i < j < s.len() ==> s[i].0 != s[j].0
}

/// The position of the last pair holding key `k`, or -1 when none does.
pub open spec fn index_of_key<V>(s: Seq<(u64, V)>, k: u64) -> int
    decreases s.len(),
{
    if s.len() == 0 {
        -1
    } else if s.last().0 == k {
        s.len() - 1
    } else {
        index_of_key(s.drop_last(), k)
    }
}

/// Distinctness of keys carries over to the sequence without its last pair.
pub proof fn lemma_distinct_drop_last<V>(s: Seq<(u64, V)>)
    requires
        distinct_keys(s),
        s.len() > 0,
    ensures
        distinct_keys(s.drop_last()),
{
    assert(forall|p: int, q: int|
        0 <= p < q < s.drop_last().len() ==> s.drop_last()[p] == s[p]
            && s.drop_last()[q] == s[q]);
}

/// A key is in the map of a pair sequence exactly when some pair holds it,
/// and `index_of_key` then points at such a pair.
pub proof fn lemma_map_of_contains<V>(s: Seq<(u64, V)>, k: u64)
    ensures
        map_of(s).dom().contains(k) <==> exists|i: int| 0 <= i < s.len() && s[i].0 == k,
        map_of(s).dom().contains(k) ==> {
            let ix = index_of_key(s, k);
            0 <= ix < s.len() && s[ix].0 == k
        },
        !map_of(s).dom().contains(k) ==> index_of_key(s, k) == -1,
    decreases s.len(),
{
    if s.len() > 0 {
        lemma_map_of_contains(s.drop_last(), k);
        if s.last().0 == k {
            assert(s[s.len() - 1].0 == k);
        } else {
            if exists|i: int| 0 <= i < s.len() && s[i].0 == k {
                let i = choose|i: int| 0 <= i < s.len() && s[i].0 == k;
                assert(s.drop_last()[i] == s[i]);
            }
        }
    }
}

/// With distinct keys, any pair holding `k` stands at `index_of_key`, and
/// the map agrees with that pair's value.
pub proof fn lemma_map_of_index<V>(s: Seq<(u64, V)>, i: int)
    requires
        distinct_keys(s),
        0 <= i < s.len(),
    ensures
        map_of(s).dom().contains(s[i].0),
        map_of(s)[s[i].0] == s[i].1,
        index_of_key(s, s[i].0) == i,
    decreases s.len(),
{
    if i == s.len() - 1 {
        lemma_map_of_contains(s.drop_last(), s[i].0);
        assert(forall|j: int|
            0 <= j < s.drop_last().len() ==> s.drop_last()[j] == s[j]);
    } else {
        assert(distinct_keys(s.drop_last())) by {
            assert(forall|p: int, q: int|
                0 <= p < q < s.drop_last().len() ==> s.drop_last()[p] == s[p]
                    && s.drop_last()[q] == s[q]);
        }
        lemma_map_of_index(s.drop_last(), i);
        assert(s.drop_last()[i] == s[i]);
        assert(s.last().0 != s[i].0);
    }
}

/// Appending a pair with a fresh key inserts it into the map.
pub proof fn lemma_map_of_push<V>(s: Seq<(u64, V)>, k: u64, v: V)
    ensures
        map_of(s.push((k, v))) == map_of(s).insert(k, v),
{
    assert(s.push((k, v)).drop_last() =~= s);
}

/// Overwriting the pair that holds key `k` updates the map at `k`.
pub proof fn lemma_map_of_update<V>(s: Seq<(u64, V)>, i: int, v: V)
    requires
        distinct_keys(s),
        0 <= i < s.len(),
    ensures
        map_of(s.update(i, (s[i].0, v))) =~= map_of(s).insert(s[i].0, v),
    decreases s.len(),
{
    let k = s[i].0;
    let t = s.update(i, (k, v));
    if i == s.len() - 1 {
        assert(t.drop_last() =~= s.drop_last());
        assert(t.last() == (k, v));
    } else {
        assert(distinct_keys(s.drop_last())) by {
            assert(forall|p: int, q: int|
                0 <= p < q < s.drop_last().len() ==> s.drop_last()[p] == s[p]
                    && s.drop_last()[q] == s[q]);
        }
        assert(t.drop_last() =~= s.drop_last().update(i, (k, v)));
        assert(s.drop_last()[i] == s[i]);
        lemma_map_of_update(s.drop_last(), i, v);
        assert(t.last() == s.last());
        assert(s.last().0 != k);
    }
}

/// Deleting the pair that holds key `k` removes `k` from the map.
pub proof fn lemma_map_of_remove<V>(s: Seq<(u64, V)>, i: int)
    requires
        distinct_keys(s),
        0 <= i < s.len(),
    ensures
        map_of(s.remove(i)) =~= map_of(s).remove(s[i].0),
    decreases s.len(),
{
    let k = s[i].0;
    if i == s.len() - 1 {
        assert(s.remove(i) =~= s.drop_last());
        lemma_map_of_contains(s.drop_last(), k);
        assert(forall|j: int|
            0 <= j < s.drop_last().len() ==> s.drop_last()[j] == s[j]);
        assert(!map_of(s.drop_last()).dom().contains(k));
    } else {
        assert(distinct_keys(s.drop_last())) by {
            assert(forall|p: int, q: int|
                0 <= p < q < s.drop_last().len() ==> s.drop_last()[p] == s[p]
                    && s.drop_last()[q] == s[q]);
        }
        assert(s.remove(i).drop_last() =~= s.drop_last().remove(i));
        assert(s.drop_last()[i] == s[i]);
        lemma_map_of_remove(s.drop_last(), i);
        assert(s.remove(i).last() == s.last());
        assert(s.last().0 != k);
    }
}

/// An association table with each 64-bit key held at most once, in
/// insertion order.
pub struct IdMap<V> {
    entries: Vec<(u64, V)>,
}

impl<V: Copy> IdMap<V> {
    /// The pairs in insertion order.
    pub closed spec fn pairs(&self) -> Seq<(u64, V)> {
        self.entries@
    }

    /// The table as a map.
    pub open spec fn as_map(&self) -> Map<u64, V> {
        map_of(self.pairs())
    }

    /// Well-formed: no key twice.
    pub open spec fn wf(&self) -> bool {
        distinct_keys(self.pairs())
    }

    pub fn new() -> (r: IdMap<V>)
        ensures
            r.wf(),
            r.pairs() =~= Seq::<(u64, V)>::empty(),
            r.as_map() =~= Map::<u64, V>::empty(),
    {
        IdMap { entries: Vec::new() }
    }

    pub fn len(&self) -> (r: usize)
        ensures
            r == self.pairs().len(),
    {
        self.entries.len()
    }

    /// The pair at one position of the insertion order.
    pub fn pair_at(&self, i: usize) -> (r: (u64, V))
        requires
            i < self.pairs().len(),
        ensures
            r == self.pairs()[i as int],
    {
        self.entries[i]
    }

    /// The position of the pair holding `k`, if any pair does.
    fn find_index(&self, k: u64) -> (r: Option<usize>)
        requires
            self.wf(),
        ensures
            match r {
                Some(i) => i < self.pairs().len() && self.pairs()[i as int].0 == k
                    && i == index_of_key(self.pairs(), k)
                    && self.as_map().dom().contains(k),
                None => !self.as_map().dom().contains(k),
            },
    {
        let n = self.entries.len();
        let mut i: usize = 0;
        while i < n
            invariant
                self.wf(),
                n == self.pairs().len(),
                i <= n,
                forall|j: int| 0 <= j < i ==> self.pairs()[j].0 != k,
            decreases n - i,
        {
            if self.entries[i].0 == k {
                proof {
                    lemma_map_of_index(self.pairs(), i as int);
                }
                return Some(i);
            }
            i = i + 1;
        }
        proof {
            lemma_map_of_contains(self.pairs(), k);
        }
        None
    }

    pub fn contains_key(&self, k: u64) -> (r: bool)
        requires
            self.wf(),
        ensures
            r == self.as_map().dom().contains(k),
    {
        self.find_index(k).is_some()
    }

    pub fn get(&self, k: u64) -> (r: Option<V>)
        requires
            self.wf(),
        ensures
            match r {
                Some(v) => self.as_map().dom().contains(k) && v == self.as_map()[k],
                None => !self.as_map().dom().contains(k),
            },
    {
        match self.find_index(k) {
            Some(i) => {
                proof {
                    lemma_map_of_index(self.pairs(), i as int);
                }
                Some(self.entries[i].1)
            },
            None => None,
        }
    }

    /// Binds `k` to `v`. A key already present is overwritten in place —
    /// never duplicated — and every other pair keeps its position.
    pub fn insert(&mut self, k: u64, v: V)
        requires
            old(self).wf(),
        ensures
            final(self).wf(),
            final(self).as_map() =~= old(self).as_map().insert(k, v),
            old(self).as_map().dom().contains(k) ==> {
                let ix = index_of_key(old(self).pairs(), k);
                &&& 0 <= ix < old(self).pairs().len()
                &&& old(self).pairs()[ix].0 == k
                &&& final(self).pairs() == old(self).pairs().update(ix, (k, v))
            },
            !old(self).as_map().dom().contains(k) ==> final(self).pairs()
                == old(self).pairs().push((k, v)),
    {
        match self.find_index(k) {
            Some(i) => {
                proof {
                    lemma_map_of_update(self.pairs(), i as int, v);
                }
                self.entries[i] = (k, v);
                assert(distinct_keys(self.pairs())) by {
                    assert(forall|p: int| 0 <= p < self.pairs().len()
                        ==> self.pairs()[p].0 == old(self).pairs()[p].0);
                }
            },
            None => {
                proof {
                    lemma_map_of_push(self.pairs(), k, v);
                    lemma_map_of_contains(self.pairs(), k);
                }
                self.entries.push((k, v));
            },
        }
    }

    /// Unbinds `k`, returning the value it held. Absence is not an error:
    /// the table is left as it was.
    pub fn remove(&mut self, k: u64) -> (r: Option<V>)
        requires
            old(self).wf(),
        ensures
            final(self).wf(),
            final(self).as_map() =~= old(self).as_map().remove(k),
            match r {
                Some(v) => {
                    let ix = index_of_key(old(self).pairs(), k);
                    &&& old(self).as_map().dom().contains(k)
                    &&& v == old(self).as_map()[k]
                    &&& 0 <= ix < old(self).pairs().len()
                    &&& old(self).pairs()[ix].0 == k
                    &&& final(self).pairs() == old(self).pairs().remove(ix)
                },
                None => !old(self).as_map().dom().contains(k)
                    && final(self).pairs() == old(self).pairs(),
            },
    {
        match self.find_index(k) {
            Some(i) => {
                proof {
                    lemma_map_of_index(self.pairs(), i as int);
                    lemma_map_of_remove(self.pairs(), i as int);
                }
                let (_, v) = self.entries.remove(i);
                assert(distinct_keys(self.pairs())) by {
                    assert(forall|p: int| 0 <= p < self.pairs().len() ==> (
                        if p < i { self.pairs()[p] == old(self).pairs()[p] }
                        else { self.pairs()[p] == old(self).pairs()[p + 1] }
                    ));
                }
                Some(v)
            },
            None => None,
        }
    }
}

} // verus!
