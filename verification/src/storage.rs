//! Keyed storage for topology records.
//!
//! Records are held in per-kind associative containers and referenced only
//! through opaque, strongly typed keys, so that no record ever holds a direct
//! reference to another. [`Storage`] issues fresh sequential keys and never
//! reuses the key of a removed record; [`PairStorage`] keys each record by an
//! ordered pair of vertex keys, the natural key of a directed arc.

use vstd::prelude::*;

verus! {

/// An opaque key naming one vertex of an aggregate.
#[derive(Clone, Copy, Debug, PartialEq, Eq, Hash, Structural)]
pub struct VertexKey(pub u64);

/// An opaque key naming one face of an aggregate.
#[derive(Clone, Copy, Debug, PartialEq, Eq, Hash, Structural)]
pub struct FaceKey(pub u64);

/// The key of a directed arc: the ordered pair of its endpoint vertex keys.
#[derive(Clone, Copy, Debug, PartialEq, Eq, Hash, Structural)]
pub struct EdgeKey {
    pub source: VertexKey,
    pub destination: VertexKey,
}

impl EdgeKey {
    /// The key of the arc between the same vertices in the other direction.
    pub open spec fn spec_reversed(self) -> EdgeKey {
        EdgeKey { source: self.destination, destination: self.source }
    }

    /// Builds the key of the arc from `source` toward `destination`.
    pub fn new(source: VertexKey, destination: VertexKey) -> (r: EdgeKey)
        ensures
            r == (EdgeKey { source, destination }),
    {
        EdgeKey { source, destination }
    }

    /// The key of the opposite direction of this arc.
    pub fn reversed(self) -> (r: EdgeKey)
        ensures
            r == self.spec_reversed(),
    {
        EdgeKey { source: self.destination, destination: self.source }
    }

    /// The ordered endpoint pair `(source, destination)`.
    pub fn to_vertex_keys(self) -> (r: (VertexKey, VertexKey))
        ensures
            r.0 == self.source,
            r.1 == self.destination,
    {
        (self.source, self.destination)
    }
}

/// The number of occupied slots of a slot sequence.
pub closed spec fn count_some<T>(s: Seq<Option<T>>) -> nat
    decreases s.len(),
{
    if s.len() == 0 {
        0
    } else {
        count_some(s.drop_last()) + if s.last() is Some {
            1nat
        } else {
            0nat
        }
    }
}

proof fn lemma_count_some_push<T>(s: Seq<Option<T>>, v: Option<T>)
    ensures
        count_some(s.push(v)) == count_some(s) + if v is Some {
            1int
        } else {
            0int
        },
{
    assert(s.push(v).drop_last() =~= s);
    assert(s.push(v).last() == v);
}

proof fn lemma_count_some_le_len<T>(s: Seq<Option<T>>)
    ensures
        count_some(s) <= s.len(),
    decreases s.len(),
{
    if s.len() > 0 {
        lemma_count_some_le_len(s.drop_last());
    }
}

proof fn lemma_count_some_update<T>(s: Seq<Option<T>>, i: int, v: Option<T>)
    requires
        0 <= i < s.len(),
    ensures
        count_some(s.update(i, v)) == count_some(s) - (if s[i] is Some {
            1int
        } else {
            0int
        }) + (if v is Some {
            1int
        } else {
            0int
        }),
    decreases s.len(),
{
    let s2 = s.update(i, v);
    if i == s.len() - 1 {
        assert(s2.drop_last() =~= s.drop_last());
        assert(s2.last() == v);
    } else {
        assert(s2.drop_last() =~= s.drop_last().update(i, v));
        lemma_count_some_update(s.drop_last(), i, v);
        assert(s2.last() == s.last());
    }
}

/// Associative storage with opaque sequential `u64` keys.
///
/// A key is issued exactly once: removal leaves a tombstone, so a live key is
/// never reissued while the storage exists.
#[derive(Debug)]
pub struct Storage<T> {
    slots: Vec<Option<T>>,
    live: usize,
}

impl<T: Copy> Storage<T> {
    /// The association of live keys to records.
    pub closed spec fn map(self) -> Map<u64, T> {
        Map::new(
            |k: u64| k < self.slots@.len() && self.slots@[k as int] is Some,
            |k: u64| self.slots@[k as int]->Some_0,
        )
    }

    /// The number of live records.
    pub closed spec fn len(self) -> nat {
        self.live as nat
    }

    /// The key the next insertion will be issued.
    pub closed spec fn next_key(self) -> u64 {
        self.slots@.len() as u64
    }

    /// Every issued key is below `next_key` and the live count matches the
    /// occupied slots.
    pub closed spec fn inv(self) -> bool {
        self.live == count_some(self.slots@)
    }

    /// Every key of the map is an already-issued key.
    pub proof fn lemma_keys_issued(self)
        ensures
            forall|k: u64| self.map().contains_key(k) ==> k < self.next_key(),
    {
        assert(self.slots.len() == self.slots@.len());
    }

    /// An empty storage.
    pub fn new() -> (r: Storage<T>)
        ensures
            r.inv(),
            r.map() == Map::<u64, T>::empty(),
            r.len() == 0,
            r.next_key() == 0,
    {
        let r = Storage { slots: Vec::new(), live: 0 };
        proof {
            assert(r.map() =~= Map::<u64, T>::empty());
        }
        r
    }

    /// Inserts a record under a fresh key, never issued before.
    pub fn insert(&mut self, t: T) -> (k: u64)
        requires
            old(self).inv(),
            old(self).next_key() < u64::MAX,
        ensures
            final(self).inv(),
            k == old(self).next_key(),
            !old(self).map().contains_key(k),
            final(self).map() == old(self).map().insert(k, t),
            final(self).len() == old(self).len() + 1,
            final(self).next_key() == old(self).next_key() + 1,
    {
        let k: u64 = self.slots.len() as u64;
        proof {
            lemma_count_some_push(self.slots@, Some(t));
            lemma_count_some_le_len(self.slots@);
        }
        self.slots.push(Some(t));
        proof {
            assert(self.slots.len() == self.slots@.len());
        }
        self.live = self.live + 1;
        proof {
            assert(self.map() =~= old(self).map().insert(k, t));
        }
        k
    }

    /// Looks a key up, yielding its record if the key is live.
    pub fn get(&self, k: u64) -> (r: Option<T>)
        ensures
            r == if self.map().contains_key(k) {
                Some(self.map()[k])
            } else {
                None::<T>
            },
    {
        if k < self.slots.len() as u64 {
            self.slots[k as usize]
        } else {
            None
        }
    }

    /// Whether the key resolves to a live record.
    pub fn contains(&self, k: u64) -> (r: bool)
        ensures
            r == self.map().contains_key(k),
    {
        if k < self.slots.len() as u64 {
            self.slots[k as usize].is_some()
        } else {
            false
        }
    }

    /// Overwrites the record under a live key; reports whether the key was
    /// live.
    pub fn update(&mut self, k: u64, t: T) -> (r: bool)
        requires
            old(self).inv(),
        ensures
            final(self).inv(),
            r == old(self).map().contains_key(k),
            r ==> final(self).map() == old(self).map().insert(k, t),
            !r ==> final(self).map() == old(self).map(),
            final(self).len() == old(self).len(),
            final(self).next_key() == old(self).next_key(),
    {
        if k < self.slots.len() as u64 && self.slots[k as usize].is_some() {
            proof {
                lemma_count_some_update(self.slots@, k as int, Some(t));
            }
            self.slots.set(k as usize, Some(t));
            proof {
                assert(self.map() =~= old(self).map().insert(k, t));
            }
            true
        } else {
            false
        }
    }

    /// Removes the record under a key, yielding it if the key was live. The
    /// key is retired and will never be issued again.
    pub fn remove(&mut self, k: u64) -> (r: Option<T>)
        requires
            old(self).inv(),
        ensures
            final(self).inv(),
            r == if old(self).map().contains_key(k) {
                Some(old(self).map()[k])
            } else {
                None::<T>
            },
            r is Some ==> final(self).map() == old(self).map().remove(k) && final(self).len() + 1
                == old(self).len(),
            r is None ==> final(self).map() == old(self).map() && final(self).len() == old(
                self,
            ).len(),
            final(self).next_key() == old(self).next_key(),
    {
        if k < self.slots.len() as u64 && self.slots[k as usize].is_some() {
            let r = self.slots[k as usize];
            proof {
                lemma_count_some_update(self.slots@, k as int, None::<T>);
            }
            self.slots.set(k as usize, None);
            self.live = self.live - 1;
            proof {
                assert(self.map() =~= old(self).map().remove(k));
            }
            r
        } else {
            None
        }
    }

    /// The number of live records.
    pub fn count(&self) -> (r: usize)
        ensures
            r == self.len(),
    {
        self.live
    }

    /// The key the next insertion will be issued.
    pub fn peek_next_key(&self) -> (r: u64)
        ensures
            r == self.next_key(),
    {
        proof {
            assert(self.slots.len() == self.slots@.len());
        }
        self.slots.len() as u64
    }

    /// The live keys in storage order (ascending issue order).
    pub fn keys(&self) -> (r: Vec<u64>)
        requires
            self.inv(),
        ensures
            r@.no_duplicates(),
            forall|k: u64| r@.contains(k) <==> self.map().contains_key(k),
            forall|i: int, j: int| 0 <= i < j < r@.len() ==> r@[i] < r@[j],
            r@.len() == self.len(),
    {
        let mut r: Vec<u64> = Vec::new();
        let mut idx: usize = 0;
        proof {
            assert(self.slots@.take(0int) =~= Seq::<Option<T>>::empty());
        }
        while idx < self.slots.len()
            invariant
                self.inv(),
                idx <= self.slots@.len(),
                r@.len() == count_some(self.slots@.take(idx as int)),
                forall|k: u64| r@.contains(k) <==> (k < idx && self.slots@[k as int] is Some),
                forall|i: int, j: int| 0 <= i < j < r@.len() ==> r@[i] < r@[j],
                forall|i: int| 0 <= i < r@.len() ==> r@[i] < idx,
            decreases self.slots@.len() - idx,
        {
            proof {
                assert(self.slots@.take(idx as int + 1) =~= self.slots@.take(idx as int).push(
                    self.slots@[idx as int],
                ));
                lemma_count_some_push(self.slots@.take(idx as int), self.slots@[idx as int]);
            }
            let cur_some = self.slots[idx].is_some();
            let ghost prev = r@;
            let ghost at = idx as u64;
            if cur_some {
                r.push(idx as u64);
            }
            idx = idx + 1;
            proof {
                assert forall|k: u64| r@.contains(k) implies (k < idx && self.slots@[k as int]
                    is Some) by {
                    if cur_some {
                        assert(r@ == prev.push(at));
                        vstd::seq_lib::lemma_seq_contains_after_push(prev, at, k);
                    }
                }
                assert forall|k: u64| (k < idx && self.slots@[k as int] is Some) implies
                    r@.contains(k) by {
                    if cur_some {
                        assert(r@ == prev.push(at));
                        vstd::seq_lib::lemma_seq_contains_after_push(prev, at, k);
                    }
                }
            }
        }
        proof {
            assert(self.slots@.take(self.slots@.len() as int) =~= self.slots@);
            assert forall|i: int, j: int| 0 <= i < r@.len() && 0 <= j < r@.len() && i != j implies
                r@[i] != r@[j] by {
                if i < j {
                    assert(r@[i] < r@[j]);
                } else {
                    assert(r@[j] < r@[i]);
                }
            }
            assert(r@.no_duplicates());
        }
        r
    }
}

} // verus!

use vstd::prelude::*;

verus! {

/// Whether slot `i` of `s` holds a record under key `k`.
pub closed spec fn pair_slot_is<T>(s: Seq<Option<(EdgeKey, T)>>, i: int, k: EdgeKey) -> bool {
    &&& 0 <= i < s.len()
    &&& s[i] is Some
    &&& s[i]->Some_0.0 == k
}

/// Whether some slot of `s` holds a record under key `k`.
pub closed spec fn pair_has_key<T>(s: Seq<Option<(EdgeKey, T)>>, k: EdgeKey) -> bool {
    exists|i: int| pair_slot_is(s, i, k)
}

spec fn pair_index_of<T>(s: Seq<Option<(EdgeKey, T)>>, k: EdgeKey) -> int {
    choose|i: int| pair_slot_is(s, i, k)
}

/// The association of arc keys to records held in the slots of `s`.
pub closed spec fn pair_map<T>(s: Seq<Option<(EdgeKey, T)>>) -> Map<EdgeKey, T> {
    Map::new(|k: EdgeKey| pair_has_key(s, k), |k: EdgeKey| s[pair_index_of(s, k)]->Some_0.1)
}

/// No two occupied slots of `s` share a key.
spec fn pair_uniq<T>(s: Seq<Option<(EdgeKey, T)>>) -> bool {
    forall|i: int, j: int|
        (0 <= i < s.len() && 0 <= j < s.len() && i != j && s[i] is Some && s[j] is Some)
            ==> s[i]->Some_0.0 != s[j]->Some_0.0
}

proof fn lemma_pair_index<T>(s: Seq<Option<(EdgeKey, T)>>, i: int, k: EdgeKey)
    requires
        pair_uniq(s),
        pair_slot_is(s, i, k),
    ensures
        pair_has_key(s, k),
        pair_index_of(s, k) == i,
        pair_map(s).contains_key(k),
        pair_map(s)[k] == s[i]->Some_0.1,
{
    assert(pair_has_key(s, k));
    let j = pair_index_of(s, k);
    assert(pair_slot_is(s, j, k));
}

proof fn lemma_pair_push<T>(s: Seq<Option<(EdgeKey, T)>>, k: EdgeKey, t: T)
    requires
        pair_uniq(s),
        !pair_has_key(s, k),
    ensures
        pair_uniq(s.push(Some((k, t)))),
        pair_map(s.push(Some((k, t)))) == pair_map(s).insert(k, t),
{
    let s2 = s.push(Some((k, t)));
    let n = s.len() as int;
    assert forall|i: int| 0 <= i < n implies s2[i] == s[i] by {}
    assert(s2[n] == Some((k, t)));
    assert forall|i: int| 0 <= i < n && s[i] is Some implies s[i]->Some_0.0 != k by {
        if s[i]->Some_0.0 == k {
            assert(pair_slot_is(s, i, k));
        }
    }
    assert(pair_uniq(s2));
    assert forall|k2: EdgeKey| pair_has_key(s2, k2) implies (pair_has_key(s, k2) || k2 == k) by {
        let i = pair_index_of(s2, k2);
        assert(pair_slot_is(s2, i, k2));
        if i < n {
            assert(pair_slot_is(s, i, k2));
        }
    }
    assert forall|k2: EdgeKey| pair_has_key(s, k2) implies pair_has_key(s2, k2) by {
        let i = pair_index_of(s, k2);
        assert(pair_slot_is(s2, i, k2));
    }
    assert(pair_slot_is(s2, n, k));
    assert forall|k2: EdgeKey| pair_map(s2).contains_key(k2) implies pair_map(s2)[k2]
        == pair_map(s).insert(k, t)[k2] by {
        if k2 == k {
            lemma_pair_index(s2, n, k);
        } else {
            let i = pair_index_of(s, k2);
            assert(pair_slot_is(s, i, k2));
            assert(pair_slot_is(s2, i, k2));
            lemma_pair_index(s, i, k2);
            lemma_pair_index(s2, i, k2);
        }
    }
    assert(pair_map(s2) =~= pair_map(s).insert(k, t));
}

proof fn lemma_pair_update<T>(s: Seq<Option<(EdgeKey, T)>>, i: int, k: EdgeKey, t: T)
    requires
        pair_uniq(s),
        pair_slot_is(s, i, k),
    ensures
        pair_uniq(s.update(i, Some((k, t)))),
        pair_map(s.update(i, Some((k, t)))) == pair_map(s).insert(k, t),
{
    let s2 = s.update(i, Some((k, t)));
    assert forall|j: int| 0 <= j < s.len() && j != i implies s2[j] == s[j] by {}
    assert(pair_uniq(s2));
    assert forall|k2: EdgeKey| pair_has_key(s2, k2) implies (pair_has_key(s, k2)) by {
        let j = pair_index_of(s2, k2);
        assert(pair_slot_is(s2, j, k2));
        if j == i {
            assert(pair_slot_is(s, i, k2));
        } else {
            assert(pair_slot_is(s, j, k2));
        }
    }
    assert forall|k2: EdgeKey| pair_has_key(s, k2) implies pair_has_key(s2, k2) by {
        let j = pair_index_of(s, k2);
        assert(pair_slot_is(s, j, k2));
        if j == i {
            assert(pair_slot_is(s2, i, k2));
        } else {
            assert(pair_slot_is(s2, j, k2));
        }
    }
    assert forall|k2: EdgeKey| pair_map(s2).contains_key(k2) implies pair_map(s2)[k2]
        == pair_map(s).insert(k, t)[k2] by {
        if k2 == k {
            lemma_pair_index(s2, i, k);
        } else {
            let j = pair_index_of(s, k2);
            assert(pair_slot_is(s, j, k2));
            assert(j != i);
            assert(pair_slot_is(s2, j, k2));
            lemma_pair_index(s, j, k2);
            lemma_pair_index(s2, j, k2);
        }
    }
    assert(pair_map(s2) =~= pair_map(s).insert(k, t));
}

proof fn lemma_pair_remove<T>(s: Seq<Option<(EdgeKey, T)>>, i: int, k: EdgeKey)
    requires
        pair_uniq(s),
        pair_slot_is(s, i, k),
    ensures
        pair_uniq(s.update(i, None::<(EdgeKey, T)>)),
        pair_map(s.update(i, None::<(EdgeKey, T)>)) == pair_map(s).remove(k),
{
    let s2 = s.update(i, None::<(EdgeKey, T)>);
    assert forall|j: int| 0 <= j < s.len() && j != i implies s2[j] == s[j] by {}
    assert(pair_uniq(s2));
    assert forall|k2: EdgeKey| pair_has_key(s2, k2) implies (pair_has_key(s, k2) && k2 != k) by {
        let j = pair_index_of(s2, k2);
        assert(pair_slot_is(s2, j, k2));
        assert(j != i);
        assert(pair_slot_is(s, j, k2));
        if k2 == k {
            assert(s[j]->Some_0.0 == s[i]->Some_0.0);
        }
    }
    assert forall|k2: EdgeKey| pair_has_key(s, k2) && k2 != k implies pair_has_key(s2, k2) by {
        let j = pair_index_of(s, k2);
        assert(pair_slot_is(s, j, k2));
        assert(j != i);
        assert(pair_slot_is(s2, j, k2));
    }
    assert forall|k2: EdgeKey| pair_map(s2).contains_key(k2) implies pair_map(s2)[k2]
        == pair_map(s).remove(k)[k2] by {
        let j = pair_index_of(s, k2);
        assert(pair_slot_is(s, j, k2));
        assert(j != i);
        assert(pair_slot_is(s2, j, k2));
        lemma_pair_index(s, j, k2);
        lemma_pair_index(s2, j, k2);
    }
    assert(pair_map(s2) =~= pair_map(s).remove(k));
}

/// Associative storage keyed by the ordered vertex pair of each arc.
#[derive(Debug)]
pub struct PairStorage<T> {
    slots: Vec<Option<(EdgeKey, T)>>,
    live: usize,
}

impl<T: Copy> PairStorage<T> {
    /// The association of live arc keys to records.
    pub closed spec fn map(self) -> Map<EdgeKey, T> {
        pair_map(self.slots@)
    }

    /// The number of live records.
    pub closed spec fn len(self) -> nat {
        self.live as nat
    }

    /// The live count matches the occupied slots and no key is held twice.
    pub closed spec fn inv(self) -> bool {
        &&& self.live == count_some(self.slots@)
        &&& pair_uniq(self.slots@)
    }

    /// An empty storage.
    pub fn new() -> (r: PairStorage<T>)
        ensures
            r.inv(),
            r.map() == Map::<EdgeKey, T>::empty(),
            r.len() == 0,
    {
        let r = PairStorage { slots: Vec::new(), live: 0 };
        proof {
            assert(r.map() =~= Map::<EdgeKey, T>::empty());
        }
        r
    }

    fn find(&self, k: EdgeKey) -> (r: Option<usize>)
        ensures
            match r {
                Some(i) => pair_slot_is(self.slots@, i as int, k),
                None => !pair_has_key(self.slots@, k),
            },
    {
        let mut idx: usize = 0;
        while idx < self.slots.len()
            invariant
                idx <= self.slots@.len(),
                forall|i: int| 0 <= i < idx ==> !pair_slot_is(self.slots@, i, k),
            decreases self.slots@.len() - idx,
        {
            match self.slots[idx] {
                Some(p) => {
                    if p.0 == k {
                        return Some(idx);
                    }
                },
                None => {},
            }
            idx = idx + 1;
        }
        proof {
            assert forall|i: int| !pair_slot_is(self.slots@, i, k) by {}
        }
        None
    }

    /// Whether the key resolves to a live record.
    pub fn contains(&self, k: EdgeKey) -> (r: bool)
        requires
            self.inv(),
        ensures
            r == self.map().contains_key(k),
    {
        match self.find(k) {
            Some(i) => {
                proof {
                    lemma_pair_index(self.slots@, i as int, k);
                }
                true
            },
            None => false,
        }
    }

    /// Looks a key up, yielding its record if the key is live.
    pub fn get(&self, k: EdgeKey) -> (r: Option<T>)
        requires
            self.inv(),
        ensures
            r == if self.map().contains_key(k) {
                Some(self.map()[k])
            } else {
                None::<T>
            },
    {
        match self.find(k) {
            Some(i) => {
                proof {
                    lemma_pair_index(self.slots@, i as int, k);
                }
                match self.slots[i] {
                    Some(p) => Some(p.1),
                    None => None,
                }
            },
            None => None,
        }
    }

    /// Inserts a record under a key not held yet; reports whether the key
    /// was fresh.
    pub fn insert(&mut self, k: EdgeKey, t: T) -> (r: bool)
        requires
            old(self).inv(),
        ensures
            final(self).inv(),
            r == !old(self).map().contains_key(k),
            r ==> final(self).map() == old(self).map().insert(k, t) && final(self).len() == old(
                self,
            ).len() + 1,
            !r ==> final(self).map() == old(self).map() && final(self).len() == old(self).len(),
    {
        match self.find(k) {
            Some(i) => {
                proof {
                    lemma_pair_index(self.slots@, i as int, k);
                }
                false
            },
            None => {
                proof {
                    lemma_count_some_push(self.slots@, Some((k, t)));
                    lemma_count_some_le_len(self.slots@);
                    lemma_pair_push(self.slots@, k, t);
                }
                self.slots.push(Some((k, t)));
                proof {
                    assert(self.slots.len() == self.slots@.len());
                }
                self.live = self.live + 1;
                true
            },
        }
    }

    /// Overwrites the record under a live key; reports whether the key was
    /// live.
    pub fn update(&mut self, k: EdgeKey, t: T) -> (r: bool)
        requires
            old(self).inv(),
        ensures
            final(self).inv(),
            r == old(self).map().contains_key(k),
            r ==> final(self).map() == old(self).map().insert(k, t),
            !r ==> final(self).map() == old(self).map(),
            final(self).len() == old(self).len(),
    {
        match self.find(k) {
            Some(i) => {
                proof {
                    lemma_pair_index(self.slots@, i as int, k);
                    lemma_count_some_update(self.slots@, i as int, Some((k, t)));
                    lemma_pair_update(self.slots@, i as int, k, t);
                }
                self.slots.set(i, Some((k, t)));
                true
            },
            None => false,
        }
    }

    /// Removes the record under a key, yielding it if the key was live.
    pub fn remove(&mut self, k: EdgeKey) -> (r: Option<T>)
        requires
            old(self).inv(),
        ensures
            final(self).inv(),
            r == if old(self).map().contains_key(k) {
                Some(old(self).map()[k])
            } else {
                None::<T>
            },
            r is Some ==> final(self).map() == old(self).map().remove(k) && final(self).len() + 1
                == old(self).len(),
            r is None ==> final(self).map() == old(self).map() && final(self).len() == old(
                self,
            ).len(),
    {
        match self.find(k) {
            Some(i) => {
                proof {
                    lemma_pair_index(self.slots@, i as int, k);
                    lemma_count_some_update(self.slots@, i as int, None::<(EdgeKey, T)>);
                    lemma_pair_remove(self.slots@, i as int, k);
                }
                let r = match self.slots[i] {
                    Some(p) => Some(p.1),
                    None => None,
                };
                self.slots.set(i, None);
                self.live = self.live - 1;
                r
            },
            None => None,
        }
    }

    /// The number of live records.
    pub fn count(&self) -> (r: usize)
        ensures
            r == self.len(),
    {
        self.live
    }

    /// The live arc keys in storage order.
    pub fn keys(&self) -> (r: Vec<EdgeKey>)
        requires
            self.inv(),
        ensures
            r@.no_duplicates(),
            forall|k: EdgeKey| r@.contains(k) <==> self.map().contains_key(k),
            r@.len() == self.len(),
    {
        let mut r: Vec<EdgeKey> = Vec::new();
        let mut idx: usize = 0;
        proof {
            assert(self.slots@.take(0int) =~= Seq::<Option<(EdgeKey, T)>>::empty());
        }
        while idx < self.slots.len()
            invariant
                self.inv(),
                idx <= self.slots@.len(),
                r@.no_duplicates(),
                r@.len() == count_some(self.slots@.take(idx as int)),
                forall|k: EdgeKey|
                    r@.contains(k) <==> exists|i: int|
                        0 <= i < idx && pair_slot_is(self.slots@, i, k),
            decreases self.slots@.len() - idx,
        {
            let ghost pre = self.slots@.take(idx as int);
            let ghost post = self.slots@.take(idx as int + 1);
            proof {
                assert(post =~= pre.push(self.slots@[idx as int]));
                lemma_count_some_push(pre, self.slots@[idx as int]);
            }
            match self.slots[idx] {
                Some(p) => {
                    let ghost prev = r@;
                    proof {
                        if prev.contains(p.0) {
                            let i = choose|i: int|
                                0 <= i < idx && pair_slot_is(self.slots@, i, p.0);
                            assert(pair_slot_is(self.slots@, idx as int, p.0));
                            assert(false);
                        }
                    }
                    r.push(p.0);
                    proof {
                        assert forall|k: EdgeKey| r@.contains(k) implies (prev.contains(k) || k
                            == p.0) by {
                            vstd::seq_lib::lemma_seq_contains_after_push(prev, p.0, k);
                        }
                        assert forall|k: EdgeKey| (prev.contains(k) || k == p.0) implies
                            r@.contains(k) by {
                            vstd::seq_lib::lemma_seq_contains_after_push(prev, p.0, k);
                        }
                        assert forall|i: int, j: int|
                            0 <= i < r@.len() && 0 <= j < r@.len() && i != j implies r@[i]
                            != r@[j] by {
                            if i < prev.len() && j < prev.len() {
                            } else if i < prev.len() {
                                assert(prev.contains(prev[i]));
                            } else {
                                assert(prev.contains(prev[j]));
                            }
                        }
                        assert(r@.no_duplicates());
                        assert(pair_slot_is(self.slots@, idx as int, p.0));
                        assert forall|k: EdgeKey| r@.contains(k) implies exists|i: int|
                            0 <= i < idx + 1 && pair_slot_is(self.slots@, i, k) by {
                            if prev.contains(k) {
                                let i = choose|i: int|
                                    0 <= i < idx && pair_slot_is(self.slots@, i, k);
                                assert(0 <= i < idx + 1 && pair_slot_is(self.slots@, i, k));
                            } else {
                                assert(pair_slot_is(self.slots@, idx as int, k));
                            }
                        }
                        assert forall|k: EdgeKey|
                            (exists|i: int| 0 <= i < idx + 1 && pair_slot_is(self.slots@, i, k))
                            implies r@.contains(k) by {
                            let i = choose|i: int|
                                0 <= i < idx + 1 && pair_slot_is(self.slots@, i, k);
                            if i < idx {
                                assert(exists|j: int|
                                    0 <= j < idx && pair_slot_is(self.slots@, j, k));
                                assert(prev.contains(k));
                            } else {
                                assert(pair_slot_is(self.slots@, idx as int, k));
                                assert(k == p.0);
                            }
                        }
                    }
                },
                None => {
                    proof {
                        assert forall|k: EdgeKey| r@.contains(k) implies exists|i: int|
                            0 <= i < idx + 1 && pair_slot_is(self.slots@, i, k) by {
                            let i = choose|i: int| 0 <= i < idx && pair_slot_is(self.slots@, i, k);
                            assert(0 <= i < idx + 1 && pair_slot_is(self.slots@, i, k));
                        }
                        assert forall|k: EdgeKey|
                            (exists|i: int| 0 <= i < idx + 1 && pair_slot_is(self.slots@, i, k))
                            implies r@.contains(k) by {
                            let i = choose|i: int|
                                0 <= i < idx + 1 && pair_slot_is(self.slots@, i, k);
                            assert(i != idx);
                            assert(exists|j: int| 0 <= j < idx && pair_slot_is(self.slots@, j, k));
                        }
                    }
                },
            }
            idx = idx + 1;
        }
        proof {
            assert(self.slots@.take(self.slots@.len() as int) =~= self.slots@);
            assert forall|k: EdgeKey| r@.contains(k) implies self.map().contains_key(k) by {
                let i = choose|i: int|
                    0 <= i < self.slots@.len() && pair_slot_is(self.slots@, i, k);
                lemma_pair_index(self.slots@, i, k);
            }
            assert forall|k: EdgeKey| self.map().contains_key(k) implies r@.contains(k) by {
                let i = pair_index_of(self.slots@, k);
                assert(pair_slot_is(self.slots@, i, k));
            }
        }
        r
    }
}

} // verus!
