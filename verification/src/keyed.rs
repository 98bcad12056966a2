//! Small collections that hold each key once: a map and a set, kept as lists
//! in the order their keys came.

use crate::bytes;
use vstd::prelude::*;

verus! {

/// A type whose values can be told apart, and copied.
pub trait Key: Sized {
    /// Whether two keys are the same.
    fn same(&self, other: &Self) -> (same: bool)
        ensures
            same == (*self == *other),
    ;

    /// A copy of the key.
    fn duplicate(&self) -> (copy: Self)
        ensures
            copy == *self,
    ;
}

impl Key for [u8; 32] {
    fn same(&self, other: &Self) -> (same: bool) {
        bytes::same_key(self, other)
    }

    fn duplicate(&self) -> (copy: Self) {
        *self
    }
}

impl Key for ([u8; 32], [u8; 32]) {
    fn same(&self, other: &Self) -> (same: bool) {
        bytes::same_key(&self.0, &other.0) && bytes::same_key(&self.1, &other.1)
    }

    fn duplicate(&self) -> (copy: Self) {
        (self.0, self.1)
    }
}

/// A map from keys to values.
pub struct KeyedMap<K, V> {
    entries: Vec<(K, V)>,
}

/// Whether `key` stands at `i` of `entries`.
pub open spec fn stands_at<K, V>(entries: Seq<(K, V)>, key: K, i: int) -> bool {
    0 <= i < entries.len() && entries[i].0 == key
}

/// Whether no key stands twice in `entries`.
pub open spec fn no_key_twice<K, V>(entries: Seq<(K, V)>) -> bool {
    forall|i: int, j: int|
        0 <= i < j < entries.len() ==> (#[trigger] entries[i]).0 != (#[trigger] entries[j]).0
}

/// The map a list of entries stands for.
pub open spec fn entry_map<K, V: View>(entries: Seq<(K, V)>) -> Map<K, V::V> {
    Map::new(
        |key: K| exists|i: int| #[trigger] stands_at(entries, key, i),
        |key: K| entries[choose|i: int| #[trigger] stands_at(entries, key, i)].1@,
    )
}

impl<K, V: View> View for KeyedMap<K, V> {
    type V = Map<K, V::V>;

    closed spec fn view(&self) -> Map<K, V::V> {
        entry_map(self.entries@)
    }
}

proof fn lemma_entry<K, V: View>(entries: Seq<(K, V)>, i: int)
    requires
        no_key_twice(entries),
        0 <= i < entries.len(),
    ensures
        entry_map(entries).dom().contains(entries[i].0),
        entry_map(entries)[entries[i].0] == entries[i].1@,
{
    let key = entries[i].0;
    assert(stands_at(entries, key, i));
    let j = choose|j: int| #[trigger] stands_at(entries, key, j);
    assert(i == j);
}

impl<K, V> KeyedMap<K, V> {
    #[verifier::type_invariant]
    spec fn each_key_once(self) -> bool {
        no_key_twice(self.entries@)
    }
}

impl<K: Key, V: View> KeyedMap<K, V> {
    /// The empty map.
    pub fn new() -> (r: Self)
        ensures
            r@ == Map::<K, V::V>::empty(),
    {
        let r = KeyedMap { entries: Vec::new() };
        assert(entry_map(r.entries@) =~= Map::empty());
        r
    }

    /// Where `key` stands.
    fn position(entries: &Vec<(K, V)>, key: &K) -> (r: Option<usize>)
        ensures
            (match r {
                Some(i) => stands_at(entries@, *key, i as int),
                None => forall|i: int| !#[trigger] stands_at(entries@, *key, i),
            }),
    {
        let mut i: usize = 0;
        while i < entries.len()
            invariant
                i <= entries.len(),
                forall|j: int| 0 <= j < i ==> !#[trigger] stands_at(entries@, *key, j),
            decreases entries.len() - i,
        {
            if entries[i].0.same(key) {
                return Some(i);
            }
            i = i + 1;
        }
        None
    }

    /// Whether there are no keys.
    pub fn is_empty(&self) -> (r: bool)
        ensures
            r == (self@ == Map::<K, V::V>::empty()),
    {
        proof {
            if self.entries@.len() > 0 {
                assert(stands_at(self.entries@, self.entries@[0].0, 0));
                assert(self@.dom().contains(self.entries@[0].0));
            } else {
                assert(self@ =~= Map::empty());
            }
        }
        self.entries.len() == 0
    }

    /// The value of `key`, if it has one.
    pub fn get(&self, key: &K) -> (r: Option<&V>)
        ensures
            (match r {
                Some(v) => self@.dom().contains(*key) && self@[*key] == v@,
                None => !self@.dom().contains(*key),
            }),
    {
        proof {
            use_type_invariant(self);
        }
        match Self::position(&self.entries, key) {
            Some(i) => {
                proof {
                    lemma_entry(self.entries@, i as int);
                }
                Some(&self.entries[i].1)
            },
            None => None,
        }
    }

    /// Whether `key` has a value.
    pub fn contains_key(&self, key: &K) -> (r: bool)
        ensures
            r == self@.dom().contains(*key),
    {
        self.get(key).is_some()
    }

    /// Give `key` the value `value`, in place of any it has.
    pub fn insert(&mut self, key: K, value: V)
        ensures
            final(self)@ == old(self)@.insert(key, value@),
    {
        proof {
            use_type_invariant(&*self);
        }
        let ghost before = self.entries@;
        let mut entries: Vec<(K, V)> = Vec::new();
        std::mem::swap(&mut entries, &mut self.entries);
        match Self::position(&entries, &key) {
            Some(i) => {
                entries.set(i, (key, value));
                proof {
                    assert(entries@ == before.update(i as int, (key, value)));
                    assert forall|j: int, l: int| 0 <= j < l < entries@.len() implies (
                    #[trigger] entries@[j]).0 != (#[trigger] entries@[l]).0 by {
                        assert(entries@[j].0 == before[j].0);
                        assert(entries@[l].0 == before[l].0);
                    }
                    lemma_same_map(entries@, entry_map(before).insert(key, value@));
                }
            },
            None => {
                entries.push((key, value));
                proof {
                    assert(entries@ == before.push((key, value)));
                    assert forall|j: int, l: int| 0 <= j < l < entries@.len() implies (
                    #[trigger] entries@[j]).0 != (#[trigger] entries@[l]).0 by {
                        if l == before.len() {
                            assert(!stands_at(before, key, j));
                        }
                    }
                    lemma_same_map(entries@, entry_map(before).insert(key, value@));
                }
            },
        }
        self.entries = entries;
    }

    /// Take `key` out, with its value.
    pub fn remove(&mut self, key: &K) -> (r: Option<V>)
        ensures
            final(self)@ == old(self)@.remove(*key),
            (match r {
                Some(v) => old(self)@.dom().contains(*key) && old(self)@[*key] == v@,
                None => !old(self)@.dom().contains(*key),
            }),
    {
        proof {
            use_type_invariant(&*self);
        }
        let ghost before = self.entries@;
        let mut entries: Vec<(K, V)> = Vec::new();
        std::mem::swap(&mut entries, &mut self.entries);
        match Self::position(&entries, key) {
            Some(i) => {
                proof {
                    lemma_entry(before, i as int);
                }
                let (k, v) = entries.remove(i);
                proof {
                    assert(entries@ == before.remove(i as int));
                    assert forall|j: int, l: int| 0 <= j < l < entries@.len() implies (
                    #[trigger] entries@[j]).0 != (#[trigger] entries@[l]).0 by {
                        let j0 = if j < i {
                            j
                        } else {
                            j + 1
                        };
                        let l0 = if l < i {
                            l
                        } else {
                            l + 1
                        };
                        assert(entries@[j] == before[j0]);
                        assert(entries@[l] == before[l0]);
                    }
                    lemma_removed(before, i as int);
                }
                self.entries = entries;
                Some(v)
            },
            None => {
                assert(entry_map(before).remove(*key) =~= entry_map(before));
                self.entries = entries;
                None
            },
        }
    }

    /// The keys, in the order they came.
    pub fn keys(&self) -> (r: Vec<K>)
        ensures
            forall|k: K| #[trigger] r@.contains(k) <==> self@.dom().contains(k),
            r@.no_duplicates(),
    {
        proof {
            use_type_invariant(self);
        }
        let mut r: Vec<K> = Vec::new();
        let mut i: usize = 0;
        while i < self.entries.len()
            invariant
                i <= self.entries.len(),
                r@.len() == i,
                forall|j: int| 0 <= j < i ==> r@[j] == (#[trigger] self.entries@[j]).0,
            decreases self.entries.len() - i,
        {
            r.push(self.entries[i].0.duplicate());
            i = i + 1;
        }
        proof {
            assert forall|k: K| #[trigger] r@.contains(k) <==> self@.dom().contains(k) by {
                if r@.contains(k) {
                    let j = choose|j: int| 0 <= j < r@.len() && r@[j] == k;
                    assert(self.entries@[j].0 == k);
                    assert(stands_at(self.entries@, k, j));
                }
                if self@.dom().contains(k) {
                    let j = choose|j: int| #[trigger] stands_at(self.entries@, k, j);
                    assert(r@[j] == self.entries@[j].0);
                }
            }
            assert forall|j: int, l: int| 0 <= j < r@.len() && 0 <= l < r@.len() && j != l implies r@[j]
                != r@[l] by {
                assert(r@[j] == self.entries@[j].0);
                assert(r@[l] == self.entries@[l].0);
            }
        }
        r
    }
}

/// A list of entries stands for `map` where each entry is one of `map`'s and
/// each key of `map` has an entry.
proof fn lemma_is_map<K, V: View>(entries: Seq<(K, V)>, map: Map<K, V::V>)
    requires
        no_key_twice(entries),
        forall|i: int|
            0 <= i < entries.len() ==> map.dom().contains((#[trigger] entries[i]).0)
                && map[entries[i].0] == entries[i].1@,
        forall|k: K| #[trigger] map.dom().contains(k) ==> exists|i: int| stands_at(entries, k, i),
    ensures
        entry_map(entries) == map,
{
    assert forall|k: K| entry_map(entries).dom().contains(k) implies entry_map(entries)[k] == map[k]
        && map.dom().contains(k) by {
        let i = choose|i: int| #[trigger] stands_at(entries, k, i);
        lemma_entry(entries, i);
        assert(entries[i].0 == k);
    }
    assert(entry_map(entries) =~= map);
}

proof fn lemma_same_map<K, V: View>(entries: Seq<(K, V)>, map: Map<K, V::V>)
    requires
        no_key_twice(entries),
        exists|before: Seq<(K, V)>, key: K, value: V|
            #![trigger entry_map(before).insert(key, value@)]
            no_key_twice(before) && map == entry_map(before).insert(key, value@) && ((exists|i: int|
                #[trigger] stands_at(before, key, i) && entries == before.update(
                    i,
                    (key, value),
                )) || ((forall|i: int| !#[trigger] stands_at(before, key, i)) && entries
                == before.push((key, value)))),
    ensures
        entry_map(entries) == map,
{
    let (before, key, value) = choose|before: Seq<(K, V)>, key: K, value: V|
        #![trigger entry_map(before).insert(key, value@)]
        no_key_twice(before) && map == entry_map(before).insert(key, value@) && ((exists|i: int|
            #[trigger] stands_at(before, key, i) && entries == before.update(i, (key, value)))
            || ((forall|i: int| !#[trigger] stands_at(before, key, i)) && entries == before.push(
            (key, value),
        )));
    assert forall|j: int| 0 <= j < entries.len() implies map.dom().contains(
        (#[trigger] entries[j]).0,
    ) && map[entries[j].0] == entries[j].1@ by {
        if entries[j].0 != key {
            assert(entries[j] == before[j]);
            lemma_entry(before, j);
        } else if j < before.len() && !(exists|i: int| #[trigger] stands_at(before, key, i)) {
            assert(stands_at(before, key, j));
        } else if j < before.len() {
            let i = choose|i: int|
                #[trigger] stands_at(before, key, i) && entries == before.update(i, (key, value));
            assert(entries[i].0 == key);
            assert(i == j);
        }
    }
    assert forall|k: K| #[trigger] map.dom().contains(k) implies exists|i: int|
        stands_at(entries, k, i) by {
        if k == key {
            if exists|i: int| #[trigger] stands_at(before, key, i) {
                let i = choose|i: int|
                    #[trigger] stands_at(before, key, i) && entries == before.update(
                        i,
                        (key, value),
                    );
                assert(stands_at(entries, k, i));
            } else {
                assert(stands_at(entries, k, before.len() as int));
            }
        } else {
            let i = choose|i: int| #[trigger] stands_at(before, k, i);
            assert(stands_at(entries, k, i));
        }
    }
    lemma_is_map(entries, map);
}

proof fn lemma_removed<K, V: View>(before: Seq<(K, V)>, at: int)
    requires
        no_key_twice(before),
        0 <= at < before.len(),
        no_key_twice(before.remove(at)),
    ensures
        entry_map(before.remove(at)) == entry_map(before).remove(before[at].0),
{
    let entries = before.remove(at);
    let key = before[at].0;
    let map = entry_map(before).remove(key);
    assert forall|j: int| 0 <= j < entries.len() implies map.dom().contains(
        (#[trigger] entries[j]).0,
    ) && map[entries[j].0] == entries[j].1@ by {
        let j0 = if j < at {
            j
        } else {
            j + 1
        };
        assert(entries[j] == before[j0]);
        lemma_entry(before, j0);
    }
    assert forall|k: K| #[trigger] map.dom().contains(k) implies exists|i: int|
        stands_at(entries, k, i) by {
        let i = choose|i: int| #[trigger] stands_at(before, k, i);
        let i0 = if i < at {
            i
        } else {
            i - 1
        };
        assert(stands_at(entries, k, i0));
    }
    lemma_is_map(entries, map);
}

/// A set of keys.
pub struct KeyedSet<K> {
    members: KeyedMap<K, bool>,
}

impl<K> View for KeyedSet<K> {
    type V = Set<K>;

    closed spec fn view(&self) -> Set<K> {
        self.members@.dom()
    }
}

impl<K: Key> KeyedSet<K> {
    /// The empty set.
    pub fn new() -> (r: Self)
        ensures
            r@ == Set::<K>::empty(),
    {
        let r = KeyedSet { members: KeyedMap::new() };
        assert(r@ =~= Set::empty());
        r
    }

    /// Whether `key` is in the set.
    pub fn contains(&self, key: &K) -> (r: bool)
        ensures
            r == self@.contains(*key),
    {
        self.members.contains_key(key)
    }

    /// Whether the set holds nothing.
    pub fn is_empty(&self) -> (r: bool)
        ensures
            r == (self@ == Set::<K>::empty()),
    {
        proof {
            if self@ == Set::<K>::empty() {
                assert(self.members@ =~= Map::empty());
            }
        }
        self.members.is_empty()
    }

    /// Put `key` in. Says whether it was not there before.
    pub fn insert(&mut self, key: K) -> (fresh: bool)
        ensures
            final(self)@ == old(self)@.insert(key),
            fresh == !old(self)@.contains(key),
    {
        let fresh = !self.members.contains_key(&key);
        let ghost before = self.members@;
        self.members.insert(key, true);
        assert(self.members@.dom() =~= before.dom().insert(key));
        fresh
    }

    /// Take `key` out.
    pub fn remove(&mut self, key: &K)
        ensures
            final(self)@ == old(self)@.remove(*key),
    {
        let ghost before = self.members@;
        let _ = self.members.remove(key);
        assert(self.members@.dom() =~= before.dom().remove(*key));
    }
}

} // verus!
