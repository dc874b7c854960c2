//! Finite maps from identifiers to values, kept as entry lists in insertion order.

use vstd::prelude::*;

use crate::ids::KeyId;

verus! {

/// Whether no key occurs twice among the entries.
pub open spec fn unique_keys<K, V>(entries: Seq<(K, V)>) -> bool {
    forall|i: int, j: int|
        0 <= i < entries.len() && 0 <= j < entries.len() && i != j ==> entries[i].0 != entries[j].0
}

/// Whether one of the entries has `key`.
pub open spec fn has_key<K, V>(entries: Seq<(K, V)>, key: K) -> bool {
    exists|i: int| 0 <= i < entries.len() && #[trigger] entries[i].0 == key
}

/// The map held by the entries: each key maps to the view of its value.
pub open spec fn keyed_view<K, V: View>(entries: Seq<(K, V)>) -> Map<K, V::V> {
    Map::new(
        |key: K| has_key(entries, key),
        |key: K| entries[choose|i: int| 0 <= i < entries.len() && #[trigger] entries[i].0 == key].1@,
    )
}

/// The keys of the entries, in order.
pub open spec fn entry_keys<K, V>(entries: Seq<(K, V)>) -> Seq<K> {
    entries.map_values(|entry: (K, V)| entry.0)
}

pub proof fn lemma_keyed_view_at<K, V: View>(entries: Seq<(K, V)>, i: int)
    requires
        unique_keys(entries),
        0 <= i < entries.len(),
    ensures
        keyed_view(entries).contains_key(entries[i].0),
        keyed_view(entries)[entries[i].0] == entries[i].1@,
{
    let key = entries[i].0;
    assert(has_key(entries, key));
    let j = choose|j: int| 0 <= j < entries.len() && #[trigger] entries[j].0 == key;
    assert(j == i);
}

pub proof fn lemma_keyed_view_push<K, V: View>(entries: Seq<(K, V)>, entry: (K, V))
    requires
        unique_keys(entries),
        !has_key(entries, entry.0),
    ensures
        unique_keys(entries.push(entry)),
        keyed_view(entries.push(entry)) == keyed_view(entries).insert(entry.0, entry.1@),
{
    let pushed = entries.push(entry);
    assert forall|i: int, j: int|
        0 <= i < pushed.len() && 0 <= j < pushed.len() && i != j implies pushed[i].0 != pushed[j].0 by {
        if i < entries.len() && j < entries.len() {
        } else if i < entries.len() {
            assert(entries[i].0 == pushed[i].0);
        } else {
            assert(entries[j].0 == pushed[j].0);
        }
    }
    let lhs = keyed_view(pushed);
    let rhs = keyed_view(entries).insert(entry.0, entry.1@);
    assert forall|key: K| #[trigger] lhs.contains_key(key) == rhs.contains_key(key) by {
        if has_key(pushed, key) && key != entry.0 {
            let i = choose|i: int| 0 <= i < pushed.len() && #[trigger] pushed[i].0 == key;
            assert(entries[i].0 == key);
        }
        if has_key(entries, key) {
            let i = choose|i: int| 0 <= i < entries.len() && #[trigger] entries[i].0 == key;
            assert(pushed[i].0 == key);
        }
        if key == entry.0 {
            assert(pushed[entries.len() as int].0 == key);
        }
    }
    assert forall|key: K| #[trigger] lhs.contains_key(key) implies lhs[key] == rhs[key] by {
        if key == entry.0 {
            lemma_keyed_view_at(pushed, entries.len() as int);
        } else {
            let i = choose|i: int| 0 <= i < pushed.len() && #[trigger] pushed[i].0 == key;
            assert(i < entries.len());
            lemma_keyed_view_at(pushed, i);
            lemma_keyed_view_at(entries, i);
        }
    }
    assert(lhs =~= rhs);
}

pub proof fn lemma_keyed_view_set<K, V: View>(entries: Seq<(K, V)>, j: int, entry: (K, V))
    requires
        unique_keys(entries),
        0 <= j < entries.len(),
        entries[j].0 == entry.0,
    ensures
        unique_keys(entries.update(j, entry)),
        keyed_view(entries.update(j, entry)) == keyed_view(entries).insert(entry.0, entry.1@),
        entry_keys(entries.update(j, entry)) == entry_keys(entries),
{
    let updated = entries.update(j, entry);
    assert forall|a: int, b: int|
        0 <= a < updated.len() && 0 <= b < updated.len() && a != b implies updated[a].0 != updated[b].0 by {
        assert(updated[a].0 == entries[a].0);
        assert(updated[b].0 == entries[b].0);
    }
    let lhs = keyed_view(updated);
    let rhs = keyed_view(entries).insert(entry.0, entry.1@);
    assert forall|key: K| #[trigger] lhs.contains_key(key) == rhs.contains_key(key) by {
        if has_key(updated, key) {
            let i = choose|i: int| 0 <= i < updated.len() && #[trigger] updated[i].0 == key;
            assert(entries[i].0 == key);
        }
        if has_key(entries, key) {
            let i = choose|i: int| 0 <= i < entries.len() && #[trigger] entries[i].0 == key;
            assert(updated[i].0 == key);
        }
    }
    assert forall|key: K| #[trigger] lhs.contains_key(key) implies lhs[key] == rhs[key] by {
        let i = choose|i: int| 0 <= i < updated.len() && #[trigger] updated[i].0 == key;
        lemma_keyed_view_at(updated, i);
        if i != j {
            lemma_keyed_view_at(entries, i);
        }
    }
    assert(lhs =~= rhs);
    assert(entry_keys(updated) =~= entry_keys(entries));
}

pub proof fn lemma_keyed_view_remove<K, V: View>(entries: Seq<(K, V)>, j: int)
    requires
        unique_keys(entries),
        0 <= j < entries.len(),
    ensures
        unique_keys(entries.remove(j)),
        keyed_view(entries.remove(j)) == keyed_view(entries).remove(entries[j].0),
{
    let removed = entries.remove(j);
    let key_j = entries[j].0;
    assert forall|a: int, b: int|
        0 <= a < removed.len() && 0 <= b < removed.len() && a != b implies removed[a].0 != removed[b].0 by {
        let ea = if a < j { a } else { a + 1 };
        let eb = if b < j { b } else { b + 1 };
        assert(removed[a] == entries[ea]);
        assert(removed[b] == entries[eb]);
    }
    let lhs = keyed_view(removed);
    let rhs = keyed_view(entries).remove(key_j);
    assert forall|key: K| #[trigger] lhs.contains_key(key) == rhs.contains_key(key) by {
        if has_key(removed, key) {
            let i = choose|i: int| 0 <= i < removed.len() && #[trigger] removed[i].0 == key;
            let e = if i < j { i } else { i + 1 };
            assert(removed[i] == entries[e]);
            assert(entries[e].0 == key);
        }
        if has_key(entries, key) && key != key_j {
            let i = choose|i: int| 0 <= i < entries.len() && #[trigger] entries[i].0 == key;
            assert(i != j);
            let r = if i < j { i } else { i - 1 };
            assert(removed[r] == entries[i]);
            assert(removed[r].0 == key);
        }
    }
    assert forall|key: K| #[trigger] lhs.contains_key(key) implies lhs[key] == rhs[key] by {
        let i = choose|i: int| 0 <= i < removed.len() && #[trigger] removed[i].0 == key;
        let e = if i < j { i } else { i + 1 };
        assert(removed[i] == entries[e]);
        lemma_keyed_view_at(removed, i);
        lemma_keyed_view_at(entries, e);
    }
    assert(lhs =~= rhs);
}

/// Returns the position of the entry with `key`, if any.
fn find_key<K: KeyId, V>(entries: &[(K, V)], key: K) -> (index: Option<usize>)
    ensures
        match index {
            Some(i) => i < entries@.len() && entries@[i as int].0 == key,
            None => !has_key(entries@, key),
        },
{
    let mut i: usize = 0;
    while i < entries.len()
        invariant
            0 <= i <= entries@.len(),
            forall|k: int| 0 <= k < i ==> entries@[k].0 != key,
        decreases entries@.len() - i,
    {
        if entries[i].0.same_key(&key) {
            return Some(i);
        }
        i += 1;
    }
    None
}

/// A finite map from identifiers to values.
///
/// The view is the map from each key to the view of its value. Entries are kept in insertion
/// order; `keys` exposes that order.
#[derive(Debug)]
pub struct KeyedVec<K, V> {
    entries: Vec<(K, V)>,
}

impl<K, V: View> View for KeyedVec<K, V> {
    type V = Map<K, V::V>;

    closed spec fn view(&self) -> Map<K, V::V> {
        keyed_view(self.entries@)
    }
}

impl<K, V> KeyedVec<K, V> {
    #[verifier::type_invariant]
    closed spec fn distinct_keys(self) -> bool {
        unique_keys(self.entries@)
    }

    /// The keys in entry order.
    pub closed spec fn key_seq(&self) -> Seq<K> {
        entry_keys(self.entries@)
    }
}

impl<K: KeyId, V: View> KeyedVec<K, V> {
    /// Creates an empty map.
    pub fn new() -> (map: Self)
        ensures
            map@ == Map::<K, V::V>::empty(),
            map.key_seq() == Seq::<K>::empty(),
    {
        let map = KeyedVec { entries: Vec::new() };
        assert(map@ =~= Map::<K, V::V>::empty());
        assert(map.key_seq() =~= Seq::<K>::empty());
        map
    }

    /// Returns the keys in entry order: they are distinct and are exactly the keys of the map.
    pub fn keys(&self) -> (keys: Vec<K>)
        ensures
            keys@ == self.key_seq(),
            keys@.no_duplicates(),
            forall|i: int| 0 <= i < keys@.len() ==> self@.contains_key(#[trigger] keys@[i]),
            forall|key: K| #[trigger] self@.contains_key(key) ==> keys@.contains(key),
    {
        proof {
            use_type_invariant(self);
        }
        let mut keys: Vec<K> = Vec::new();
        let mut i: usize = 0;
        while i < self.entries.len()
            invariant
                0 <= i <= self.entries@.len(),
                keys@ == entry_keys(self.entries@).subrange(0, i as int),
            decreases self.entries@.len() - i,
        {
            keys.push(self.entries[i].0);
            proof {
                assert(keys@ =~= entry_keys(self.entries@).subrange(0, i + 1));
            }
            i += 1;
        }
        proof {
            let all = entry_keys(self.entries@);
            assert(keys@ =~= all);
            assert forall|i: int, j: int| 0 <= i < all.len() && 0 <= j < all.len() && i != j implies all[i]
                != all[j] by {
                assert(all[i] == self.entries@[i].0);
                assert(all[j] == self.entries@[j].0);
            }
            assert forall|i: int| 0 <= i < all.len() implies self@.contains_key(#[trigger] all[i]) by {
                lemma_keyed_view_at(self.entries@, i);
            }
            assert forall|key: K| #[trigger] self@.contains_key(key) implies all.contains(key) by {
                let i = choose|i: int| 0 <= i < self.entries@.len() && #[trigger] self.entries@[i].0 == key;
                assert(all[i] == key);
            }
        }
        keys
    }

    /// Returns the number of entries.
    pub fn len(&self) -> (len: usize)
        ensures
            len == self.key_seq().len(),
    {
        self.entries.len()
    }

    /// Returns the key of entry `index`.
    pub fn key_at(&self, index: usize) -> (key: K)
        requires
            index < self.key_seq().len(),
        ensures
            key == self.key_seq()[index as int],
    {
        self.entries[index].0
    }

    /// Returns the value of entry `index`.
    pub fn value_at(&self, index: usize) -> (value: &V)
        requires
            index < self.key_seq().len(),
        ensures
            self@.contains_key(self.key_seq()[index as int]),
            value@ == self@[self.key_seq()[index as int]],
    {
        proof {
            use_type_invariant(self);
            lemma_keyed_view_at(self.entries@, index as int);
        }
        &self.entries[index].1
    }

    /// Replaces the value of entry `index`.
    pub fn set_value_at(&mut self, index: usize, value: V)
        requires
            index < old(self).key_seq().len(),
        ensures
            final(self)@ == old(self)@.insert(old(self).key_seq()[index as int], value@),
            final(self).key_seq() == old(self).key_seq(),
    {
        proof {
            use_type_invariant(&*self);
        }
        let key = self.entries[index].0;
        let mut entries = Vec::new();
        std::mem::swap(&mut entries, &mut self.entries);
        let ghost before = entries@;
        entries.set(index, (key, value));
        proof {
            lemma_keyed_view_set(before, index as int, (key, value));
        }
        self.entries = entries;
    }

    /// Returns the value of `key`, if present.
    pub fn get(&self, key: K) -> (value: Option<&V>)
        ensures
            value is Some <==> self@.contains_key(key),
            value is Some ==> value->0@ == self@[key],
    {
        proof {
            use_type_invariant(self);
        }
        match find_key(self.entries.as_slice(), key) {
            Some(i) => {
                proof {
                    lemma_keyed_view_at(self.entries@, i as int);
                }
                Some(&self.entries[i].1)
            },
            None => None,
        }
    }

    /// Sets the value of `key`, replacing any earlier one.
    pub fn insert(&mut self, key: K, value: V)
        ensures
            final(self)@ == old(self)@.insert(key, value@),
    {
        proof {
            use_type_invariant(&*self);
        }
        let found = find_key(self.entries.as_slice(), key);
        let mut entries = Vec::new();
        std::mem::swap(&mut entries, &mut self.entries);
        let ghost before = entries@;
        match found {
            Some(i) => {
                entries.set(i, (key, value));
                proof {
                    lemma_keyed_view_set(before, i as int, (key, value));
                }
            },
            None => {
                entries.push((key, value));
                proof {
                    lemma_keyed_view_push(before, (key, value));
                }
            },
        }
        self.entries = entries;
    }

    /// Removes the entry of `key` and returns whether there was one.
    pub fn remove(&mut self, key: K) -> (present: bool)
        ensures
            final(self)@ == old(self)@.remove(key),
            present == old(self)@.contains_key(key),
    {
        proof {
            use_type_invariant(&*self);
        }
        match find_key(self.entries.as_slice(), key) {
            Some(i) => {
                let mut entries = Vec::new();
                std::mem::swap(&mut entries, &mut self.entries);
                let ghost before = entries@;
                let _ = entries.remove(i);
                proof {
                    lemma_keyed_view_remove(before, i as int);
                    lemma_keyed_view_at(before, i as int);
                }
                self.entries = entries;
                true
            },
            None => {
                proof {
                    assert(self@.remove(key) =~= self@);
                }
                false
            },
        }
    }

    /// Removes every entry.
    pub fn clear(&mut self)
        ensures
            final(self)@ == Map::<K, V::V>::empty(),
    {
        self.entries = Vec::new();
        assert(self@ =~= Map::<K, V::V>::empty());
    }
}

} // verus!
