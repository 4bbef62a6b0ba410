//! A map from tokens to values that keeps its entries in a dense sequence
//! and finds them through a `hashbrown::HashMap`.

use crate::id_map::swap_removed;
use vstd::prelude::*;

verus! {

/// A `hashbrown::HashMap` from tokens to places in a sequence.
///
/// The map itself is opaque to the verifier: all that is known of it is what
/// the methods below state of [`token_index_entries`].
#[verifier::external_body]
pub struct TokenIndex {
    inner: hashbrown::HashMap<usize, usize>,
}

/// The entries of a [`TokenIndex`].
pub uninterp spec fn token_index_entries(index: TokenIndex) -> Map<usize, usize>;

impl TokenIndex {
    /// `hashbrown::HashMap::new`: the new map has no entries.
    #[verifier::external_body]
    pub(crate) fn new() -> (empty: TokenIndex)
        ensures
            token_index_entries(empty).dom() == Set::<usize>::empty(),
    {
        TokenIndex { inner: hashbrown::HashMap::new() }
    }

    /// `hashbrown::HashMap::get`: the value stored under the key, if there is
    /// one.
    #[verifier::external_body]
    pub(crate) fn get(&self, key: usize) -> (found: Option<usize>)
        ensures
            match found {
                Some(place) => token_index_entries(*self).contains_key(key) && token_index_entries(
                    *self,
                )[key] == place,
                None => !token_index_entries(*self).contains_key(key),
            },
    {
        self.inner.get(&key).copied()
    }

    /// `hashbrown::HashMap::insert`: the key now leads to the value, the other
    /// entries stay, and the value that the key led to before is returned.
    #[verifier::external_body]
    pub(crate) fn insert(&mut self, key: usize, place: usize) -> (before: Option<usize>)
        ensures
            token_index_entries(*final(self)) == token_index_entries(*old(self)).insert(key, place),
            match before {
                Some(earlier) => token_index_entries(*old(self)).contains_key(key)
                    && token_index_entries(*old(self))[key] == earlier,
                None => !token_index_entries(*old(self)).contains_key(key),
            },
    {
        self.inner.insert(key, place)
    }

    /// `hashbrown::HashMap::remove`: the key leads nowhere any more, the other
    /// entries stay, and the value that the key led to is returned.
    #[verifier::external_body]
    pub(crate) fn remove(&mut self, key: usize) -> (before: Option<usize>)
        ensures
            token_index_entries(*final(self)) == token_index_entries(*old(self)).remove(key),
            match before {
                Some(earlier) => token_index_entries(*old(self)).contains_key(key)
                    && token_index_entries(*old(self))[key] == earlier,
                None => !token_index_entries(*old(self)).contains_key(key),
            },
    {
        self.inner.remove(&key)
    }
}

/// A map from tokens to values of type `V`.
///
/// The entries stand in a sequence, in the order in which they came, but
/// that a removal moves the last entry to the place of the one that leaves.
pub struct TokenMap<V> {
    keys: Vec<usize>,
    values: Vec<V>,
    index: TokenIndex,
}

impl<V> TokenMap<V> {
    /// The keys, in the order of the entries.
    pub closed spec fn keys(&self) -> Seq<usize> {
        self.keys@
    }

    /// The values, in the order of the entries.
    pub closed spec fn values(&self) -> Seq<V> {
        self.values@
    }

    /// The place that the index gives for each key.
    pub closed spec fn places(&self) -> Map<usize, usize> {
        token_index_entries(self.index)
    }

    /// There is a value for each key, and the index leads from each key to
    /// its place, and to nothing else.
    pub open spec fn wf(&self) -> bool {
        &&& self.keys().len() == self.values().len()
        &&& forall|i: int|
            0 <= i < self.keys().len() ==> self.places().contains_key(#[trigger] self.keys()[i])
                && self.places()[self.keys()[i]] == i
        &&& forall|k: usize| #[trigger]
            self.places().contains_key(k) ==> self.places()[k] < self.keys().len()
                && self.keys()[self.places()[k] as int] == k
    }

    /// The view of the map: what each key leads to.
    pub open spec fn as_map(&self) -> Map<usize, V> {
        Map::new(
            |k: usize| self.keys().contains(k),
            |k: usize| self.values()[self.keys().index_of(k)],
        )
    }

    /// In a well-formed map there is a value for each key, no key stands
    /// twice, and the entries can be counted.
    pub proof fn lemma_wf(&self)
        requires
            self.wf(),
        ensures
            self.keys().len() == self.values().len(),
            self.keys().len() <= usize::MAX,
            self.keys().no_duplicates(),
    {
        assert(self.keys().len() == self.keys.len());
        assert forall|i: int, j: int|
            0 <= i < self.keys().len() && 0 <= j < self.keys().len() && i != j implies self.keys()[i]
            != self.keys()[j] by {
            assert(self.places()[self.keys()[i]] == i);
            assert(self.places()[self.keys()[j]] == j);
        }
    }

    /// The key at a place leads to the value at that place.
    pub proof fn lemma_entry(&self, place: int)
        requires
            self.wf(),
            0 <= place < self.keys().len(),
        ensures
            self.keys().contains(self.keys()[place]),
            self.keys().index_of(self.keys()[place]) == place,
            self.as_map().contains_key(self.keys()[place]),
            self.as_map()[self.keys()[place]] == self.values()[place],
    {
        self.lemma_wf();
    }

    /// A map that differs from this one only in the value at one place leads
    /// from that place's key to the new value, and is otherwise the same map.
    pub proof fn lemma_value_changed(&self, changed: &Self, place: int)
        requires
            self.wf(),
            0 <= place < self.keys().len(),
            changed.keys() == self.keys(),
            changed.places() == self.places(),
            changed.values() == self.values().update(place, changed.values()[place]),
        ensures
            changed.wf(),
            changed.as_map() == self.as_map().insert(self.keys()[place], changed.values()[place]),
    {
        let target = self.as_map().insert(self.keys()[place], changed.values()[place]);
        assert forall|k: usize|
            #![trigger changed.as_map().contains_key(k)]
            #![trigger target.contains_key(k)]
            changed.as_map().contains_key(k) == target.contains_key(k) && (
            changed.as_map().contains_key(k) ==> changed.as_map()[k] == target[k]) by {
            if self.keys().contains(k) {
                let i = self.keys().index_of(k);
                self.lemma_entry(i);
                changed.lemma_entry(i);
            }
            self.lemma_entry(place);
        }
        assert(changed.as_map() =~= target);
    }

    /// A map without entries.
    pub fn new() -> (map: Self)
        ensures
            map.wf(),
            map.keys() == Seq::<usize>::empty(),
            map.values() == Seq::<V>::empty(),
            map.as_map() == Map::<usize, V>::empty(),
    {
        let map = TokenMap { keys: Vec::new(), values: Vec::new(), index: TokenIndex::new() };
        assert(map.keys() =~= Seq::<usize>::empty());
        assert(map.as_map() =~= Map::<usize, V>::empty());
        map
    }

    /// The number of entries.
    pub fn len(&self) -> (len: usize)
        ensures
            len == self.keys().len(),
    {
        self.keys.len()
    }

    /// The place of the entry with this key, if there is one.
    pub fn position(&self, key: usize) -> (found: Option<usize>)
        requires
            self.wf(),
        ensures
            match found {
                Some(place) => place < self.keys().len() && self.keys()[place as int] == key,
                None => !self.keys().contains(key),
            },
    {
        let found = self.index.get(key);
        proof {
            if found is Some {
                assert(self.places().contains_key(key));
            } else {
                if self.keys().contains(key) {
                    let i = choose|i: int| 0 <= i < self.keys().len() && self.keys()[i] == key;
                    assert(self.places().contains_key(self.keys()[i]));
                }
            }
        }
        found
    }

    /// The key of the entry at `place`.
    pub fn key(&self, place: usize) -> (key: usize)
        requires
            place < self.keys().len(),
        ensures
            key == self.keys()[place as int],
    {
        self.keys[place]
    }

    /// The value of the entry at `place`.
    pub fn value(&self, place: usize) -> (value: &V)
        requires
            place < self.values().len(),
        ensures
            *value == self.values()[place as int],
    {
        &self.values[place]
    }

    /// The value of the entry at `place`, to be changed where it stands.
    pub fn value_mut(&mut self, place: usize) -> (value: &mut V)
        requires
            place < old(self).values().len(),
        ensures
            *value == old(self).values()[place as int],
            final(self).values() == old(self).values().update(place as int, *final(value)),
            final(self).keys() == old(self).keys(),
            final(self).places() == old(self).places(),
    {
        &mut self.values[place]
    }

    /// Adds an entry for a key that the map does not hold yet. It becomes the
    /// last.
    pub fn push(&mut self, key: usize, value: V)
        requires
            old(self).wf(),
            !old(self).keys().contains(key),
        ensures
            final(self).wf(),
            final(self).keys() == old(self).keys().push(key),
            final(self).values() == old(self).values().push(value),
            final(self).as_map() == old(self).as_map().insert(key, value),
    {
        let place = self.keys.len();
        let _ = self.index.insert(key, place);
        self.keys.push(key);
        self.values.push(value);
        proof {
            assert(self.keys() =~= old(self).keys().push(key));
            assert(self.places() == old(self).places().insert(key, place));
            assert forall|k: usize| #[trigger]
                self.places().contains_key(k) implies self.places()[k] < self.keys().len()
                && self.keys()[self.places()[k] as int] == k by {
                if k != key {
                    assert(old(self).places().contains_key(k));
                }
            }
            assert forall|i: int| 0 <= i < self.keys().len() implies self.places().contains_key(
                #[trigger] self.keys()[i],
            ) && self.places()[self.keys()[i]] == i by {
                if i < place {
                    assert(old(self).keys()[i] != key);
                }
            }
            assert(self.as_map() =~= old(self).as_map().insert(key, value)) by {
                let target = old(self).as_map().insert(key, value);
                self.lemma_entry(place as int);
                assert forall|k: usize|
                    #![trigger self.as_map().contains_key(k)]
                    #![trigger target.contains_key(k)]
                    self.as_map().contains_key(k) == target.contains_key(k) && (
                    self.as_map().contains_key(k) ==> self.as_map()[k] == target[k]) by {
                    if old(self).keys().contains(k) {
                        let i = old(self).keys().index_of(k);
                        old(self).lemma_entry(i);
                        assert(self.keys()[i] == k);
                        self.lemma_entry(i);
                    } else if self.keys().contains(k) {
                        let i = self.keys().index_of(k);
                        if i < place {
                            assert(old(self).keys()[i] == k);
                        }
                    }
                }
            }
        }
    }

    /// Removes the entry at `place` and returns its value. The last entry
    /// takes its place.
    pub fn swap_remove(&mut self, place: usize) -> (removed: V)
        requires
            old(self).wf(),
            place < old(self).keys().len(),
        ensures
            final(self).wf(),
            final(self).keys() == swap_removed(old(self).keys(), place as int),
            final(self).values() == swap_removed(old(self).values(), place as int),
            final(self).as_map() == old(self).as_map().remove(old(self).keys()[place as int]),
            removed == old(self).values()[place as int],
    {
        let last = self.keys.len() - 1;
        let gone = self.keys.swap_remove(place);
        let removed = self.values.swap_remove(place);
        let _ = self.index.remove(gone);
        if place < last {
            let moved = self.keys[place];
            let _ = self.index.insert(moved, place);
        }
        proof {
            let before = old(self).places();
            assert(self.keys() =~= swap_removed(old(self).keys(), place as int));
            assert(gone == old(self).keys()[place as int]);
            assert(before[old(self).keys()[place as int]] == place);
            assert(before[old(self).keys()[last as int]] == last);
            assert forall|i: int| 0 <= i < self.keys().len() implies self.places().contains_key(
                #[trigger] self.keys()[i],
            ) && self.places()[self.keys()[i]] == i by {
                if i != place {
                    assert(self.keys()[i] == old(self).keys()[i]);
                    assert(before[old(self).keys()[i]] == i);
                }
            }
            assert forall|k: usize| #[trigger]
                self.places().contains_key(k) implies self.places()[k] < self.keys().len()
                && self.keys()[self.places()[k] as int] == k by {
                assert(before.contains_key(k));
            }
            let gone_key = old(self).keys()[place as int];
            assert(self.as_map() =~= old(self).as_map().remove(gone_key)) by {
                old(self).lemma_wf();
                assert forall|k: usize| self.as_map().contains_key(k) implies old(self).as_map().contains_key(k) && k != gone_key && self.as_map()[k] == old(self).as_map()[k] by {
                    let i = self.keys().index_of(k);
                    self.lemma_entry(i);
                    if i == place {
                        old(self).lemma_entry(last as int);
                    } else {
                        old(self).lemma_entry(i);
                    }
                }
                assert forall|k: usize|
                    old(self).as_map().contains_key(k) && k != gone_key implies self.as_map().contains_key(
                    k,
                ) by {
                    let i = old(self).keys().index_of(k);
                    if i == last {
                        assert(self.keys()[place as int] == k);
                    } else {
                        assert(self.keys()[i] == k);
                    }
                }
            }
        }
        removed
    }
}

} // verus!
