//! A small map from texts to values that remembers the order in which its
//! keys first came.

use vstd::prelude::*;
use crate::text::text_equal;

verus! {

/// A map keyed by text. No key occurs twice; a key keeps the place at which
/// it was first inserted, and a later insert under the same key replaces the
/// value.
#[derive(Debug, PartialEq, Eq)]
pub struct TextMap<V> {
    keys: Vec<String>,
    values: Vec<V>,
}

impl<V> TextMap<V> {
    #[verifier::type_invariant]
    spec fn well_formed(self) -> bool {
        &&& self.keys@.len() == self.values@.len()
        &&& forall|i: int, j: int| 0 <= i < j < self.keys@.len() ==> self.keys@[i]@ != self.keys@[j]@
    }

    /// The keys, in the order in which they first came.
    pub closed spec fn key_seq(&self) -> Seq<Seq<char>> {
        Seq::new(self.keys@.len(), |i: int| self.keys@[i]@)
    }

    /// The values, each at the place of its key.
    pub closed spec fn value_seq(&self) -> Seq<V> {
        self.values@
    }

    /// The place of a key, if it is in the map.
    pub closed spec fn position(&self, key: Seq<char>) -> Option<int> {
        if exists|i: int| 0 <= i < self.keys@.len() && self.keys@[i]@ == key {
            Some(choose|i: int| 0 <= i < self.keys@.len() && self.keys@[i]@ == key)
        } else {
            None
        }
    }

    /// The map as a mathematical map.
    pub closed spec fn view(&self) -> Map<Seq<char>, V> {
        Map::new(
            |key: Seq<char>| self.position(key) is Some,
            |key: Seq<char>| self.values@[self.position(key)->0],
        )
    }

    proof fn lemma_position(&self, i: int)
        requires
            self.well_formed(),
            0 <= i < self.keys@.len(),
        ensures
            self.position(self.keys@[i]@) == Some(i),
    {
        let key = self.keys@[i]@;
        let j = choose|j: int| 0 <= j < self.keys@.len() && self.keys@[j]@ == key;
        assert(0 <= j < self.keys@.len() && self.keys@[j]@ == key);
    }

    /// How the map, its keys and its values hang together: the key at each
    /// place leads to the value at that place, no key occurs twice, and the
    /// map holds no other keys.
    pub proof fn lemma_places(&self)
        requires
            self.valid(),
        ensures
            self.key_seq().len() == self.value_seq().len(),
            self.key_seq().no_duplicates(),
            forall|i: int|
                0 <= i < self.key_seq().len() ==> self@.dom().contains(#[trigger] self.key_seq()[i])
                    && self@[self.key_seq()[i]] == self.value_seq()[i],
            forall|key: Seq<char>|
                self@.dom().contains(key) <==> self.key_seq().contains(key),
    {
        assert forall|i: int| 0 <= i < self.key_seq().len() implies self@.dom().contains(
            #[trigger] self.key_seq()[i],
        ) && self@[self.key_seq()[i]] == self.value_seq()[i] by {
            self.lemma_position(i);
        }
        assert forall|key: Seq<char>| self@.dom().contains(key) <==> self.key_seq().contains(
            key,
        ) by {
            if self@.dom().contains(key) {
                let i = self.position(key)->0;
                assert(self.key_seq()[i] == key);
            }
            if self.key_seq().contains(key) {
                let i = choose|i: int| 0 <= i < self.key_seq().len() && self.key_seq()[i] == key;
                assert(self.keys@[i]@ == key);
            }
        }
    }

    /// Whether the invariant of the type holds; it always does for a map
    /// that code holds.
    pub closed spec fn valid(&self) -> bool {
        self.well_formed()
    }

    /// An empty map.
    pub fn new() -> (map: TextMap<V>)
        ensures
            map@ == Map::<Seq<char>, V>::empty(),
            map.key_seq().len() == 0,
            map.valid(),
    {
        let map = TextMap { keys: Vec::new(), values: Vec::new() };
        assert(map@ =~= Map::<Seq<char>, V>::empty());
        map
    }

    /// The number of keys.
    pub fn len(&self) -> (n: usize)
        ensures
            n == self.key_seq().len(),
            n == self.value_seq().len(),
            self.valid(),
    {
        proof {
            use_type_invariant(self);
        }
        self.keys.len()
    }

    /// The key at a place.
    pub fn key_at(&self, index: usize) -> (key: &str)
        requires
            index < self.key_seq().len(),
        ensures
            key@ == self.key_seq()[index as int],
            self@.dom().contains(key@),
            self@[key@] == self.value_seq()[index as int],
            self.valid(),
    {
        proof {
            use_type_invariant(self);
            self.lemma_places();
        }
        self.keys[index].as_str()
    }

    /// The value at a place.
    pub fn value_at(&self, index: usize) -> (value: &V)
        requires
            index < self.key_seq().len(),
        ensures
            *value == self.value_seq()[index as int],
            self@.dom().contains(self.key_seq()[index as int]),
            self@[self.key_seq()[index as int]] == *value,
            self.valid(),
    {
        proof {
            use_type_invariant(self);
            self.lemma_places();
        }
        &self.values[index]
    }

    /// The place of `key`, if it is in the map.
    pub fn find(&self, key: &str) -> (place: Option<usize>)
        ensures
            place is Some <==> self@.dom().contains(key@),
            place matches Some(i) ==> i < self.key_seq().len() && self.key_seq()[i as int] == key@
                && self@[key@] == self.value_seq()[i as int],
            self.valid(),
    {
        proof {
            use_type_invariant(self);
        }
        let mut i: usize = 0;
        while i < self.keys.len()
            invariant
                i <= self.keys@.len(),
                self.well_formed(),
                forall|k: int| 0 <= k < i ==> self.keys@[k]@ != key@,
            decreases self.keys.len() - i,
        {
            if text_equal(self.keys[i].as_str(), key) {
                proof {
                    self.lemma_position(i as int);
                }
                return Some(i);
            }
            i += 1;
        }
        None
    }

    /// The value under `key`, if there is one.
    pub fn get(&self, key: &str) -> (value: Option<&V>)
        ensures
            value is Some <==> self@.dom().contains(key@),
            value matches Some(v) ==> *v == self@[key@],
    {
        proof {
            use_type_invariant(self);
        }
        match self.find(key) {
            Some(i) => Some(&self.values[i]),
            None => None,
        }
    }

    /// Puts `value` under `key`. A key that is new goes to the end; one that
    /// is there keeps its place and gets the new value.
    pub fn insert(&mut self, key: String, value: V)
        ensures
            final(self)@ == old(self)@.insert(key@, value),
            old(self)@.dom().contains(key@) ==> final(self).key_seq() == old(self).key_seq(),
            !old(self)@.dom().contains(key@) ==> final(self).key_seq() == old(self).key_seq().push(
                key@,
            ),
            final(self).valid(),
    {
        let ghost before = *self;
        proof {
            use_type_invariant(&*self);
            before.lemma_places();
        }
        let found: Option<usize> = self.find(key.as_str());
        let mut taken: TextMap<V> = TextMap { keys: Vec::new(), values: Vec::new() };
        core::mem::swap(self, &mut taken);
        let mut keys: Vec<String> = taken.keys;
        let mut values: Vec<V> = taken.values;
        match found {
            Some(i) => {
                values[i] = value;
                *self = TextMap { keys, values };
                proof {
                    self.lemma_places();
                    assert(self.key_seq() =~= before.key_seq());
                    assert forall|k: Seq<char>| self@.dom().contains(k) implies self@[k]
                        == before@.insert(key@, value)[k] by {
                        assert(self.key_seq().contains(k));
                        let p = choose|p: int|
                            0 <= p < self.key_seq().len() && self.key_seq()[p] == k;
                        assert(before.key_seq()[p] == k);
                    }
                    assert(self@ =~= before@.insert(key@, value));
                }
            },
            None => {
                keys.push(key);
                values.push(value);
                *self = TextMap { keys, values };
                proof {
                    assert(self.well_formed()) by {
                        assert forall|a: int, b: int| 0 <= a < b < self.keys@.len() implies self.keys@[a]@
                            != self.keys@[b]@ by {
                            assert(before.key_seq()[a] == self.keys@[a]@);
                            if b < before.keys@.len() {
                                assert(before.key_seq()[b] == self.keys@[b]@);
                            } else {
                                assert(before.key_seq().contains(self.keys@[a]@));
                            }
                        }
                    }
                    self.lemma_places();
                    assert(self.key_seq() =~= before.key_seq().push(key@));
                    let n = before.key_seq().len() as int;
                    assert forall|k: Seq<char>| self@.dom().contains(k) <==> before@.insert(
                        key@,
                        value,
                    ).dom().contains(k) by {
                        if self.key_seq().contains(k) {
                            let p = choose|p: int|
                                0 <= p < self.key_seq().len() && self.key_seq()[p] == k;
                            if p < n {
                                assert(before.key_seq()[p] == k);
                            }
                        }
                        if before.key_seq().contains(k) {
                            let p = choose|p: int|
                                0 <= p < before.key_seq().len() && before.key_seq()[p] == k;
                            assert(self.key_seq()[p] == k);
                        }
                        if k == key@ {
                            assert(self.key_seq()[n] == k);
                        }
                    }
                    assert forall|k: Seq<char>| self@.dom().contains(k) implies self@[k]
                        == before@.insert(key@, value)[k] by {
                        assert(self.key_seq().contains(k));
                        let p = choose|p: int|
                            0 <= p < self.key_seq().len() && self.key_seq()[p] == k;
                        if p < n {
                            assert(before.key_seq()[p] == k);
                            assert(before.value_seq()[p] == self.value_seq()[p]);
                        }
                    }
                    assert(self@ =~= before@.insert(key@, value));
                }
            },
        }
    }
}

impl TextMap<String> {
    /// A copy of the map: the same keys at the same places, with the same
    /// values.
    pub fn duplicate(&self) -> (copy: TextMap<String>)
        ensures
            copy@ == self@,
            copy.key_seq() == self.key_seq(),
            copy.valid(),
    {
        let mut copy: TextMap<String> = TextMap::new();
        let n: usize = self.len();
        let mut i: usize = 0;
        proof {
            self.lemma_places();
        }
        while i < n
            invariant
                i <= n,
                n == self.key_seq().len(),
                self.valid(),
                copy.valid(),
                copy.key_seq() == self.key_seq().take(i as int),
                forall|k: Seq<char>| #[trigger]
                    copy@.dom().contains(k) ==> self@.dom().contains(k) && copy@[k] == self@[k],
            decreases n - i,
        {
            let key: String = self.key_at(i).to_owned();
            let value: String = self.value_at(i).clone();
            proof {
                self.lemma_places();
                copy.lemma_places();
                if copy.key_seq().contains(key@) {
                    let p = choose|p: int|
                        0 <= p < copy.key_seq().len() && copy.key_seq()[p] == key@;
                    assert(self.key_seq()[p] == key@);
                    assert(self.key_seq()[i as int] == key@);
                }
            }
            copy.insert(key, value);
            assert(self.key_seq().take(i + 1) =~= self.key_seq().take(i as int).push(key@));
            i += 1;
        }
        proof {
            self.lemma_places();
            copy.lemma_places();
            assert(self.key_seq().take(n as int) =~= self.key_seq());
            assert forall|k: Seq<char>| self@.dom().contains(k) implies copy@.dom().contains(
                k,
            ) by {
                assert(self.key_seq().contains(k));
                assert(copy.key_seq().contains(k));
            }
            assert(copy@ =~= self@);
        }
        copy
    }
}

} // verus!
