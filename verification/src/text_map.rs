//! A map from text keys to values that keeps its entries in the order in
//! which their keys first came, so that walking it is repeatable.

use crate::text::same_text;
use vstd::prelude::*;

verus! {

/// A finite map keyed by strings. No key occurs twice; a key that is set
/// again keeps its place and takes the new value.
pub struct TextMap<V> {
    entries: Vec<(String, V)>,
}

impl<V> View for TextMap<V> {
    type V = Map<Seq<char>, V>;

    /// The map from each key to its value.
    open spec fn view(&self) -> Map<Seq<char>, V> {
        map_of(self.keys(), self.values())
    }
}

impl<V> TextMap<V> {
    #[verifier::type_invariant]
    spec fn distinct_keys(self) -> bool {
        forall|i: int, j: int|
            0 <= i < j < self.entries@.len() ==> self.entries@[i].0@ != self.entries@[j].0@
    }

    /// The keys, in the order in which they first came.
    pub closed spec fn keys(&self) -> Seq<Seq<char>> {
        self.entries@.map_values(|e: (String, V)| e.0@)
    }

    /// The values, each at the position of its key.
    pub closed spec fn values(&self) -> Seq<V> {
        self.entries@.map_values(|e: (String, V)| e.1)
    }

    /// What every map of this type satisfies: as many values as keys, and no
    /// key twice.
    pub open spec fn well_formed(&self) -> bool {
        &&& self.keys().len() == self.values().len()
        &&& self.keys().no_duplicates()
    }

    /// An empty map.
    pub fn new() -> (map: Self)
        ensures
            map.keys() == Seq::<Seq<char>>::empty(),
            map.values() == Seq::<V>::empty(),
            map@ == Map::<Seq<char>, V>::empty(),
    {
        let map = TextMap { entries: Vec::new() };
        assert(map.keys() =~= Seq::<Seq<char>>::empty());
        assert(map.values() =~= Seq::<V>::empty());
        assert(map@ =~= Map::<Seq<char>, V>::empty());
        map
    }

    /// The number of entries.
    pub fn len(&self) -> (n: usize)
        ensures
            n == self.keys().len(),
            self.well_formed(),
    {
        proof {
            use_type_invariant(self);
        }
        self.entries.len()
    }

    /// The position of `key` among the keys, if it is one.
    pub fn position(&self, key: &str) -> (found: Option<usize>)
        ensures
            self.well_formed(),
            match found {
                Some(i) => i < self.keys().len() && self.keys()[i as int] == key@,
                None => !self.keys().contains(key@),
            },
    {
        proof {
            use_type_invariant(self);
        }
        let mut i: usize = 0;
        while i < self.entries.len()
            invariant
                self.well_formed(),
                i <= self.entries.len(),
                forall|k: int| 0 <= k < i ==> self.keys()[k] != key@,
            decreases self.entries.len() - i,
        {
            if same_text(self.entries[i].0.as_str(), key) {
                return Some(i);
            }
            i += 1;
        }
        None
    }

    /// The key at position `i`.
    pub fn key_at(&self, i: usize) -> (key: &String)
        requires
            i < self.keys().len(),
        ensures
            key@ == self.keys()[i as int],
    {
        &self.entries[i].0
    }

    /// The value at position `i`.
    pub fn value_at(&self, i: usize) -> (value: &V)
        requires
            i < self.keys().len(),
        ensures
            self.well_formed(),
            *value == self.values()[i as int],
            self@.contains_key(self.keys()[i as int]),
            *value == self@[self.keys()[i as int]],
    {
        proof {
            use_type_invariant(self);
            assert(self.keys().index_of(self.keys()[i as int]) == i);
        }
        &self.entries[i].1
    }

    /// Whether `key` has a value.
    pub fn contains_key(&self, key: &str) -> (found: bool)
        ensures
            found == self@.contains_key(key@),
    {
        self.position(key).is_some()
    }

    /// The value of `key`, if it has one.
    pub fn get(&self, key: &str) -> (value: Option<&V>)
        ensures
            match value {
                Some(v) => self@.contains_key(key@) && *v == self@[key@],
                None => !self@.contains_key(key@),
            },
    {
        match self.position(key) {
            Some(i) => Some(self.value_at(i)),
            None => None,
        }
    }

    /// Gives `key` the value `value`. A new key goes to the end; a key that is
    /// already there keeps its place.
    pub fn insert(&mut self, key: &str, value: V)
        ensures
            final(self)@ == old(self)@.insert(key@, value),
            final(self).well_formed(),
            old(self).keys().contains(key@) ==> {
                &&& final(self).keys() == old(self).keys()
                &&& final(self).values() == old(self).values().update(
                    old(self).keys().index_of(key@),
                    value,
                )
            },
            !old(self).keys().contains(key@) ==> {
                &&& final(self).keys() == old(self).keys().push(key@)
                &&& final(self).values() == old(self).values().push(value)
            },
    {
        proof {
            use_type_invariant(&*self);
        }
        let found = self.position(key);
        let ghost before = *self;
        let mut entries: Vec<(String, V)> = Vec::new();
        core::mem::swap(&mut self.entries, &mut entries);
        match found {
            Some(i) => {
                assert(before.keys().index_of(key@) == i);
                entries.set(i, (key.to_owned(), value));
                self.entries = entries;
                assert(self.keys() =~= before.keys());
                assert(self.values() =~= before.values().update(i as int, value));
            },
            None => {
                assert forall|k: int| 0 <= k < entries@.len() implies entries@[k].0@ != key@ by {
                    assert(before.keys()[k] == entries@[k].0@);
                }
                entries.push((key.to_owned(), value));
                self.entries = entries;
                assert(self.keys() =~= before.keys().push(key@));
                assert(self.values() =~= before.values().push(value));
            },
        }
        proof {
            lemma_insert(before.keys(), before.values(), self.keys(), self.values(), key@, value);
        }
    }

    /// Removes every entry.
    pub fn clear(&mut self)
        ensures
            final(self).keys() == Seq::<Seq<char>>::empty(),
            final(self).values() == Seq::<V>::empty(),
            final(self)@ == Map::<Seq<char>, V>::empty(),
    {
        self.entries = Vec::new();
        assert(self.keys() =~= Seq::<Seq<char>>::empty());
        assert(self.values() =~= Seq::<V>::empty());
        assert(self@ =~= Map::<Seq<char>, V>::empty());
    }
}

impl TextMap<String> {
    /// The entries as pairs of texts, in order.
    pub open spec fn pairs(&self) -> Seq<(Seq<char>, Seq<char>)> {
        Seq::new(self.keys().len(), |i: int| (self.keys()[i], self.values()[i]@))
    }

    /// The map from each key to the text of its value.
    pub open spec fn texts(&self) -> Map<Seq<char>, Seq<char>> {
        Map::new(|k: Seq<char>| self@.contains_key(k), |k: Seq<char>| self@[k]@)
    }

    /// The map of texts is the map that the pairs stand for, and the keys of
    /// the pairs are the keys.
    pub proof fn lemma_texts_are_pairs(&self)
        ensures
            pair_keys(self.pairs()) == self.keys(),
            self.texts() == pairs_map(self.pairs()),
    {
        assert(pair_keys(self.pairs()) =~= self.keys());
        assert(self.texts() =~= pairs_map(self.pairs()));
    }

    /// Gives `key` the value `value`, as `insert` does.
    pub fn set(&mut self, key: &str, value: &str)
        ensures
            final(self).pairs() == set_pair(old(self).pairs(), key@, value@),
            final(self).texts() == old(self).texts().insert(key@, value@),
            final(self).texts() == pairs_map(final(self).pairs()),
            final(self).well_formed(),
    {
        let ghost before = *self;
        self.insert(key, value.to_owned());
        proof {
            assert(pair_keys(before.pairs()) =~= before.keys());
            assert(self.pairs() =~= set_pair(before.pairs(), key@, value@));
            assert(self.texts() =~= before.texts().insert(key@, value@));
            self.lemma_texts_are_pairs();
        }
    }
}

/// The keys of a list of pairs, in order.
pub open spec fn pair_keys(pairs: Seq<(Seq<char>, Seq<char>)>) -> Seq<Seq<char>> {
    pairs.map_values(|p: (Seq<char>, Seq<char>)| p.0)
}

/// The list of pairs after `key` is given `value`: in place where the key is
/// there, at the end where it is new.
pub open spec fn set_pair(
    pairs: Seq<(Seq<char>, Seq<char>)>,
    key: Seq<char>,
    value: Seq<char>,
) -> Seq<(Seq<char>, Seq<char>)> {
    if pair_keys(pairs).contains(key) {
        pairs.update(pair_keys(pairs).index_of(key), (key, value))
    } else {
        pairs.push((key, value))
    }
}

/// The values of a list of pairs, in order.
pub open spec fn pair_values(pairs: Seq<(Seq<char>, Seq<char>)>) -> Seq<Seq<char>> {
    pairs.map_values(|p: (Seq<char>, Seq<char>)| p.1)
}

/// The map that a list of pairs with distinct keys stands for: each key has
/// the value that stands beside it.
pub open spec fn pairs_map(pairs: Seq<(Seq<char>, Seq<char>)>) -> Map<Seq<char>, Seq<char>> {
    map_of(pair_keys(pairs), pair_values(pairs))
}

/// Setting a key in a list of pairs sets it in the map of the list: the map
/// of `set_pair(pairs, key, value)` is the map of `pairs` with `key` set to
/// `value`, and the keys stay distinct.
pub proof fn lemma_set_pair(pairs: Seq<(Seq<char>, Seq<char>)>, key: Seq<char>, value: Seq<char>)
    requires
        pair_keys(pairs).no_duplicates(),
    ensures
        pair_keys(set_pair(pairs, key, value)).no_duplicates(),
        pairs_map(set_pair(pairs, key, value)) == pairs_map(pairs).insert(key, value),
{
    let after = set_pair(pairs, key, value);
    if pair_keys(pairs).contains(key) {
        let at = pair_keys(pairs).index_of(key);
        assert(pair_keys(after) =~= pair_keys(pairs));
        assert(pair_values(after) =~= pair_values(pairs).update(at, value));
    } else {
        assert(pair_keys(after) =~= pair_keys(pairs).push(key));
        assert(pair_values(after) =~= pair_values(pairs).push(value));
    }
    lemma_insert(
        pair_keys(pairs),
        pair_values(pairs),
        pair_keys(after),
        pair_values(after),
        key,
        value,
    );
}

/// The map of the empty list of pairs is the empty map.
pub proof fn lemma_no_pairs()
    ensures
        pair_keys(Seq::<(Seq<char>, Seq<char>)>::empty()).no_duplicates(),
        pairs_map(Seq::<(Seq<char>, Seq<char>)>::empty()) == Map::<
            Seq<char>,
            Seq<char>,
        >::empty(),
{
    assert(pairs_map(Seq::<(Seq<char>, Seq<char>)>::empty()) =~= Map::<
        Seq<char>,
        Seq<char>,
    >::empty());
}

/// The map that a list of distinct keys and their values stands for.
pub open spec fn map_of<V>(keys: Seq<Seq<char>>, values: Seq<V>) -> Map<Seq<char>, V> {
    Map::new(|k: Seq<char>| keys.contains(k), |k: Seq<char>| values[keys.index_of(k)])
}

/// Setting a key in the lists, in place or at the end, sets it in the map.
proof fn lemma_insert<V>(
    keys: Seq<Seq<char>>,
    values: Seq<V>,
    new_keys: Seq<Seq<char>>,
    new_values: Seq<V>,
    key: Seq<char>,
    value: V,
)
    requires
        keys.len() == values.len(),
        keys.no_duplicates(),
        keys.contains(key) ==> new_keys == keys && new_values == values.update(
            keys.index_of(key),
            value,
        ),
        !keys.contains(key) ==> new_keys == keys.push(key) && new_values == values.push(value),
    ensures
        new_keys.len() == new_values.len(),
        new_keys.no_duplicates(),
        map_of(new_keys, new_values) == map_of(keys, values).insert(key, value),
{
    assert forall|k: Seq<char>| new_keys.contains(k) <==> (k == key || keys.contains(k)) by {
        if keys.contains(key) {
        } else {
            if keys.contains(k) {
                let i = keys.index_of(k);
                assert(new_keys[i] == k);
            }
            assert(new_keys[keys.len() as int] == key);
        }
    }
    assert forall|k: Seq<char>| new_keys.contains(k) implies #[trigger] map_of(
        new_keys,
        new_values,
    )[k] == map_of(keys, values).insert(key, value)[k] by {
        let i = new_keys.index_of(k);
        if keys.contains(key) {
            assert(keys.index_of(k) == i);
        } else {
            if k == key {
                assert(new_keys[keys.len() as int] == key);
                assert(i == keys.len());
            } else {
                let j = keys.index_of(k);
                assert(new_keys[j] == k);
                assert(i == j);
            }
        }
    }
    assert(map_of(new_keys, new_values) =~= map_of(keys, values).insert(key, value));
}

} // verus!
