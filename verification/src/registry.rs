//! The citation registry: which keys were cited, in the order in which
//! they were first seen.
//!
//! The registry keeps its keys in an insertion-ordered hash map. Its model
//! is the sequence of keys in that order; the index of a key is its
//! position in the sequence.

use linked_hash_map::LinkedHashMap;
use vstd::prelude::*;

verus! {

/// Makes `linked_hash_map::LinkedHashMap` known as a type. Nothing is
/// said of what is inside a map but through `map_pairs`.
#[verifier::external_type_specification]
#[verifier::external_body]
#[verifier::reject_recursive_types(K)]
#[verifier::reject_recursive_types(V)]
#[verifier::reject_recursive_types(S)]
pub struct ExLinkedHashMap<K, V, S>(LinkedHashMap<K, V, S>);

/// The pairs that an insertion-ordered map holds, oldest insertion first.
pub uninterp spec fn map_pairs(map: LinkedHashMap<String, usize>) -> Seq<(Seq<char>, usize)>;

/// No pair of `pairs` has the key `key`.
pub open spec fn key_absent(pairs: Seq<(Seq<char>, usize)>, key: Seq<char>) -> bool {
    forall|i: int| 0 <= i < pairs.len() ==> (#[trigger] pairs[i]).0 != key
}

/// `LinkedHashMap::new` makes a map that holds no pair.
#[verifier::external_body]
fn map_new() -> (map: LinkedHashMap<String, usize>)
    ensures
        map_pairs(map) == Seq::<(Seq<char>, usize)>::empty(),
{
    LinkedHashMap::new()
}

/// `LinkedHashMap::len` is the number of pairs that the map holds.
#[verifier::external_body]
fn map_len(map: &LinkedHashMap<String, usize>) -> (n: usize)
    ensures
        n == map_pairs(*map).len(),
{
    map.len()
}

/// `LinkedHashMap::get` returns the value of the pair with the given key,
/// and nothing exactly when no pair has that key.
#[verifier::external_body]
fn map_get(map: &LinkedHashMap<String, usize>, key: &str) -> (r: Option<usize>)
    ensures
        match r {
            Some(value) => exists|i: int|
                0 <= i < map_pairs(*map).len() && #[trigger] map_pairs(*map)[i] == (key@, value),
            None => key_absent(map_pairs(*map), key@),
        },
{
    map.get(key).copied()
}

/// `LinkedHashMap::insert` with a key that the map does not hold adds the
/// pair behind all others.
#[verifier::external_body]
fn map_insert(map: &mut LinkedHashMap<String, usize>, key: String, value: usize)
    requires
        key_absent(map_pairs(*old(map)), key@),
    ensures
        map_pairs(*final(map)) == map_pairs(*old(map)).push((key@, value)),
{
    map.insert(key, value);
}

/// `LinkedHashMap::iter` visits the pairs in the order of insertion.
#[verifier::external_body]
fn map_to_vec(map: &LinkedHashMap<String, usize>) -> (pairs: Vec<(String, usize)>)
    ensures
        pairs.deep_view() == map_pairs(*map),
{
    map.iter().map(|(key, value)| (key.clone(), *value)).collect()
}

/// The keys of `pairs`, in order.
pub open spec fn keys_of(pairs: Seq<(Seq<char>, usize)>) -> Seq<Seq<char>> {
    pairs.map_values(|pair: (Seq<char>, usize)| pair.0)
}

/// The keys after `key` was registered: unchanged where `key` is among
/// them, with `key` behind them otherwise.
pub open spec fn registered(keys: Seq<Seq<char>>, key: Seq<char>) -> Seq<Seq<char>> {
    if keys.contains(key) {
        keys
    } else {
        keys.push(key)
    }
}

/// Each key with its position as its index.
pub open spec fn indexed(keys: Seq<Seq<char>>) -> Seq<(Seq<char>, usize)> {
    Seq::new(keys.len(), |i: int| (keys[i], i as usize))
}

/// The citation registry.
pub struct Registry {
    map: LinkedHashMap<String, usize>,
}

impl View for Registry {
    type V = Seq<Seq<char>>;

    /// The registered keys, in the order in which they were first seen.
    closed spec fn view(&self) -> Seq<Seq<char>> {
        keys_of(map_pairs(self.map))
    }
}

impl Registry {
    /// The registry is well formed: it holds every key once, with the
    /// key's position as its index. Every registry that this module hands
    /// out is well formed.
    pub closed spec fn wf(&self) -> bool {
        &&& map_pairs(self.map).len() <= usize::MAX
        &&& keys_of(map_pairs(self.map)).no_duplicates()
        &&& forall|i: int|
            0 <= i < map_pairs(self.map).len() ==> (#[trigger] map_pairs(self.map)[i]).1 == i
    }

    /// In a well-formed registry no key occurs twice, and every index is
    /// a machine integer.
    pub proof fn lemma_keys_distinct(&self)
        requires
            self.wf(),
        ensures
            self@.no_duplicates(),
            self@.len() <= usize::MAX,
    {
    }

    /// An empty registry.
    pub fn new() -> (registry: Registry)
        ensures
            registry.wf(),
            registry@ == Seq::<Seq<char>>::empty(),
    {
        let registry = Registry { map: map_new() };
        assert(registry@ =~= Seq::<Seq<char>>::empty());
        registry
    }

    /// The number of registered keys.
    pub fn len(&self) -> (n: usize)
        ensures
            n == self@.len(),
    {
        map_len(&self.map)
    }

    /// Whether no key is registered.
    pub fn is_empty(&self) -> (r: bool)
        ensures
            r == (self@.len() == 0),
    {
        map_len(&self.map) == 0
    }

    /// The index of `key`, if it is registered.
    pub fn get(&self, key: &str) -> (r: Option<usize>)
        requires
            self.wf(),
        ensures
            match r {
                Some(index) => self@.contains(key@) && index == self@.index_of(key@),
                None => !self@.contains(key@),
            },
    {
        let ghost pairs = map_pairs(self.map);
        let r = map_get(&self.map, key);
        proof {
            match r {
                Some(index) => {
                    let i = choose|i: int|
                        0 <= i < pairs.len() && #[trigger] pairs[i] == (key@, index);
                    assert(self@[i] == key@);
                },
                None => {
                    assert forall|i: int| 0 <= i < self@.len() implies self@[i] != key@ by {
                        assert(pairs[i].0 != key@);
                    }
                },
            }
        }
        r
    }

    /// Registers `key` and returns its index. A key that is registered
    /// already keeps its index and leaves the registry unchanged; a new key
    /// gets the next index, which is the number of keys registered so far.
    pub fn register(&mut self, key: &str) -> (index: usize)
        requires
            old(self).wf(),
        ensures
            final(self).wf(),
            final(self)@ == registered(old(self)@, key@),
            final(self)@.contains(key@),
            index == final(self)@.index_of(key@),
    {
        match self.get(key) {
            Some(index) => index,
            None => {
                let ghost pairs = map_pairs(self.map);
                let index = map_len(&self.map);
                proof {
                    assert forall|i: int| 0 <= i < pairs.len() implies (#[trigger] pairs[i]).0
                        != key@ by {
                        assert(self@[i] == pairs[i].0);
                    }
                }
                map_insert(&mut self.map, key.to_owned(), index);
                // The map tells its size as a machine integer, which bounds
                // the indices.
                let _ = map_len(&self.map);
                proof {
                    assert(self@ =~= old(self)@.push(key@));
                    assert(self@[index as int] == key@);
                }
                index
            },
        }
    }

    /// The registered keys with their indices, in the order in which they
    /// were first seen.
    pub fn snapshot(&self) -> (pairs: Vec<(String, usize)>)
        requires
            self.wf(),
        ensures
            pairs.deep_view() == indexed(self@),
    {
        let pairs = map_to_vec(&self.map);
        proof {
            assert(pairs.deep_view() =~= indexed(self@));
        }
        pairs
    }
}

/// The keys after each key of `new` was registered, in order.
pub open spec fn registered_all(keys: Seq<Seq<char>>, new: Seq<Seq<char>>) -> Seq<Seq<char>>
    decreases new.len(),
{
    if new.len() == 0 {
        keys
    } else {
        registered(registered_all(keys, new.drop_last()), new.last())
    }
}

/// Registration is idempotent: a key that is registered a second time
/// leaves the keys as they are and has the index that it got the first
/// time.
pub proof fn lemma_register_idempotent(keys: Seq<Seq<char>>, key: Seq<char>)
    ensures
        registered(registered(keys, key), key) == registered(keys, key),
        registered(registered(keys, key), key).index_of(key) == registered(keys, key).index_of(
            key,
        ),
{
    let once = registered(keys, key);
    if !keys.contains(key) {
        assert(once[keys.len() as int] == key);
    }
    assert(once.contains(key));
}

/// Registration never gives a key another index: the keys that were
/// registered before stay where they are, and no key comes to stand twice.
pub proof fn lemma_register_keeps_indices(keys: Seq<Seq<char>>, key: Seq<char>)
    requires
        keys.no_duplicates(),
    ensures
        registered(keys, key).no_duplicates(),
        keys.len() <= registered(keys, key).len(),
        forall|i: int| 0 <= i < keys.len() ==> registered(keys, key)[i] == keys[i],
        forall|other: Seq<char>| #[trigger]
            keys.contains(other) ==> registered(keys, key).index_of(other) == keys.index_of(other),
{
    let after = registered(keys, key);
    assert forall|other: Seq<char>| #[trigger] keys.contains(other) implies after.index_of(other)
        == keys.index_of(other) by {
        let i = keys.index_of(other);
        assert(after[i] == other);
        let j = after.index_of(other);
        assert(0 <= j < after.len() && after[j] == other);
    }
}

/// Keys that are registered one after the other, none of them twice, get
/// the indices 0, 1, 2 and so on in the order in which they come.
pub proof fn lemma_register_first_seen(new: Seq<Seq<char>>)
    requires
        new.no_duplicates(),
    ensures
        registered_all(Seq::empty(), new) == new,
        forall|i: int|
            0 <= i < new.len() ==> registered_all(Seq::empty(), new).index_of(#[trigger] new[i])
                == i,
    decreases new.len(),
{
    if new.len() > 0 {
        let front = new.drop_last();
        lemma_register_first_seen(front);
        assert(!front.contains(new.last())) by {
            if front.contains(new.last()) {
                let i = front.index_of(new.last());
                assert(new[i] == new[new.len() - 1]);
            }
        }
        assert(front.push(new.last()) =~= new);
    }
    assert forall|i: int| 0 <= i < new.len() implies new.index_of(#[trigger] new[i]) == i by {
        let j = new.index_of(new[i]);
        assert(0 <= j < new.len() && new[j] == new[i]);
    }
}

} // verus!
