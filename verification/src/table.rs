//! Maps kept as a list of pairs in which no key occurs twice, in the order
//! in which the keys came.

use vstd::prelude::*;
use crate::octets::same;

verus! {

/// A type whose values can be keys: two values are one key where their
/// views are equal.
pub trait Key: View + Sized {
    /// Whether `self` and `other` are one key.
    fn same_key(&self, other: &Self) -> (r: bool)
        ensures
            r == (self@ == other@),
    ;
}

impl Key for Vec<u8> {
    fn same_key(&self, other: &Self) -> (r: bool) {
        same(self.as_slice(), other.as_slice())
    }
}

impl Key for String {
    fn same_key(&self, other: &Self) -> (r: bool) {
        *self == *other
    }
}

/// The map that a list of pairs stands for: a later pair replaces an
/// earlier one with the same key.
pub open spec fn pairs_map<K: View, V>(pairs: Seq<(K, V)>) -> Map<K::V, V>
    decreases pairs.len(),
{
    if pairs.len() == 0 {
        Map::empty()
    } else {
        pairs_map(pairs.drop_last()).insert(pairs.last().0@, pairs.last().1)
    }
}

/// No two pairs have the same key.
pub open spec fn distinct_keys<K: View, V>(pairs: Seq<(K, V)>) -> bool {
    forall|i: int, j: int|
        0 <= i < j < pairs.len() ==> (#[trigger] pairs[i]).0@ != (#[trigger] pairs[j]).0@
}

/// Some pair has the key `key`.
pub open spec fn has_key<K: View, V>(pairs: Seq<(K, V)>, key: K::V) -> bool {
    exists|i: int| 0 <= i < pairs.len() && (#[trigger] pairs[i]).0@ == key
}

/// A position at which `key` stands.
pub open spec fn index_of<K: View, V>(pairs: Seq<(K, V)>, key: K::V) -> int {
    choose|i: int| 0 <= i < pairs.len() && (#[trigger] pairs[i]).0@ == key
}

/// The list after `value` is put under `key`: in the place of the pair that
/// has this key, or behind all pairs where none has it.
pub open spec fn put<K: View, V>(pairs: Seq<(K, V)>, key: K, value: V) -> Seq<(K, V)> {
    if has_key(pairs, key@) {
        pairs.update(index_of(pairs, key@), (key, value))
    } else {
        pairs.push((key, value))
    }
}

/// The list that comes of putting the pairs of `pairs` one after another:
/// each key once, in the order of its first occurrence, with its last value.
pub open spec fn arranged<K: View, V>(pairs: Seq<(K, V)>) -> Seq<(K, V)>
    decreases pairs.len(),
{
    if pairs.len() == 0 {
        Seq::empty()
    } else {
        put(arranged(pairs.drop_last()), pairs.last().0, pairs.last().1)
    }
}

/// The keys of the map of a list are the keys of its pairs.
pub proof fn lemma_pairs_map_domain<K: View, V>(pairs: Seq<(K, V)>, key: K::V)
    ensures
        pairs_map(pairs).dom().contains(key) <==> has_key(pairs, key),
    decreases pairs.len(),
{
    if pairs.len() > 0 {
        let front = pairs.drop_last();
        lemma_pairs_map_domain(front, key);
        if has_key(pairs, key) {
            let i = choose|i: int| 0 <= i < pairs.len() && (#[trigger] pairs[i]).0@ == key;
            if i < pairs.len() - 1 {
                assert(front[i].0@ == key);
            }
        }
        if has_key(front, key) {
            let i = choose|i: int| 0 <= i < front.len() && (#[trigger] front[i]).0@ == key;
            assert(pairs[i].0@ == key);
        }
        if pairs.last().0@ == key {
            assert(pairs[pairs.len() - 1].0@ == key);
        }
    }
}

/// In a list without a key twice, the map holds each pair's value under its
/// key.
pub proof fn lemma_pairs_map_value<K: View, V>(pairs: Seq<(K, V)>, i: int)
    requires
        distinct_keys(pairs),
        0 <= i < pairs.len(),
    ensures
        pairs_map(pairs).dom().contains(pairs[i].0@),
        pairs_map(pairs)[pairs[i].0@] == pairs[i].1,
    decreases pairs.len(),
{
    let front = pairs.drop_last();
    if i < pairs.len() - 1 {
        assert(distinct_keys(front)) by {
            assert forall|a: int, b: int| 0 <= a < b < front.len() implies
                (#[trigger] front[a]).0@ != (#[trigger] front[b]).0@ by {
                assert(pairs[a].0@ != pairs[b].0@);
            }
        }
        lemma_pairs_map_value(front, i);
        assert(pairs[i].0@ != pairs[pairs.len() - 1].0@);
        assert(front[i] == pairs[i]);
    }
}

/// In a list without a key twice, a new value in the place of a pair is a
/// new value under its key.
pub proof fn lemma_pairs_map_update<K: View, V>(pairs: Seq<(K, V)>, i: int, pair: (K, V))
    requires
        distinct_keys(pairs),
        0 <= i < pairs.len(),
        pairs[i].0@ == pair.0@,
    ensures
        distinct_keys(pairs.update(i, pair)),
        pairs_map(pairs.update(i, pair)) == pairs_map(pairs).insert(pair.0@, pair.1),
    decreases pairs.len(),
{
    let after = pairs.update(i, pair);
    assert forall|a: int, b: int| 0 <= a < b < after.len() implies
        (#[trigger] after[a]).0@ != (#[trigger] after[b]).0@ by {
        assert(pairs[a].0@ != pairs[b].0@);
    }
    let front = pairs.drop_last();
    if i == pairs.len() - 1 {
        assert(after.drop_last() =~= front);
        assert(pairs_map(after) =~= pairs_map(pairs).insert(pair.0@, pair.1));
    } else {
        assert(distinct_keys(front)) by {
            assert forall|a: int, b: int| 0 <= a < b < front.len() implies
                (#[trigger] front[a]).0@ != (#[trigger] front[b]).0@ by {
                assert(pairs[a].0@ != pairs[b].0@);
            }
        }
        lemma_pairs_map_update(front, i, pair);
        assert(after.drop_last() =~= front.update(i, pair));
        assert(after.last() == pairs.last());
        assert(pairs[i].0@ != pairs[pairs.len() - 1].0@);
        assert(pairs_map(after) =~= pairs_map(pairs).insert(pair.0@, pair.1));
    }
}

/// Putting a value under a key keeps the keys apart and is an insertion into
/// the map.
pub proof fn lemma_put<K: View, V>(pairs: Seq<(K, V)>, key: K, value: V)
    requires
        distinct_keys(pairs),
    ensures
        distinct_keys(put(pairs, key, value)),
        pairs_map(put(pairs, key, value)) == pairs_map(pairs).insert(key@, value),
{
    if has_key(pairs, key@) {
        lemma_pairs_map_update(pairs, index_of(pairs, key@), (key, value));
    } else {
        let after = pairs.push((key, value));
        assert(after.drop_last() =~= pairs);
        assert forall|a: int, b: int| 0 <= a < b < after.len() implies
            (#[trigger] after[a]).0@ != (#[trigger] after[b]).0@ by {
            if b < pairs.len() {
                assert(pairs[a].0@ != pairs[b].0@);
            } else {
                assert(pairs[a].0@ != key@);
            }
        }
    }
}

/// A finite map from keys of `K` to values of `V`.
pub struct Table<K, V> {
    pairs: Vec<(K, V)>,
}

impl<K: Key, V> View for Table<K, V> {
    type V = Map<K::V, V>;

    closed spec fn view(&self) -> Map<K::V, V> {
        pairs_map(self.pairs@)
    }
}

impl<K: Key, V> Table<K, V> {
    /// The pairs of the map, each key once, in the order in which the keys
    /// were first put.
    pub closed spec fn entries(&self) -> Seq<(K, V)> {
        self.pairs@
    }

    /// No key is held twice.
    pub closed spec fn wf(&self) -> bool {
        distinct_keys(self.pairs@)
    }

    /// The map is the map of its entries, which hold no key twice.
    pub proof fn lemma_entries(&self)
        requires
            self.wf(),
        ensures
            distinct_keys(self.entries()),
            self@ == pairs_map(self.entries()),
    {
    }

    /// The empty map.
    pub fn new() -> (r: Self)
        ensures
            r.wf(),
            r.entries() == Seq::<(K, V)>::empty(),
            r@ == Map::<K::V, V>::empty(),
    {
        Table { pairs: Vec::new() }
    }

    fn position(&self, key: &K) -> (r: Option<usize>)
        ensures
            match r {
                Some(i) => i < self.pairs.len() && self.pairs[i as int].0@ == key@,
                None => !has_key(self.pairs@, key@),
            },
    {
        let mut i: usize = 0;
        while i < self.pairs.len()
            invariant
                i <= self.pairs.len(),
                forall|j: int| 0 <= j < i ==> (#[trigger] self.pairs[j]).0@ != key@,
            decreases self.pairs.len() - i,
        {
            if self.pairs[i].0.same_key(key) {
                return Some(i);
            }
            i += 1;
        }
        None
    }

    /// The value that stands under `key`, if any.
    pub fn get(&self, key: &K) -> (r: Option<&V>)
        requires
            self.wf(),
        ensures
            match r {
                Some(v) => self@.dom().contains(key@) && *v == self@[key@],
                None => !self@.dom().contains(key@),
            },
    {
        proof {
            lemma_pairs_map_domain(self.pairs@, key@);
        }
        match self.position(key) {
            Some(i) => {
                proof {
                    lemma_pairs_map_value(self.pairs@, i as int);
                }
                Some(&self.pairs[i].1)
            },
            None => None,
        }
    }

    /// Puts `value` under `key`, in place of what stood there.
    pub fn insert(&mut self, key: K, value: V)
        requires
            old(self).wf(),
        ensures
            final(self).wf(),
            final(self).entries() == put(old(self).entries(), key, value),
            final(self)@ == old(self)@.insert(key@, value),
    {
        proof {
            lemma_put(self.pairs@, key, value);
        }
        match self.position(&key) {
            Some(i) => {
                proof {
                    let at = index_of(self.pairs@, key@);
                    assert(self.pairs@[i as int].0@ == key@);
                    assert(at == i) by {
                        if at < i {
                            assert(self.pairs@[at].0@ != self.pairs@[i as int].0@);
                        } else if i < at {
                            assert(self.pairs@[i as int].0@ != self.pairs@[at].0@);
                        }
                    }
                }
                self.pairs[i] = (key, value);
            },
            None => {
                self.pairs.push((key, value));
            },
        }
    }

    /// The map that `pairs` stands for: of two pairs with one key, the later
    /// one counts.
    pub fn from_pairs(pairs: Vec<(K, V)>) -> (r: Self)
        ensures
            r.wf(),
            r.entries() == arranged(pairs@),
            r@ == pairs_map(pairs@),
    {
        let mut r = Table::new();
        let ghost all = pairs@;
        proof {
            assert(all.take(0) =~= Seq::<(K, V)>::empty());
        }
        for pair in it: pairs.into_iter()
            invariant
                it.seq() == all,
                r.wf(),
                r.entries() == arranged(all.take(it.index() as int)),
                r@ == pairs_map(all.take(it.index() as int)),
        {
            proof {
                assert(all.take(it.index() + 1).drop_last() =~= all.take(it.index() as int));
            }
            r.insert(pair.0, pair.1);
        }
        proof {
            assert(all.take(all.len() as int) =~= all);
        }
        r
    }

    /// The pairs of the map, each key once, in the order in which the keys
    /// were first put.
    pub fn pairs(&self) -> (r: &Vec<(K, V)>)
        requires
            self.wf(),
        ensures
            r@ == self.entries(),
            distinct_keys(r@),
            pairs_map(r@) == self@,
    {
        &self.pairs
    }
}

/// A map from byte strings to byte strings.
pub type ByteMap = Table<Vec<u8>, Vec<u8>>;

/// What a map of byte strings holds, each value by its bytes.
pub open spec fn content(map: Map<Seq<u8>, Vec<u8>>) -> Map<Seq<u8>, Seq<u8>> {
    map.map_values(|v: Vec<u8>| v@)
}

} // verus!
