//! A map from strings to values, kept in the order of its keys.

use crate::text::{
    chars_of, lemma_lex_asymmetric, lemma_lex_irreflexive, lemma_lex_total, lemma_lex_transitive,
    less, lex_lt,
};
use vstd::prelude::*;

verus! {

/// Each key is before every later key.
pub open spec fn ascending(keys: Seq<Seq<char>>) -> bool {
    forall|i: int, j: int| 0 <= i < j < keys.len() ==> lex_lt(#[trigger] keys[i], #[trigger] keys[j])
}

/// The map that pairs each key with the value at its index.
pub open spec fn pairing<V>(keys: Seq<Seq<char>>, values: Seq<V>) -> Map<Seq<char>, V> {
    Map::new(|k: Seq<char>| keys.contains(k), |k: Seq<char>| values[keys.index_of(k)])
}

/// Whether `k` is among the first `n` of `keys`.
pub open spec fn among(keys: Seq<Seq<char>>, n: int, k: Seq<char>) -> bool {
    exists|j: int| 0 <= j < n && keys[j] == k
}

/// The first `n + 1` keys are the first `n` and the key at `n`.
pub proof fn lemma_among_step(keys: Seq<Seq<char>>, n: int)
    requires
        0 <= n < keys.len(),
    ensures
        forall|k: Seq<char>| #[trigger] among(keys, n + 1, k) == (among(keys, n, k) || k == keys[n]),
{
    assert forall|k: Seq<char>| #[trigger] among(keys, n + 1, k) == (among(keys, n, k) || k
        == keys[n]) by {
        if among(keys, n, k) {
            let j = choose|j: int| 0 <= j < n && keys[j] == k;
            assert(0 <= j < n + 1 && keys[j] == k);
        }
        if k == keys[n] {
            assert(0 <= n < n + 1 && keys[n] == k);
        }
    }
}

/// All the keys are those that the sequence contains; the first none are
/// none.
pub proof fn lemma_among_all(keys: Seq<Seq<char>>)
    ensures
        forall|k: Seq<char>| #[trigger] among(keys, keys.len() as int, k) == keys.contains(k),
        forall|k: Seq<char>| !#[trigger] among(keys, 0, k),
{
    assert forall|k: Seq<char>| #[trigger] among(keys, keys.len() as int, k) == keys.contains(
        k,
    ) by {
        if among(keys, keys.len() as int, k) {
            let j = choose|j: int| 0 <= j < keys.len() && keys[j] == k;
            assert(keys[j] == k);
        }
        if keys.contains(k) {
            let j = keys.index_of(k);
            assert(0 <= j < keys.len() && keys[j] == k);
        }
    }
}

/// The views of a sequence of values.
pub open spec fn views_of<V: View>(values: Seq<V>) -> Seq<V::V> {
    Seq::new(values.len(), |i: int| values[i]@)
}

/// In ascending keys each key occurs at one index only.
pub proof fn lemma_ascending_distinct(keys: Seq<Seq<char>>, i: int, j: int)
    requires
        ascending(keys),
        0 <= i < keys.len(),
        0 <= j < keys.len(),
        keys[i] == keys[j],
    ensures
        i == j,
{
    lemma_lex_irreflexive(keys[i]);
}

/// In ascending keys the pairing holds, at each key, the value at its index.
pub proof fn lemma_pairing<V>(keys: Seq<Seq<char>>, values: Seq<V>, i: int)
    requires
        ascending(keys),
        keys.len() == values.len(),
        0 <= i < keys.len(),
    ensures
        pairing(keys, values).contains_key(keys[i]),
        pairing(keys, values)[keys[i]] == values[i],
{
    lemma_ascending_distinct(keys, i, keys.index_of(keys[i]));
}

/// In ascending keys the key that is before another stands before it.
pub proof fn lemma_key_order(keys: Seq<Seq<char>>, earlier: Seq<char>, later: Seq<char>)
    requires
        ascending(keys),
        keys.contains(earlier),
        keys.contains(later),
        lex_lt(earlier, later),
    ensures
        0 <= keys.index_of(earlier) < keys.index_of(later) < keys.len(),
{
    let i = keys.index_of(earlier);
    let j = keys.index_of(later);
    lemma_lex_irreflexive(earlier);
    if j < i {
        lemma_lex_asymmetric(earlier, later);
    }
}

/// A new key, put at the place that keeps the keys ascending, adds one pair
/// to the pairing.
pub proof fn lemma_pairing_insert<V>(
    keys: Seq<Seq<char>>,
    values: Seq<V>,
    i: int,
    key: Seq<char>,
    value: V,
)
    requires
        ascending(keys),
        keys.len() == values.len(),
        0 <= i <= keys.len(),
        forall|j: int| 0 <= j < i ==> lex_lt(#[trigger] keys[j], key),
        forall|j: int| i <= j < keys.len() ==> lex_lt(key, #[trigger] keys[j]),
    ensures
        ascending(keys.insert(i, key)),
        pairing(keys.insert(i, key), values.insert(i, value)) == pairing(keys, values).insert(
            key,
            value,
        ),
{
    let keys2 = keys.insert(i, key);
    let values2 = values.insert(i, value);
    assert(keys2.len() == keys.len() + 1);
    assert forall|a: int, b: int| 0 <= a < b < keys2.len() implies lex_lt(
        #[trigger] keys2[a],
        #[trigger] keys2[b],
    ) by {
        let x = if a < i { a } else { a - 1 };
        let y = if b < i { b } else { b - 1 };
        if a == i {
            assert(keys2[b] == keys[y]);
        } else if b == i {
            assert(keys2[a] == keys[x]);
        } else {
            assert(keys2[a] == keys[x]);
            assert(keys2[b] == keys[y]);
        }
    }
    let m = pairing(keys, values).insert(key, value);
    let m2 = pairing(keys2, values2);
    assert forall|k: Seq<char>| m.contains_key(k) <==> m2.contains_key(k) by {
        if k == key {
            assert(keys2[i] == k);
        } else if keys.contains(k) {
            let j = keys.index_of(k);
            assert(keys2[if j < i { j } else { j + 1 }] == k);
        } else if keys2.contains(k) {
            let j = keys2.index_of(k);
            assert(keys[if j < i { j } else { j - 1 }] == k);
        }
    }
    assert forall|k: Seq<char>| m.contains_key(k) implies m[k] == m2[k] by {
        let j2 = keys2.index_of(k);
        if k == key {
            lemma_ascending_distinct(keys2, i, j2);
        } else {
            let j = keys.index_of(k);
            lemma_ascending_distinct(keys2, if j < i { j } else { j + 1 }, j2);
        }
    }
    assert(m =~= m2);
}

/// A new value at the index of its key replaces one pair of the pairing.
pub proof fn lemma_pairing_update<V>(keys: Seq<Seq<char>>, values: Seq<V>, i: int, value: V)
    requires
        ascending(keys),
        keys.len() == values.len(),
        0 <= i < keys.len(),
    ensures
        pairing(keys, values.update(i, value)) == pairing(keys, values).insert(keys[i], value),
{
    let m = pairing(keys, values).insert(keys[i], value);
    let m2 = pairing(keys, values.update(i, value));
    assert forall|k: Seq<char>| m.contains_key(k) implies m[k] == m2[k] by {
        if k == keys[i] {
            lemma_ascending_distinct(keys, i, keys.index_of(k));
        } else {
            assert(keys.index_of(k) != i);
        }
    }
    assert(m =~= m2);
}

/// A map from strings to values whose entries stand in the order of their
/// keys, each key once.
#[derive(Debug, PartialEq, Eq)]
pub struct SortedMap<V> {
    entries: Vec<(String, V)>,
}

impl<V> SortedMap<V> {
    /// The keys, in the order of the entries.
    pub closed spec fn keys(&self) -> Seq<Seq<char>> {
        Seq::new(self.entries@.len(), |i: int| self.entries@[i].0@)
    }

    /// The values, in the order of the entries.
    pub closed spec fn values(&self) -> Seq<V> {
        Seq::new(self.entries@.len(), |i: int| self.entries@[i].1)
    }

    /// The keys ascend, so none occurs twice.
    #[verifier::type_invariant]
    pub open spec fn wf(&self) -> bool {
        ascending(self.keys())
    }
}

impl<V: View> SortedMap<V> {
    /// What the map holds: at each key the view of its value.
    pub open spec fn view(&self) -> Map<Seq<char>, V::V> {
        pairing(self.keys(), views_of(self.values()))
    }

    /// A map without entries.
    pub fn new() -> (m: Self)
        ensures
            m.keys() == Seq::<Seq<char>>::empty(),
            m.values() == Seq::<V>::empty(),
            m@ == Map::<Seq<char>, V::V>::empty(),
            m.wf(),
    {
        let m = SortedMap { entries: Vec::new() };
        assert(m.keys() =~= Seq::<Seq<char>>::empty());
        assert(m.values() =~= Seq::<V>::empty());
        assert(m@ =~= Map::<Seq<char>, V::V>::empty());
        m
    }

    /// The number of entries.
    pub fn len(&self) -> (n: usize)
        ensures
            n == self.keys().len(),
            n == self.values().len(),
            self.wf(),
    {
        proof {
            use_type_invariant(self);
        }
        self.entries.len()
    }


    /// The key of the entry at `i`, counted in the order of the keys.
    pub fn key_at(&self, i: usize) -> (k: &str)
        requires
            i < self.keys().len(),
        ensures
            k@ == self.keys()[i as int],
    {
        self.entries[i].0.as_str()
    }

    /// The value of the entry at `i`, counted in the order of the keys.
    pub fn value_at(&self, i: usize) -> (v: &V)
        requires
            i < self.keys().len(),
        ensures
            *v == self.values()[i as int],
            self@.contains_key(self.keys()[i as int]),
            v@ == self@[self.keys()[i as int]],
            self.wf(),
    {
        proof {
            use_type_invariant(self);
            lemma_pairing(self.keys(), views_of(self.values()), i as int);
        }
        &self.entries[i].1
    }

    /// The index of the first entry whose key is not before `key`.
    fn lower_bound(&self, key: &[char]) -> (i: usize)
        ensures
            i <= self.keys().len(),
            forall|j: int| 0 <= j < i ==> lex_lt(#[trigger] self.keys()[j], key@),
            forall|j: int| i <= j < self.keys().len() ==> !lex_lt(#[trigger] self.keys()[j], key@),
    {
        proof {
            use_type_invariant(self);
        }
        let mut lo: usize = 0;
        let mut hi: usize = self.entries.len();
        while lo < hi
            invariant
                lo <= hi <= self.keys().len(),
                self.keys().len() == self.entries@.len(),
                ascending(self.keys()),
                forall|j: int| 0 <= j < lo ==> lex_lt(#[trigger] self.keys()[j], key@),
                forall|j: int| hi <= j < self.keys().len() ==> !lex_lt(#[trigger] self.keys()[j], key@),
            decreases hi - lo,
        {
            let mid: usize = lo + (hi - lo) / 2;
            let probe = chars_of(self.entries[mid].0.as_str());
            assert(probe@ == self.keys()[mid as int]);
            if less(probe.as_slice(), key) {
                assert forall|j: int| 0 <= j < mid + 1 implies lex_lt(
                    #[trigger] self.keys()[j],
                    key@,
                ) by {
                    if j < mid {
                        lemma_lex_transitive(self.keys()[j], self.keys()[mid as int], key@);
                    }
                }
                lo = mid + 1;
            } else {
                assert forall|j: int| mid <= j < self.keys().len() implies !lex_lt(
                    #[trigger] self.keys()[j],
                    key@,
                ) by {
                    if j > mid && lex_lt(self.keys()[j], key@) {
                        lemma_lex_transitive(self.keys()[mid as int], self.keys()[j], key@);
                    }
                }
                hi = mid;
            }
        }
        lo
    }

    /// Whether the map has no entry.
    pub fn is_empty(&self) -> (b: bool)
        ensures
            b == (self.keys().len() == 0),
            b == (self@ == Map::<Seq<char>, V::V>::empty()),
    {
        proof {
            use_type_invariant(self);
            if self.keys().len() == 0 {
                assert(self@ =~= Map::<Seq<char>, V::V>::empty());
            } else {
                lemma_pairing(self.keys(), views_of(self.values()), 0);
            }
        }
        self.entries.len() == 0
    }

    /// The index of the entry with the key `key`.
    pub fn position(&self, key: &str) -> (r: Option<usize>)
        ensures
            r is Some <==> self@.contains_key(key@),
            r matches Some(i) ==> i < self.keys().len() && self.keys()[i as int] == key@
                && self@[key@] == self.values()[i as int]@,
    {
        let needle = chars_of(key);
        let i = self.lower_bound(needle.as_slice());
        proof {
            use_type_invariant(self);
        }
        if i < self.entries.len() {
            let probe = chars_of(self.entries[i].0.as_str());
            assert(probe@ == self.keys()[i as int]);
            if !less(needle.as_slice(), probe.as_slice()) {
                proof {
                    lemma_lex_total(key@, probe@);
                    lemma_pairing(self.keys(), views_of(self.values()), i as int);
                }
                return Some(i);
            }
        }
        proof {
            if self.keys().contains(key@) {
                let j = self.keys().index_of(key@);
                lemma_lex_irreflexive(key@);
                if j > i {
                    lemma_lex_transitive(key@, self.keys()[i as int], self.keys()[j]);
                }
            }
        }
        None
    }

    /// Whether the map has an entry with the key `key`.
    pub fn contains_key(&self, key: &str) -> (b: bool)
        ensures
            b == self@.contains_key(key@),
    {
        self.position(key).is_some()
    }

    /// The value at `key`.
    pub fn get(&self, key: &str) -> (r: Option<&V>)
        ensures
            r is Some <==> self@.contains_key(key@),
            r matches Some(v) ==> v@ == self@[key@],
    {
        match self.position(key) {
            Some(i) => Some(&self.entries[i].1),
            None => None,
        }
    }

    /// Puts `value` at `key`.  An entry that had this key is replaced: the
    /// later value stays.
    pub fn insert(&mut self, key: String, value: V)
        ensures
            final(self)@ == old(self)@.insert(key@, value@),
            final(self).wf(),
            final(self).keys().len() == old(self).keys().len() + (if old(self)@.contains_key(
                key@,
            ) {
                0int
            } else {
                1int
            }),
    {
        proof {
            use_type_invariant(&*self);
        }
        let needle = chars_of(key.as_str());
        let i = self.lower_bound(needle.as_slice());
        let ghost keys = self.keys();
        let ghost values = self.values();
        let ghost found = self@.contains_key(key@);
        let mut replaces = false;
        if i < self.entries.len() {
            let probe = chars_of(self.entries[i].0.as_str());
            assert(probe@ == keys[i as int]);
            replaces = !less(needle.as_slice(), probe.as_slice());
            proof {
                lemma_lex_total(key@, probe@);
            }
        }
        proof {
            lemma_lex_irreflexive(key@);
            if replaces {
                assert(keys[i as int] == key@);
            } else if keys.contains(key@) {
                let j = keys.index_of(key@);
                if j > i {
                    lemma_lex_transitive(key@, keys[i as int], keys[j]);
                }
            }
            assert(found == replaces);
        }
        let mut taken = SortedMap::new();
        core::mem::swap(self, &mut taken);
        let mut entries = taken.entries;
        if replaces {
            proof {
                lemma_pairing_update(keys, views_of(values), i as int, value@);
                assert(views_of(values.update(i as int, value)) =~= views_of(values).update(
                    i as int,
                    value@,
                ));
            }
            entries.set(i, (key, value));
            proof {
                let after = SortedMap { entries };
                assert(after.keys() =~= keys);
                assert(after.values() =~= values.update(i as int, value));
            }
            *self = SortedMap { entries };
        } else {
            proof {
                assert forall|j: int| i <= j < keys.len() implies lex_lt(
                    key@,
                    #[trigger] keys[j],
                ) by {
                    if j > i {
                        lemma_lex_transitive(key@, keys[i as int], keys[j]);
                    }
                }
                lemma_pairing_insert(keys, views_of(values), i as int, key@, value@);
                assert(views_of(values.insert(i as int, value)) =~= views_of(values).insert(
                    i as int,
                    value@,
                ));
            }
            entries.insert(i, (key, value));
            proof {
                let after = SortedMap { entries };
                assert(after.keys() =~= keys.insert(i as int, key@));
                assert(after.values() =~= values.insert(i as int, value));
            }
            *self = SortedMap { entries };
        }
    }
}

impl<V: View + Clone> Clone for SortedMap<V> {
    /// A map with the same keys, each with a clone of its value.
    fn clone(&self) -> (res: Self)
        ensures
            res.keys() == self.keys(),
            res.values().len() == self.values().len(),
            forall|i: int|
                0 <= i < self.values().len() ==> cloned::<V>(
                    #[trigger] self.values()[i],
                    res.values()[i],
                ),
    {
        proof {
            use_type_invariant(self);
        }
        let mut entries: Vec<(String, V)> = Vec::new();
        let mut i: usize = 0;
        while i < self.entries.len()
            invariant
                i <= self.entries@.len(),
                entries@.len() == i,
                forall|j: int| 0 <= j < i ==> (#[trigger] entries@[j]).0@ == self.entries@[j].0@,
                forall|j: int| 0 <= j < i ==> cloned::<V>(self.entries@[j].1, (#[trigger] entries@[j]).1),
            decreases self.entries@.len() - i,
        {
            let key = self.entries[i].0.clone();
            let value = self.entries[i].1.clone();
            entries.push((key, value));
            i += 1;
        }
        proof {
            let after = SortedMap { entries };
            assert(after.keys() =~= self.keys());
        }
        SortedMap { entries }
    }
}

} // verus!
