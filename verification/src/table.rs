//! A map from strings to values, held in increasing key order.
//!
//! Lookups and inserts behave as on a `BTreeMap<String, V>`: inserting an
//! existing key replaces its value, and the keys come out sorted.

use vstd::prelude::*;
use crate::text::{
    lex_lt, str_lt, str_eq, strings_view, lemma_lex_irreflexive, lemma_lex_total,
    lemma_lex_transitive,
};

verus! {

/// Every key sorts strictly before the keys after it.
pub open spec fn keys_sorted(keys: Seq<Seq<char>>) -> bool {
    forall|i: int, j: int| 0 <= i < j < keys.len() ==> lex_lt(#[trigger] keys[i], #[trigger] keys[j])
}

pub open spec fn has_key(keys: Seq<Seq<char>>, k: Seq<char>) -> bool {
    exists|i: int| 0 <= i < keys.len() && keys[i] == k
}

pub open spec fn key_index(keys: Seq<Seq<char>>, k: Seq<char>) -> int {
    choose|i: int| 0 <= i < keys.len() && keys[i] == k
}

/// The map that pairs each key with the value at the same position.
pub open spec fn table_map<W>(keys: Seq<Seq<char>>, vals: Seq<W>) -> Map<Seq<char>, W> {
    Map::new(|k: Seq<char>| has_key(keys, k), |k: Seq<char>| vals[key_index(keys, k)])
}

/// In a sorted key list, the key at `i` is found exactly at `i`.
pub proof fn lemma_key_index(keys: Seq<Seq<char>>, i: int)
    requires
        keys_sorted(keys),
        0 <= i < keys.len(),
    ensures
        has_key(keys, keys[i]),
        key_index(keys, keys[i]) == i,
{
    assert(0 <= i < keys.len() && keys[i] == keys[i]);
    let j = key_index(keys, keys[i]);
    if j < i {
        assert(lex_lt(keys[j], keys[i]));
        lemma_lex_irreflexive(keys[i]);
    } else if j > i {
        assert(lex_lt(keys[i], keys[j]));
        lemma_lex_irreflexive(keys[i]);
    }
}

/// Strings mapped to values, held in increasing key order.
#[derive(Debug)]
pub struct StrMap<V> {
    keys: Vec<String>,
    vals: Vec<V>,
}

impl<V: DeepView> StrMap<V> {
    /// The keys, in increasing order.
    pub closed spec fn key_list(&self) -> Seq<Seq<char>> {
        strings_view(self.keys@)
    }

    /// The values' views, in the order of their keys.
    pub closed spec fn value_list(&self) -> Seq<V::V> {
        self.vals@.map_values(|v: V| v.deep_view())
    }

}

impl<V> StrMap<V> {
    #[verifier::type_invariant]
    closed spec fn inv(&self) -> bool {
        &&& self.keys@.len() == self.vals@.len()
        &&& keys_sorted(strings_view(self.keys@))
    }
}

impl<V: DeepView> View for StrMap<V> {
    type V = Map<Seq<char>, V::V>;

    closed spec fn view(&self) -> Map<Seq<char>, V::V> {
        table_map(self.key_list(), self.value_list())
    }
}

impl<V: DeepView> StrMap<V> {
    /// The empty map.
    pub fn new() -> (r: Self)
        ensures
            r@ == Map::<Seq<char>, V::V>::empty(),
            r.key_list() == Seq::<Seq<char>>::empty(),
    {
        let r = StrMap { keys: Vec::new(), vals: Vec::new() };
        assert(r@ =~= Map::<Seq<char>, V::V>::empty());
        r
    }

    /// The keys, in increasing order.
    pub fn keys(&self) -> (r: Vec<String>)
        ensures
            strings_view(r@) == self.key_list(),
            keys_sorted(self.key_list()),
            forall|k: Seq<char>| #[trigger] self@.contains_key(k) <==> self.key_list().contains(k),
    {
        proof {
            use_type_invariant(self);
            assert forall|k: Seq<char>| #[trigger] self@.contains_key(k) <==> self.key_list().contains(
                k,
            ) by {
                if self.key_list().contains(k) {
                    let i = choose|i: int| 0 <= i < self.key_list().len() && self.key_list()[i] == k;
                    assert(has_key(self.key_list(), k));
                }
            }
        }
        let mut r: Vec<String> = Vec::new();
        let mut i: usize = 0;
        while i < self.keys.len()
            invariant
                i <= self.keys@.len(),
                r@ == self.keys@.take(i as int),
            decreases self.keys@.len() - i,
        {
            r.push(self.keys[i].clone());
            i = i + 1;
            assert(r@ =~= self.keys@.take(i as int));
        }
        assert(r@ =~= self.keys@);
        r
    }

    /// Whether the map holds no key.
    pub fn is_empty(&self) -> (r: bool)
        ensures
            r <==> self@ == Map::<Seq<char>, V::V>::empty(),
    {
        proof {
            use_type_invariant(self);
        }
        if self.keys.len() == 0 {
            assert(self@ =~= Map::<Seq<char>, V::V>::empty());
            true
        } else {
            proof {
                lemma_key_index(self.key_list(), 0);
                assert(self@.contains_key(self.key_list()[0]));
            }
            false
        }
    }

    /// The value stored under `key`, if any.
    pub fn get(&self, key: &str) -> (r: Option<&V>)
        ensures
            match r {
                Some(v) => self@.contains_key(key@) && v.deep_view() == self@[key@],
                None => !self@.contains_key(key@),
            },
    {
        proof {
            use_type_invariant(self);
        }
        let mut i: usize = 0;
        while i < self.keys.len()
            invariant
                i <= self.keys@.len(),
                self.keys@.len() == self.vals@.len(),
                keys_sorted(strings_view(self.keys@)),
                forall|j: int| 0 <= j < i ==> self.keys@[j]@ != key@,
            decreases self.keys@.len() - i,
        {
            if str_eq(self.keys[i].as_str(), key) {
                proof {
                    lemma_key_index(self.key_list(), i as int);
                }
                return Some(&self.vals[i]);
            }
            i = i + 1;
        }
        assert(!has_key(self.key_list(), key@));
        None
    }

    /// Bind `key` to `value`, replacing any value it had.
    pub fn insert(&mut self, key: String, value: V)
        ensures
            final(self)@ == old(self)@.insert(key@, value.deep_view()),
    {
        let mut taken: StrMap<V> = StrMap { keys: Vec::new(), vals: Vec::new() };
        std::mem::swap(self, &mut taken);
        proof {
            use_type_invariant(&taken);
        }
        let StrMap { keys: mut keys, vals: mut vals } = taken;
        let ghost ks = strings_view(keys@);
        let ghost vs = vals@.map_values(|v: V| v.deep_view());
        let ghost k = key@;
        let mut p: usize = 0;
        while p < keys.len() && str_lt(keys[p].as_str(), key.as_str())
            invariant
                p <= keys@.len(),
                ks == strings_view(keys@),
                k == key@,
                forall|j: int| 0 <= j < p ==> lex_lt(#[trigger] ks[j], k),
            decreases keys@.len() - p,
        {
            p = p + 1;
        }
        if p < keys.len() && str_eq(keys[p].as_str(), key.as_str()) {
            vals[p] = value;
            proof {
                let nvs = vals@.map_values(|v: V| v.deep_view());
                assert(nvs =~= vs.update(p as int, value.deep_view()));
                assert forall|q: Seq<char>| #[trigger] has_key(ks, q) implies (if q == k {
                    key_index(ks, q) == p
                } else {
                    key_index(ks, q) != p
                }) by {
                    let i = choose|i: int| 0 <= i < ks.len() && ks[i] == q;
                    lemma_key_index(ks, i);
                    lemma_key_index(ks, p as int);
                }
                lemma_key_index(ks, p as int);
                assert(table_map(ks, nvs) =~= table_map(ks, vs).insert(k, value.deep_view()));
            }
            *self = StrMap { keys, vals };
        } else {
            proof {
                if p < keys@.len() {
                    lemma_lex_total(ks[p as int], k);
                }
            }
            keys.insert(p, key);
            vals.insert(p, value);
            proof {
                let nks = strings_view(keys@);
                let nvs = vals@.map_values(|v: V| v.deep_view());
                assert(nks =~= ks.insert(p as int, k));
                assert(nvs =~= vs.insert(p as int, value.deep_view()));
                assert forall|i: int, j: int| 0 <= i < j < nks.len() implies lex_lt(
                    #[trigger] nks[i],
                    #[trigger] nks[j],
                ) by {
                    if i < p && j < p {
                    } else if i < p && j == p {
                    } else if i < p && j > p {
                        assert(nks[j] == ks[j - 1]);
                        if j - 1 > p {
                            assert(lex_lt(ks[p as int], ks[j - 1]));
                            lemma_lex_transitive(ks[i], k, ks[p as int]);
                            lemma_lex_transitive(ks[i], ks[p as int], ks[j - 1]);
                        } else {
                            lemma_lex_transitive(ks[i], k, ks[p as int]);
                        }
                    } else if i == p {
                        assert(nks[j] == ks[j - 1]);
                        if j - 1 > p {
                            assert(lex_lt(ks[p as int], ks[j - 1]));
                            lemma_lex_transitive(k, ks[p as int], ks[j - 1]);
                        }
                    } else {
                        assert(nks[i] == ks[i - 1]);
                        assert(nks[j] == ks[j - 1]);
                    }
                }
                assert forall|q: Seq<char>| #[trigger] has_key(nks, q) <==> (has_key(ks, q) || q
                    == k) by {
                    if has_key(nks, q) {
                        let i = choose|i: int| 0 <= i < nks.len() && nks[i] == q;
                        if i < p {
                            assert(ks[i] == q);
                        } else if i > p {
                            assert(ks[i - 1] == q);
                        }
                    }
                    if has_key(ks, q) {
                        let i = choose|i: int| 0 <= i < ks.len() && ks[i] == q;
                        if i < p {
                            assert(nks[i] == q);
                        } else {
                            assert(nks[i + 1] == q);
                        }
                    }
                    if q == k {
                        assert(nks[p as int] == q);
                    }
                }
                assert forall|q: Seq<char>| #[trigger] has_key(nks, q) implies nvs[key_index(
                    nks,
                    q,
                )] == (if q == k {
                    value.deep_view()
                } else {
                    vs[key_index(ks, q)]
                }) by {
                    if q == k {
                        lemma_key_index(nks, p as int);
                    } else {
                        let i = choose|i: int| 0 <= i < ks.len() && ks[i] == q;
                        lemma_key_index(ks, i);
                        if i < p {
                            assert(nks[i] == q);
                            lemma_key_index(nks, i);
                        } else {
                            assert(nks[i + 1] == q);
                            lemma_key_index(nks, i + 1);
                        }
                    }
                }
                assert(table_map(nks, nvs) =~= table_map(ks, vs).insert(k, value.deep_view()));
            }
            *self = StrMap { keys, vals };
        }
    }
}

/// The values listed in increasing order of their keys: `out` pairs
/// position by position with a sorted list of exactly the map's keys.
pub open spec fn listed_by_key(out: Seq<Seq<char>>, m: Map<Seq<char>, Seq<char>>) -> bool {
    exists|keys: Seq<Seq<char>>|
        #![trigger keys_sorted(keys)]
        keys.len() == out.len() && keys_sorted(keys) && (forall|k: Seq<char>|
            #[trigger] m.contains_key(k) <==> keys.contains(k)) && (forall|i: int|
            0 <= i < keys.len() ==> m[keys[i]] == #[trigger] out[i])
}

impl StrMap<String> {
    /// The values, in increasing order of their keys.
    pub fn string_values(&self) -> (r: Vec<String>)
        ensures
            listed_by_key(strings_view(r@), self@),
    {
        proof {
            use_type_invariant(self);
        }
        let mut r: Vec<String> = Vec::new();
        let mut i: usize = 0;
        while i < self.vals.len()
            invariant
                i <= self.vals@.len(),
                r@ == self.vals@.take(i as int),
            decreases self.vals@.len() - i,
        {
            r.push(self.vals[i].clone());
            i = i + 1;
            assert(r@ =~= self.vals@.take(i as int));
        }
        assert(r@ =~= self.vals@);
        proof {
            let keys = self.key_list();
            assert forall|k: Seq<char>| #[trigger] self@.contains_key(k) <==> keys.contains(k) by {
                if keys.contains(k) {
                    let j = choose|j: int| 0 <= j < keys.len() && keys[j] == k;
                    assert(has_key(keys, k));
                }
            }
            assert forall|j: int| 0 <= j < keys.len() implies self@[keys[j]] == #[trigger] strings_view(
                r@,
            )[j] by {
                lemma_key_index(keys, j);
            }
            assert(keys_sorted(keys));
        }
        r
    }
}

impl<V: Clone> Clone for StrMap<V> {
    /// A copy with the same keys, each value cloned.
    fn clone(&self) -> (r: Self) {
        proof {
            use_type_invariant(self);
        }
        let mut keys: Vec<String> = Vec::new();
        let mut i: usize = 0;
        while i < self.keys.len()
            invariant
                i <= self.keys@.len(),
                keys@ == self.keys@.take(i as int),
            decreases self.keys@.len() - i,
        {
            keys.push(self.keys[i].clone());
            i = i + 1;
            assert(keys@ =~= self.keys@.take(i as int));
        }
        assert(keys@ =~= self.keys@);
        let vals = self.vals.clone();
        StrMap { keys, vals }
    }
}

} // verus!
