//! An insertion-ordered map keyed by strings.
use vstd::prelude::*;

verus! {

/// A map from strings to `V` that remembers the order in which its keys arrived.
///
/// The mathematical value of a `KeyMap` is the finite map `self@` together with the
/// duplicate-free listing `self.order()` of its domain.
#[derive(Debug)]
pub struct KeyMap<V> {
    keys: Vec<String>,
    values: Vec<V>,
}

/// The text of each string.
pub open spec fn texts(keys: Seq<String>) -> Seq<Seq<char>> {
    Seq::new(keys.len(), |i: int| keys[i]@)
}

/// The map that pairs `keys[i]` with `values[i]`.
pub open spec fn paired<K, V>(keys: Seq<K>, values: Seq<V>) -> Map<K, V> {
    Map::new(|k: K| keys.contains(k), |k: K| values[keys.index_of(k)])
}

pub proof fn lemma_index_of<K>(keys: Seq<K>, i: int)
    requires
        keys.no_duplicates(),
        0 <= i < keys.len(),
    ensures
        keys.contains(keys[i]),
        keys.index_of(keys[i]) == i,
{
    assert(keys.contains(keys[i]));
    let j = keys.index_of(keys[i]);
    assert(keys[j] == keys[i]);
}

pub proof fn lemma_listed<K, V>(keys: Seq<K>, values: Seq<V>)
    requires
        keys.no_duplicates(),
    ensures
        keys.to_set() =~= paired(keys, values).dom(),
        paired(keys, values).dom().finite(),
        paired(keys, values).len() == keys.len(),
        forall|k: K| #[trigger]
            keys.contains(k) <==> paired(keys, values).contains_key(k),
{
    keys.unique_seq_to_set();
    vstd::seq_lib::seq_to_set_is_finite(keys);
    assert(keys.to_set() =~= paired(keys, values).dom());
}

pub proof fn lemma_push<K, V>(keys: Seq<K>, values: Seq<V>, key: K, value: V)
    requires
        keys.no_duplicates(),
        keys.len() == values.len(),
        !keys.contains(key),
    ensures
        keys.push(key).no_duplicates(),
        paired(keys.push(key), values.push(value)) == paired(keys, values).insert(key, value),
{
    let ks = keys.push(key);
    assert(ks.no_duplicates());
    assert forall|k: K| ks.contains(k) <==> keys.contains(k) || k == key by {
        if keys.contains(k) {
            assert(ks[keys.index_of(k)] == k);
        }
        if k == key {
            assert(ks[keys.len() as int] == k);
        }
        if ks.contains(k) && k != key {
            assert(keys[ks.index_of(k)] == k);
        }
    }
    assert forall|k: K| ks.contains(k) implies #[trigger] paired(
        ks,
        values.push(value),
    )[k] == paired(keys, values).insert(key, value)[k] by {
        if k == key {
            lemma_index_of(ks, keys.len() as int);
        } else {
            let q = keys.index_of(k);
            lemma_index_of(ks, q);
        }
    }
    assert(paired(ks, values.push(value)) =~= paired(keys, values).insert(key, value));
}

pub proof fn lemma_update<K, V>(keys: Seq<K>, values: Seq<V>, i: int, value: V)
    requires
        keys.no_duplicates(),
        keys.len() == values.len(),
        0 <= i < keys.len(),
    ensures
        paired(keys, values.update(i, value)) == paired(keys, values).insert(keys[i], value),
{
    lemma_index_of(keys, i);
    assert(paired(keys, values.update(i, value)) =~= paired(keys, values).insert(keys[i], value));
}

pub proof fn lemma_remove<K, V>(keys: Seq<K>, values: Seq<V>, i: int)
    requires
        keys.no_duplicates(),
        keys.len() == values.len(),
        0 <= i < keys.len(),
    ensures
        keys.remove(i).no_duplicates(),
        paired(keys.remove(i), values.remove(i)) == paired(keys, values).remove(keys[i]),
{
    let ks = keys.remove(i);
    assert forall|k: K| ks.contains(k) <==> keys.contains(k) && k != keys[i] by {
        if keys.contains(k) && k != keys[i] {
            let q = keys.index_of(k);
            assert(ks[if q < i {
                q
            } else {
                q - 1
            }] == k);
        }
        if ks.contains(k) {
            let q = ks.index_of(k);
            assert(keys[if q < i {
                q
            } else {
                q + 1
            }] == k);
        }
    }
    assert forall|k: K| ks.contains(k) implies #[trigger] paired(ks, values.remove(i))[k]
        == paired(keys, values).remove(keys[i])[k] by {
        let q = keys.index_of(k);
        lemma_index_of(ks, if q < i {
            q
        } else {
            q - 1
        });
    }
    assert(paired(ks, values.remove(i)) =~= paired(keys, values).remove(keys[i]));
}

impl<V> View for KeyMap<V> {
    type V = Map<Seq<char>, V>;

    closed spec fn view(&self) -> Map<Seq<char>, V> {
        paired(texts(self.keys@), self.values@)
    }
}

impl<V> KeyMap<V> {
    #[verifier::type_invariant]
    spec fn inv(self) -> bool {
        &&& texts(self.keys@).no_duplicates()
        &&& self.keys@.len() == self.values@.len()
    }

    /// The keys, oldest first.
    pub closed spec fn order(&self) -> Seq<Seq<char>> {
        texts(self.keys@)
    }

    /// Every key of the map is listed once, and nothing else is.
    pub open spec fn listed(&self) -> bool {
        &&& self.order().no_duplicates()
        &&& self.order().to_set() == self@.dom()
        &&& forall|k: Seq<char>| #[trigger] self.order().contains(k) <==> self@.contains_key(k)
        &&& self@.dom().finite()
        &&& self@.len() == self.order().len()
    }

    /// The empty map.
    pub fn new() -> (m: Self)
        ensures
            m@ == Map::<Seq<char>, V>::empty(),
            m.order() == Seq::<Seq<char>>::empty(),
            m.listed(),
    {
        let m = KeyMap { keys: Vec::new(), values: Vec::new() };
        proof {
            lemma_listed(texts(m.keys@), m.values@);
        }
        assert(m@ =~= Map::<Seq<char>, V>::empty());
        m
    }

    /// The number of keys.
    pub fn len(&self) -> (n: usize)
        ensures
            n == self@.len(),
            self.listed(),
    {
        proof {
            use_type_invariant(self);
            lemma_listed(texts(self.keys@), self.values@);
        }
        self.keys.len()
    }

    fn position(&self, key: &String) -> (p: Option<usize>)
        ensures
            match p {
                Some(i) => {
                    &&& i < self.keys@.len()
                    &&& self.keys@[i as int]@ == key@
                    &&& self.order().contains(key@)
                    &&& self.order().index_of(key@) == i
                },
                None => !self.order().contains(key@),
            },
    {
        proof {
            use_type_invariant(self);
        }
        let mut i: usize = 0;
        while i < self.keys.len()
            invariant
                i <= self.keys@.len(),
                texts(self.keys@).no_duplicates(),
                forall|j: int| 0 <= j < i ==> #[trigger] texts(self.keys@)[j] != key@,
            decreases self.keys@.len() - i,
        {
            if self.keys[i] == *key {
                proof {
                    lemma_index_of(texts(self.keys@), i as int);
                }
                return Some(i);
            }
            i += 1;
        }
        None
    }

    /// Whether `key` is present.
    pub fn contains_key(&self, key: &String) -> (b: bool)
        ensures
            b == self@.contains_key(key@),
    {
        self.position(key).is_some()
    }

    /// The value stored under `key`.
    pub fn get(&self, key: &String) -> (v: Option<&V>)
        ensures
            match v {
                Some(x) => self@.contains_key(key@) && *x == self@[key@],
                None => !self@.contains_key(key@),
            },
    {
        proof {
            use_type_invariant(self);
        }
        match self.position(key) {
            Some(i) => Some(&self.values[i]),
            None => None,
        }
    }

    /// The `i`th key, oldest first.
    pub fn key_at(&self, i: usize) -> (k: &String)
        requires
            i < self.order().len(),
        ensures
            k@ == self.order()[i as int],
            self@.contains_key(k@),
    {
        &self.keys[i]
    }

    /// The value stored under the `i`th key.
    pub fn value_at(&self, i: usize) -> (v: &V)
        requires
            i < self.order().len(),
        ensures
            *v == self@[self.order()[i as int]],
            self@.contains_key(self.order()[i as int]),
    {
        proof {
            use_type_invariant(self);
            lemma_index_of(self.order(), i as int);
        }
        &self.values[i]
    }

    /// Exclusive access to the value stored under the `i`th key.
    pub fn value_at_mut(&mut self, i: usize) -> (v: &mut V)
        requires
            i < old(self).order().len(),
        ensures
            *v == old(self)@[old(self).order()[i as int]],
            old(self)@.contains_key(old(self).order()[i as int]),
            final(self)@ == old(self)@.insert(old(self).order()[i as int], *final(v)),
            final(self).order() == old(self).order(),
    {
        proof {
            use_type_invariant(&*self);
            lemma_index_of(self.order(), i as int);
            assert forall|x: V|
                #[trigger] paired(self.order(), self.values@.update(i as int, x))
                    == self@.insert(self.order()[i as int], x) by {
                lemma_update(self.order(), self.values@, i as int, x);
            }
        }
        &mut self.values[i]
    }

    /// Exclusive access to the value stored under `key`.
    pub fn get_mut(&mut self, key: &String) -> (v: Option<&mut V>)
        ensures
            final(self).order() == old(self).order(),
            match v {
                Some(x) => {
                    &&& old(self)@.contains_key(key@)
                    &&& *x == old(self)@[key@]
                    &&& final(self)@ == old(self)@.insert(key@, *final(x))
                },
                None => !old(self)@.contains_key(key@) && final(self)@ == old(self)@,
            },
    {
        match self.position(key) {
            Some(i) => Some(self.value_at_mut(i)),
            None => None,
        }
    }

    /// Stores `value` under `key`, in place where the key is present and at the end where not.
    pub fn insert(&mut self, key: String, value: V) -> (previous: Option<V>)
        ensures
            final(self).listed(),
            final(self)@ == old(self)@.insert(key@, value),
            final(self).order() == (if old(self)@.contains_key(key@) {
                old(self).order()
            } else {
                old(self).order().push(key@)
            }),
            match previous {
                Some(v) => old(self)@.contains_key(key@) && v == old(self)@[key@],
                None => !old(self)@.contains_key(key@),
            },
    {
        proof {
            use_type_invariant(&*self);
        }
        let ghost ks = self.order();
        let ghost vs = self.values@;
        match self.position(&key) {
            Some(i) => {
                let mut whole = KeyMap { keys: Vec::new(), values: Vec::new() };
                std::mem::swap(&mut whole, self);
                let mut keys = whole.keys;
                let mut values = whole.values;
                values.push(value);
                let v = values.swap_remove(i);
                proof {
                    lemma_update(ks, vs, i as int, value);
                    assert(values@ =~= vs.update(i as int, value));
                    lemma_listed(ks, values@);
                }
                *self = KeyMap { keys, values };
                Some(v)
            },
            None => {
                let mut whole = KeyMap { keys: Vec::new(), values: Vec::new() };
                std::mem::swap(&mut whole, self);
                let mut keys = whole.keys;
                let mut values = whole.values;
                keys.push(key);
                values.push(value);
                proof {
                    lemma_push(ks, vs, key@, value);
                    assert(texts(keys@) =~= ks.push(key@));
                    lemma_listed(texts(keys@), values@);
                }
                *self = KeyMap { keys, values };
                None
            },
        }
    }

    /// Takes `key` and its value out.
    pub fn remove(&mut self, key: &String) -> (removed: Option<V>)
        ensures
            final(self).listed(),
            final(self)@ == old(self)@.remove(key@),
            match removed {
                Some(v) => old(self)@.contains_key(key@) && v == old(self)@[key@]
                    && final(self).order() == old(self).order().remove(
                    old(self).order().index_of(key@),
                ),
                None => !old(self)@.contains_key(key@) && final(self).order() == old(self).order(),
            },
    {
        proof {
            use_type_invariant(&*self);
        }
        let ghost ks = self.order();
        let ghost vs = self.values@;
        match self.position(key) {
            Some(i) => {
                let mut whole = KeyMap { keys: Vec::new(), values: Vec::new() };
                std::mem::swap(&mut whole, self);
                let mut keys = whole.keys;
                let mut values = whole.values;
                keys.remove(i);
                let v = values.remove(i);
                proof {
                    lemma_remove(ks, vs, i as int);
                    assert(texts(keys@) =~= ks.remove(i as int));
                    lemma_listed(texts(keys@), values@);
                }
                *self = KeyMap { keys, values };
                Some(v)
            },
            None => {
                proof {
                    lemma_listed(ks, vs);
                    assert(self@.remove(key@) =~= self@);
                }
                None
            },
        }
    }
}

} // verus!
