//! A string-keyed table whose lookups go through a `DashMap`.
use dashmap::DashMap;
use vstd::prelude::*;

use crate::keymap;

verus! {

/// `dashmap::DashMap`, seen as an opaque type.
#[verifier::external_type_specification]
#[verifier::external_body]
#[verifier::reject_recursive_types(K)]
#[verifier::reject_recursive_types(V)]
#[verifier::reject_recursive_types(S)]
pub struct ExDashMap<K, V, S>(dashmap::DashMap<K, V, S>);

/// The position that a `DashMap` holds for each of its keys.
pub uninterp spec fn positions(index: DashMap<String, u64>) -> Map<Seq<char>, u64>;

/// `DashMap::new`: the map it returns holds nothing.
#[verifier::external_body]
fn index_new() -> (index: DashMap<String, u64>)
    ensures
        forall|k: Seq<char>| !(#[trigger] positions(index).contains_key(k)),
{
    DashMap::new()
}

/// `DashMap::insert`: afterwards the key has the given value, and no other key is touched.
#[verifier::external_body]
fn index_insert(index: &mut DashMap<String, u64>, key: String, position: u64)
    ensures
        positions(*final(index)) == positions(*old(index)).insert(key@, position),
{
    index.insert(key, position);
}

/// `DashMap::remove`: afterwards the key is absent, and no other key is touched.
#[verifier::external_body]
fn index_remove(index: &mut DashMap<String, u64>, key: &String)
    ensures
        positions(*final(index)) == positions(*old(index)).remove(key@),
{
    index.remove(key);
}

/// `DashMap::get`: the value held for the key, where the key is present.
#[verifier::external_body]
fn index_get(index: &DashMap<String, u64>, key: &String) -> (position: Option<u64>)
    ensures
        match position {
            Some(p) => positions(*index).contains_key(key@) && p == positions(*index)[key@],
            None => !positions(*index).contains_key(key@),
        },
{
    index.get(key).map(|entry| *entry.value())
}

/// A table from strings to `V`.
///
/// Its mathematical value is the map `self@`; `self.order()` lists the keys by position.
pub struct Table<V> {
    index: DashMap<String, u64>,
    keys: Vec<String>,
    values: Vec<V>,
}

/// Each key's place in `keys`.
pub open spec fn places(keys: Seq<Seq<char>>) -> Map<Seq<char>, u64> {
    Map::new(|k: Seq<char>| keys.contains(k), |k: Seq<char>| keys.index_of(k) as u64)
}

impl<V> View for Table<V> {
    type V = Map<Seq<char>, V>;

    closed spec fn view(&self) -> Map<Seq<char>, V> {
        keymap::paired(keymap::texts(self.keys@), self.values@)
    }
}

impl<V> Table<V> {
    /// Keys are distinct, and the index holds exactly the place of each.
    pub closed spec fn wf(&self) -> bool {
        &&& keymap::texts(self.keys@).no_duplicates()
        &&& self.keys@.len() == self.values@.len()
        &&& positions(self.index) == places(keymap::texts(self.keys@))
    }

    /// The keys by position.
    pub closed spec fn order(&self) -> Seq<Seq<char>> {
        keymap::texts(self.keys@)
    }

    /// Every key of the table is listed once, and nothing else is.
    pub open spec fn listed(&self) -> bool {
        &&& self.order().no_duplicates()
        &&& self.order().to_set() == self@.dom()
        &&& forall|k: Seq<char>| #[trigger] self.order().contains(k) <==> self@.contains_key(k)
        &&& self@.dom().finite()
        &&& self@.len() == self.order().len()
    }

    /// A well-formed table lists its keys.
    pub proof fn lemma_listed(&self)
        requires
            self.wf(),
        ensures
            self.listed(),
    {
        keymap::lemma_listed(self.order(), self.values@);
    }

    /// The empty table.
    pub fn new() -> (t: Self)
        ensures
            t.wf(),
            t@ == Map::<Seq<char>, V>::empty(),
            t.order() == Seq::<Seq<char>>::empty(),
    {
        let t = Table { index: index_new(), keys: Vec::new(), values: Vec::new() };
        assert(positions(t.index) =~= places(keymap::texts(t.keys@)));
        assert(t@ =~= Map::<Seq<char>, V>::empty());
        t
    }

    /// The number of keys.
    pub fn len(&self) -> (n: usize)
        requires
            self.wf(),
        ensures
            n == self@.len(),
            self.listed(),
    {
        proof {
            self.lemma_listed();
        }
        self.keys.len()
    }

    fn position(&self, key: &String) -> (p: Option<usize>)
        requires
            self.wf(),
        ensures
            match p {
                Some(i) => {
                    &&& i < self.keys@.len()
                    &&& self.keys@[i as int]@ == key@
                    &&& self.order().contains(key@)
                    &&& self.order().index_of(key@) == i
                },
                None => !self.order().contains(key@),
            },
    {
        match index_get(&self.index, key) {
            Some(p) => {
                proof {
                    assert(self.order().contains(key@));
                    let i = self.order().index_of(key@);
                    assert(self.order()[i] == key@);
                    assert(i < self.keys.len());
                }
                Some(p as usize)
            },
            None => None,
        }
    }

    /// Whether `key` is present.
    pub fn contains_key(&self, key: &String) -> (b: bool)
        requires
            self.wf(),
        ensures
            b == self@.contains_key(key@),
    {
        self.position(key).is_some()
    }

    /// The value stored under `key`.
    pub fn get(&self, key: &String) -> (v: Option<&V>)
        requires
            self.wf(),
        ensures
            match v {
                Some(x) => self@.contains_key(key@) && *x == self@[key@],
                None => !self@.contains_key(key@),
            },
    {
        match self.position(key) {
            Some(i) => Some(&self.values[i]),
            None => None,
        }
    }

    /// The key at position `i`.
    pub fn key_at(&self, i: usize) -> (k: &String)
        requires
            self.wf(),
            i < self.order().len(),
        ensures
            k@ == self.order()[i as int],
            self@.contains_key(k@),
    {
        &self.keys[i]
    }

    /// The value at position `i`.
    pub fn value_at(&self, i: usize) -> (v: &V)
        requires
            self.wf(),
            i < self.order().len(),
        ensures
            *v == self@[self.order()[i as int]],
            self@.contains_key(self.order()[i as int]),
    {
        proof {
            keymap::lemma_index_of(self.order(), i as int);
        }
        &self.values[i]
    }

    /// The keys by position.
    pub fn keys(&self) -> (ks: Vec<String>)
        requires
            self.wf(),
        ensures
            keymap::texts(ks@) == self.order(),
            self.listed(),
    {
        let mut ks: Vec<String> = Vec::new();
        let n: usize = self.len();
        let mut i: usize = 0;
        while i < n
            invariant
                i <= n,
                n == self.order().len(),
                self.wf(),
                keymap::texts(ks@) == self.order().take(i as int),
            decreases n - i,
        {
            let k = self.key_at(i).clone();
            let ghost before = ks@;
            ks.push(k);
            assert(keymap::texts(ks@) =~= keymap::texts(before).push(k@));
            assert(self.order().take(i + 1) =~= self.order().take(i as int).push(k@));
            i += 1;
        }
        assert(self.order().take(i as int) =~= self.order());
        proof {
            self.lemma_listed();
        }
        ks
    }

    /// Exclusive access to the value stored under `key`.
    pub fn get_mut(&mut self, key: &String) -> (v: Option<&mut V>)
        requires
            old(self).wf(),
        ensures
            final(self).wf(),
            final(self).order() == old(self).order(),
            match v {
                Some(x) => {
                    &&& old(self)@.contains_key(key@)
                    &&& *x == old(self)@[key@]
                    &&& final(self)@ == old(self)@.insert(key@, *final(x))
                },
                None => !old(self)@.contains_key(key@) && final(self)@ == old(self)@,
            },
    {
        match self.position(key) {
            Some(i) => Some(self.value_at_mut(i)),
            None => None,
        }
    }

    /// Exclusive access to the value at position `i`.
    pub fn value_at_mut(&mut self, i: usize) -> (v: &mut V)
        requires
            old(self).wf(),
            i < old(self).order().len(),
        ensures
            *v == old(self)@[old(self).order()[i as int]],
            old(self)@.contains_key(old(self).order()[i as int]),
            final(self).wf(),
            final(self)@ == old(self)@.insert(old(self).order()[i as int], *final(v)),
            final(self).order() == old(self).order(),
    {
        proof {
            keymap::lemma_index_of(self.order(), i as int);
            assert forall|x: V| #[trigger]
                keymap::paired(self.order(), self.values@.update(i as int, x)) == self@.insert(
                    self.order()[i as int],
                    x,
                ) by {
                keymap::lemma_update(self.order(), self.values@, i as int, x);
            }
        }
        &mut self.values[i]
    }

    /// Stores `value` under `key`.
    pub fn insert(&mut self, key: String, value: V) -> (previous: Option<V>)
        requires
            old(self).wf(),
        ensures
            final(self).wf(),
            final(self)@ == old(self)@.insert(key@, value),
            final(self).order() == (if old(self)@.contains_key(key@) {
                old(self).order()
            } else {
                old(self).order().push(key@)
            }),
            match previous {
                Some(v) => old(self)@.contains_key(key@) && v == old(self)@[key@],
                None => !old(self)@.contains_key(key@),
            },
    {
        let ghost ks = self.order();
        let ghost vs = self.values@;
        match self.position(&key) {
            Some(i) => {
                self.values.push(value);
                let v = self.values.swap_remove(i);
                proof {
                    keymap::lemma_update(ks, vs, i as int, value);
                    assert(self.values@ =~= vs.update(i as int, value));
                }
                Some(v)
            },
            None => {
                let n: usize = self.keys.len();
                index_insert(&mut self.index, key.clone(), n as u64);
                self.keys.push(key);
                self.values.push(value);
                proof {
                    keymap::lemma_push(ks, vs, key@, value);
                    assert(self.order() =~= ks.push(key@));
                    assert forall|k: Seq<char>| self.order().contains(k) <==> ks.contains(k) || k
                        == key@ by {
                        if ks.contains(k) {
                            assert(self.order()[ks.index_of(k)] == k);
                        }
                        if k == key@ {
                            assert(self.order()[n as int] == k);
                        }
                        if self.order().contains(k) && k != key@ {
                            assert(ks[self.order().index_of(k)] == k);
                        }
                    }
                    assert forall|k: Seq<char>| self.order().contains(k) implies #[trigger]
                        positions(self.index)[k] == places(self.order())[k] by {
                        if k == key@ {
                            keymap::lemma_index_of(self.order(), n as int);
                        } else {
                            keymap::lemma_index_of(self.order(), ks.index_of(k));
                        }
                    }
                    assert(positions(self.index) =~= places(self.order()));
                }
                None
            },
        }
    }

    /// Takes `key` and its value out. The last key moves into the gap.
    pub fn remove(&mut self, key: &String) -> (removed: Option<V>)
        requires
            old(self).wf(),
        ensures
            final(self).wf(),
            final(self)@ == old(self)@.remove(key@),
            match removed {
                Some(v) => old(self)@.contains_key(key@) && v == old(self)@[key@],
                None => !old(self)@.contains_key(key@) && final(self).order() == old(self).order(),
            },
    {
        let ghost ks = self.order();
        let ghost vs = self.values@;
        match self.position(key) {
            Some(i) => {
                let last: usize = self.keys.len() - 1;
                let moved = self.keys[last].clone();
                index_insert(&mut self.index, moved, i as u64);
                index_remove(&mut self.index, key);
                self.keys.swap_remove(i);
                let v = self.values.swap_remove(i);
                proof {
                    lemma_swap_remove(ks, vs, i as int);
                    assert(self.order() =~= ks.update(i as int, ks.last()).drop_last());
                    assert(self.values@ =~= vs.update(i as int, vs.last()).drop_last());
                    assert(positions(self.index) =~= places(self.order()));
                }
                Some(v)
            },
            None => {
                assert(self@.remove(key@) =~= self@);
                None
            },
        }
    }
}

proof fn lemma_swap_remove<V>(keys: Seq<Seq<char>>, values: Seq<V>, i: int)
    requires
        keys.no_duplicates(),
        keys.len() == values.len(),
        0 <= i < keys.len(),
        keys.len() <= usize::MAX,
    ensures
        ({
            let ks = keys.update(i, keys.last()).drop_last();
            let vs = values.update(i, values.last()).drop_last();
            &&& ks.no_duplicates()
            &&& keymap::paired(ks, vs) == keymap::paired(keys, values).remove(keys[i])
            &&& places(ks) == places(keys).insert(keys.last(), i as u64).remove(keys[i])
        }),
{
    let ks = keys.update(i, keys.last()).drop_last();
    let vs = values.update(i, values.last()).drop_last();
    let n = keys.len() - 1;
    assert(ks.no_duplicates());
    assert forall|k: Seq<char>| ks.contains(k) <==> keys.contains(k) && k != keys[i] by {
        if keys.contains(k) && k != keys[i] {
            let q = keys.index_of(k);
            if q == n {
                assert(ks[i] == k);
            } else {
                assert(ks[q] == k);
            }
        }
        if ks.contains(k) {
            let q = ks.index_of(k);
            if q == i {
                assert(keys[n] == k);
            } else {
                assert(keys[q] == k);
            }
        }
    }
    assert forall|k: Seq<char>| ks.contains(k) implies ({
        &&& #[trigger] keymap::paired(ks, vs)[k] == keymap::paired(keys, values).remove(keys[i])[k]
        &&& places(ks)[k] == places(keys).insert(keys.last(), i as u64).remove(keys[i])[k]
    }) by {
        let q = keys.index_of(k);
        keymap::lemma_index_of(keys, n);
        if q == n {
            keymap::lemma_index_of(ks, i);
        } else {
            keymap::lemma_index_of(ks, q);
        }
    }
    assert(keys.contains(keys.last()));
    assert(keymap::paired(ks, vs) =~= keymap::paired(keys, values).remove(keys[i]));
    assert(places(ks) =~= places(keys).insert(keys.last(), i as u64).remove(keys[i]));
}

} // verus!
