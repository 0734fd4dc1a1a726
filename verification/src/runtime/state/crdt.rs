//! Replicated data types: replicas that have seen the same updates agree, in whatever
//! order the updates arrived.
use vstd::prelude::*;

use crate::common::NodeId;
use crate::keymap;
use crate::keymap::KeyMap;
use crate::runtime::state::hlc;
use crate::runtime::state::hlc::HlcTimestamp;
use crate::text;
use crate::text::text_before;

verus! {

/// A replicated data type: updated here by operations, and brought together with the
/// state of another replica.
pub trait Crdt: Sized {
    type Op;

    /// `after` is `self` with the operation applied.
    spec fn applied(&self, op: Self::Op, after: &Self) -> bool;

    /// `after` is `self` brought together with `other`.
    spec fn joined(&self, other: &Self, after: &Self) -> bool;

    /// The value is in order.
    spec fn valid(&self) -> bool;

    /// Applies an operation.
    fn apply(&mut self, op: &Self::Op)
        requires
            old(self).valid(),
        ensures
            final(self).valid(),
            old(self).applied(*op, final(self)),
    ;

    /// Brings in the state of another replica.
    fn merge(&mut self, other: &Self)
        requires
            old(self).valid(),
            other.valid(),
        ensures
            final(self).valid(),
            old(self).joined(other, final(self)),
    ;
}

/// A counter that only grows: for each node how far it has counted.
#[derive(Debug)]
pub struct GCounter {
    pub counts: KeyMap<u64>,
}

/// The count of a node; zero where it has none.
pub open spec fn count_of(counts: Map<Seq<char>, u64>, node: Seq<char>) -> u64 {
    if counts.contains_key(node) {
        counts[node]
    } else {
        0
    }
}

/// `counts` with the count of `node` raised to `count` where it is less.
pub open spec fn raised(
    counts: Map<Seq<char>, u64>,
    node: Seq<char>,
    count: u64,
) -> Map<Seq<char>, u64> {
    counts.insert(
        node,
        if count_of(counts, node) >= count {
            count_of(counts, node)
        } else {
            count
        },
    )
}

/// For each node the greater of its counts.
pub open spec fn greatest(a: Map<Seq<char>, u64>, b: Map<Seq<char>, u64>) -> Map<Seq<char>, u64> {
    Map::new(
        |n: Seq<char>| a.contains_key(n) || b.contains_key(n),
        |n: Seq<char>|
            if count_of(a, n) >= count_of(b, n) {
                count_of(a, n)
            } else {
                count_of(b, n)
            },
    )
}

/// The sum of the counts of the nodes in `order`.
pub open spec fn total(order: Seq<Seq<char>>, counts: Map<Seq<char>, u64>) -> int
    decreases order.len(),
{
    if order.len() == 0 {
        0
    } else {
        total(order.drop_last(), counts) + counts[order.last()]
    }
}

/// `order` lists the nodes that have a count, each once.
pub open spec fn lists_nodes(order: Seq<Seq<char>>, counts: Map<Seq<char>, u64>) -> bool {
    order.no_duplicates() && order.to_set() == counts.dom()
}

proof fn lemma_total_remove(order: Seq<Seq<char>>, counts: Map<Seq<char>, u64>, i: int)
    requires
        0 <= i < order.len(),
    ensures
        total(order, counts) == total(order.remove(i), counts) + counts[order[i]],
    decreases order.len(),
{
    if i == order.len() - 1 {
        assert(order.remove(i) =~= order.drop_last());
    } else {
        let init = order.drop_last();
        lemma_total_remove(init, counts, i);
        assert(order.remove(i).drop_last() =~= init.remove(i));
        assert(order.remove(i).last() == order.last());
    }
}

/// The sum does not depend on the order of the nodes.
proof fn lemma_total_unordered(
    a: Seq<Seq<char>>,
    b: Seq<Seq<char>>,
    counts: Map<Seq<char>, u64>,
)
    requires
        a.no_duplicates(),
        b.no_duplicates(),
        a.to_set() == b.to_set(),
    ensures
        total(a, counts) == total(b, counts),
    decreases a.len(),
{
    a.unique_seq_to_set();
    b.unique_seq_to_set();
    if a.len() > 0 {
        let k = a.last();
        assert(a.to_set().contains(k));
        assert(b.contains(k));
        let i = b.index_of(k);
        let c = b.remove(i);
        lemma_total_remove(b, counts, i);
        assert forall|x: Seq<char>| #[trigger] c.contains(x) <==> b.contains(x) && x != k by {
            if b.contains(x) && x != k {
                let j = b.index_of(x);
                if j < i {
                    assert(c[j] == x);
                } else {
                    assert(c[j - 1] == x);
                }
            }
            if c.contains(x) {
                let j = c.index_of(x);
                if j < i {
                    assert(b[j] == x);
                } else {
                    assert(b[j + 1] == x);
                }
            }
        }
        assert forall|x: Seq<char>| #[trigger] a.drop_last().contains(x) <==> a.contains(x) && x
            != k by {
            if a.contains(x) && x != k {
                assert(a.drop_last()[a.index_of(x)] == x);
            }
            if a.drop_last().contains(x) {
                assert(a[a.drop_last().index_of(x)] == x);
            }
        }
        assert(a.drop_last().to_set() =~= c.to_set()) by {
            assert forall|x: Seq<char>| a.drop_last().to_set().contains(x) <==> c.to_set().contains(
                x,
            ) by {
                assert(a.to_set().contains(x) <==> b.to_set().contains(x));
            }
        }
        lemma_total_unordered(a.drop_last(), c, counts);
    } else {
        assert(b.len() == 0);
    }
}

impl GCounter {
    /// A counter that nobody has counted.
    pub fn new() -> (c: Self)
        ensures
            c.counts@ == Map::<Seq<char>, u64>::empty(),
    {
        GCounter { counts: KeyMap::new() }
    }

    /// The sum of all counts.
    pub fn value(&self) -> (v: u64)
        requires
            forall|order: Seq<Seq<char>>| #[trigger]
                lists_nodes(order, self.counts@) ==> total(order, self.counts@) <= u64::MAX,
        ensures
            forall|order: Seq<Seq<char>>| #[trigger]
                lists_nodes(order, self.counts@) ==> v == total(order, self.counts@),
    {
        let ghost order = self.counts.order();
        let ghost m = self.counts@;
        let n: usize = self.counts.len();
        let mut sum: u64 = 0;
        let mut i: usize = 0;
        assert(lists_nodes(order, m));
        assert(order.take(n as int) =~= order);
        while i < n
            invariant
                i <= n,
                n == order.len(),
                order == self.counts.order(),
                m == self.counts@,
                sum == total(order.take(i as int), m),
                total(order, m) <= u64::MAX,
            decreases n - i,
        {
            let c: u64 = *self.counts.value_at(i);
            proof {
                assert(order.take(i + 1).drop_last() =~= order.take(i as int));
                lemma_total_grows(order, m, i + 1);
            }
            sum = sum + c;
            i += 1;
        }
        proof {
            assert forall|other: Seq<Seq<char>>| #[trigger] lists_nodes(other, m) implies sum
                == total(other, m) by {
                lemma_total_unordered(order, other, m);
            }
        }
        sum
    }

    /// Counts one more for a node.
    pub fn increment(&mut self, node: NodeId)
        requires
            count_of(old(self).counts@, node@) < u64::MAX,
        ensures
            final(self).counts@ == old(self).counts@.insert(
                node@,
                (count_of(old(self).counts@, node@) + 1) as u64,
            ),
    {
        let count: u64 = match self.counts.get(&node.0) {
            Some(c) => *c + 1,
            None => 1,
        };
        self.counts.insert(node.0, count);
    }

    /// Raises the count of a node to `count` where it is less.
    pub fn set(&mut self, node: NodeId, count: u64)
        ensures
            final(self).counts@ == raised(old(self).counts@, node@, count),
    {
        let held: u64 = match self.counts.get(&node.0) {
            Some(c) => *c,
            None => 0,
        };
        self.counts.insert(
            node.0,
            if held >= count {
                held
            } else {
                count
            },
        );
    }
}

proof fn lemma_total_grows(order: Seq<Seq<char>>, counts: Map<Seq<char>, u64>, i: int)
    requires
        0 <= i <= order.len(),
    ensures
        total(order.take(i), counts) <= total(order, counts),
    decreases order.len() - i,
{
    if i < order.len() {
        lemma_total_grows(order, counts, i + 1);
        assert(order.take(i + 1).drop_last() =~= order.take(i));
    } else {
        assert(order.take(i) =~= order);
    }
}

impl Default for GCounter {
    fn default() -> (c: Self)
        ensures
            c.counts@ == Map::<Seq<char>, u64>::empty(),
    {
        GCounter::new()
    }
}

impl Crdt for GCounter {
    type Op = (NodeId, u64);

    open spec fn applied(&self, op: (NodeId, u64), after: &Self) -> bool {
        after.counts@ == raised(self.counts@, op.0@, op.1)
    }

    open spec fn joined(&self, other: &Self, after: &Self) -> bool {
        after.counts@ == greatest(self.counts@, other.counts@)
    }

    open spec fn valid(&self) -> bool {
        true
    }

    fn apply(&mut self, op: &(NodeId, u64)) {
        self.set(op.0.clone(), op.1);
    }

    fn merge(&mut self, other: &Self) {
        let ghost before = self.counts@;
        let ghost order = other.counts.order();
        let ghost m = other.counts@;
        let n: usize = other.counts.len();
        let mut i: usize = 0;
        while i < n
            invariant
                i <= n,
                n == order.len(),
                order == other.counts.order(),
                m == other.counts@,
                other.counts.listed(),
                forall|k: Seq<char>| #[trigger]
                    self.counts@.contains_key(k) <==> before.contains_key(k) || order.take(
                        i as int,
                    ).contains(k),
                forall|k: Seq<char>| #[trigger]
                    self.counts@.contains_key(k) ==> self.counts@[k] == if order.take(
                        i as int,
                    ).contains(k) {
                        greatest(before, m)[k]
                    } else {
                        before[k]
                    },
            decreases n - i,
        {
            let node = other.counts.key_at(i).clone();
            let count: u64 = *other.counts.value_at(i);
            let ghost k = order[i as int];
            proof {
                crate::runtime::workflow::orchestrator::state::lemma_filter_step(
                    order,
                    i as int,
                    order.take(i as int),
                    order.take(i as int).push(k),
                    true,
                );
                assert(order.take(i + 1) =~= order.take(i as int).push(k));
                assert(order.contains(k));
            }
            self.set(NodeId(node), count);
            i += 1;
        }
        assert(order.take(i as int) =~= order);
        assert(self.counts@ =~= greatest(before, m));
    }
}

/// Replicas of a counter agree in whatever order, and however often, they hear of one
/// another; hearing of another replica never lowers a count.
pub proof fn law_counter_merge(
    a: Map<Seq<char>, u64>,
    b: Map<Seq<char>, u64>,
    c: Map<Seq<char>, u64>,
)
    ensures
        greatest(a, b) == greatest(b, a),
        greatest(greatest(a, b), c) == greatest(a, greatest(b, c)),
        greatest(a, a) == a,
        greatest(greatest(a, b), b) == greatest(a, b),
        forall|n: Seq<char>| #[trigger] count_of(greatest(a, b), n) >= count_of(a, n),
{
    assert(greatest(a, b) =~= greatest(b, a));
    assert(greatest(greatest(a, b), c) =~= greatest(a, greatest(b, c)));
    assert(greatest(a, a) =~= a);
    assert(greatest(greatest(a, b), b) =~= greatest(a, b));
}

/// Values that can be told apart and copied.
pub trait Keyed: Sized {
    type K;

    /// What tells the value from others.
    spec fn key(&self) -> Self::K;

    /// Whether two values are the same.
    fn same(&self, other: &Self) -> (b: bool)
        ensures
            b == (self.key() == other.key()),
    ;

    /// A copy of the value.
    fn duplicate(&self) -> (c: Self)
        ensures
            c.key() == self.key(),
    ;
}

impl Keyed for String {
    type K = Seq<char>;

    open spec fn key(&self) -> Seq<char> {
        self@
    }

    fn same(&self, other: &Self) -> (b: bool) {
        *self == *other
    }

    fn duplicate(&self) -> (c: Self) {
        self.clone()
    }
}

impl Keyed for u64 {
    type K = u64;

    open spec fn key(&self) -> u64 {
        *self
    }

    fn same(&self, other: &Self) -> (b: bool) {
        *self == *other
    }

    fn duplicate(&self) -> (c: Self) {
        *self
    }
}

/// A set to which values are added: for each value the nodes that have added it.
pub struct ORSet<T: Keyed> {
    pub elements: Vec<T>,
    pub observers: Vec<KeyMap<()>>,
}

/// What tells the values apart.
pub open spec fn keys_of<T: Keyed>(elements: Seq<T>) -> Seq<T::K> {
    Seq::new(elements.len(), |i: int| elements[i].key())
}

/// The nodes that have added each value.
pub open spec fn node_sets(observers: Seq<KeyMap<()>>) -> Seq<Set<Seq<char>>> {
    Seq::new(observers.len(), |i: int| observers[i]@.dom())
}

impl<T: Keyed> View for ORSet<T> {
    type V = Map<T::K, Set<Seq<char>>>;

    open spec fn view(&self) -> Map<T::K, Set<Seq<char>>> {
        keymap::paired(keys_of(self.elements@), node_sets(self.observers@))
    }
}

/// The nodes that have added a value; none where it is not in the set.
pub open spec fn nodes_of<K>(m: Map<K, Set<Seq<char>>>, k: K) -> Set<Seq<char>> {
    if m.contains_key(k) {
        m[k]
    } else {
        Set::empty()
    }
}

/// For each value the nodes that have added it here or there.
pub open spec fn united<K>(
    a: Map<K, Set<Seq<char>>>,
    b: Map<K, Set<Seq<char>>>,
) -> Map<K, Set<Seq<char>>> {
    Map::new(
        |k: K| a.contains_key(k) || b.contains_key(k),
        |k: K| nodes_of(a, k).union(nodes_of(b, k)),
    )
}

impl<T: Keyed> ORSet<T> {
    /// Values are listed once, each with its nodes.
    pub open spec fn wf(&self) -> bool {
        &&& keys_of(self.elements@).no_duplicates()
        &&& self.elements@.len() == self.observers@.len()
    }

    /// The empty set.
    pub fn new() -> (s: Self)
        ensures
            s.wf(),
            s@ == Map::<T::K, Set<Seq<char>>>::empty(),
    {
        let s = ORSet { elements: Vec::new(), observers: Vec::new() };
        assert(s@ =~= Map::<T::K, Set<Seq<char>>>::empty());
        s
    }

    fn position(&self, value: &T) -> (p: Option<usize>)
        requires
            self.wf(),
        ensures
            match p {
                Some(i) => i < self.elements@.len() && keys_of(self.elements@)[i as int]
                    == value.key(),
                None => !keys_of(self.elements@).contains(value.key()),
            },
    {
        let mut i: usize = 0;
        while i < self.elements.len()
            invariant
                i <= self.elements@.len(),
                forall|j: int| 0 <= j < i ==> keys_of(self.elements@)[j] != value.key(),
            decreases self.elements@.len() - i,
        {
            if self.elements[i].same(value) {
                return Some(i);
            }
            i += 1;
        }
        None
    }

    /// Adds a value on behalf of a node.
    pub fn add(&mut self, node: NodeId, value: T)
        requires
            old(self).wf(),
        ensures
            final(self).wf(),
            final(self)@ == old(self)@.insert(
                value.key(),
                nodes_of(old(self)@, value.key()).insert(node@),
            ),
    {
        let ghost before = *self;
        let ghost keys = keys_of(self.elements@);
        let ghost sets = node_sets(self.observers@);
        match self.position(&value) {
            Some(i) => {
                proof {
                    keymap::lemma_index_of(keys, i as int);
                }
                self.observers[i].insert(node.0, ());
                proof {
                    let grown = sets[i as int].insert(node@);
                    assert(self.observers@[i as int]@.dom() =~= grown);
                    assert(node_sets(self.observers@) =~= sets.update(i as int, grown));
                    keymap::lemma_update(keys, sets, i as int, grown);
                }
            },
            None => {
                let mut nodes: KeyMap<()> = KeyMap::new();
                nodes.insert(node.0, ());
                self.elements.push(value);
                self.observers.push(nodes);
                proof {
                    let one = Set::empty().insert(node@);
                    assert(nodes@.dom() =~= one);
                    assert(keys_of(self.elements@) =~= keys.push(value.key()));
                    assert(node_sets(self.observers@) =~= sets.push(one));
                    keymap::lemma_push(keys, sets, value.key(), one);
                }
            },
        }
    }

    /// The values of the set.
    pub fn values(&self) -> (list: Vec<&T>)
        requires
            self.wf(),
        ensures
            list@.len() == self.elements@.len(),
            forall|i: int| 0 <= i < list@.len() ==> *list@[i] == #[trigger] self.elements@[i],
            keys_of(self.elements@).no_duplicates(),
            keys_of(self.elements@).to_set() == self@.dom(),
    {
        proof {
            assert(keys_of(self.elements@).to_set() =~= self@.dom());
        }
        let mut list: Vec<&T> = Vec::new();
        let mut i: usize = 0;
        while i < self.elements.len()
            invariant
                i <= self.elements@.len(),
                list@.len() == i,
                forall|j: int| 0 <= j < i ==> *list@[j] == #[trigger] self.elements@[j],
            decreases self.elements@.len() - i,
        {
            list.push(&self.elements[i]);
            i += 1;
        }
        list
    }

    /// The number of values.
    pub fn len(&self) -> (n: usize)
        requires
            self.wf(),
        ensures
            n == self@.dom().len(),
    {
        proof {
            keys_of(self.elements@).unique_seq_to_set();
            assert(keys_of(self.elements@).to_set() =~= self@.dom());
        }
        self.elements.len()
    }

    /// Whether the set has no value.
    pub fn is_empty(&self) -> (b: bool)
        requires
            self.wf(),
        ensures
            b == (self@ == Map::<T::K, Set<Seq<char>>>::empty()),
    {
        proof {
            if self.elements@.len() == 0 {
                assert(self@ =~= Map::<T::K, Set<Seq<char>>>::empty());
            } else {
                assert(keys_of(self.elements@).contains(keys_of(self.elements@)[0]));
                assert(self@.contains_key(keys_of(self.elements@)[0]));
            }
        }
        self.elements.len() == 0
    }
}

impl<T: Keyed> Default for ORSet<T> {
    fn default() -> (s: Self)
        ensures
            s.wf(),
            s@ == Map::<T::K, Set<Seq<char>>>::empty(),
    {
        ORSet::new()
    }
}

impl<T: Keyed> ORSet<T> {
    /// Brings in the nodes that have added one value elsewhere.
    fn absorb(&mut self, value: &T, nodes: &KeyMap<()>)
        requires
            old(self).wf(),
        ensures
            final(self).wf(),
            final(self)@ == old(self)@.insert(
                value.key(),
                nodes_of(old(self)@, value.key()).union(nodes@.dom()),
            ),
    {
        let ghost keys = keys_of(self.elements@);
        let ghost sets = node_sets(self.observers@);
        let at: usize = match self.position(value) {
            Some(i) => i,
            None => {
                let fresh: KeyMap<()> = KeyMap::new();
                self.elements.push(value.duplicate());
                self.observers.push(fresh);
                proof {
                    assert(fresh@.dom() =~= Set::empty());
                    assert(keys_of(self.elements@) =~= keys.push(value.key()));
                    assert(node_sets(self.observers@) =~= sets.push(Set::empty()));
                    keymap::lemma_push(keys, sets, value.key(), Set::empty());
                }
                self.elements.len() - 1
            },
        };
        let ghost all_keys = keys_of(self.elements@);
        let ghost all_sets = node_sets(self.observers@);
        let ghost held = all_sets[at as int];
        proof {
            keymap::lemma_index_of(all_keys, at as int);
        }
        let ghost order = nodes.order();
        let n: usize = nodes.len();
        let mut i: usize = 0;
        proof {
            assert(order.take(0).to_set() =~= Set::empty());
            assert(held.union(order.take(0).to_set()) =~= held);
            assert(all_sets.update(at as int, held) =~= all_sets);
        }
        while i < n
            invariant
                i <= n,
                n == order.len(),
                order == nodes.order(),
                at < self.observers@.len(),
                all_sets.len() == self.observers@.len(),
                all_keys == keys_of(self.elements@),
                all_keys.no_duplicates(),
                self.elements@.len() == self.observers@.len(),
                node_sets(self.observers@) == all_sets.update(
                    at as int,
                    held.union(order.take(i as int).to_set()),
                ),
            decreases n - i,
        {
            let k = nodes.key_at(i).clone();
            let ghost seen = order.take(i as int);
            let ghost obs = self.observers@;
            proof {
                assert(order.take(i + 1) =~= seen.push(k@));
                crate::runtime::workflow::graph::lemma_to_set_push(seen, k@);
                assert(node_sets(obs)[at as int] == obs[at as int]@.dom());
            }
            self.observers[at].insert(k, ());
            proof {
                let grown = held.union(order.take(i + 1).to_set());
                assert(self.observers@[at as int]@.dom() =~= grown);
                assert(node_sets(self.observers@) =~= all_sets.update(at as int, grown)) by {
                    assert forall|j: int| 0 <= j < all_sets.len() implies node_sets(
                        self.observers@,
                    )[j] == #[trigger] all_sets.update(at as int, grown)[j] by {
                        assert(node_sets(obs)[j] == obs[j]@.dom());
                    }
                }
            }
            i += 1;
        }
        proof {
            assert(order.take(i as int) =~= order);
            keymap::lemma_update(all_keys, all_sets, at as int, held.union(order.to_set()));
            assert(self@ =~= old(self)@.insert(
                value.key(),
                nodes_of(old(self)@, value.key()).union(nodes@.dom()),
            ));
        }
    }
}

impl<T: Keyed> Crdt for ORSet<T> {
    type Op = (NodeId, T);

    open spec fn applied(&self, op: (NodeId, T), after: &Self) -> bool {
        after@ == self@.insert(op.1.key(), nodes_of(self@, op.1.key()).insert(op.0@))
    }

    open spec fn joined(&self, other: &Self, after: &Self) -> bool {
        after@ == united(self@, other@)
    }

    open spec fn valid(&self) -> bool {
        self.wf()
    }

    fn apply(&mut self, op: &(NodeId, T)) {
        self.add(op.0.clone(), op.1.duplicate());
    }

    fn merge(&mut self, other: &Self) {
        let ghost before = self@;
        let ghost keys = keys_of(other.elements@);
        let ghost m = other@;
        let mut i: usize = 0;
        assert(keys.take(0) =~= Seq::empty());
        while i < other.elements.len()
            invariant
                i <= other.elements@.len(),
                other.wf(),
                self.wf(),
                keys == keys_of(other.elements@),
                m == other@,
                forall|k: T::K| #[trigger]
                    self@.contains_key(k) <==> before.contains_key(k) || keys.take(
                        i as int,
                    ).contains(k),
                forall|k: T::K| #[trigger]
                    self@.contains_key(k) ==> self@[k] == if keys.take(i as int).contains(k) {
                        united(before, m)[k]
                    } else {
                        before[k]
                    },
            decreases other.elements@.len() - i,
        {
            let ghost k = keys[i as int];
            proof {
                keymap::lemma_index_of(keys, i as int);
                assert(keys.take(i + 1) =~= keys.take(i as int).push(k));
                assert(!keys.take(i as int).contains(k));
                assert forall|x: T::K| #[trigger] keys.take(i + 1).contains(x) <==> keys.take(
                    i as int,
                ).contains(x) || x == k by {
                    let t = keys.take(i as int);
                    if t.contains(x) {
                        assert(t.push(k)[t.index_of(x)] == x);
                    }
                    if x == k {
                        assert(t.push(k)[t.len() as int] == x);
                    }
                    if t.push(k).contains(x) && x != k {
                        assert(t[t.push(k).index_of(x)] == x);
                    }
                }
                assert(node_sets(other.observers@)[i as int] == other.observers@[i as int]@.dom());
                assert(m[k] == other.observers@[i as int]@.dom());
            }
            self.absorb(&other.elements[i], &other.observers[i]);
            i += 1;
        }
        proof {
            assert(keys.take(i as int) =~= keys);
            assert forall|k: T::K| #[trigger] self@.contains_key(k) implies self@[k] == united(
                before,
                m,
            )[k] by {
                if !keys.contains(k) {
                    assert(united(before, m)[k] =~= before[k]);
                }
            }
            assert(self@ =~= united(before, m));
        }
    }
}

/// Replicas of a set agree in whatever order, and however often, they hear of one
/// another; nothing that was added is lost.
pub proof fn law_set_merge<K>(
    a: Map<K, Set<Seq<char>>>,
    b: Map<K, Set<Seq<char>>>,
    c: Map<K, Set<Seq<char>>>,
)
    ensures
        united(a, b) == united(b, a),
        united(united(a, b), c) == united(a, united(b, c)),
        united(a, a) == a,
        united(united(a, b), b) == united(a, b),
        forall|k: K| a.contains_key(k) ==> #[trigger] united(a, b).contains_key(k),
{
    assert(united(a, b) =~= united(b, a)) by {
        assert forall|k: K| united(a, b).contains_key(k) implies #[trigger] united(a, b)[k]
            == united(b, a)[k] by {
            assert(united(a, b)[k] =~= united(b, a)[k]);
        }
    }
    assert(united(united(a, b), c) =~= united(a, united(b, c))) by {
        assert forall|k: K| united(united(a, b), c).contains_key(k) implies #[trigger] united(
            united(a, b),
            c,
        )[k] == united(a, united(b, c))[k] by {
            assert(united(united(a, b), c)[k] =~= united(a, united(b, c))[k]);
        }
    }
    assert(united(a, a) =~= a) by {
        assert forall|k: K| a.contains_key(k) implies #[trigger] united(a, a)[k] == a[k] by {
            assert(united(a, a)[k] =~= a[k]);
        }
    }
    assert(united(united(a, b), b) =~= united(a, b)) by {
        assert forall|k: K| united(a, b).contains_key(k) implies #[trigger] united(
            united(a, b),
            b,
        )[k] == united(a, b)[k] by {
            assert(united(united(a, b), b)[k] =~= united(a, b)[k]);
        }
    }
}

/// A register that keeps what was written last: the timestamp decides, the node's name
/// breaks ties.
#[derive(Debug)]
pub struct LWWRegister<T> {
    pub value: Option<T>,
    pub timestamp: HlcTimestamp,
    pub node: Option<NodeId>,
}

/// The mathematical value of a register: what was written, when and by whom; nothing where
/// nothing was written.
#[verifier::ext_equal]
pub struct Written<K> {
    pub value: K,
    pub timestamp: HlcTimestamp,
    pub node: Seq<char>,
}

/// `a` was written before `b`.
pub open spec fn written_before<K>(a: Written<K>, b: Written<K>) -> bool {
    hlc::earlier(a.timestamp, b.timestamp) || (a.timestamp == b.timestamp && text::text_lt(
        a.node,
        b.node,
    ))
}

/// What a register that holds `a` holds once `b` is written to it.
pub open spec fn last_written<K>(a: Option<Written<K>>, b: Option<Written<K>>) -> Option<
    Written<K>,
> {
    match (a, b) {
        (_, None) => a,
        (None, Some(_)) => b,
        (Some(x), Some(y)) => if written_before(x, y) {
            b
        } else {
            a
        },
    }
}

impl<T: Keyed> View for LWWRegister<T> {
    type V = Option<Written<T::K>>;

    open spec fn view(&self) -> Option<Written<T::K>> {
        match (self.value, self.node) {
            (Some(v), Some(n)) => Some(
                Written { value: v.key(), timestamp: self.timestamp, node: n@ },
            ),
            _ => None,
        }
    }
}

impl<T: Keyed> LWWRegister<T> {
    /// A value stands with the node that wrote it.
    pub open spec fn wf(&self) -> bool {
        self.value is Some <==> self.node is Some
    }

    /// A register that nothing was written to.
    pub fn new() -> (r: Self)
        ensures
            r.wf(),
            r@ is None,
    {
        LWWRegister { value: None, timestamp: HlcTimestamp::zero(), node: None }
    }

    /// Whether a write would replace what is held.
    fn should_replace(&self, timestamp: &HlcTimestamp, node: &NodeId) -> (b: bool)
        requires
            self.wf(),
        ensures
            b == match self@ {
                Some(w) => hlc::earlier(w.timestamp, *timestamp) || (w.timestamp == *timestamp
                    && text::text_lt(w.node, node@)),
                None => true,
            },
    {
        match &self.node {
            Some(n) => self.timestamp.is_before(timestamp) || (self.timestamp == *timestamp
                && text_before(&n.0, &node.0)),
            None => true,
        }
    }

    /// Writes a value. What was written later stays.
    pub fn set(&mut self, node: NodeId, timestamp: HlcTimestamp, value: T)
        requires
            old(self).wf(),
        ensures
            final(self).wf(),
            final(self)@ == last_written(
                old(self)@,
                Some(Written { value: value.key(), timestamp, node: node@ }),
            ),
    {
        if self.should_replace(&timestamp, &node) {
            self.value = Some(value);
            self.timestamp = timestamp;
            self.node = Some(node);
        }
    }

    /// What the register holds.
    pub fn get(&self) -> (v: Option<&T>)
        requires
            self.wf(),
        ensures
            match v {
                Some(x) => self@ matches Some(w) && w.value == x.key(),
                None => self@ is None,
            },
    {
        match &self.value {
            Some(v) => Some(v),
            None => None,
        }
    }
}

impl<T: Keyed> Default for LWWRegister<T> {
    fn default() -> (r: Self)
        ensures
            r.wf(),
            r@ is None,
    {
        LWWRegister::new()
    }
}

impl<T: Keyed> Crdt for LWWRegister<T> {
    type Op = (NodeId, HlcTimestamp, T);

    open spec fn applied(&self, op: (NodeId, HlcTimestamp, T), after: &Self) -> bool {
        after@ == last_written(
            self@,
            Some(Written { value: op.2.key(), timestamp: op.1, node: op.0@ }),
        )
    }

    open spec fn joined(&self, other: &Self, after: &Self) -> bool {
        after@ == last_written(self@, other@)
    }

    open spec fn valid(&self) -> bool {
        self.wf()
    }

    fn apply(&mut self, op: &(NodeId, HlcTimestamp, T)) {
        self.set(op.0.clone(), op.1, op.2.duplicate());
    }

    fn merge(&mut self, other: &Self) {
        if let (Some(value), Some(node)) = (&other.value, &other.node) {
            self.set(node.clone(), other.timestamp, value.duplicate());
        }
    }
}

/// No two different values were written at the same time by the same node.
pub open spec fn told_apart<K>(a: Option<Written<K>>, b: Option<Written<K>>) -> bool {
    match (a, b) {
        (Some(x), Some(y)) => x.timestamp == y.timestamp && x.node == y.node ==> x == y,
        _ => true,
    }
}

/// Replicas of a register agree in whatever order, and however often, they hear of one
/// another, as long as no node writes two different values at the same time.
pub proof fn law_register_merge<K>(
    a: Option<Written<K>>,
    b: Option<Written<K>>,
    c: Option<Written<K>>,
)
    requires
        told_apart(a, b),
        told_apart(b, c),
        told_apart(a, c),
    ensures
        last_written(a, b) == last_written(b, a),
        last_written(last_written(a, b), c) == last_written(a, last_written(b, c)),
        last_written(a, a) == a,
        last_written(last_written(a, b), b) == last_written(a, b),
{
    if let (Some(x), Some(y)) = (a, b) {
        lemma_written_order(x, y);
        lemma_written_order(y, x);
    }
    if let Some(x) = a {
        text::lemma_text_irreflexive(x.node);
    }
    if let Some(y) = b {
        text::lemma_text_irreflexive(y.node);
    }
    if let (Some(y), Some(z)) = (b, c) {
        lemma_written_order(y, z);
    }
    if let (Some(x), Some(z)) = (a, c) {
        lemma_written_order(x, z);
    }
    if let (Some(x), Some(y), Some(z)) = (a, b, c) {
        lemma_written_transitive(x, y, z);
        lemma_written_transitive(z, y, x);
        lemma_written_transitive(y, x, z);
        lemma_written_transitive(x, z, y);
        lemma_written_transitive(z, x, y);
        lemma_written_transitive(y, z, x);
    }
}

proof fn lemma_written_order<K>(x: Written<K>, y: Written<K>)
    ensures
        written_before(x, y) ==> !written_before(y, x),
        written_before(x, y) || written_before(y, x) || (x.timestamp == y.timestamp && x.node
            == y.node),
{
    text::lemma_text_total(x.node, y.node);
    if text::text_lt(x.node, y.node) {
        text::lemma_text_asymmetric(x.node, y.node);
    }
}

proof fn lemma_written_transitive<K>(x: Written<K>, y: Written<K>, z: Written<K>)
    ensures
        written_before(x, y) && written_before(y, z) ==> written_before(x, z),
{
    if text::text_lt(x.node, y.node) && text::text_lt(y.node, z.node) {
        text::lemma_text_transitive(x.node, y.node, z.node);
    }
}

impl Keyed for i32 {
    type K = i32;

    open spec fn key(&self) -> i32 {
        *self
    }

    fn same(&self, other: &Self) -> (b: bool) {
        *self == *other
    }

    fn duplicate(&self) -> (c: Self) {
        *self
    }
}

} // verus!
