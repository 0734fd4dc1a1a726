//! Reachability, acyclicity and topological order in directed graphs.
use vstd::prelude::*;

verus! {

/// An edge from the first component to the second.
pub type Edge = (Seq<char>, Seq<char>);

/// `a` leads to `b` over exactly `n` edges.
pub open spec fn walk(edges: Seq<Edge>, a: Seq<char>, b: Seq<char>, n: nat) -> bool
    decreases n,
{
    if n == 0 {
        a == b
    } else {
        exists|i: int|
            0 <= i < edges.len() && (#[trigger] edges[i]).0 == a && walk(
                edges,
                edges[i].1,
                b,
                (n - 1) as nat,
            )
    }
}

/// `a` leads to `b` over some number of edges, possibly none.
pub open spec fn reach(edges: Seq<Edge>, a: Seq<char>, b: Seq<char>) -> bool {
    exists|n: nat| walk(edges, a, b, n)
}

/// No vertex leads back to itself.
pub open spec fn acyclic(edges: Seq<Edge>) -> bool {
    forall|a: Seq<char>, n: nat| n > 0 ==> !(#[trigger] walk(edges, a, a, n))
}

/// The targets of the edges that leave `k`, in order.
pub open spec fn targets(edges: Seq<Edge>, k: Seq<char>) -> Seq<Seq<char>>
    decreases edges.len(),
{
    if edges.len() == 0 {
        Seq::empty()
    } else {
        let init = targets(edges.drop_last(), k);
        if edges.last().0 == k {
            init.push(edges.last().1)
        } else {
            init
        }
    }
}

/// The sources of the edges that enter `k`, in order.
pub open spec fn sources(edges: Seq<Edge>, k: Seq<char>) -> Seq<Seq<char>>
    decreases edges.len(),
{
    if edges.len() == 0 {
        Seq::empty()
    } else {
        let init = sources(edges.drop_last(), k);
        if edges.last().1 == k {
            init.push(edges.last().0)
        } else {
            init
        }
    }
}

/// A graph without edges has no cycle.
pub proof fn lemma_empty_acyclic(edges: Seq<Edge>)
    requires
        edges.len() == 0,
    ensures
        acyclic(edges),
{
}

/// Every vertex leads to itself.
pub proof fn lemma_reach_step(edges: Seq<Edge>)
    ensures
        forall|a: Seq<char>| #[trigger] reach(edges, a, a),
{
    assert forall|a: Seq<char>| #[trigger] reach(edges, a, a) by {
        assert(walk(edges, a, a, 0));
    }
}

/// A vertex that no edge touches has no neighbours.
pub proof fn lemma_no_edges_at(edges: Seq<Edge>, k: Seq<char>)
    requires
        forall|i: int|
            0 <= i < edges.len() ==> (#[trigger] edges[i]).0 != k && edges[i].1 != k,
    ensures
        targets(edges, k).len() == 0,
        sources(edges, k).len() == 0,
    decreases edges.len(),
{
    if edges.len() > 0 {
        assert forall|i: int| 0 <= i < edges.drop_last().len() implies (
        #[trigger] edges.drop_last()[i]).0 != k && edges.drop_last()[i].1 != k by {
            assert(edges[i].0 != k);
        }
        lemma_no_edges_at(edges.drop_last(), k);
        assert(edges[edges.len() - 1].0 != k);
    }
}

/// Walks compose.
pub proof fn lemma_walk_join(
    edges: Seq<Edge>,
    a: Seq<char>,
    b: Seq<char>,
    c: Seq<char>,
    n: nat,
    m: nat,
)
    requires
        walk(edges, a, b, n),
        walk(edges, b, c, m),
    ensures
        walk(edges, a, c, n + m),
    decreases n,
{
    if n > 0 {
        let i = choose|i: int|
            0 <= i < edges.len() && (#[trigger] edges[i]).0 == a && walk(
                edges,
                edges[i].1,
                b,
                (n - 1) as nat,
            );
        lemma_walk_join(edges, edges[i].1, b, c, (n - 1) as nat, m);
        assert((n + m - 1) as nat == (n - 1) as nat + m);
    }
}

/// A walk stays a walk when edges are added at the end.
pub proof fn lemma_walk_grow(edges: Seq<Edge>, e: Edge, a: Seq<char>, b: Seq<char>, n: nat)
    requires
        walk(edges, a, b, n),
    ensures
        walk(edges.push(e), a, b, n),
    decreases n,
{
    if n > 0 {
        let i = choose|i: int|
            0 <= i < edges.len() && (#[trigger] edges[i]).0 == a && walk(
                edges,
                edges[i].1,
                b,
                (n - 1) as nat,
            );
        lemma_walk_grow(edges, e, edges[i].1, b, (n - 1) as nat);
        assert(edges.push(e)[i] == edges[i]);
    }
}

/// A walk in the extended graph either avoids the new edge, or reaches its source and
/// leaves from its target without it.
proof fn lemma_walk_split(
    edges: Seq<Edge>,
    from: Seq<char>,
    to: Seq<char>,
    a: Seq<char>,
    b: Seq<char>,
    n: nat,
)
    requires
        walk(edges.push((from, to)), a, b, n),
    ensures
        walk(edges, a, b, n) || (reach(edges, a, from) && reach(edges, to, b)),
    decreases n,
{
    let more = edges.push((from, to));
    if n > 0 {
        let i = choose|i: int|
            0 <= i < more.len() && (#[trigger] more[i]).0 == a && walk(
                more,
                more[i].1,
                b,
                (n - 1) as nat,
            );
        lemma_walk_split(edges, from, to, more[i].1, b, (n - 1) as nat);
        lemma_reach_step(edges);
        if i == edges.len() {
            assert(reach(edges, a, from));
            assert(reach(edges, to, b));
        } else {
            assert(more[i] == edges[i]);
            if !walk(edges, edges[i].1, b, (n - 1) as nat) {
                let m = choose|m: nat| walk(edges, edges[i].1, from, m);
                assert((m + 1 - 1) as nat == m);
                assert(walk(edges, a, from, m + 1));
            }
        }
    }
}

/// Adding an edge closes no cycle where its target does not lead to its source.
pub proof fn lemma_acyclic_extend(edges: Seq<Edge>, from: Seq<char>, to: Seq<char>)
    requires
        acyclic(edges),
        !reach(edges, to, from),
    ensures
        acyclic(edges.push((from, to))),
{
    let more = edges.push((from, to));
    assert forall|a: Seq<char>, n: nat| n > 0 implies !(#[trigger] walk(more, a, a, n)) by {
        if walk(more, a, a, n) {
            lemma_walk_split(edges, from, to, a, a, n);
            if !walk(edges, a, a, n) {
                let p = choose|m: nat| walk(edges, a, from, m);
                let q = choose|m: nat| walk(edges, to, a, m);
                lemma_walk_join(edges, to, a, from, q, p);
                assert(reach(edges, to, from));
            }
        }
    }
}

/// The position in `edges` of the `j`th edge that leaves `k`.
pub open spec fn edge_to(edges: Seq<Edge>, k: Seq<char>, j: int) -> int
    decreases edges.len(),
{
    if edges.len() == 0 {
        0
    } else {
        let init = targets(edges.drop_last(), k);
        if edges.last().0 == k && j == init.len() {
            edges.len() - 1
        } else {
            edge_to(edges.drop_last(), k, j)
        }
    }
}

/// Each target of `k` is the end of an edge that leaves `k`.
pub proof fn lemma_targets(edges: Seq<Edge>, k: Seq<char>, j: int)
    requires
        0 <= j < targets(edges, k).len(),
    ensures
        0 <= edge_to(edges, k, j) < edges.len(),
        edges[edge_to(edges, k, j)] == (k, targets(edges, k)[j]),
    decreases edges.len(),
{
    if edges.len() > 0 {
        let init = targets(edges.drop_last(), k);
        if edges.last().0 == k && j == init.len() {
        } else {
            lemma_targets(edges.drop_last(), k, j);
        }
    }
}

/// Each edge that leaves `k` ends at a target of `k`.
pub proof fn lemma_target_of(edges: Seq<Edge>, i: int)
    requires
        0 <= i < edges.len(),
    ensures
        targets(edges, edges[i].0).contains(edges[i].1),
    decreases edges.len(),
{
    let k = edges[i].0;
    let init = targets(edges.drop_last(), k);
    if i == edges.len() - 1 {
        assert(targets(edges, k)[init.len() as int] == edges[i].1);
    } else {
        lemma_target_of(edges.drop_last(), i);
        let p = init.index_of(edges[i].1);
        assert(targets(edges, k)[p] == edges[i].1);
    }
}

/// What is reachable stays reachable along one more edge.
pub proof fn lemma_reach_edge(edges: Seq<Edge>, a: Seq<char>, i: int)
    requires
        0 <= i < edges.len(),
        reach(edges, a, edges[i].0),
    ensures
        reach(edges, a, edges[i].1),
{
    let n = choose|n: nat| walk(edges, a, edges[i].0, n);
    assert(walk(edges, edges[i].1, edges[i].1, 0));
    assert(walk(edges, edges[i].0, edges[i].1, 1)) by {
        assert(edges[i].0 == edges[i].0 && walk(edges, edges[i].1, edges[i].1, (1 - 1) as nat));
    }
    lemma_walk_join(edges, a, edges[i].0, edges[i].1, n, 1);
}

/// Every edge out of `seen` leads into `seen` or into the part of `queue` from `head` on.
pub open spec fn frontier(
    edges: Seq<Edge>,
    seen: Set<Seq<char>>,
    queue: Seq<Seq<char>>,
    head: int,
) -> bool {
    forall|i: int|
        0 <= i < edges.len() && seen.contains((#[trigger] edges[i]).0) ==> seen.contains(edges[i].1)
            || queue.skip(head).contains(edges[i].1)
}

/// The frontier moves on when the vertex at its head joins `seen` and its unseen targets
/// join the queue.
pub proof fn lemma_frontier_step(
    edges: Seq<Edge>,
    seen: Set<Seq<char>>,
    before: Seq<Seq<char>>,
    after: Seq<Seq<char>>,
    head: int,
)
    requires
        frontier(edges, seen, before, head),
        0 <= head < before.len() <= after.len(),
        after.take(before.len() as int) == before,
        forall|j: int|
            0 <= j < targets(edges, before[head]).len() ==> seen.insert(before[head]).contains(
                #[trigger] targets(edges, before[head])[j],
            ) || after.skip(before.len() as int).contains(targets(edges, before[head])[j]),
    ensures
        frontier(edges, seen.insert(before[head]), after, head + 1),
{
    let k = before[head];
    let now = seen.insert(k);
    assert forall|i: int|
        0 <= i < edges.len() && now.contains((#[trigger] edges[i]).0) implies now.contains(
        edges[i].1,
    ) || after.skip(head + 1).contains(edges[i].1) by {
        let t = edges[i].1;
        if edges[i].0 == k {
            lemma_target_of(edges, i);
            let j = targets(edges, k).index_of(t);
            assert(targets(edges, k)[j] == t);
            if !now.contains(t) {
                let rest = after.skip(before.len() as int);
                let p = rest.index_of(t);
                assert(after.skip(head + 1)[p + before.len() - head - 1] == t);
            }
        } else if !seen.contains(t) {
            let rest = before.skip(head);
            let p = rest.index_of(t);
            assert(rest[p] == t);
            if p > 0 {
                assert(after.take(before.len() as int)[head + p] == before[head + p]);
                assert(after.skip(head + 1)[p - 1] == t);
            }
        }
    }
}

/// The frontier moves past a vertex that has been seen.
pub proof fn lemma_frontier_skip(
    edges: Seq<Edge>,
    seen: Set<Seq<char>>,
    queue: Seq<Seq<char>>,
    head: int,
)
    requires
        frontier(edges, seen, queue, head),
        0 <= head < queue.len(),
        seen.contains(queue[head]),
    ensures
        frontier(edges, seen, queue, head + 1),
{
    assert forall|i: int|
        0 <= i < edges.len() && seen.contains((#[trigger] edges[i]).0) implies seen.contains(
        edges[i].1,
    ) || queue.skip(head + 1).contains(edges[i].1) by {
        if !seen.contains(edges[i].1) {
            let p = queue.skip(head).index_of(edges[i].1);
            assert(queue.skip(head)[p] == edges[i].1);
            assert(queue.skip(head + 1)[p - 1] == edges[i].1);
        }
    }
}

/// With nothing left in the queue, whatever a seen vertex leads to has been seen.
pub proof fn lemma_frontier_closed(
    edges: Seq<Edge>,
    seen: Set<Seq<char>>,
    queue: Seq<Seq<char>>,
    a: Seq<char>,
    b: Seq<char>,
)
    requires
        frontier(edges, seen, queue, queue.len() as int),
        seen.contains(a),
    ensures
        reach(edges, a, b) ==> seen.contains(b),
{
    if reach(edges, a, b) {
        let n = choose|n: nat| walk(edges, a, b, n);
        lemma_closed_walk(edges, seen, queue, a, b, n);
    }
}

proof fn lemma_closed_walk(
    edges: Seq<Edge>,
    seen: Set<Seq<char>>,
    queue: Seq<Seq<char>>,
    a: Seq<char>,
    b: Seq<char>,
    n: nat,
)
    requires
        frontier(edges, seen, queue, queue.len() as int),
        seen.contains(a),
        walk(edges, a, b, n),
    ensures
        seen.contains(b),
    decreases n,
{
    if n > 0 {
        let i = choose|i: int|
            0 <= i < edges.len() && (#[trigger] edges[i]).0 == a && walk(
                edges,
                edges[i].1,
                b,
                (n - 1) as nat,
            );
        assert(queue.skip(queue.len() as int) =~= Seq::empty());
        lemma_closed_walk(edges, seen, queue, edges[i].1, b, (n - 1) as nat);
    }
}

/// The number of edges into `k` whose source is not in `done`.
pub open spec fn open_degree(edges: Seq<Edge>, k: Seq<char>, done: Set<Seq<char>>) -> nat
    decreases edges.len(),
{
    if edges.len() == 0 {
        0
    } else {
        let init = open_degree(edges.drop_last(), k, done);
        if edges.last().1 == k && !done.contains(edges.last().0) {
            init + 1
        } else {
            init
        }
    }
}

/// How often `k` occurs in `list`.
pub open spec fn occurrences(list: Seq<Seq<char>>, k: Seq<char>) -> nat
    decreases list.len(),
{
    if list.len() == 0 {
        0
    } else if list.last() == k {
        occurrences(list.drop_last(), k) + 1
    } else {
        occurrences(list.drop_last(), k)
    }
}

/// With nothing done, every edge into `k` counts.
pub proof fn lemma_open_degree_start(edges: Seq<Edge>, k: Seq<char>)
    ensures
        open_degree(edges, k, Set::empty()) == sources(edges, k).len(),
    decreases edges.len(),
{
    if edges.len() > 0 {
        lemma_open_degree_start(edges.drop_last(), k);
    }
}

/// Doing one more vertex takes its edges out of the count.
pub proof fn lemma_open_degree_step(
    edges: Seq<Edge>,
    k: Seq<char>,
    done: Set<Seq<char>>,
    id: Seq<char>,
)
    requires
        !done.contains(id),
    ensures
        open_degree(edges, k, done) == open_degree(edges, k, done.insert(id)) + occurrences(
            targets(edges, id),
            k,
        ),
    decreases edges.len(),
{
    if edges.len() > 0 {
        lemma_open_degree_step(edges.drop_last(), k, done, id);
        let init = targets(edges.drop_last(), id);
        if edges.last().0 == id {
            assert(init.push(edges.last().1).drop_last() =~= init);
        }
    }
}

/// A prefix holds no more occurrences than the whole.
pub proof fn lemma_occurrences_take(list: Seq<Seq<char>>, k: Seq<char>, n: int)
    requires
        0 <= n <= list.len(),
    ensures
        occurrences(list.take(n), k) <= occurrences(list, k),
    decreases list.len(),
{
    if n < list.len() {
        lemma_occurrences_take(list.drop_last(), k, n);
        assert(list.drop_last().take(n) =~= list.take(n));
    } else {
        assert(list.take(n) =~= list);
    }
}

/// The count is zero exactly where every source is done.
pub proof fn lemma_open_degree_zero(edges: Seq<Edge>, k: Seq<char>, done: Set<Seq<char>>)
    ensures
        open_degree(edges, k, done) == 0 <==> forall|i: int|
            0 <= i < edges.len() && (#[trigger] edges[i]).1 == k ==> done.contains(edges[i].0),
    decreases edges.len(),
{
    if edges.len() > 0 {
        let init = edges.drop_last();
        lemma_open_degree_zero(init, k, done);
        if open_degree(edges, k, done) == 0 {
            assert forall|i: int|
                0 <= i < edges.len() && (#[trigger] edges[i]).1 == k implies done.contains(
                edges[i].0,
            ) by {
                if i < init.len() {
                    assert(init[i] == edges[i]);
                }
            }
        }
        if forall|i: int|
            0 <= i < edges.len() && (#[trigger] edges[i]).1 == k ==> done.contains(edges[i].0) {
            assert forall|i: int|
                0 <= i < init.len() && (#[trigger] init[i]).1 == k implies done.contains(
                init[i].0,
            ) by {
                assert(edges[i] == init[i]);
            }
            assert(edges[edges.len() - 1] == edges.last());
        }
    }
}

/// Every edge points forward in `order`.
pub open spec fn topological(edges: Seq<Edge>, order: Seq<Seq<char>>) -> bool {
    forall|e: int, i: int, j: int|
        #![trigger edges[e], order[i], order[j]]
        0 <= e < edges.len() && 0 <= i < order.len() && 0 <= j < order.len() && edges[e].0
            == order[i] && edges[e].1 == order[j] ==> i < j
}

proof fn lemma_walk_forward(edges: Seq<Edge>, order: Seq<Seq<char>>, i: int, b: Seq<char>, n: nat)
    requires
        topological(edges, order),
        forall|e: int| 0 <= e < edges.len() ==> order.contains((#[trigger] edges[e]).1),
        0 <= i < order.len(),
        walk(edges, order[i], b, n),
        n > 0,
    ensures
        exists|j: int| i < j < order.len() && #[trigger] order[j] == b,
    decreases n,
{
    let e = choose|e: int|
        0 <= e < edges.len() && (#[trigger] edges[e]).0 == order[i] && walk(
            edges,
            edges[e].1,
            b,
            (n - 1) as nat,
        );
    let p = order.index_of(edges[e].1);
    assert(order[p] == edges[e].1);
    if n > 1 {
        lemma_walk_forward(edges, order, p, b, (n - 1) as nat);
    }
}

/// A graph whose vertices can be listed with every edge pointing forward has no cycle.
pub proof fn lemma_topological_acyclic(edges: Seq<Edge>, order: Seq<Seq<char>>)
    requires
        topological(edges, order),
        order.no_duplicates(),
        forall|e: int|
            0 <= e < edges.len() ==> order.contains((#[trigger] edges[e]).0) && order.contains(
                edges[e].1,
            ),
    ensures
        acyclic(edges),
{
    assert forall|a: Seq<char>, n: nat| n > 0 implies !(#[trigger] walk(edges, a, a, n)) by {
        if walk(edges, a, a, n) {
            let e = choose|e: int|
                0 <= e < edges.len() && (#[trigger] edges[e]).0 == a && walk(
                    edges,
                    edges[e].1,
                    a,
                    (n - 1) as nat,
                );
            let i = order.index_of(a);
            assert(order[i] == a);
            lemma_walk_forward(edges, order, i, a, n);
        }
    }
}

/// In a graph without cycles every non-empty set of vertices has one that no edge enters
/// from within the set.
pub proof fn lemma_source_in(edges: Seq<Edge>, set: Set<Seq<char>>) -> (s: Seq<char>)
    requires
        acyclic(edges),
        set.finite(),
        set.len() > 0,
    ensures
        set.contains(s),
        forall|i: int|
            0 <= i < edges.len() && (#[trigger] edges[i]).1 == s ==> !set.contains(edges[i].0),
    decreases set.len(),
{
    let r = set.choose();
    let above = set.filter(|x: Seq<char>| exists|n: nat| n > 0 && #[trigger] walk(edges, x, r, n));
    assert(!above.contains(r));
    assert(above.subset_of(set.remove(r)));
    vstd::set_lib::lemma_len_subset(above, set.remove(r));
    if above.len() == 0 {
        assert forall|i: int|
            0 <= i < edges.len() && (#[trigger] edges[i]).1 == r implies !set.contains(
            edges[i].0,
        ) by {
            if set.contains(edges[i].0) {
                assert(walk(edges, r, r, 0));
                assert(edges[i].0 == edges[i].0 && walk(edges, edges[i].1, r, (1 - 1) as nat));
                assert(walk(edges, edges[i].0, r, 1));
                assert(above.contains(edges[i].0));
                assert(above =~= Set::empty());
            }
        }
        r
    } else {
        let s = lemma_source_in(edges, above);
        assert forall|i: int|
            0 <= i < edges.len() && (#[trigger] edges[i]).1 == s implies !set.contains(
            edges[i].0,
        ) by {
            if set.contains(edges[i].0) {
                let n = choose|n: nat| n > 0 && #[trigger] walk(edges, s, r, n);
                assert(edges[i].0 == edges[i].0 && walk(edges, edges[i].1, r, (n + 1 - 1) as nat));
                assert(walk(edges, edges[i].0, r, n + 1));
                assert(above.contains(edges[i].0));
            }
        }
        s
    }
}

/// The position in `edges` of the `j`th edge that enters `k`.
pub open spec fn edge_from(edges: Seq<Edge>, k: Seq<char>, j: int) -> int
    decreases edges.len(),
{
    if edges.len() == 0 {
        0
    } else {
        let init = sources(edges.drop_last(), k);
        if edges.last().1 == k && j == init.len() {
            edges.len() - 1
        } else {
            edge_from(edges.drop_last(), k, j)
        }
    }
}

/// Each source of `k` is the start of an edge that enters `k`.
pub proof fn lemma_sources(edges: Seq<Edge>, k: Seq<char>, j: int)
    requires
        0 <= j < sources(edges, k).len(),
    ensures
        0 <= edge_from(edges, k, j) < edges.len(),
        edges[edge_from(edges, k, j)] == (sources(edges, k)[j], k),
    decreases edges.len(),
{
    if edges.len() > 0 {
        let init = sources(edges.drop_last(), k);
        if edges.last().1 == k && j == init.len() {
        } else {
            lemma_sources(edges.drop_last(), k, j);
        }
    }
}

/// A queue that takes in a vertex it does not hold stays free of duplicates.
pub proof fn lemma_queue_push(
    before: Seq<Seq<char>>,
    after: Seq<Seq<char>>,
    k: Seq<char>,
    pushed: bool,
)
    requires
        before.no_duplicates(),
        pushed ==> after == before.push(k),
        !pushed ==> after == before,
        pushed ==> !before.contains(k),
    ensures
        after.no_duplicates(),
        forall|x: Seq<char>| #[trigger]
            after.contains(x) <==> before.contains(x) || (pushed && x == k),
{
    assert forall|x: Seq<char>| #[trigger] after.contains(x) <==> before.contains(x) || (pushed
        && x == k) by {
        if before.contains(x) {
            assert(after[before.index_of(x)] == x);
        }
        if pushed {
            assert(after[before.len() as int] == k);
            if after.contains(x) && x != k {
                assert(before[after.index_of(x)] == x);
            }
        }
    }
}

/// Pushing adds one element to the set.
pub proof fn lemma_to_set_push(list: Seq<Seq<char>>, k: Seq<char>)
    ensures
        list.push(k).to_set() == list.to_set().insert(k),
{
    assert forall|x: Seq<char>| #[trigger]
        list.push(k).to_set().contains(x) <==> list.to_set().insert(k).contains(x) by {
        if list.contains(x) {
            assert(list.push(k)[list.index_of(x)] == x);
        }
        if x == k {
            assert(list.push(k)[list.len() as int] == x);
        }
        if list.push(k).contains(x) && x != k {
            assert(list[list.push(k).index_of(x)] == x);
        }
    }
    assert(list.push(k).to_set() =~= list.to_set().insert(k));
}

/// Everything that leads straight to a member of `queue` stands before it.
pub open spec fn backed(edges: Seq<Edge>, queue: Seq<Seq<char>>) -> bool {
    forall|e: int, j: int|
        #![trigger edges[e], queue[j]]
        0 <= e < edges.len() && 0 <= j < queue.len() && edges[e].1 == queue[j] ==> exists|i: int|
            0 <= i < j && #[trigger] queue[i] == edges[e].0
}

/// A queue stays backed when it takes in a vertex whose sources it holds.
pub proof fn lemma_backed_push(
    edges: Seq<Edge>,
    queue: Seq<Seq<char>>,
    s: Seq<char>,
    head: Seq<Seq<char>>,
)
    requires
        backed(edges, queue),
        head.len() <= queue.len(),
        queue.take(head.len() as int) == head,
        forall|e: int|
            0 <= e < edges.len() && (#[trigger] edges[e]).1 == s ==> head.contains(edges[e].0),
    ensures
        backed(edges, queue.push(s)),
{
    let more = queue.push(s);
    assert forall|e: int, j: int|
        #![trigger edges[e], more[j]]
        0 <= e < edges.len() && 0 <= j < more.len() && edges[e].1 == more[j] implies exists|i: int|
        0 <= i < j && #[trigger] more[i] == edges[e].0 by {
        if j < queue.len() {
            assert(queue[j] == more[j]);
            let i = choose|i: int| 0 <= i < j && #[trigger] queue[i] == edges[e].0;
            assert(more[i] == edges[e].0);
        } else {
            let i = head.index_of(edges[e].0);
            assert(head[i] == edges[e].0);
            assert(queue.take(head.len() as int)[i] == edges[e].0);
            assert(more[i] == edges[e].0);
        }
    }
}

/// In a backed listing without duplicates every edge points forward.
pub proof fn lemma_backed_topological(edges: Seq<Edge>, order: Seq<Seq<char>>)
    requires
        backed(edges, order),
        order.no_duplicates(),
    ensures
        topological(edges, order),
{
    assert forall|e: int, i: int, j: int|
        #![trigger edges[e], order[i], order[j]]
        0 <= e < edges.len() && 0 <= i < order.len() && 0 <= j < order.len() && edges[e].0
            == order[i] && edges[e].1 == order[j] implies i < j by {
        let p = choose|p: int| 0 <= p < j && #[trigger] order[p] == edges[e].0;
    }
}

/// A vertex without outgoing edges leads only to itself.
pub proof fn lemma_reach_from_sink(edges: Seq<Edge>, a: Seq<char>, b: Seq<char>)
    requires
        forall|i: int| 0 <= i < edges.len() ==> (#[trigger] edges[i]).0 != a,
    ensures
        reach(edges, a, b) <==> a == b,
{
    lemma_reach_step(edges);
    if reach(edges, a, b) {
        let n = choose|n: nat| walk(edges, a, b, n);
        if n > 0 {
            let i = choose|i: int|
                0 <= i < edges.len() && (#[trigger] edges[i]).0 == a && walk(
                    edges,
                    edges[i].1,
                    b,
                    (n - 1) as nat,
                );
            assert(edges[i].0 != a);
        }
    }
}

} // verus!
