//! What holds of task graphs, and of how a workflow tells of its failures.
use vstd::prelude::*;
use vstd::string::*;
use vstd::utf8::*;

use crate::common;
use crate::common::{ActantError, RetryPolicy};
use crate::runtime::workflow::dag;
use crate::runtime::workflow::dag::Dag;
use crate::runtime::workflow::execution;
use crate::runtime::workflow::execution::TaskState;
use crate::runtime::workflow::graph;
use crate::runtime::workflow::orchestrator::events;
use crate::runtime::workflow::orchestrator::events::EventKind;
use crate::runtime::workflow::phase::Phase;

verus! {

/// `path` leads along the edges.
pub open spec fn along(edges: Seq<graph::Edge>, path: Seq<Seq<char>>) -> bool {
    &&& path.len() > 0
    &&& forall|i: int|
        0 <= i < path.len() - 1 ==> edges.contains((#[trigger] path[i], path[i + 1]))
}

proof fn lemma_path_is_walk(edges: Seq<graph::Edge>, path: Seq<Seq<char>>)
    requires
        along(edges, path),
    ensures
        graph::walk(edges, path[0], path.last(), (path.len() - 1) as nat),
    decreases path.len(),
{
    if path.len() > 1 {
        let rest = path.drop_first();
        assert forall|i: int| 0 <= i < rest.len() - 1 implies edges.contains(
            (#[trigger] rest[i], rest[i + 1]),
        ) by {
            assert(edges.contains((path[i + 1], path[i + 2])));
        }
        lemma_path_is_walk(edges, rest);
        assert(edges.contains((path[0], path[1])));
        let i = edges.index_of((path[0], path[1]));
        assert(edges[i].0 == path[0] && edges[i].1 == rest[0]);
        assert(rest.last() == path.last());
    }
}

proof fn lemma_walk_is_path(edges: Seq<graph::Edge>, a: Seq<char>, b: Seq<char>, n: nat) -> (path:
    Seq<Seq<char>>)
    requires
        graph::walk(edges, a, b, n),
    ensures
        along(edges, path),
        path[0] == a,
        path.last() == b,
        path.len() == n + 1,
    decreases n,
{
    if n == 0 {
        seq![a]
    } else {
        let i = choose|i: int|
            0 <= i < edges.len() && (#[trigger] edges[i]).0 == a && graph::walk(
                edges,
                edges[i].1,
                b,
                (n - 1) as nat,
            );
        let rest = lemma_walk_is_path(edges, edges[i].1, b, (n - 1) as nat);
        let path = seq![a] + rest;
        assert forall|j: int| 0 <= j < path.len() - 1 implies edges.contains(
            (#[trigger] path[j], path[j + 1]),
        ) by {
            if j == 0 {
                assert(edges[i] == (a, edges[i].1));
                assert(path[1] == rest[0]);
            } else {
                assert(edges.contains((rest[j - 1], rest[j])));
            }
        }
        assert(path.last() == rest.last());
        path
    }
}

/// An edge is refused where one of its tasks is not in the graph, and where the edges lead from
/// its target back to its source already; it is added everywhere else.
pub proof fn law_edges_that_close_a_cycle_are_refused(
    d: Dag,
    from: Seq<char>,
    to: Seq<char>,
    cycle: Seq<char>,
    r: Result<(), ActantError>,
    path: Seq<Seq<char>>,
)
    requires
        dag::edge_outcome(d, from, to, cycle, r),
    ensures
        !d.node_map().contains_key(from) || !d.node_map().contains_key(to) ==> r is Err,
        along(d.pairs(), path) && path[0] == to && path.last() == from ==> r is Err,
        from == to ==> r is Err,
        r is Err && d.node_map().contains_key(from) && d.node_map().contains_key(to)
            ==> exists|p: Seq<Seq<char>>| #[trigger]
            along(d.pairs(), p) && p[0] == to && p.last() == from,
{
    if along(d.pairs(), path) && path[0] == to && path.last() == from {
        lemma_path_is_walk(d.pairs(), path);
    }
    if from == to {
        assert(graph::walk(d.pairs(), to, from, 0));
    }
    if r is Err && d.node_map().contains_key(from) && d.node_map().contains_key(to) {
        let n = choose|n: nat| graph::walk(d.pairs(), to, from, n);
        let p = lemma_walk_is_path(d.pairs(), to, from, n);
        assert(along(d.pairs(), p));
    }
}

/// In a graph that is in order no way along the edges comes back to where it began.
pub proof fn law_no_way_leads_back(d: Dag, path: Seq<Seq<char>>)
    requires
        d.wf(),
        along(d.pairs(), path),
        path.len() > 1,
    ensures
        path[0] != path.last(),
{
    lemma_path_is_walk(d.pairs(), path);
}

/// In an order that follows the edges, whatever a way leads to comes after where it began.
pub proof fn law_order_follows_the_edges(
    edges: Seq<graph::Edge>,
    order: Seq<Seq<char>>,
    e: int,
    i: int,
    j: int,
)
    requires
        graph::topological(edges, order),
        0 <= e < edges.len(),
        0 <= i < order.len(),
        0 <= j < order.len(),
        order[i] == edges[e].0,
        order[j] == edges[e].1,
    ensures
        i < j,
{
}

/// Retry policies are the same where their numbers are: the limits, the delays and the factor,
/// of which the two zeros are one number and what is not a number is the same as nothing.
pub proof fn law_same_policies(p: RetryPolicy, q: RetryPolicy)
    ensures
        common::same_policies(Some(p), Some(q)) ==> p.max_retries == q.max_retries && p.delay_ms
            == q.delay_ms && p.max_delay_ms == q.max_delay_ms,
        p == q && p.backoff_multiplier_bits <= 0x7ff0_0000_0000_0000 ==> common::same_policies(
            Some(p),
            Some(q),
        ),
        common::same_policies(Some(p), Some(q)) <==> common::same_policies(Some(q), Some(p)),
        !common::same_policies(Some(p), None) && !common::same_policies(None, Some(p)),
        common::same_policies(None, None),
        0x7ff0_0000_0000_0000 < p.backoff_multiplier_bits < 0x8000_0000_0000_0000
            ==> !common::same_policies(Some(p), Some(p)),
        common::ieee_equal(0, 0x8000_0000_0000_0000),
        common::same_policies(Some(p), Some(q)) && p.backoff_multiplier_bits
            != q.backoff_multiplier_bits ==> (p.backoff_multiplier_bits == 0
            || p.backoff_multiplier_bits == 0x8000_0000_0000_0000),
{
}

/// A failed task is told of where it has failed, once for each place that it has in the order.
pub proof fn law_failed_tasks_are_found(
    order: Seq<Seq<char>>,
    tasks: Map<Seq<char>, TaskState>,
    k: Seq<char>,
)
    ensures
        execution::failed_ids(order, tasks).contains(k) <==> order.contains(k) && tasks[k].state
            == Phase::Failed,
        order.no_duplicates() ==> execution::failed_ids(order, tasks).no_duplicates(),
    decreases order.len(),
{
    if order.len() > 0 {
        let init = order.drop_last();
        let before = execution::failed_ids(init, tasks);
        let all = execution::failed_ids(order, tasks);
        law_failed_tasks_are_found(init, tasks, k);
        law_failed_tasks_are_found(init, tasks, order.last());
        assert(order[order.len() - 1] == order.last());
        if init.contains(k) {
            assert(order[init.index_of(k)] == k);
        }
        if order.contains(k) && k != order.last() {
            assert(init[order.index_of(k)] == k);
        }
        if before.contains(k) {
            assert(all[before.index_of(k)] == k);
        }
        if all.len() > before.len() {
            assert(all[before.len() as int] == order.last());
            if all.contains(k) && k != order.last() {
                assert(before[all.index_of(k)] == k);
            }
        }
        if order.no_duplicates() {
            assert(init.no_duplicates());
            if init.contains(order.last()) {
                let i = init.index_of(order.last());
                assert(order[i] == order[order.len() - 1]);
            }
            assert forall|i: int, j: int| 0 <= i < j < all.len() implies all[i] != all[j] by {
                assert(before[i] == all[i]);
                if j < before.len() {
                    assert(before[j] == all[j]);
                } else {
                    assert(before.contains(before[i]));
                }
            }
        }
    }
}

/// The one failed task of a workflow is told of with its error; a short error in full, and a
/// long one cut and marked.
pub proof fn law_failure_is_told(
    order: Seq<Seq<char>>,
    tasks: Map<Seq<char>, TaskState>,
    k: Seq<char>,
    error: String,
)
    requires
        order.no_duplicates(),
        order.contains(k),
        tasks[k].state == Phase::Failed,
        tasks[k].error == Some(error),
        forall|x: Seq<char>| #[trigger]
            order.contains(x) && tasks[x].state == Phase::Failed ==> x == k,
    ensures
        encode_utf8(error@).len() <= 200 ==> execution::failed_summary(order, tasks)
            == "failed tasks: ["@ + (k + ": "@ + error@) + "]"@,
        encode_utf8(error@).len() > 200 ==> exists|part: Seq<char>|
            execution::failed_summary(order, tasks) == "failed tasks: ["@ + (k + ": "@ + (
            #[trigger] cut(part))) + "]"@,
{
    let ids = execution::failed_ids(order, tasks);
    law_failed_tasks_are_found(order, tasks, k);
    let i = ids.index_of(k);
    assert(ids.len() == 1) by {
        if ids.len() > 1 {
            let j: int = if i == 0 {
                1
            } else {
                0
            };
            law_failed_tasks_are_found(order, tasks, ids[j]);
            assert(ids.contains(ids[j]));
            assert(ids[j] == k);
        }
    }
    assert(ids.last() == k);
    if encode_utf8(error@).len() > 200 {
        let part = crate::text::prefix_within(error@, 200);
        assert(execution::clipped(error@) == cut(part));
        assert(execution::failed_summary(order, tasks) == "failed tasks: ["@ + (k + ": "@ + cut(
            part,
        )) + "]"@);
    }
}

/// A text that is marked as cut.
pub open spec fn cut(part: Seq<char>) -> Seq<char> {
    part + "…"@
}

/// An event names the task that it is about and the error that it carries, and neither where
/// there is none.
pub proof fn law_event_names_its_task(k: EventKind)
    ensures
        k matches EventKind::TaskCompleted { task_id, .. } ==> events::kind_task(k) == Some(task_id),
        k matches EventKind::TaskFailed { task_id, error } ==> events::kind_task(k) == Some(task_id)
            && events::kind_error(k) == Some(error),
        k matches EventKind::TaskCancelled { task_id } ==> events::kind_task(k) == Some(task_id),
        k matches EventKind::TaskRunning { task_id } ==> events::kind_task(k) == Some(task_id),
        k matches EventKind::TaskDispatched { task_id } ==> events::kind_task(k) == Some(task_id),
        k matches EventKind::NodeAdded { node } ==> events::kind_task(k) == Some(node.task_id),
        k matches EventKind::Failed { error } ==> events::kind_error(k) == Some(error)
            && events::kind_task(k) is None,
        events::kind_error(k) is Some <==> k is TaskFailed || k is Failed,
        k is Submitted || k is Started || k is Completed || k is Cancelled || k is Recovered || k
            is TimerFired || k is SignalReceived || k is WaitPointRegistered ==> events::kind_task(
            k,
        ) is None,
{
}

/// Different workflows have their histories under different topics.
pub proof fn law_histories_are_kept_apart(a: Seq<char>, b: Seq<char>)
    requires
        events::topic_of(a) == events::topic_of(b),
    ensures
        a == b,
{
    let p = "workflow:"@;
    assert(a =~= (p + a).skip(p.len() as int));
    assert(b =~= (p + b).skip(p.len() as int));
}

/// The failures of a workflow are told one after another, in the order of its tasks: one more is
/// told behind the others, and a task that has not failed is not told of.
pub proof fn law_failures_are_told_in_order(
    order: Seq<Seq<char>>,
    tasks: Map<Seq<char>, TaskState>,
    k: Seq<char>,
    error: String,
    inner: Seq<char>,
)
    requires
        execution::failed_summary(order, tasks) == "failed tasks: ["@ + inner + "]"@,
        1 <= execution::failed_ids(order, tasks).len() < 10,
        tasks[k].error == Some(error),
        encode_utf8(error@).len() <= 200,
    ensures
        tasks[k].state == Phase::Failed ==> execution::failed_summary(order.push(k), tasks)
            == "failed tasks: ["@ + (inner + ", "@ + (k + ": "@ + error@)) + "]"@,
        tasks[k].state != Phase::Failed ==> execution::failed_summary(order.push(k), tasks)
            == execution::failed_summary(order, tasks),
{
    let ids = execution::failed_ids(order, tasks);
    let more = execution::failed_ids(order.push(k), tasks);
    assert(order.push(k).drop_last() =~= order);
    assert(order.push(k).last() == k);
    let told = execution::joined_entries(ids, tasks);
    let head = "failed tasks: ["@;
    let tail = "]"@;
    assert(head + told + tail == head + inner + tail);
    assert(told =~= inner) by {
        let a = head + told + tail;
        let b = head + inner + tail;
        assert(a.len() == b.len());
        assert(told =~= a.subrange(head.len() as int, (head.len() + told.len()) as int));
        assert(inner =~= b.subrange(head.len() as int, (head.len() + inner.len()) as int));
    }
    if tasks[k].state == Phase::Failed {
        assert(more.drop_last() =~= ids);
        assert(more.last() == k);
    }
}

/// Of more failures than ten the first ten are told, as if there were no others, and how many
/// there are.
pub proof fn law_ten_failures_are_told(
    order: Seq<Seq<char>>,
    tasks: Map<Seq<char>, TaskState>,
    n: int,
    inner: Seq<char>,
)
    requires
        0 <= n <= order.len(),
        execution::failed_ids(order.take(n), tasks).len() == 10,
        execution::failed_ids(order, tasks).len() > 10,
        execution::failed_summary(order.take(n), tasks) == "failed tasks: ["@ + inner + "]"@,
    ensures
        execution::failed_summary(order, tasks) == "failed tasks (10 of "@ + crate::text::decimal(
            execution::failed_ids(order, tasks).len(),
        ) + "): ["@ + inner + "]"@,
{
    let ids = execution::failed_ids(order, tasks);
    let first = execution::failed_ids(order.take(n), tasks);
    lemma_failed_prefix(order, tasks, n);
    assert(ids.take(10) =~= first);
    let told = execution::joined_entries(first, tasks);
    let head = "failed tasks: ["@;
    let tail = "]"@;
    assert(told =~= inner) by {
        let a = head + told + tail;
        let b = head + inner + tail;
        assert(a.len() == b.len());
        assert(told =~= a.subrange(head.len() as int, (head.len() + told.len()) as int));
        assert(inner =~= b.subrange(head.len() as int, (head.len() + inner.len()) as int));
    }
}

proof fn lemma_failed_prefix(order: Seq<Seq<char>>, tasks: Map<Seq<char>, TaskState>, n: int)
    requires
        0 <= n <= order.len(),
    ensures
        execution::failed_ids(order.take(n), tasks).is_prefix_of(
            execution::failed_ids(order, tasks),
        ),
    decreases order.len(),
{
    if n < order.len() {
        let init = order.drop_last();
        lemma_failed_prefix(init, tasks, n);
        assert(init.take(n) =~= order.take(n));
        let a = execution::failed_ids(init, tasks);
        let b = execution::failed_ids(order, tasks);
        assert(a =~= b.take(a.len() as int));
        let p = execution::failed_ids(order.take(n), tasks);
        assert(p =~= b.take(p.len() as int));
    } else {
        assert(order.take(n) =~= order);
    }
}

} // verus!
