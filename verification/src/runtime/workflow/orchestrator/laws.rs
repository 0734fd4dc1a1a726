//! What holds of workflows from submission to their end, over what each operation returns,
//! leaves behind and has done.
use vstd::prelude::*;

use crate::common;
use crate::common::{ActantError, TaskId};
use crate::runtime::workflow::dag;
use crate::runtime::workflow::dag::{DagEdge, DagView};
use crate::runtime::workflow::execution;
use crate::runtime::workflow::execution::{ExecutionView, TaskState};
use crate::runtime::workflow::execution_laws;
use crate::runtime::workflow::graph;
use crate::runtime::workflow::orchestrator::drive;
use crate::runtime::workflow::orchestrator::engine;
use crate::runtime::workflow::orchestrator::engine::CompletionInfo;
use crate::runtime::workflow::orchestrator::events;
use crate::runtime::workflow::orchestrator::events::{Effect, EffectView, EventKind};
use crate::runtime::workflow::orchestrator::lifecycle;
use crate::runtime::workflow::orchestrator::persistence;
use crate::runtime::workflow::orchestrator::progress;
use crate::runtime::workflow::orchestrator::progress::Completion;
use crate::runtime::workflow::orchestrator::recovery;
use crate::runtime::workflow::orchestrator::skip;
use crate::runtime::workflow::orchestrator::slot;
use crate::runtime::workflow::orchestrator::slot::{SlotState, SlotView, WorkflowSlot};
use crate::runtime::workflow::orchestrator::state;
use crate::runtime::workflow::orchestrator::state::StateView;
use crate::runtime::workflow::orchestrator::submit;
use crate::runtime::workflow::orchestrator::timeouts;
use crate::runtime::workflow::phase::{FailureScope, FailureStrategy, Phase};
use crate::runtime::workflow::task;
use crate::runtime::workflow::task::{PayloadView, TaskDefinition, TaskView};
use crate::text;

verus! {

/// An edge leads into `k`.
pub open spec fn has_edge_into(d: DagView, k: Seq<char>) -> bool {
    exists|i: int| 0 <= i < d.edges.len() && (#[trigger] d.edges[i]).to@ == k
}

/// `t` is handed out for a node of the graph as the node says: under its name, with its payload,
/// priority and time limit, with its retry policy or else the one shared by all tasks, for this
/// workflow, from this node, under the current generation.
pub open spec fn handed_out(
    s: SlotView,
    wf: Seq<char>,
    origin: Option<Seq<char>>,
    t: TaskView,
) -> bool {
    let node = s.dag.nodes[t.id];
    &&& s.dag.nodes.contains_key(t.id)
    &&& t.name == node.name@
    &&& t.priority == node.priority
    &&& t.timeout_ms == node.timeout_ms
    &&& t.workflow_id == Some(wf)
    &&& t.origin_node == origin
    &&& t.target_node is None
    &&& node.retry_policy is Some ==> t.retry_policy == node.retry_policy
    &&& node.retry_policy is None ==> t.retry_policy == s.dag.default_retry_policy
    &&& s.execution.tasks.contains_key(t.id) ==> t.attempt == s.execution.tasks[t.id].attempt
    &&& !has_edge_into(s.dag, t.id) ==> t.payload == PayloadView::Submitted(node.payload@)
    &&& has_edge_into(s.dag, t.id) ==> (t.payload matches PayloadView::Upstream {
        submitted,
        ..
    } && submitted == node.payload@)
}

pub proof fn lemma_no_sources(d: DagView, k: Seq<char>)
    ensures
        graph::sources(slot::pairs(d), k).len() == 0 <==> !has_edge_into(d, k),
{
    let edges = slot::pairs(d);
    graph::lemma_open_degree_start(edges, k);
    graph::lemma_open_degree_zero(edges, k, Set::empty());
    if has_edge_into(d, k) {
        let i = choose|i: int| 0 <= i < d.edges.len() && (#[trigger] d.edges[i]).to@ == k;
        assert(edges[i].1 == k);
    }
    if graph::sources(edges, k).len() > 0 {
        let i = choose|i: int|
            0 <= i < edges.len() && (#[trigger] edges[i]).1 == k && !Set::<Seq<char>>::empty().contains(
                edges[i].0,
            );
        assert(d.edges[i].to@ == k);
    }
}

/// A task is built for a node as the node says.
pub proof fn law_task_carries_its_node(
    s: SlotView,
    wf: Seq<char>,
    origin: Option<Seq<char>>,
    id: Seq<char>,
)
    requires
        s.dag.nodes.contains_key(id),
    ensures
        slot::task_for(s, wf, origin, id).id == id,
        handed_out(s, wf, origin, slot::task_for(s, wf, origin, id)),
{
    lemma_no_sources(s.dag, id);
}

/// Whatever list of tasks is built, it is the list that was asked for, each task as its node
/// says; and nothing is built where one of them has no node.
pub proof fn law_built_tasks_carry_their_nodes(
    s: SlotView,
    wf: Seq<char>,
    origin: Option<Seq<char>>,
    ids: Seq<Seq<char>>,
    r: Result<Vec<TaskDefinition>, ActantError>,
)
    requires
        slot::tasks_built(s, wf, origin, ids, r),
    ensures
        r is Ok <==> forall|i: int|
            0 <= i < ids.len() ==> s.dag.nodes.contains_key(#[trigger] ids[i]),
        r matches Ok(tasks) ==> tasks@.len() == ids.len() && forall|i: int|
            #![trigger tasks@[i]]
            0 <= i < ids.len() ==> tasks@[i]@.id == ids[i] && handed_out(
                s,
                wf,
                origin,
                tasks@[i]@,
            ),
{
    if let Ok(tasks) = r {
        let views = task::task_views(tasks@);
        assert(views.len() == ids.len());
        assert forall|i: int| #![trigger tasks@[i]] 0 <= i < ids.len() implies tasks@[i]@.id
            == ids[i] && handed_out(s, wf, origin, tasks@[i]@) by {
            assert(views[i] == tasks@[i]@);
            law_task_carries_its_node(s, wf, origin, ids[i]);
        }
    }
}

/// Starting a workflow sets it running and hands out exactly the tasks that no edge leads into,
/// each as its node says. No other workflow is touched, and the start is put on record.
pub proof fn law_start_hands_out_roots(
    before: StateView,
    after: StateView,
    wf: Seq<char>,
    origin: Option<Seq<char>>,
    now: u64,
    r: Result<Vec<TaskDefinition>, ActantError>,
    effects: Seq<Effect>,
    k: Seq<char>,
)
    requires
        drive::start_outcome(before, after, wf, origin, now, r, effects),
        before.slots.contains_key(wf),
        before.slots[wf].state == SlotState::Ready,
        before.slots[wf].dag.order.to_set() == before.slots[wf].dag.nodes.dom(),
    ensures
        after.slots.contains_key(wf),
        after.slots[wf].execution.state == Phase::Running,
        after.slots[wf].execution.tasks == before.slots[wf].execution.tasks,
        before.slots[wf].execution.started_at_ms is None
            ==> after.slots[wf].execution.started_at_ms == Some(now),
        after.slots[wf].dag == before.slots[wf].dag,
        after.slots.remove(wf) == before.slots.remove(wf),
        after.dirty.contains(wf),
        effects.len() == 1,
        events::effect_views(effects)[0] == events::appended(wf, EventKind::Started),
        r matches Ok(tasks) && {
            &&& (exists|i: int| 0 <= i < tasks@.len() && (#[trigger] tasks@[i])@.id == k)
                <==> before.slots[wf].dag.nodes.contains_key(k) && !has_edge_into(
                before.slots[wf].dag,
                k,
            )
            &&& forall|i: int|
                #![trigger tasks@[i]]
                0 <= i < tasks@.len() ==> handed_out(after.slots[wf], wf, origin, tasks@[i]@)
        },
{
    let s = before.slots[wf];
    let running = after.slots[wf];
    let ids = lifecycle::root_ids(s);
    let root = |x: Seq<char>| graph::sources(slot::pairs(s.dag), x).len() == 0;
    let tasks = r->Ok_0;
    let views = task::task_views(tasks@);
    assert(events::effect_views(effects).len() == effects.len());
    assert(after.slots.remove(wf) =~= before.slots.remove(wf));
    assert(views.len() == ids.len());
    assert forall|i: int| #![trigger tasks@[i]] 0 <= i < tasks@.len() implies tasks@[i]@.id
        == ids[i] && handed_out(running, wf, origin, tasks@[i]@) by {
        assert(views[i] == tasks@[i]@);
        s.dag.order.lemma_filter_contains_rev(root, ids[i]);
        assert(s.dag.order.to_set().contains(ids[i]));
        law_task_carries_its_node(running, wf, origin, ids[i]);
    }
    lemma_no_sources(s.dag, k);
    if s.dag.nodes.contains_key(k) && !has_edge_into(s.dag, k) {
        assert(s.dag.order.to_set().contains(k));
        s.dag.order.lemma_filter_contains(root, s.dag.order.index_of(k));
        assert(ids.contains(k));
        assert(tasks@[ids.index_of(k)]@.id == k);
    }
    if exists|i: int| 0 <= i < tasks@.len() && (#[trigger] tasks@[i])@.id == k {
        let i = choose|i: int| 0 <= i < tasks@.len() && (#[trigger] tasks@[i])@.id == k;
        assert(ids[i] == k);
        s.dag.order.lemma_filter_contains_rev(root, k);
        assert(s.dag.order.to_set().contains(k));
    }
}

/// A failure of a task that has been dispatched, in a workflow that has not ended, leads to a
/// retry exactly while the task was retried less often than its policy allows: its own, or else
/// the one that all tasks share. So a policy of `n` retries is followed by exactly `n` of them.
/// A retry puts the task back to pending, counts it, and hands it out under the next generation.
/// A failure beyond that is recorded.
pub proof fn law_failure_is_retried_as_often_as_allowed(
    before: StateView,
    after: StateView,
    wf: Seq<char>,
    origin: Option<Seq<char>>,
    id: Seq<char>,
    error: String,
    r: Result<Option<(TaskDefinition, u64)>, ActantError>,
    effects: Seq<Effect>,
)
    requires
        drive::failure_handled(before, after, wf, origin, id, error, r, effects),
        before.slots.contains_key(wf),
        execution_laws::live(before.slots[wf].execution.state),
        before.slots[wf].execution.tasks.contains_key(id),
        before.slots[wf].execution.tasks[id].state == Phase::Running,
        before.slots[wf].execution.tasks[id].attempt < u32::MAX,
        before.slots[wf].dag.nodes.contains_key(id),
    ensures
        ({
            let s = before.slots[wf];
            let node = s.dag.nodes[id];
            let policy = if node.retry_policy is Some {
                node.retry_policy
            } else {
                s.dag.default_retry_policy
            };
            let count = s.execution.tasks[id].retry_count;
            let allowed = policy is Some && count < policy->0.max_retries;
            let t = after.slots[wf].execution.tasks[id];
            &&& after.slots.contains_key(wf)
            &&& after.slots[wf].execution.tasks.contains_key(id)
            &&& after.slots.remove(wf) == before.slots.remove(wf)
            &&& allowed ==> {
                &&& r matches Ok(Some((task, delay_ms)))
                &&& delay_ms == policy->0.delay_ms
                &&& task@.id == id
                &&& handed_out(after.slots[wf], wf, origin, task@)
                &&& task@.attempt == s.execution.tasks[id].attempt + 1
                &&& t.state == Phase::Pending
                &&& t.retry_count == count + 1
                &&& t.attempt == s.execution.tasks[id].attempt + 1
                &&& after.slots[wf].execution.state == s.execution.state
                &&& after.dirty.contains(wf)
                &&& after.slots[wf].pending.contains_key(id)
                &&& s.dag.edges.len() <= usize::MAX ==> (after.slots[wf].pending[id] == 0
                    <==> !has_edge_into(s.dag, id))
                &&& after.slots[wf].pending.remove(id) == s.pending.remove(id)
                &&& after.slots[wf].dag == s.dag
                &&& effects.len() == 0
            }
            &&& !allowed ==> {
                &&& after.slots[wf].pending == s.pending
                &&& effects.len() > 0
                &&& events::effect_views(effects)[0] == events::appended(
                    wf,
                    EventKind::TaskFailed { task_id: id, error: error@ },
                )
                &&& r matches Ok(None)
                &&& t.state == Phase::Failed
                &&& t.error == Some(error)
                &&& t.retry_count == count
                &&& s.execution.strategy == FailureStrategy::FailFast
                    ==> after.slots[wf].execution.state == Phase::Failed
            }
        }),
{
    let s = before.slots[wf];
    law_task_carries_its_node(lifecycle::retried(s, id), wf, origin, id);
    lemma_no_sources(s.dag, id);
    lemma_source_count(slot::pairs(s.dag), id);
    assert(lifecycle::retried(s, id).pending.remove(id) =~= s.pending.remove(id));
    assert(events::effect_views(effects).len() == effects.len());
    execution_laws::law_failure_is_recorded(
        s.execution,
        id,
        error,
        FailureScope::WorkflowLevel,
        None,
    );
    assert(after.slots.remove(wf) =~= before.slots.remove(wf));
    if s.execution.tasks[id].retry_count < u32::MAX {
        execution_laws::law_reset_counts_on(s.execution, id);
    }
}

/// What is reported late, twice or of a task that was never dispatched changes nothing: a failure
/// of a task or workflow that has ended, of a task that waits for its retry, or of a task that
/// waits while tasks are still to come. A failure of a task that was never dispatched counts once
/// all tasks are known.
pub proof fn law_late_failure_is_ignored(
    before: StateView,
    after: StateView,
    wf: Seq<char>,
    origin: Option<Seq<char>>,
    id: Seq<char>,
    error: String,
    r: Result<Option<(TaskDefinition, u64)>, ActantError>,
    effects: Seq<Effect>,
)
    requires
        drive::failure_handled(before, after, wf, origin, id, error, r, effects),
        before.slots.contains_key(wf),
    ensures
        ({
            let x = before.slots[wf].execution;
            let waiting = x.tasks[id].state == Phase::Pending && (x.tasks[id].retry_count > 0
                || !x.sealed);
            let ignored = !execution_laws::takes_report(x, id, None) || waiting;
            &&& ignored ==> after == before && effects.len() == 0 && r == Ok::<
                Option<(TaskDefinition, u64)>,
                ActantError,
            >(None)
            &&& !ignored && before.slots[wf].dag.nodes.contains_key(id) ==> after.slots[wf]
                != before.slots[wf] || x.tasks[id].attempt == u32::MAX || x.tasks[id].retry_count
                == u32::MAX
        }),
{
    let s = before.slots[wf];
    let x = s.execution;
    execution_laws::law_failure_is_recorded(x, id, error, FailureScope::WorkflowLevel, None);
    if x.tasks.contains_key(id) && x.tasks[id].attempt < u32::MAX && x.tasks[id].retry_count
        < u32::MAX {
        execution_laws::law_reset_counts_on(x, id);
    }
}

/// A workflow that has not ended is failed for lack of time exactly where it has started and
/// more time than its deadline allows has passed since, whatever its tasks have come to. Its
/// running tasks fail with it and are ordered to stop; the end is stored, put on record and
/// announced. Every other workflow stays as it is.
pub proof fn law_deadline_is_kept(
    before: StateView,
    after: StateView,
    now: u64,
    ids: Seq<Seq<char>>,
    effects: Seq<EffectView>,
    wf: Seq<char>,
    k: Seq<char>,
)
    requires
        timeouts::expire_outcome(before, after, now, ids, effects),
        before.slots.contains_key(wf),
    ensures
        ({
            let x = before.slots[wf].execution;
            let y = after.slots[wf].execution;
            let late = x.deadline_ms is Some && x.started_at_ms is Some && now
                > x.started_at_ms->0 + x.deadline_ms->0;
            let fails = execution_laws::live(x.state) && late;
            &&& after.slots.contains_key(wf)
            &&& ids.contains(wf) <==> fails
            &&& !fails ==> after.slots[wf] == before.slots[wf]
            &&& fails ==> {
                &&& y.state == Phase::Failed
                &&& y.error == Some(timeouts::TIMEOUT_MESSAGE@)
                &&& y.tasks.contains_key(k) <==> x.tasks.contains_key(k)
                &&& x.tasks.contains_key(k) && x.tasks[k].state == Phase::Running
                    ==> y.tasks[k].state == Phase::Failed
                &&& x.tasks.contains_key(k) && x.tasks[k].state != Phase::Running ==> y.tasks[k]
                    == x.tasks[k]
                &&& effects.contains(EffectView::PersistExecution(wf))
                &&& effects.contains(EffectView::NotifyEnded(wf))
                &&& effects.contains(
                    events::appended(
                        wf,
                        EventKind::Failed { error: timeouts::TIMEOUT_MESSAGE@ },
                    ),
                )
                &&& x.order.contains(k) && x.tasks[k].state == Phase::Running ==> effects.contains(
                    EffectView::CancelEverywhere(wf, k),
                )
            }
            &&& after.slots[wf].dag == before.slots[wf].dag
            &&& after.slots[wf].pending == before.slots[wf].pending
        }),
        after.waits == before.waits,
        after.signals == before.signals,
{
    let x = before.slots[wf].execution;
    assert(ids.contains(wf) <==> state::overdue(before, wf, now));
    if ids.contains(wf) {
        assert(timeouts::failed_for_time(before.slots[wf], after.slots[wf]));
        let m = choose|m: String|
            m@ == timeouts::TIMEOUT_MESSAGE@ && after.slots[wf] == (SlotView {
                execution: #[trigger] execution::workflow_failed(x, m),
                ..before.slots[wf]
            });
        execution_laws::law_end_takes_running_tasks(x, m, k);
        let i = ids.index_of(wf);
        let a = timeouts::timeout_events(ids);
        let b = timeouts::store_orders(ids);
        let c = timeouts::all_stop_orders(before, ids);
        let d = timeouts::notify_orders(ids);
        assert(effects =~= a + b + c + d);
        assert(effects[i] == a[i]);
        assert(effects[a.len() + i] == b[i]);
        assert(effects[a.len() + b.len() + c.len() + i] == d[i]);
        if x.order.contains(k) && x.tasks[k].state == Phase::Running {
            let running = |n: Seq<char>| x.tasks[n].state == Phase::Running;
            x.order.lemma_filter_contains(running, x.order.index_of(k));
            lemma_stop_orders(before, ids, wf, k);
            let j = c.index_of(EffectView::CancelEverywhere(wf, k));
            assert(effects[a.len() + b.len() + j] == c[j]);
        }
    }
}

proof fn lemma_stop_orders(v: StateView, ids: Seq<Seq<char>>, wf: Seq<char>, k: Seq<char>)
    requires
        ids.contains(wf),
        lifecycle::running_ids(v.slots[wf].execution).contains(k),
    ensures
        timeouts::all_stop_orders(v, ids).contains(EffectView::CancelEverywhere(wf, k)),
    decreases ids.len(),
{
    let init = ids.drop_last();
    let head = timeouts::all_stop_orders(v, init);
    let running = lifecycle::running_ids(v.slots[ids.last()].execution);
    let tail = timeouts::stop_orders(ids.last(), running);
    let e = EffectView::CancelEverywhere(wf, k);
    let all = timeouts::all_stop_orders(v, ids);
    if ids.last() == wf {
        let j = running.index_of(k);
        assert(tail[j] == e);
        assert(all[head.len() + j] == e);
    } else {
        assert(init[ids.index_of(wf)] == wf);
        lemma_stop_orders(v, init, wf, k);
        let j = head.index_of(e);
        assert(all[j] == e);
    }
}

/// An edge leads from `a` to `b`.
pub open spec fn has_edge(d: DagView, a: Seq<char>, b: Seq<char>) -> bool {
    exists|i: int|
        0 <= i < d.edges.len() && (#[trigger] d.edges[i]).from@ == a && d.edges[i].to@ == b
}

/// An edge with a condition leads from `a` to `b`.
pub open spec fn has_condition(d: DagView, a: Seq<char>, b: Seq<char>) -> bool {
    exists|i: int|
        0 <= i < d.edges.len() && (#[trigger] d.edges[i]).from@ == a && d.edges[i].to@ == b
            && d.edges[i].condition is Some
}

/// The edge at `i` is the only one from `a` to `b`.
pub open spec fn only_edge(d: DagView, a: Seq<char>, b: Seq<char>, i: int) -> bool {
    &&& 0 <= i < d.edges.len()
    &&& d.edges[i].from@ == a
    &&& d.edges[i].to@ == b
    &&& forall|j: int|
        0 <= j < d.edges.len() && j != i ==> !((#[trigger] d.edges[j]).from@ == a
            && d.edges[j].to@ == b)
}

pub proof fn lemma_no_targets(edges: Seq<DagEdge>, a: Seq<char>, b: Seq<char>)
    requires
        forall|j: int|
            0 <= j < edges.len() ==> !((#[trigger] edges[j]).from@ == a && edges[j].to@ == b),
    ensures
        graph::occurrences(graph::targets(dag::edge_pairs(edges), a), b) == 0,
    decreases edges.len(),
{
    if edges.len() > 0 {
        let init = edges.drop_last();
        let pairs = dag::edge_pairs(edges);
        assert(pairs.drop_last() =~= dag::edge_pairs(init));
        assert forall|j: int| 0 <= j < init.len() implies !((#[trigger] init[j]).from@ == a
            && init[j].to@ == b) by {
            assert(init[j] == edges[j]);
        }
        lemma_no_targets(init, a, b);
        assert(edges[edges.len() - 1] == edges.last());
        assert(pairs.last() == (edges.last().from@, edges.last().to@));
        let before = graph::targets(pairs.drop_last(), a);
        if edges.last().from@ == a {
            assert(before.push(edges.last().to@).drop_last() =~= before);
        }
    }
}

pub proof fn lemma_one_target(edges: Seq<DagEdge>, a: Seq<char>, b: Seq<char>, i: int)
    requires
        0 <= i < edges.len(),
        edges[i].from@ == a,
        edges[i].to@ == b,
        forall|j: int|
            0 <= j < edges.len() && j != i ==> !((#[trigger] edges[j]).from@ == a && edges[j].to@
                == b),
    ensures
        graph::occurrences(graph::targets(dag::edge_pairs(edges), a), b) == 1,
    decreases edges.len(),
{
    let init = edges.drop_last();
    let pairs = dag::edge_pairs(edges);
    assert(pairs.drop_last() =~= dag::edge_pairs(init));
    assert(edges[edges.len() - 1] == edges.last());
    assert(pairs.last() == (edges.last().from@, edges.last().to@));
    let before = graph::targets(pairs.drop_last(), a);
    if edges.last().from@ == a {
        assert(before.push(edges.last().to@).drop_last() =~= before);
    }
    if i < init.len() {
        assert forall|j: int| 0 <= j < init.len() && j != i implies !((#[trigger] init[j]).from@
            == a && init[j].to@ == b) by {
            assert(init[j] == edges[j]);
        }
        assert(init[i] == edges[i]);
        lemma_one_target(init, a, b, i);
    } else {
        assert forall|j: int| 0 <= j < init.len() implies !((#[trigger] init[j]).from@ == a
            && init[j].to@ == b) by {
            assert(init[j] == edges[j]);
        }
        lemma_no_targets(init, a, b);
    }
}

pub proof fn lemma_conditions(edges: Seq<DagEdge>, a: Seq<char>)
    ensures
        forall|b: Seq<char>| #[trigger]
            progress::is_conditional(dag::conditional_from(edges, a), b) <==> exists|i: int|
                0 <= i < edges.len() && (#[trigger] edges[i]).from@ == a && edges[i].to@ == b
                    && edges[i].condition is Some,
    decreases edges.len(),
{
    let cond = dag::conditional_from(edges, a);
    if edges.len() > 0 {
        let init = edges.drop_last();
        let before = dag::conditional_from(init, a);
        lemma_conditions(init, a);
        assert(edges[edges.len() - 1] == edges.last());
        assert forall|b: Seq<char>| #[trigger]
            progress::is_conditional(cond, b) <==> exists|i: int|
                0 <= i < edges.len() && (#[trigger] edges[i]).from@ == a && edges[i].to@ == b
                    && edges[i].condition is Some by {
            assert(progress::is_conditional(before, b) <==> exists|i: int|
                0 <= i < init.len() && (#[trigger] init[i]).from@ == a && init[i].to@ == b
                    && init[i].condition is Some);
            if progress::is_conditional(before, b) {
                let n = choose|n: int| 0 <= n < before.len() && (#[trigger] before[n]).0@ == b;
                assert(cond[n] == before[n]);
                let i = choose|i: int|
                    0 <= i < init.len() && (#[trigger] init[i]).from@ == a && init[i].to@ == b
                        && init[i].condition is Some;
                assert(edges[i] == init[i]);
            }
            if progress::is_conditional(cond, b) && !progress::is_conditional(before, b) {
                let n = choose|n: int| 0 <= n < cond.len() && (#[trigger] cond[n]).0@ == b;
                if n < before.len() {
                    assert(before[n] == cond[n]);
                }
            }
            if exists|i: int|
                0 <= i < edges.len() && (#[trigger] edges[i]).from@ == a && edges[i].to@ == b
                    && edges[i].condition is Some {
                let i = choose|i: int|
                    0 <= i < edges.len() && (#[trigger] edges[i]).from@ == a && edges[i].to@ == b
                        && edges[i].condition is Some;
                if i < init.len() {
                    assert(init[i] == edges[i]);
                } else {
                    assert(cond[cond.len() - 1].0@ == b);
                }
            }
        }
    }
}

proof fn lemma_released(
    pending: Map<Seq<char>, usize>,
    succs: Seq<Seq<char>>,
    cond: Seq<(TaskId, String)>,
    k: Seq<char>,
)
    requires
        progress::released(pending, succs, cond).missing is None,
        pending.contains_key(k),
    ensures
        ({
            let f = progress::released(pending, succs, cond);
            let n = graph::occurrences(succs, k);
            let free = progress::is_conditional(cond, k);
            &&& f.pending.contains_key(k)
            &&& free ==> f.pending[k] == pending[k] && !f.ready.contains(k)
            &&& !free ==> {
                &&& n >= pending[k] ==> f.pending[k] == 0
                &&& n < pending[k] ==> f.pending[k] == pending[k] - n
                &&& f.ready.contains(k) <==> 1 <= pending[k] <= n
            }
        }),
    decreases succs.len(),
{
    if succs.len() > 0 {
        let g = progress::released(pending, succs.drop_last(), cond);
        let f = progress::released(pending, succs, cond);
        assert(g.missing is None);
        lemma_released(pending, succs.drop_last(), cond, k);
        if f.ready.len() > g.ready.len() {
            let x = succs.last();
            assert(f.ready == g.ready.push(x));
            assert(f.ready[g.ready.len() as int] == x);
            if g.ready.contains(k) {
                assert(f.ready[g.ready.index_of(k)] == k);
            }
            if f.ready.contains(k) && k != x {
                assert(g.ready[f.ready.index_of(k)] == k);
            }
        }
    }
}

proof fn lemma_released_keys(
    pending: Map<Seq<char>, usize>,
    succs: Seq<Seq<char>>,
    cond: Seq<(TaskId, String)>,
    k: Seq<char>,
)
    requires
        progress::released(pending, succs, cond).missing is None,
    ensures
        progress::released(pending, succs, cond).pending.contains_key(k) <==> pending.contains_key(
            k,
        ),
        progress::released(pending, succs, cond).ready.contains(k) ==> pending.contains_key(k),
    decreases succs.len(),
{
    if succs.len() > 0 {
        let g = progress::released(pending, succs.drop_last(), cond);
        let f = progress::released(pending, succs, cond);
        assert(g.missing is None);
        lemma_released_keys(pending, succs.drop_last(), cond, k);
        if f.ready.contains(k) && f.ready.len() > g.ready.len() {
            let n = f.ready.index_of(k);
            if n < g.ready.len() {
                assert(g.ready[n] == k);
            }
        }
    }
}

/// A task that completes lets go of what waits for it: over an edge without a condition, its
/// successor waits for one task less, and runs when it was the last one. A condition is handed
/// back to be evaluated, and its target waits on. Every other task is left alone.
pub proof fn law_completion_releases_successors(
    before: SlotView,
    after: SlotView,
    workflow_id: Seq<char>,
    id: Seq<char>,
    result: Vec<u8>,
    attempt: Option<u32>,
    r: Result<Completion, ActantError>,
    k: Seq<char>,
)
    requires
        progress::completion_outcome(before, after, workflow_id, id, result, attempt, r),
        before.state == SlotState::Ready,
        execution_laws::takes_report(before.execution, id, attempt),
        r is Ok,
    ensures
        after.execution.tasks.contains_key(id),
        after.execution.tasks[id].state == Phase::Completed,
        after.execution.tasks[id].result == Some(result),
        after.execution.tasks.remove(id) == before.execution.tasks.remove(id),
        after.dag == before.dag,
        r->Ok_0 is Ended <==> !execution_laws::live(after.execution.state),
        r matches Ok(Completion::Progress(p)) ==> {
            let ready = exists|i: int| 0 <= i < p.ready@.len() && (#[trigger] p.ready@[i])@ == k;
            let asked = exists|i: int|
                0 <= i < p.conditional@.len() && (#[trigger] p.conditional@[i]).0@ == k;
            &&& asked <==> has_condition(before.dag, id, k)
            &&& after.pending.contains_key(k) <==> before.pending.contains_key(k)
            &&& before.pending.contains_key(k) && (!has_edge(before.dag, id, k) || has_condition(
                before.dag,
                id,
                k,
            )) ==> !ready && after.pending[k] == before.pending[k]
            &&& forall|e: int|
                before.pending.contains_key(k) && #[trigger] only_edge(before.dag, id, k, e)
                    && before.dag.edges[e].condition is None ==> {
                    &&& ready <==> before.pending[k] == 1
                    &&& before.pending[k] > 0 ==> after.pending[k] == before.pending[k] - 1
                }
        },
{
    execution_laws::law_completion_is_recorded(before.execution, id, result, attempt);
    if let Ok(Completion::Progress(p)) = r {
        let cond = dag::conditional_from(before.dag.edges, id);
        let succs = graph::targets(slot::pairs(before.dag), id);
        let f = progress::released(before.pending, succs, cond);
        let texts = common::task_texts(p.ready@);
        lemma_conditions(before.dag.edges, id);
        lemma_released_keys(before.pending, succs, cond, k);
        assert((exists|i: int| 0 <= i < p.ready@.len() && (#[trigger] p.ready@[i])@ == k)
            <==> f.ready.contains(k)) by {
            if f.ready.contains(k) {
                let i = texts.index_of(k);
                assert(p.ready@[i]@ == k);
            }
            if exists|i: int| 0 <= i < p.ready@.len() && (#[trigger] p.ready@[i])@ == k {
                let i = choose|i: int| 0 <= i < p.ready@.len() && (#[trigger] p.ready@[i])@ == k;
                assert(texts[i] == k);
            }
        }
        assert(progress::is_conditional(cond, k) <==> has_condition(before.dag, id, k));
        if before.pending.contains_key(k) {
            lemma_released(before.pending, succs, cond, k);
            if !has_edge(before.dag, id, k) {
                lemma_no_targets(before.dag.edges, id, k);
            }
            assert forall|e: int| #[trigger]
                only_edge(before.dag, id, k, e) && before.dag.edges[e].condition is None implies {
                &&& f.ready.contains(k) <==> before.pending[k] == 1
                &&& before.pending[k] > 0 ==> after.pending[k] == before.pending[k] - 1
            } by {
                lemma_one_target(before.dag.edges, id, k, e);
                if has_condition(before.dag, id, k) {
                    let i = choose|i: int|
                        0 <= i < before.dag.edges.len() && (#[trigger] before.dag.edges[i]).from@
                            == id && before.dag.edges[i].to@ == k
                            && before.dag.edges[i].condition is Some;
                    assert(i == e);
                }
            }
        }
    }
}

/// A completion that is to be taken is put on record with its result and moves its workflow
/// alone. When it ends the workflow, the end is announced, and the workflow is kept only where
/// ended workflows are. A completion that is not to be taken changes nothing.
pub proof fn law_completion_moves_its_workflow(
    before: StateView,
    after: StateView,
    wf: Seq<char>,
    id: Seq<char>,
    result: Vec<u8>,
    attempt: Option<u32>,
    retention: usize,
    r: Result<CompletionInfo, ActantError>,
    effects: Seq<EffectView>,
)
    requires
        drive::completed(before, after, wf, id, result, attempt, retention, r, effects),
        before.slots.contains_key(wf),
        before.slots[wf].state == SlotState::Ready,
    ensures
        after.slots.remove(wf) == before.slots.remove(wf),
        !execution_laws::takes_report(before.slots[wf].execution, id, attempt) ==> {
            &&& after == before
            &&& effects.len() == 0
            &&& r matches Ok(info)
            &&& !info.workflow_terminal && info.ready_successors@.len() == 0
                && info.conditional_edges@.len() == 0
        },
        execution_laws::takes_report(before.slots[wf].execution, id, attempt) && r is Ok ==> {
            let info = r->Ok_0;
            let x = after.slots[wf].execution;
            &&& effects.len() > 0
            &&& effects[0] == events::appended(
                wf,
                EventKind::TaskCompleted { task_id: id, result: result@ },
            )
            &&& info.workflow_terminal ==> {
                &&& effects.len() == 4
                &&& effects[3] == EffectView::NotifyEnded(wf)
                &&& retention == 0 ==> !after.slots.contains_key(wf) && effects[1]
                    == EffectView::Erase(wf)
                &&& retention > 0 ==> after.slots.contains_key(wf) && !execution_laws::live(x.state)
                    && x.tasks[id].state == Phase::Completed
                &&& retention > 0 && x.state == Phase::Completed ==> (effects[1]
                    matches EffectView::PersistResults(w, results) && w == wf) && effects[2]
                    == events::appended(wf, EventKind::Completed)
                &&& info.ready_successors@.len() == 0 && info.conditional_edges@.len() == 0
            }
            &&& !info.workflow_terminal ==> {
                &&& effects.len() == 1
                &&& after.slots.contains_key(wf)
                &&& after.dirty.contains(wf)
                &&& execution_laws::live(x.state)
                &&& x.tasks.contains_key(id)
                &&& x.tasks[id].state == Phase::Completed
                &&& x.tasks[id].result == Some(result)
            }
        },
{
    let b = before.slots[wf];
    let (s, inner) = choose|s: SlotView, inner: Result<Completion, ActantError>|
        {
            let accepted = b.state != SlotState::Loading && execution::transition_allowed(
                b.execution,
                id,
            ) && execution::fencing_passes(b.execution, id, attempt);
            let head = drive::completion_events(accepted, wf, id, result@);
            &&& #[trigger] progress::completion_outcome(b, s, wf, id, result, attempt, inner)
            &&& match inner {
                Ok(Completion::Ignored) => {
                    &&& after == before
                    &&& effects.len() == 0
                    &&& r matches Ok(info)
                    &&& !info.workflow_terminal
                    &&& info.ready_successors@.len() == 0
                    &&& info.conditional_edges@.len() == 0
                },
                Ok(Completion::Ended) => {
                    &&& effects.len() > 0
                    &&& effects[0] == head[0]
                    &&& drive::ended(before, after, wf, s, Some(id), retention, effects.skip(1))
                    &&& r matches Ok(info)
                    &&& info.workflow_terminal
                    &&& info.ready_successors@.len() == 0
                    &&& info.conditional_edges@.len() == 0
                },
                Ok(Completion::Progress(p)) => {
                    &&& after == drive::moved(before, wf, s)
                    &&& effects == head
                    &&& r == Ok::<CompletionInfo, ActantError>(
                        CompletionInfo {
                            workflow_terminal: false,
                            ready_successors: p.ready,
                            conditional_edges: p.conditional,
                        },
                    )
                },
                Err(e) => {
                    &&& after == state::with_slot(before, wf, s)
                    &&& effects == head
                    &&& r == Err::<CompletionInfo, ActantError>(e)
                },
            }
        };
    execution_laws::law_completion_is_recorded(b.execution, id, result, attempt);
    assert(after.slots.remove(wf) =~= before.slots.remove(wf));
    if execution_laws::takes_report(b.execution, id, attempt) {
        let x = s.execution;
        if inner matches Ok(Completion::Ended) {
            assert(effects.skip(1).len() == effects.len() - 1);
            assert(effects.skip(1)[0] == effects[1]);
            assert(effects.skip(1)[1] == effects[2]);
            assert(effects.skip(1)[2] == effects[3]);
            assert(x.tasks.contains_key(id) && x.tasks[id].result is Some);
        }
    }
}

/// The end of a workflow is stored or, where ended workflows are not kept, erased; it is put on
/// record as what it is, and announced. Results are stored with a completed workflow.
pub proof fn law_end_is_announced(
    before: StateView,
    after: StateView,
    wf: Seq<char>,
    s: SlotView,
    completed: Option<Seq<char>>,
    retention: usize,
    effects: Seq<EffectView>,
    k: Seq<char>,
)
    requires
        drive::ended(before, after, wf, s, completed, retention, effects),
    ensures
        effects.len() == 3,
        effects[2] == EffectView::NotifyEnded(wf),
        retention == 0 ==> effects[0] == EffectView::Erase(wf) && !after.slots.contains_key(wf),
        retention > 0 ==> after.slots.contains_key(wf) && after.slots[wf] == s,
        after.slots.remove(wf) == before.slots.remove(wf),
        s.execution.state == Phase::Completed ==> effects[1] == events::appended(
            wf,
            EventKind::Completed,
        ),
        s.execution.state == Phase::Cancelled ==> effects[1] == events::appended(
            wf,
            EventKind::Cancelled,
        ),
        s.execution.state == Phase::Failed && completed is None && s.execution.error is Some
            ==> effects[1] == events::appended(
            wf,
            EventKind::Failed { error: s.execution.error->0 },
        ),
        s.execution.state == Phase::Failed && completed is Some ==> effects[1] == events::appended(
            wf,
            EventKind::Failed { error: "workflow failed at task "@ + completed->0 },
        ),
        s.execution.state == Phase::Failed ==> (effects[1] matches EffectView::Append(e)
            && e.kind is Failed && e.workflow_id == wf),
        retention > 0 && s.execution.state != Phase::Completed ==> effects[0]
            == EffectView::PersistExecution(wf),
        retention > 0 && s.execution.state == Phase::Completed && s.execution.tasks.contains_key(k)
            && s.execution.tasks[k].result is Some ==> (effects[0]
            matches EffectView::PersistResults(w, results) && w == wf && results.contains(
            s.execution.tasks[k].result->0@,
        )),
{
    assert(after.slots.remove(wf) =~= before.slots.remove(wf));
    let x = s.execution;
    if retention > 0 && x.state == Phase::Completed && x.tasks.contains_key(k)
        && x.tasks[k].result is Some {
        if let EffectView::PersistResults(w, results) = effects[0] {
            let (ids, list) = choose|ids: Seq<Seq<char>>, list: Seq<Vec<u8>>|
                #![trigger execution::results_listing(x.tasks, ids, list)]
                execution::results_listing(x.tasks, ids, list) && results == task::contents(list);
            assert(ids.contains(k));
            let i = ids.index_of(k);
            assert(results[i] == list[i]@);
            assert(results[i] == x.tasks[k].result->0@);
        }
    }
}

/// Sealing a workflow that has not ended ends it where its tasks have ended, as they say, and
/// only then; it touches no task.
pub proof fn law_sealing_ends_what_is_done(
    before: StateView,
    after: StateView,
    wf: Seq<char>,
    retention: usize,
    r: Result<(), ActantError>,
    effects: Seq<Effect>,
)
    requires
        drive::seal_outcome(before, after, wf, retention, r, effects),
        before.slots.contains_key(wf),
        before.slots[wf].state == SlotState::Ready,
        execution_laws::counted(before.slots[wf].execution),
        execution_laws::live(before.slots[wf].execution.state),
        retention > 0,
    ensures
        r is Ok,
        after.slots.contains_key(wf),
        after.slots[wf].execution.sealed,
        after.slots[wf].execution.tasks == before.slots[wf].execution.tasks,
        execution_laws::fair_end(after.slots[wf].execution),
        execution_laws::timely_end(after.slots[wf].execution),
        execution_laws::live(after.slots[wf].execution.state) <==> effects.len() == 0,
        !execution_laws::live(after.slots[wf].execution.state) ==> effects.len() == 3
            && events::effect_views(effects)[2] == EffectView::NotifyEnded(wf),
        after.slots.remove(wf) == before.slots.remove(wf),
{
    let x = before.slots[wf].execution;
    let v: Vec<u8> = arbitrary();
    execution_laws::law_end_agrees_with_tasks(x, Seq::empty(), v, None);
    assert(after.slots.remove(wf) =~= before.slots.remove(wf));
    assert(events::effect_views(effects).len() == effects.len());
}

/// Cancelling a workflow that has not ended cancels it with its running tasks, touches none of
/// the others, and announces it. One that has ended, and one that is not known, stay as they are.
pub proof fn law_cancelling_ends_the_workflow(
    before: StateView,
    after: StateView,
    wf: Seq<char>,
    retention: usize,
    r: Result<(), ActantError>,
    effects: Seq<Effect>,
    k: Seq<char>,
)
    requires
        drive::cancel_outcome(before, after, wf, retention, r, effects),
        retention > 0,
    ensures
        after.slots.remove(wf) == before.slots.remove(wf),
        !before.slots.contains_key(wf) ==> r is Err && after == before && effects.len() == 0,
        before.slots.contains_key(wf) ==> r is Ok,
        before.slots.contains_key(wf) && !execution_laws::live(before.slots[wf].execution.state)
            ==> after == before && effects.len() == 0,
        before.slots.contains_key(wf) && execution_laws::live(before.slots[wf].execution.state)
            ==> {
            let x = before.slots[wf].execution;
            let y = after.slots[wf].execution;
            &&& after.slots.contains_key(wf)
            &&& y.state == Phase::Cancelled
            &&& y.tasks.contains_key(k) <==> x.tasks.contains_key(k)
            &&& x.tasks.contains_key(k) && x.tasks[k].state == Phase::Running ==> y.tasks[k].state
                == Phase::Cancelled
            &&& x.tasks.contains_key(k) && x.tasks[k].state != Phase::Running ==> y.tasks[k]
                == x.tasks[k]
            &&& effects.len() == 3
            &&& events::effect_views(effects)[0] == EffectView::PersistExecution(wf)
            &&& events::effect_views(effects)[1] == events::appended(wf, EventKind::Cancelled)
            &&& events::effect_views(effects)[2] == EffectView::NotifyEnded(wf)
        },
{
    let m: String = arbitrary();
    execution_laws::law_end_takes_running_tasks(before.slots[wf].execution, m, k);
    assert(after.slots.remove(wf) =~= before.slots.remove(wf));
    assert(events::effect_views(effects).len() == effects.len());
}

/// A task that is pending or running is cancelled, alone, and it is put on record; any other is
/// not. The workflow ends with it only where all tasks are known and none is left.
pub proof fn law_cancelling_a_task(
    before: StateView,
    after: StateView,
    wf: Seq<char>,
    id: Seq<char>,
    retention: usize,
    r: Result<bool, ActantError>,
    effects: Seq<Effect>,
)
    requires
        drive::cancel_task_outcome(before, after, wf, id, retention, r, effects),
        before.slots.contains_key(wf),
        retention > 0,
    ensures
        ({
            let x = before.slots[wf].execution;
            let y = after.slots[wf].execution;
            let open = x.tasks.contains_key(id) && execution_laws::live(x.tasks[id].state);
            &&& r == Ok::<bool, ActantError>(open)
            &&& !open ==> after == before && effects.len() == 0
            &&& open ==> {
                &&& after.slots.contains_key(wf)
                &&& y.tasks.contains_key(id)
                &&& y.tasks[id].state == Phase::Cancelled
                &&& y.tasks.remove(id) == x.tasks.remove(id)
                &&& effects.len() > 0
                &&& events::effect_views(effects)[0] == events::appended(
                    wf,
                    EventKind::TaskCancelled { task_id: id },
                )
                &&& execution_laws::live(x.state) && !execution_laws::live(y.state) <==> (
                execution_laws::live(x.state) && x.sealed && execution_laws::none_live(y.tasks))
                &&& execution_laws::live(x.state) && !execution_laws::live(y.state)
                    ==> effects.len() == 4 && events::effect_views(effects)[3]
                    == EffectView::NotifyEnded(wf)
            }
            &&& after.slots.remove(wf) == before.slots.remove(wf)
        }),
{
    let x = before.slots[wf].execution;
    if x.tasks.contains_key(id) {
        execution_laws::law_cancelled_task(x, id);
        let w = execution::task_cancelled(x, id);
        if execution_laws::live(x.state) && x.sealed && execution_laws::none_live(w.tasks) {
            if !(exists|k: Seq<char>| #[trigger]
                w.tasks.contains_key(k) && w.tasks[k].state == Phase::Failed) {
                assert forall|k: Seq<char>| #[trigger] w.tasks.contains_key(k) implies
                    w.tasks[k].state != Phase::Failed by {}
            }
        }
    }
    assert(after.slots.remove(wf) =~= before.slots.remove(wf));
    let views = events::effect_views(effects);
    assert(views.len() == effects.len());
    if views.len() == 4 {
        assert(views.skip(1)[2] == views[3]);
    }
    assert(views.len() > 0 ==> views.skip(1).len() == views.len() - 1);
}

/// A task that is marked running changes in nothing else; one that has ended, or whose workflow
/// has, stays as it is.
pub proof fn law_marking_a_task_running(
    before: StateView,
    after: StateView,
    wf: Seq<char>,
    id: Seq<char>,
    r: Result<(), ActantError>,
    effects: Seq<Effect>,
)
    requires
        drive::running_outcome(before, after, wf, id, r, effects),
        before.slots.contains_key(wf),
    ensures
        r is Ok,
        !execution_laws::takes_report(before.slots[wf].execution, id, None) ==> after == before
            && effects.len() == 0,
        execution_laws::takes_report(before.slots[wf].execution, id, None) ==> {
            let x = before.slots[wf].execution;
            let y = after.slots[wf].execution;
            &&& after.slots.contains_key(wf)
            &&& y.tasks[id] == (TaskState { state: Phase::Running, ..x.tasks[id] })
            &&& y.tasks.remove(id) == x.tasks.remove(id)
            &&& y.state == x.state
            &&& effects.len() == 1
            &&& events::effect_views(effects)[0] == events::appended(
                wf,
                EventKind::TaskRunning { task_id: id },
            )
        },
        after.slots.remove(wf) == before.slots.remove(wf),
{
    execution_laws::law_running_task(before.slots[wf].execution, id);
    assert(after.slots.remove(wf) =~= before.slots.remove(wf));
    assert(events::effect_views(effects).len() == effects.len());
}

/// A running or failed task that is put back is pending again, without its result and under the
/// next generation, its retries as they were. Any other task, and every other workflow, stays as
/// it is; of a workflow that is not known it is an error.
pub proof fn law_putting_a_task_back(
    before: StateView,
    after: StateView,
    wf: Seq<char>,
    id: Seq<char>,
    r: Result<(), ActantError>,
)
    requires
        drive::pending_outcome(before, after, wf, id, r),
        before.slots.contains_key(wf) && before.slots[wf].execution.tasks.contains_key(id)
            ==> before.slots[wf].execution.tasks[id].attempt < u32::MAX
            && before.slots[wf].execution.tasks[id].retry_count < u32::MAX,
    ensures
        r is Ok <==> before.slots.contains_key(wf),
        !before.slots.contains_key(wf) ==> after == before,
        before.slots.contains_key(wf) ==> {
            let x = before.slots[wf].execution;
            let y = after.slots[wf].execution;
            let t = x.tasks[id];
            &&& after.slots.contains_key(wf)
            &&& !x.tasks.contains_key(id) || (t.state != Phase::Running && t.state
                != Phase::Failed) ==> y == x
            &&& x.tasks.contains_key(id) && (t.state == Phase::Running || t.state
                == Phase::Failed) ==> {
                &&& y.tasks.contains_key(id)
                &&& y.tasks[id].state == Phase::Pending
                &&& y.tasks[id].result is None
                &&& y.tasks[id].retry_count == t.retry_count
                &&& y.tasks[id].attempt == t.attempt + 1
            }
            &&& y.tasks.remove(id) == x.tasks.remove(id)
            &&& y.state == x.state
        },
        after.slots.remove(wf) == before.slots.remove(wf),
{
    if before.slots.contains_key(wf) {
        if before.slots[wf].execution.tasks.contains_key(id) {
            execution_laws::law_reset_counts_on(before.slots[wf].execution, id);
        }
        assert(after.slots.remove(wf) =~= before.slots.remove(wf));
    }
}

/// A workflow that is submitted has each node of its graph as a pending task, which waits for
/// nothing exactly where no edge leads into it; it fails as the graph says, and without nodes
/// its tasks are still to come. What is submitted again is refused, unless it is empty. With a
/// time limit, the limit is the workflow's deadline.
pub proof fn law_submission_sets_up_the_workflow(
    before: StateView,
    after: StateView,
    wf: Seq<char>,
    d: DagView,
    timeout: Option<u64>,
    r: Result<(), ActantError>,
    effects: Seq<Effect>,
    k: Seq<char>,
)
    requires
        timeout is None ==> engine::submit_outcome(before, after, wf, d, r, effects),
        timeout matches Some(ms) ==> engine::timed_submit_outcome(
            before,
            after,
            wf,
            d,
            ms,
            r,
            effects,
        ),
        d.order.no_duplicates(),
        d.order.to_set() == d.nodes.dom(),
        d.edges.len() <= usize::MAX,
        forall|n: Seq<char>| #[trigger] d.nodes.contains_key(n) ==> d.nodes[n].task_id@ == n,
    ensures
        ({
            let known = before.slots.contains_key(wf) && before.slots[wf].state == SlotState::Ready;
            let s = after.slots[wf];
            &&& after.slots.remove(wf) == before.slots.remove(wf)
            &&& known && d.nodes.len() > 0 ==> r is Err && after == before && effects.len() == 0
            &&& known && d.nodes.len() == 0 ==> r is Ok && effects.len() == 0
                && s.execution.tasks == before.slots[wf].execution.tasks && s.dag
                == before.slots[wf].dag
            &&& !known ==> {
                &&& r is Ok
                &&& after.slots.contains_key(wf)
                &&& s.state == SlotState::Ready
                &&& s.dag == d
                &&& s.execution.state == Phase::Pending
                &&& s.execution.strategy == d.failure_strategy
                &&& s.execution.sealed <==> d.order.len() > 0
                &&& s.execution.total == d.order.len()
                &&& s.execution.tasks.contains_key(k) <==> d.nodes.contains_key(k)
                &&& d.nodes.contains_key(k) ==> s.execution.tasks[k].state == Phase::Pending
                    && s.execution.tasks[k].attempt == 0 && s.execution.tasks[k].retry_count == 0
                &&& s.pending.contains_key(k) <==> d.nodes.contains_key(k)
                &&& d.nodes.contains_key(k) ==> (s.pending[k] == 0 <==> !has_edge_into(d, k))
                &&& effects.len() == d.order.len() + 2
                &&& events::effect_views(effects)[0] == EffectView::PersistWorkflow(wf)
                &&& events::effect_views(effects)[1] == events::appended(wf, EventKind::Submitted)
                &&& forall|i: int|
                    0 <= i < d.order.len() ==> (#[trigger] events::effect_views(effects)[i + 2])
                        == events::appended(
                        wf,
                        EventKind::NodeAdded { node: d.nodes[d.order[i]]@ },
                    )
            }
            &&& !known && timeout is None ==> s.execution.deadline_ms is None
            &&& r is Ok && timeout is Some ==> s.execution.deadline_ms == timeout
            &&& r is Ok && timeout is Some ==> after.dirty == before.dirty.insert(wf)
            &&& r is Err || timeout is None ==> after.dirty == before.dirty
            &&& after.waits == before.waits && after.signals == before.signals
        }),
{
    let ids = submit::node_ids(d);
    assert(after.slots.remove(wf) =~= before.slots.remove(wf));
    assert(events::effect_views(effects).len() == effects.len());
    execution_laws::law_new_workflow(wf, ids, k);
    lemma_no_sources(d, k);
    lemma_source_count(slot::pairs(d), k);
    if d.nodes.contains_key(k) {
        assert(d.order.to_set().contains(k));
        let i = d.order.index_of(k);
        assert(ids[i]@ == k);
    }
    if exists|i: int| 0 <= i < ids.len() && (#[trigger] ids[i])@ == k {
        let i = choose|i: int| 0 <= i < ids.len() && (#[trigger] ids[i])@ == k;
        assert(d.order.to_set().contains(d.order[i]));
    }
}

pub proof fn lemma_source_count(edges: Seq<graph::Edge>, k: Seq<char>)
    ensures
        graph::sources(edges, k).len() <= edges.len(),
    decreases edges.len(),
{
    if edges.len() > 0 {
        lemma_source_count(edges.drop_last(), k);
    }
}

/// The condition of an edge holds: its target waits for one task less, runs when it was the last
/// one, and nothing else changes.
pub proof fn law_condition_that_holds(
    before: SlotView,
    after: SlotView,
    id: Seq<char>,
    r: Result<bool, ActantError>,
)
    requires
        progress::activation_outcome(before, after, id, r),
        before.pending.contains_key(id),
    ensures
        r is Ok,
        before.pending[id] == 0 ==> after == before && r->Ok_0 == false,
        before.pending[id] > 0 ==> after.pending.contains_key(id) && after.pending[id]
            == before.pending[id] - 1 && (r->Ok_0 <==> before.pending[id] == 1),
        after.pending.remove(id) == before.pending.remove(id),
        after.execution == before.execution,
        after.dag == before.dag,
{
    assert(after.pending.remove(id) =~= before.pending.remove(id));
}

/// Skipping reaches a task: it waits for one task less. When that was the last one, it runs where
/// a task that it waited for has a result, and is skipped where none has.
pub proof fn law_wave_reaches(w: skip::Wave, k: Seq<char>)
    requires
        w.slot.pending.contains_key(k),
        w.slot.pending[k] > 0,
    ensures
        ({
            let n = skip::wave_reaches(w, k);
            let last = w.slot.pending[k] == 1;
            let fed = exists|i: int|
                0 <= i < w.slot.dag.edges.len() && (#[trigger] w.slot.dag.edges[i]).to@ == k
                    && w.slot.execution.tasks.contains_key(w.slot.dag.edges[i].from@)
                    && w.slot.execution.tasks[w.slot.dag.edges[i].from@].result is Some;
            &&& n.slot.pending.contains_key(k)
            &&& n.slot.pending[k] == w.slot.pending[k] - 1
            &&& n.slot.pending.remove(k) == w.slot.pending.remove(k)
            &&& n.slot.dag == w.slot.dag
            &&& !last ==> n.ready == w.ready && n.skipped == w.skipped && n.slot.execution
                == w.slot.execution
            &&& last && fed ==> n.ready == w.ready.push(k) && n.skipped == w.skipped
                && n.slot.execution == w.slot.execution
            &&& last && !fed ==> {
                &&& n.ready == w.ready
                &&& n.skipped == w.skipped.push(k)
                &&& w.slot.execution.tasks.contains_key(k) && execution_laws::live(
                    w.slot.execution.tasks[k].state,
                ) ==> n.slot.execution.tasks[k].state == Phase::Skipped
            }
        }),
{
    let n = skip::wave_reaches(w, k);
    assert(n.slot.pending.remove(k) =~= w.slot.pending.remove(k));
    let edges = slot::pairs(w.slot.dag);
    let ids = graph::sources(edges, k);
    let tasks = w.slot.execution.tasks;
    if skip::any_result(ids, tasks) {
        let j = choose|j: int|
            0 <= j < ids.len() && tasks.contains_key(#[trigger] ids[j]) && tasks[ids[j]].result
                is Some;
        graph::lemma_sources(edges, k, j);
        let i = graph::edge_from(edges, k, j);
        assert(w.slot.dag.edges[i].to@ == k && w.slot.dag.edges[i].from@ == ids[j]);
    }
    if exists|i: int|
        0 <= i < w.slot.dag.edges.len() && (#[trigger] w.slot.dag.edges[i]).to@ == k
            && tasks.contains_key(w.slot.dag.edges[i].from@) && tasks[w.slot.dag.edges[i].from@].result
            is Some {
        let i = choose|i: int|
            0 <= i < w.slot.dag.edges.len() && (#[trigger] w.slot.dag.edges[i]).to@ == k
                && tasks.contains_key(w.slot.dag.edges[i].from@)
                && tasks[w.slot.dag.edges[i].from@].result is Some;
        assert(edges[i] == (w.slot.dag.edges[i].from@, k));
        lemma_source_of(edges, i);
        let j = ids.index_of(edges[i].0);
        assert(tasks.contains_key(ids[j]));
    }
    if w.slot.execution.tasks.contains_key(k) {
        execution_laws::law_skip_is_recorded(w.slot.execution, k);
    }
}

proof fn lemma_source_of(edges: Seq<graph::Edge>, i: int)
    requires
        0 <= i < edges.len(),
    ensures
        graph::sources(edges, edges[i].1).contains(edges[i].0),
    decreases edges.len(),
{
    let k = edges[i].1;
    let init = graph::sources(edges.drop_last(), k);
    let all = graph::sources(edges, k);
    if i == edges.len() - 1 {
        assert(all[init.len() as int] == edges[i].0);
    } else {
        lemma_source_of(edges.drop_last(), i);
        let p = init.index_of(edges[i].0);
        assert(all[p] == edges[i].0);
    }
}

/// The neighbours of a task are the ends of its edges: one is the target of another exactly where
/// an edge leads there, and then the other is among its sources.
pub proof fn law_neighbours(d: DagView, a: Seq<char>, b: Seq<char>)
    ensures
        graph::targets(slot::pairs(d), a).contains(b) <==> has_edge(d, a, b),
        graph::sources(slot::pairs(d), b).contains(a) <==> has_edge(d, a, b),
{
    let edges = slot::pairs(d);
    if has_edge(d, a, b) {
        let i = choose|i: int|
            0 <= i < d.edges.len() && (#[trigger] d.edges[i]).from@ == a && d.edges[i].to@ == b;
        assert(edges[i] == (a, b));
        graph::lemma_target_of(edges, i);
        lemma_source_of(edges, i);
    }
    if graph::targets(edges, a).contains(b) {
        let j = graph::targets(edges, a).index_of(b);
        graph::lemma_targets(edges, a, j);
        let i = graph::edge_to(edges, a, j);
        assert(d.edges[i].from@ == a && d.edges[i].to@ == b);
    }
    if graph::sources(edges, b).contains(a) {
        let j = graph::sources(edges, b).index_of(a);
        graph::lemma_sources(edges, b, j);
        let i = graph::edge_from(edges, b, j);
        assert(d.edges[i].from@ == a && d.edges[i].to@ == b);
    }
}

/// A completion that does not end its workflow returns the tasks that can run now, the conditions
/// that are open, and nothing else: a task is told to run where the last thing that it waited for
/// was an edge without a condition from the completed one, and asked about where there is an edge
/// with one.
pub proof fn law_completion_tells_what_is_next(
    before: StateView,
    after: StateView,
    wf: Seq<char>,
    id: Seq<char>,
    result: Vec<u8>,
    attempt: Option<u32>,
    retention: usize,
    r: Result<CompletionInfo, ActantError>,
    effects: Seq<EffectView>,
    k: Seq<char>,
)
    requires
        drive::completed(before, after, wf, id, result, attempt, retention, r, effects),
        before.slots.contains_key(wf),
        before.slots[wf].state == SlotState::Ready,
        execution_laws::takes_report(before.slots[wf].execution, id, attempt),
        r is Ok,
        !(r->Ok_0).workflow_terminal,
    ensures
        ({
            let info = r->Ok_0;
            let b = before.slots[wf];
            let a = after.slots[wf];
            let ready = exists|i: int|
                0 <= i < info.ready_successors@.len() && (#[trigger] info.ready_successors@[i])@ == k;
            let asked = exists|i: int|
                0 <= i < info.conditional_edges@.len() && (#[trigger] info.conditional_edges@[i]).0@
                    == k;
            &&& asked <==> has_condition(b.dag, id, k)
            &&& a.pending.contains_key(k) <==> b.pending.contains_key(k)
            &&& b.pending.contains_key(k) && (!has_edge(b.dag, id, k) || has_condition(
                b.dag,
                id,
                k,
            )) ==> !ready && a.pending[k] == b.pending[k]
            &&& forall|e: int|
                b.pending.contains_key(k) && #[trigger] only_edge(b.dag, id, k, e)
                    && b.dag.edges[e].condition is None ==> {
                    &&& ready <==> b.pending[k] == 1
                    &&& b.pending[k] > 0 ==> a.pending[k] == b.pending[k] - 1
                }
        }),
{
    let b = before.slots[wf];
    let (s, inner) = choose|s: SlotView, inner: Result<Completion, ActantError>|
        {
            let accepted = b.state != SlotState::Loading && execution::transition_allowed(
                b.execution,
                id,
            ) && execution::fencing_passes(b.execution, id, attempt);
            let head = drive::completion_events(accepted, wf, id, result@);
            &&& #[trigger] progress::completion_outcome(b, s, wf, id, result, attempt, inner)
            &&& match inner {
                Ok(Completion::Ignored) => {
                    &&& after == before
                    &&& effects.len() == 0
                    &&& r matches Ok(info)
                    &&& !info.workflow_terminal
                    &&& info.ready_successors@.len() == 0
                    &&& info.conditional_edges@.len() == 0
                },
                Ok(Completion::Ended) => {
                    &&& effects.len() > 0
                    &&& effects[0] == head[0]
                    &&& drive::ended(before, after, wf, s, Some(id), retention, effects.skip(1))
                    &&& r matches Ok(info)
                    &&& info.workflow_terminal
                    &&& info.ready_successors@.len() == 0
                    &&& info.conditional_edges@.len() == 0
                },
                Ok(Completion::Progress(p)) => {
                    &&& after == drive::moved(before, wf, s)
                    &&& effects == head
                    &&& r == Ok::<CompletionInfo, ActantError>(
                        CompletionInfo {
                            workflow_terminal: false,
                            ready_successors: p.ready,
                            conditional_edges: p.conditional,
                        },
                    )
                },
                Err(e) => {
                    &&& after == state::with_slot(before, wf, s)
                    &&& effects == head
                    &&& r == Err::<CompletionInfo, ActantError>(e)
                },
            }
        };
    law_completion_releases_successors(b, s, wf, id, result, attempt, inner, k);
    if let Ok(Completion::Progress(p)) = inner {
        assert(after.slots[wf] == s);
        assert((r->Ok_0).ready_successors == p.ready);
        assert((r->Ok_0).conditional_edges == p.conditional);
    } else {
        assert(false);
    }
}

/// The results of a workflow come in the order of the names of its tasks, each once: of two tasks
/// with results the one whose name comes first has its result first.
pub proof fn law_results_come_by_name(
    v: ExecutionView,
    results: Seq<Seq<u8>>,
    a: Seq<char>,
    b: Seq<char>,
)
    requires
        engine::sorted_results(v, results),
        v.tasks.contains_key(a),
        v.tasks[a].result is Some,
        v.tasks.contains_key(b),
        v.tasks[b].result is Some,
        text::text_lt(a, b),
    ensures
        exists|i: int, j: int|
            #![trigger results[i], results[j]]
            0 <= i < j < results.len() && results[i] == v.tasks[a].result->0@ && results[j]
                == v.tasks[b].result->0@,
        results.len() == v.tasks.dom().filter(
            |k: Seq<char>| v.tasks[k].result is Some,
        ).len() || !v.tasks.dom().finite(),
{
    let (ids, list) = choose|ids: Seq<Seq<char>>, list: Seq<Vec<u8>>|
        #![trigger execution::results_listing(v.tasks, ids, list)]
        execution::results_listing(v.tasks, ids, list) && results == task::contents(list);
    let i = ids.index_of(a);
    let j = ids.index_of(b);
    assert(ids.contains(a) && ids.contains(b));
    if j < i {
        assert(text::text_lt(ids[j], ids[i]));
        text::lemma_text_asymmetric(a, b);
    }
    if i == j {
        text::lemma_text_irreflexive(a);
    }
    assert(results[i] == v.tasks[a].result->0@ && results[j] == v.tasks[b].result->0@);
    if v.tasks.dom().finite() {
        let done = v.tasks.dom().filter(|k: Seq<char>| v.tasks[k].result is Some);
        assert(ids.no_duplicates()) by {
            assert forall|x: int, y: int| 0 <= x < y < ids.len() implies ids[x] != ids[y] by {
                assert(text::text_lt(ids[x], ids[y]));
                text::lemma_text_irreflexive(ids[x]);
            }
        }
        ids.unique_seq_to_set();
        assert(ids.to_set() =~= done);
    }
}

/// A workflow that could not be stored is due again where it is still known, and is not where it
/// is not; what was due stays due, and nothing else changes.
pub proof fn law_unstored_workflows_are_due_again(
    v: StateView,
    ids: Seq<Seq<char>>,
    k: Seq<char>,
)
    ensures
        ({
            let w = persistence::marked_again(v, ids);
            &&& w.dirty.contains(k) <==> v.dirty.contains(k) || (ids.contains(k)
                && v.slots.contains_key(k))
            &&& w.slots == v.slots
            &&& w.waits == v.waits
            &&& w.signals == v.signals
            &&& w.seqs == v.seqs
        }),
{
}

/// A recovered workflow with a task to run that has no node is left alone: none of its tasks is
/// handed out.
pub proof fn law_workflow_without_a_node_is_left_alone(
    v: StateView,
    origin: Option<Seq<char>>,
    tasks: Seq<TaskDefinition>,
    wf: Seq<char>,
    n: Seq<char>,
    i: int,
)
    requires
        recovery::lists_resumable(v, origin, v.slots.dom(), tasks),
        v.slots.contains_key(wf),
        v.slots[wf].pending.contains_key(n),
        v.slots[wf].pending[n] == 0,
        v.slots[wf].execution.tasks.contains_key(n),
        v.slots[wf].execution.tasks[n].state == Phase::Pending,
        !v.slots[wf].dag.nodes.contains_key(n),
        0 <= i < tasks.len(),
        tasks[i]@.workflow_id is Some,
    ensures
        tasks[i]@.workflow_id != Some(wf),
{
    let list = recovery::task_names(tasks);
    assert(list[i] == (list[i].0, list[i].1));
    assert(list.contains((list[i].0, list[i].1)));
    assert(lifecycle::runnable(v.slots[wf], n));
}

/// A submission is refused exactly where the workflow's data is here and the graph has nodes, and
/// is nothing to do where it has none. Otherwise what is prepared is what submitting leaves: the
/// same graph, the same tasks, and the same number of edges to wait for.
pub proof fn law_submission_is_prepared(
    before: StateView,
    after: StateView,
    wf: Seq<char>,
    d: DagView,
    prepared: Result<Option<WorkflowSlot>, ActantError>,
    r: Result<(), ActantError>,
    effects: Seq<Effect>,
)
    requires
        engine::submit_verdict(before, wf, d, prepared),
        engine::submit_outcome(before, after, wf, d, r, effects),
    ensures
        ({
            let known = before.slots.contains_key(wf) && before.slots[wf].state == SlotState::Ready;
            &&& prepared is Err <==> known && d.nodes.len() > 0
            &&& prepared is Err <==> r is Err
            &&& prepared is Ok && prepared->Ok_0 is None <==> known && d.nodes.len() == 0
            &&& prepared matches Ok(Some(s)) ==> {
                &&& after.slots.contains_key(wf)
                &&& s@.dag == d
                &&& s@.state == SlotState::Ready
                &&& after.slots[wf].dag == s@.dag
                &&& after.slots[wf].state == s@.state
                &&& after.slots[wf].pending == s@.pending
                &&& after.slots[wf].execution.tasks == s@.execution.tasks
                &&& after.slots[wf].execution.strategy == s@.execution.strategy
            }
        }),
{
}

} // verus!
