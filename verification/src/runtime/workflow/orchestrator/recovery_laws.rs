//! What holds of workflows that are stored, taken up again, taken over and replayed.
use vstd::prelude::*;

use crate::common::ActantError;
use crate::keymap::KeyMap;
use crate::runtime::workflow::dag::{Dag, DagView};
use crate::runtime::workflow::execution;
use crate::runtime::workflow::execution::{ExecutionView, TaskState, WorkflowExecution};
use crate::runtime::workflow::execution_laws;
use crate::runtime::workflow::orchestrator::events;
use crate::runtime::workflow::orchestrator::events::{
    Effect, EffectView, WorkflowEventPayload,
};
use crate::runtime::workflow::orchestrator::keys;
use crate::runtime::workflow::orchestrator::laws;
use crate::runtime::workflow::orchestrator::lifecycle;
use crate::runtime::workflow::orchestrator::persistence;
use crate::runtime::workflow::orchestrator::persistence::FlushEntry;
use crate::runtime::workflow::orchestrator::recovery;
use crate::runtime::workflow::orchestrator::replay;
use crate::runtime::workflow::orchestrator::slot;
use crate::runtime::workflow::orchestrator::slot::SlotState;
use crate::runtime::workflow::orchestrator::state::StateView;
use crate::runtime::workflow::orchestrator::submit;
use crate::runtime::workflow::orchestrator::timeouts;
use crate::runtime::workflow::orchestrator::wait_laws;
use crate::runtime::workflow::phase::{FailureScope, FailureStrategy, Phase};
use crate::runtime::workflow::task;
use crate::runtime::workflow::task::TaskDefinition;
use crate::runtime::workflow::wait::WaitView;

verus! {

/// `b` is `a` to be dispatched once more: pending, without a result, under the next generation,
/// with as many retries as before.
pub open spec fn dispatched_anew(a: TaskState, b: TaskState) -> bool {
    &&& b.state == Phase::Pending
    &&& b.result is None
    &&& b.attempt == a.attempt + 1
    &&& b.retry_count == a.retry_count
    &&& b.task_id == a.task_id
    &&& b.error == a.error
}

/// `after` is `before` but for its running tasks, which are to be dispatched once more.
pub open spec fn resumed(before: ExecutionView, after: ExecutionView) -> bool {
    &&& after.tasks.dom() == before.tasks.dom()
    &&& forall|k: Seq<char>|
        before.tasks.contains_key(k) && before.tasks[k].state == Phase::Running
            ==> dispatched_anew(before.tasks[k], #[trigger] after.tasks[k])
    &&& forall|k: Seq<char>|
        before.tasks.contains_key(k) && before.tasks[k].state != Phase::Running
            ==> #[trigger] after.tasks[k] == before.tasks[k]
    &&& after.state == before.state
    &&& after.order == before.order
    &&& after.deadline_ms == before.deadline_ms
    &&& after.started_at_ms == before.started_at_ms
    &&& after.strategy == before.strategy
    &&& after.sealed == before.sealed
    &&& after.error == before.error
    &&& after.workflow_id == before.workflow_id
}

/// The generation of each running task can still grow.
pub open spec fn can_go_on(v: ExecutionView) -> bool {
    forall|k: Seq<char>| #[trigger]
        v.tasks.contains_key(k) && v.tasks[k].state == Phase::Running ==> v.tasks[k].attempt
            < u32::MAX
}

proof fn lemma_resumed(v: ExecutionView)
    requires
        can_go_on(v),
    ensures
        resumed(v, lifecycle::running_redispatched(recovery::recounted(v))),
{
    let w = lifecycle::running_redispatched(recovery::recounted(v));
    assert(w.tasks.dom() =~= v.tasks.dom());
}

/// A workflow that is taken up goes on from where it stood: what was running is dispatched once
/// more, and nothing else has changed. One that had ended is as it ended.
pub proof fn law_taken_up(v: ExecutionView)
    requires
        can_go_on(v),
    ensures
        execution_laws::live(v.state) ==> resumed(v, recovery::taken_up(v)),
        !execution_laws::live(v.state) ==> recovery::taken_up(v).tasks == v.tasks
            && recovery::taken_up(v).state == v.state && recovery::taken_up(v).error == v.error,
        execution_laws::counted(v) ==> recovery::taken_up(v).succeeded == v.succeeded
            && recovery::taken_up(v).skipped == v.skipped && recovery::taken_up(v).total
            == v.total,
{
    lemma_resumed(v);
    if execution_laws::counted(v) {
        recovery::law_recount_keeps_agreement(v);
    }
}

proof fn lemma_counts(d: DagView, k: Seq<char>)
    requires
        d.edges.len() <= usize::MAX,
    ensures
        submit::predecessor_counts(d).contains_key(k) <==> d.nodes.contains_key(k),
        d.nodes.contains_key(k) ==> (submit::predecessor_counts(d)[k] == 0
            <==> !laws::has_edge_into(d, k)),
{
    laws::lemma_no_sources(d, k);
    laws::lemma_source_count(slot::pairs(d), k);
}

/// A workflow that is known is not taken over. One that is taken over with its data goes on
/// from where its execution stood; without an execution that can go on, each of its nodes is a
/// pending task. Without its graph, it waits for its data. No other workflow is touched.
pub proof fn law_adopted_workflow(
    before: StateView,
    after: StateView,
    wf: Seq<char>,
    stored: Option<(Dag, Option<WorkflowExecution>)>,
    k: Seq<char>,
)
    requires
        persistence::adopt_outcome(before, after, wf, stored),
        stored matches Some(p) ==> p.0@.order.to_set() == p.0@.nodes.dom() && p.0@.edges.len()
            <= usize::MAX && forall|n: Seq<char>| #[trigger]
            p.0@.nodes.contains_key(n) ==> p.0@.nodes[n].task_id@ == n,
    ensures
        after.slots.remove(wf) == before.slots.remove(wf),
        after.waits == before.waits,
        after.signals == before.signals,
        before.slots.contains_key(wf) ==> after == before,
        !before.slots.contains_key(wf) ==> {
            let s = after.slots[wf];
            &&& after.slots.contains_key(wf)
            &&& stored is None <==> s.state == SlotState::Loading
            &&& stored matches Some(p) ==> {
                &&& s.state == SlotState::Ready
                &&& s.dag == p.0@
                &&& p.0@.nodes.contains_key(k) ==> s.pending.contains_key(k) && (s.pending[k] == 0
                    <==> !laws::has_edge_into(p.0@, k))
                &&& p.1 matches Some(x) ==> can_go_on(x@) ==> resumed(x@, s.execution)
                &&& p.1 is None ==> {
                    &&& s.execution.tasks.contains_key(k) <==> p.0@.nodes.contains_key(k)
                    &&& s.execution.tasks.contains_key(k) ==> s.execution.tasks[k].state
                        == Phase::Pending
                    &&& s.execution.state == Phase::Pending
                }
            }
        },
{
    assert(after.slots.remove(wf) =~= before.slots.remove(wf));
    if let Some(p) = stored {
        lemma_counts(p.0@, k);
        let d = p.0@;
        let ids = submit::node_ids(d);
        execution_laws::law_new_workflow(wf, ids, k);
        if d.nodes.contains_key(k) {
            assert(d.order.to_set().contains(k));
            let i = d.order.index_of(k);
            assert(ids[i]@ == k);
        }
        if exists|i: int| 0 <= i < ids.len() && (#[trigger] ids[i])@ == k {
            let i = choose|i: int| 0 <= i < ids.len() && (#[trigger] ids[i])@ == k;
            assert(d.order.to_set().contains(d.order[i]));
        }
        if let Some(x) = p.1 {
            if can_go_on(x@) {
                lemma_resumed(x@);
            }
        }
    }
}

/// A workflow is restored from the parts that arrived: with its graph, from where its execution
/// stood, with its pending counts where they arrived, and it is stored. Without the graph
/// nothing changes.
pub proof fn law_restored_workflow(
    before: StateView,
    after: StateView,
    wf: Seq<char>,
    dag: Option<Dag>,
    execution: Option<WorkflowExecution>,
    pending: Option<KeyMap<usize>>,
    done: bool,
    effects: Seq<Effect>,
    k: Seq<char>,
)
    requires
        persistence::restore_outcome(
            before,
            after,
            wf,
            dag,
            execution,
            pending,
            done,
            effects,
        ),
        dag matches Some(d) ==> d@.edges.len() <= usize::MAX,
        execution matches Some(x) ==> can_go_on(x@),
    ensures
        done <==> dag is Some,
        dag is None ==> after == before && effects.len() == 0,
        after.slots.remove(wf) == before.slots.remove(wf),
        dag matches Some(d) ==> {
            let s = after.slots[wf];
            &&& after.slots.contains_key(wf)
            &&& s.state == SlotState::Ready
            &&& s.dag == d@
            &&& execution matches Some(x) ==> resumed(x@, s.execution) && (pending is Some
                ==> s.pending == pending->0@)
            &&& execution is None ==> s.execution.state == Phase::Pending
            &&& (execution is None || pending is None) && d@.nodes.contains_key(k)
                ==> s.pending.contains_key(k) && (s.pending[k] == 0 <==> !laws::has_edge_into(
                d@,
                k,
            ))
            &&& effects.len() == 1
            &&& events::effect_views(effects)[0] == EffectView::PersistWorkflow(wf)
        },
{
    assert(after.slots.remove(wf) =~= before.slots.remove(wf));
    assert(events::effect_views(effects).len() == effects.len());
    if let Some(d) = dag {
        lemma_counts(d@, k);
        if let Some(x) = execution {
            lemma_resumed(x@);
        }
    }
}

proof fn lemma_redispatched_one(v: ExecutionView, ids: Seq<Seq<char>>, k: Seq<char>)
    requires
        ids.no_duplicates(),
        ids.contains(k),
        v.tasks.contains_key(k),
        v.tasks[k].state == Phase::Running,
        v.tasks[k].attempt < u32::MAX,
    ensures
        dispatched_anew(v.tasks[k], lifecycle::redispatched(v, ids).tasks[k]),
    decreases ids.len(),
{
    let init = ids.drop_last();
    lifecycle::lemma_redispatched(v, init);
    if ids.last() == k {
        assert(!init.contains(k)) by {
            if init.contains(k) {
                let i = init.index_of(k);
                assert(ids[i] == ids[ids.len() - 1]);
            }
        }
    } else {
        let i = ids.index_of(k);
        assert(init[i] == k);
        lemma_redispatched_one(v, init, k);
        assert(init.no_duplicates());
    }
}

proof fn lemma_known(s: slot::SlotView, ids: Seq<Seq<char>>, k: Seq<char>)
    ensures
        timeouts::known_ids(s, ids).contains(k) <==> ids.contains(k) && s.dag.nodes.contains_key(
            k,
        ),
    decreases ids.len(),
{
    if ids.len() > 0 {
        let init = ids.drop_last();
        let before = timeouts::known_ids(s, init);
        let all = timeouts::known_ids(s, ids);
        lemma_known(s, init, k);
        if init.contains(k) {
            assert(ids[init.index_of(k)] == k);
        }
        if ids.contains(k) && k != ids.last() {
            assert(init[ids.index_of(k)] == k);
        }
        assert(ids[ids.len() - 1] == ids.last());
        if before.contains(k) {
            assert(all[before.index_of(k)] == k);
        }
        if all.len() > before.len() {
            assert(all[before.len() as int] == ids.last());
            if all.contains(k) && k != ids.last() {
                assert(before[all.index_of(k)] == k);
            }
        }
    }
}

/// Dispatching the running tasks of a workflow anew hands out each of them, as its node says,
/// and nothing else; every other task stays as it is.
pub proof fn law_running_tasks_are_rescheduled(
    before: StateView,
    after: StateView,
    wf: Seq<char>,
    origin: Option<Seq<char>>,
    r: Result<Vec<TaskDefinition>, ActantError>,
    k: Seq<char>,
)
    requires
        timeouts::reschedule_outcome(before, after, wf, origin, r),
        before.slots.contains_key(wf) ==> {
            let x = before.slots[wf].execution;
            &&& x.order.no_duplicates()
            &&& x.order.to_set() == x.tasks.dom()
            &&& can_go_on(x)
        },
    ensures
        !before.slots.contains_key(wf) ==> after == before && (r matches Ok(tasks) && tasks@.len()
            == 0),
        before.slots.contains_key(wf) ==> {
            let x = before.slots[wf].execution;
            let y = after.slots[wf].execution;
            let runs = x.tasks.contains_key(k) && x.tasks[k].state == Phase::Running;
            &&& after.slots.contains_key(wf)
            &&& after.slots.remove(wf) == before.slots.remove(wf)
            &&& after.slots[wf].dag == before.slots[wf].dag
            &&& y.tasks.contains_key(k) <==> x.tasks.contains_key(k)
            &&& runs ==> dispatched_anew(x.tasks[k], y.tasks[k])
            &&& !runs && x.tasks.contains_key(k) ==> y.tasks[k] == x.tasks[k]
            &&& y.state == x.state
            &&& r matches Ok(tasks)
            &&& (exists|i: int| 0 <= i < tasks@.len() && (#[trigger] tasks@[i])@.id == k)
                <==> runs && before.slots[wf].dag.nodes.contains_key(k)
            &&& forall|i: int|
                #![trigger tasks@[i]]
                0 <= i < tasks@.len() ==> laws::handed_out(after.slots[wf], wf, origin, tasks@[i]@)
        },
{
    if before.slots.contains_key(wf) {
        let s = before.slots[wf];
        let x = s.execution;
        let ids = lifecycle::running_ids(x);
        let f = |n: Seq<char>| x.tasks[n].state == Phase::Running;
        broadcast use vstd::seq_lib::group_filter_ensures;

        assert(x.order.filter(f) == ids);
        x.order.unique_seq_to_set();
        lemma_filter_unique(x.order, f);
        assert(ids.contains(k) <==> x.tasks.contains_key(k) && x.tasks[k].state == Phase::Running)
            by {
            if ids.contains(k) {
                let i = ids.index_of(k);
                assert(f(x.order.filter(f)[i]));
                assert(x.order.filter(f).contains(k));
                assert(x.order.to_set().contains(k));
            }
            if x.tasks.contains_key(k) && x.tasks[k].state == Phase::Running {
                assert(x.order.to_set().contains(k));
                assert(x.order.contains(k) && f(k));
                let i = x.order.index_of(k);
                assert(x.order.filter(f).contains(x.order[i]));
            }
        }
        lifecycle::lemma_redispatched(x, ids);
        if ids.contains(k) {
            lemma_redispatched_one(x, ids, k);
        }
        assert(after.slots.remove(wf) =~= before.slots.remove(wf));
        let known = timeouts::known_ids(s, ids);
        lemma_known(s, ids, k);
        if let Ok(tasks) = r {
            let views = task::task_views(tasks@);
            assert(views.len() == known.len());
            assert forall|i: int| #![trigger tasks@[i]] 0 <= i < tasks@.len() implies tasks@[i]@.id
                == known[i] && laws::handed_out(after.slots[wf], wf, origin, tasks@[i]@) by {
                assert(views[i] == tasks@[i]@);
                lemma_known(s, ids, known[i]);
                assert(known.contains(known[i]));
                laws::law_task_carries_its_node(after.slots[wf], wf, origin, known[i]);
            }
            if known.contains(k) {
                let i = known.index_of(k);
                assert(tasks@[i]@.id == k);
            }
        }
    }
}

proof fn lemma_filter_unique(list: Seq<Seq<char>>, f: spec_fn(Seq<char>) -> bool)
    requires
        list.no_duplicates(),
    ensures
        list.filter(f).no_duplicates(),
        forall|k: Seq<char>| #[trigger] list.filter(f).contains(k) ==> list.contains(k),
    decreases list.len(),
{
    reveal(Seq::filter);
    if list.len() > 0 {
        let init = list.drop_last();
        assert(init.no_duplicates());
        lemma_filter_unique(init, f);
        let kept = init.filter(f);
        assert forall|k: Seq<char>| #[trigger] list.filter(f).contains(k) implies list.contains(
            k,
        ) by {
            let i = list.filter(f).index_of(k);
            if i < kept.len() {
                assert(kept[i] == k);
                assert(kept.contains(k));
                assert(list[init.index_of(k)] == k);
            } else {
                assert(list[list.len() - 1] == k);
            }
        }
        if f(list.last()) {
            assert(!kept.contains(list.last())) by {
                if kept.contains(list.last()) {
                    let i = init.index_of(list.last());
                    assert(list[i] == list[list.len() - 1]);
                }
            }
            assert forall|i: int, j: int|
                0 <= i < j < list.filter(f).len() implies list.filter(f)[i] != list.filter(f)[j] by {
                if j == kept.len() {
                    assert(kept[i] == list.filter(f)[i]);
                    assert(kept.contains(kept[i]));
                } else {
                    assert(kept[i] == list.filter(f)[i] && kept[j] == list.filter(f)[j]);
                }
            }
        }
    }
}

/// What was recovered is driven on: each task that is pending and waits for nothing, in a
/// workflow that goes on, is handed out, once, as its node says, and no other is. The one
/// exception is a workflow with such a task that has no node: nothing of it is handed out.
pub proof fn law_recovered_tasks_are_driven_on(
    v: StateView,
    origin: Option<Seq<char>>,
    tasks: Seq<TaskDefinition>,
    wf: Seq<char>,
    k: Seq<char>,
)
    requires
        recovery::lists_resumable(v, origin, v.slots.dom(), tasks),
        v.slots.contains_key(wf) ==> forall|n: Seq<char>| #[trigger]
            v.slots[wf].pending.contains_key(n) ==> v.slots[wf].dag.nodes.contains_key(n),
    ensures
        (exists|i: int|
            0 <= i < tasks.len() && (#[trigger] tasks[i])@.id == k && tasks[i]@.workflow_id == Some(
                wf,
            )) <==> {
            let s = v.slots[wf];
            &&& v.slots.contains_key(wf)
            &&& execution_laws::live(s.execution.state)
            &&& s.pending.contains_key(k)
            &&& s.pending[k] == 0
            &&& s.execution.tasks.contains_key(k)
            &&& s.execution.tasks[k].state == Phase::Pending
        },
        forall|i: int|
            #![trigger tasks[i]]
            0 <= i < tasks.len() ==> {
                let w = tasks[i]@.workflow_id;
                w is Some && v.slots.contains_key(w->0) && laws::handed_out(
                    v.slots[w->0],
                    w->0,
                    origin,
                    tasks[i]@,
                )
            },
        forall|i: int, j: int|
            #![trigger tasks[i], tasks[j]]
            0 <= i < j < tasks.len() ==> !(tasks[i]@.id == tasks[j]@.id && tasks[i]@.workflow_id
                == tasks[j]@.workflow_id),
{
    let list = recovery::task_names(tasks);
    assert forall|i: int| #![trigger tasks[i]] 0 <= i < tasks.len() implies {
        let w = tasks[i]@.workflow_id;
        w is Some && v.slots.contains_key(w->0) && laws::handed_out(
            v.slots[w->0],
            w->0,
            origin,
            tasks[i]@,
        )
    } by {
        assert(list[i] == (list[i].0, list[i].1));
        assert(list.contains((list[i].0, list[i].1)));
        assert(recovery::resumable(v, list[i].0, list[i].1));
        laws::law_task_carries_its_node(v.slots[list[i].0], list[i].0, origin, list[i].1);
    }
    assert forall|i: int, j: int|
        #![trigger tasks[i], tasks[j]]
        0 <= i < j < tasks.len() implies !(tasks[i]@.id == tasks[j]@.id && tasks[i]@.workflow_id
        == tasks[j]@.workflow_id) by {
        assert(list[i] != list[j]);
    }
    if recovery::resumable(v, wf, k) {
        assert(list.contains((wf, k)));
        let i = list.index_of((wf, k));
        assert(tasks[i]@.id == k && tasks[i]@.workflow_id == Some(wf));
    }
    if exists|i: int|
        0 <= i < tasks.len() && (#[trigger] tasks[i])@.id == k && tasks[i]@.workflow_id == Some(
            wf,
        ) {
        let i = choose|i: int|
            0 <= i < tasks.len() && (#[trigger] tasks[i])@.id == k && tasks[i]@.workflow_id == Some(
                wf,
            );
        assert(list[i] == (wf, k));
        assert(list.contains((wf, k)));
    }
}

/// A history tells what happened: what an event reports of a task, a wait point or a signal
/// stands on record after it is replayed, in a workflow that is to be stored from then on.
pub proof fn law_replayed_events_take_effect(v: StateView, e: WorkflowEventPayload, now: u64)
    ensures
        ({
            let w = replay::replayed(v, e, now);
            match e {
                WorkflowEventPayload::TaskCompleted { workflow_id, task_id, result } => {
                    let s = v.slots[workflow_id@];
                    v.slots.contains_key(workflow_id@) && s.state == SlotState::Ready
                        && execution_laws::takes_report(s.execution, task_id@, None) ==> {
                        let t = w.slots[workflow_id@];
                        &&& w.slots.contains_key(workflow_id@)
                        &&& t.execution.tasks.contains_key(task_id@)
                        &&& t.execution.tasks[task_id@].state == Phase::Completed
                        &&& t.execution.tasks[task_id@].result == Some(result)
                        &&& w.dirty.contains(workflow_id@)
                    }
                },
                WorkflowEventPayload::TaskFailed { workflow_id, task_id, error } => {
                    let s = v.slots[workflow_id@];
                    v.slots.contains_key(workflow_id@) && s.state == SlotState::Ready
                        && execution_laws::takes_report(s.execution, task_id@, None) ==> {
                        let t = w.slots[workflow_id@];
                        &&& w.slots.contains_key(workflow_id@)
                        &&& t.execution.tasks.contains_key(task_id@)
                        &&& t.execution.tasks[task_id@].state == Phase::Failed
                        &&& t.execution.tasks[task_id@].error == Some(error)
                        &&& s.execution.strategy == FailureStrategy::FailFast ==> t.execution.state
                            == Phase::Failed
                        &&& t.pending == s.pending
                        &&& w.dirty.contains(workflow_id@)
                    }
                },
                WorkflowEventPayload::TaskCancelled { workflow_id, task_id } => {
                    let s = v.slots[workflow_id@];
                    v.slots.contains_key(workflow_id@) && s.state == SlotState::Ready
                        && s.execution.tasks.contains_key(task_id@) && execution_laws::live(
                        s.execution.tasks[task_id@].state,
                    ) ==> {
                        let t = w.slots[workflow_id@];
                        &&& w.slots.contains_key(workflow_id@)
                        &&& t.execution.tasks.contains_key(task_id@)
                        &&& t.execution.tasks[task_id@].state == Phase::Cancelled
                        &&& w.dirty.contains(workflow_id@)
                    }
                },
                WorkflowEventPayload::NodeAdded { workflow_id, node } => {
                    let s = v.slots[workflow_id@];
                    v.slots.contains_key(workflow_id@) && s.state == SlotState::Ready
                        && !s.dag.nodes.contains_key(node.task_id@) ==> {
                        let t = w.slots[workflow_id@];
                        &&& w.slots.contains_key(workflow_id@)
                        &&& t.dag.nodes == s.dag.nodes.insert(node.task_id@, node)
                        &&& t.pending.contains_key(node.task_id@)
                        &&& !s.pending.contains_key(node.task_id@) ==> t.pending[node.task_id@]
                            == 0
                        &&& s.pending.contains_key(node.task_id@) ==> t.pending == s.pending
                        &&& t.pending.remove(node.task_id@) == s.pending.remove(node.task_id@)
                        &&& t.dag.edges == s.dag.edges
                        &&& t.execution == s.execution
                        &&& w.dirty.contains(workflow_id@)
                    }
                },
                WorkflowEventPayload::Started { workflow_id } => {
                    let s = v.slots[workflow_id@];
                    v.slots.contains_key(workflow_id@) && s.state == SlotState::Ready
                        && execution_laws::live(s.execution.state) ==> {
                        let t = w.slots[workflow_id@];
                        &&& w.slots.contains_key(workflow_id@)
                        &&& t.execution.state == Phase::Running
                        &&& s.execution.started_at_ms is None ==> t.execution.started_at_ms == Some(
                            now,
                        )
                        &&& s.execution.started_at_ms is Some ==> t.execution.started_at_ms
                            == s.execution.started_at_ms
                        &&& t.execution.tasks == s.execution.tasks
                        &&& w.dirty.contains(workflow_id@)
                    }
                },
                WorkflowEventPayload::WaitPointRegistered { workflow_id, wait_key, condition } => {
                    let known = wait_laws::has_wait(v, workflow_id@, wait_key@);
                    &&& wait_laws::has_wait(w, workflow_id@, wait_key@)
                    &&& known ==> w == v
                    &&& !known ==> w.waits[workflow_id@][wait_key@].condition == condition
                        && w.dirty.contains(workflow_id@)
                },
                WorkflowEventPayload::SignalReceived { workflow_id, wait_key, payload } => {
                    let wf = workflow_id@;
                    let k = wait_key@;
                    let waits = wait_laws::has_wait(v, wf, k) && !(v.waits[wf][k].condition
                        is Timer);
                    &&& waits ==> wait_laws::has_wait(w, wf, k) && w.waits[wf][k].woken is Some
                    &&& waits && v.waits[wf][k].woken is None ==> w.waits[wf][k] == (WaitView {
                        woken: Some(payload@),
                        ..v.waits[wf][k]
                    }) && w.dirty.contains(wf)
                    &&& waits && v.waits[wf][k].woken is Some ==> w == v
                    &&& !waits ==> wait_laws::has_signal(w, wf, k)
                    &&& !waits && !wait_laws::has_signal(v, wf, k) ==> w.signals[wf][k] == payload@
                        && w.dirty.contains(wf)
                },
                WorkflowEventPayload::TimerFired { workflow_id, wait_key } => {
                    let wf = workflow_id@;
                    let k = wait_key@;
                    &&& wait_laws::has_wait(v, wf, k) ==> wait_laws::has_wait(w, wf, k)
                        && w.waits[wf][k].woken is Some
                    &&& !wait_laws::has_wait(v, wf, k) ==> w == v
                },
                _ => w == v,
            }
        }),
{
    match e {
        WorkflowEventPayload::TaskCompleted { workflow_id, task_id, result } => {
            execution_laws::law_completion_is_recorded(
                v.slots[workflow_id@].execution,
                task_id@,
                result,
                None,
            );
        },
        WorkflowEventPayload::TaskFailed { workflow_id, task_id, error } => {
            execution_laws::law_failure_is_recorded(
                v.slots[workflow_id@].execution,
                task_id@,
                error,
                FailureScope::WorkflowLevel,
                None,
            );
        },
        WorkflowEventPayload::TaskCancelled { workflow_id, task_id } => {
            if v.slots[workflow_id@].execution.tasks.contains_key(task_id@) {
                execution_laws::law_cancelled_task(v.slots[workflow_id@].execution, task_id@);
            }
        },
        WorkflowEventPayload::Started { workflow_id } => {
            execution_laws::law_first_start_counts(v.slots[workflow_id@].execution, now, now);
        },
        _ => {},
    }
}

/// What has changed is stored, all of it: each workflow that is marked and known has an entry,
/// once, and is not marked any more. The entry writes the execution and the pending counts, and
/// the wait points, the signals and the place in the history where the workflow has them.
pub proof fn law_changes_are_stored(
    before: StateView,
    after: StateView,
    entries: Seq<FlushEntry>,
    wf: Seq<char>,
)
    requires
        persistence::flush_outcome(before, after, entries),
    ensures
        !after.dirty.contains(wf),
        after.slots == before.slots,
        after.waits == before.waits,
        after.signals == before.signals,
        after.seqs == before.seqs,
        (exists|i: int| 0 <= i < entries.len() && (#[trigger] entries[i]).workflow_id@ == wf)
            <==> before.dirty.contains(wf) && before.slots.contains_key(wf),
        forall|i: int, j: int|
            #![trigger entries[i], entries[j]]
            0 <= i < j < entries.len() ==> entries[i].workflow_id@ != entries[j].workflow_id@,
        forall|i: int|
            #![trigger entries[i]]
            0 <= i < entries.len() && entries[i].workflow_id@ == wf ==> {
                let written = persistence::flush_keys(entries[i]);
                &&& written.contains(keys::STORE_KEY_EXEC@ + wf)
                &&& written.contains(keys::STORE_KEY_PENDING@ + wf)
                &&& before.waits.contains_key(wf) ==> written.contains(keys::STORE_KEY_WAIT@ + wf)
                &&& before.signals.contains_key(wf) ==> written.contains(
                    keys::STORE_KEY_SIGNALS@ + wf,
                )
                &&& before.seqs.contains_key(wf) ==> written.contains(
                    keys::STORE_KEY_EVENT_SEQ@ + wf,
                ) && entries[i].watermark == Some(before.seqs[wf])
                &&& !before.seqs.contains_key(wf) ==> entries[i].watermark is None
            },
{
    let ids = persistence::entry_ids(entries);
    if ids.contains(wf) {
        let i = ids.index_of(wf);
        assert(entries[i].workflow_id@ == wf);
    }
    if exists|i: int| 0 <= i < entries.len() && (#[trigger] entries[i]).workflow_id@ == wf {
        let i = choose|i: int|
            0 <= i < entries.len() && (#[trigger] entries[i]).workflow_id@ == wf;
        assert(ids[i] == wf);
        assert(ids.contains(wf));
    }
    assert forall|i: int, j: int|
        #![trigger entries[i], entries[j]]
        0 <= i < j < entries.len() implies entries[i].workflow_id@ != entries[j].workflow_id@ by {
        assert(ids[i] != ids[j]);
    }
    assert forall|i: int|
        #![trigger entries[i]]
        0 <= i < entries.len() && entries[i].workflow_id@ == wf implies {
        let written = persistence::flush_keys(entries[i]);
        &&& written.contains(keys::STORE_KEY_EXEC@ + wf)
        &&& written.contains(keys::STORE_KEY_PENDING@ + wf)
        &&& before.waits.contains_key(wf) ==> written.contains(keys::STORE_KEY_WAIT@ + wf)
        &&& before.signals.contains_key(wf) ==> written.contains(keys::STORE_KEY_SIGNALS@ + wf)
        &&& before.seqs.contains_key(wf) ==> written.contains(keys::STORE_KEY_EVENT_SEQ@ + wf)
            && entries[i].watermark == Some(before.seqs[wf])
        &&& !before.seqs.contains_key(wf) ==> entries[i].watermark is None
    } by {
        let e = entries[i];
        let written = persistence::flush_keys(e);
        assert(persistence::entry_for(before, e));
        let n = if e.has_waits {
            3int
        } else {
            2int
        };
        let m = if e.has_signals {
            n + 1
        } else {
            n
        };
        assert(written[0] == keys::STORE_KEY_EXEC@ + wf);
        assert(written[1] == keys::STORE_KEY_PENDING@ + wf);
        if e.has_waits {
            assert(written[2] == keys::STORE_KEY_WAIT@ + wf);
        }
        if e.has_signals {
            assert(written[n] == keys::STORE_KEY_SIGNALS@ + wf);
        }
        if e.watermark is Some {
            assert(written[m] == keys::STORE_KEY_EVENT_SEQ@ + wf);
        }
    }
}

} // verus!
