//! What holds of workflows that grow, branch and skip, over what each operation returns, leaves
//! behind and has done.
use vstd::prelude::*;

use crate::common;
use crate::common::{ActantError, TaskId};
use crate::runtime::workflow::dag;
use crate::runtime::workflow::dag::{DagNode, DagView};
use crate::runtime::workflow::execution;
use crate::runtime::workflow::execution::TaskState;
use crate::runtime::workflow::execution_laws;
use crate::runtime::workflow::graph;
use crate::runtime::workflow::orchestrator::branches;
use crate::runtime::workflow::orchestrator::drive;
use crate::runtime::workflow::orchestrator::engine;
use crate::runtime::workflow::orchestrator::engine::{AddNodeOutcome, CompletionInfo};
use crate::runtime::workflow::orchestrator::events;
use crate::runtime::workflow::orchestrator::events::{EffectView, EventKind};
use crate::runtime::workflow::orchestrator::laws;
use crate::runtime::workflow::orchestrator::progress;
use crate::runtime::workflow::orchestrator::skip;
use crate::runtime::workflow::orchestrator::skip::BranchSkip;
use crate::runtime::workflow::orchestrator::slot;
use crate::runtime::workflow::orchestrator::slot::{SlotState, SlotView};
use crate::runtime::workflow::orchestrator::state::StateView;
use crate::runtime::workflow::orchestrator::submit;
use crate::runtime::workflow::phase::Phase;
use crate::runtime::workflow::task::TaskDefinition;

verus! {

/// `deps` names `k`.
pub open spec fn names(deps: Seq<TaskId>, k: Seq<char>) -> bool {
    exists|i: int| 0 <= i < deps.len() && (#[trigger] deps[i])@ == k
}

/// A task of the graph that `deps` names, other than `id` itself, has not ended.
pub open spec fn held_up(s: SlotView, deps: Seq<TaskId>, id: Seq<char>) -> bool {
    exists|i: int|
        {
            let k = (#[trigger] deps[i])@;
            &&& 0 <= i < deps.len()
            &&& k != id
            &&& s.dag.nodes.contains_key(k)
            &&& s.execution.tasks.contains_key(k) ==> execution_laws::live(
                s.execution.tasks[k].state,
            )
        }
}

proof fn lemma_inner(
    deps: Seq<TaskId>,
    nodes: Map<Seq<char>, DagNode>,
    id: Seq<char>,
    k: Seq<char>,
)
    ensures
        names(submit::inner_deps(deps, nodes, id), k) <==> names(deps, k) && k != id
            && nodes.contains_key(k),
        submit::inner_deps(deps, nodes, id).len() <= deps.len(),
    decreases deps.len(),
{
    if deps.len() > 0 {
        let init = deps.drop_last();
        let before = submit::inner_deps(init, nodes, id);
        let inner = submit::inner_deps(deps, nodes, id);
        lemma_inner(init, nodes, id, k);
        assert(deps[deps.len() - 1] == deps.last());
        if names(init, k) {
            let i = choose|i: int| 0 <= i < init.len() && (#[trigger] init[i])@ == k;
            assert(deps[i] == init[i]);
        }
        if names(deps, k) && deps.last()@ != k {
            let i = choose|i: int| 0 <= i < deps.len() && (#[trigger] deps[i])@ == k;
            assert(init[i] == deps[i]);
        }
        if names(before, k) {
            let i = choose|i: int| 0 <= i < before.len() && (#[trigger] before[i])@ == k;
            assert(inner[i] == before[i]);
        }
        if inner.len() > before.len() {
            assert(inner[before.len() as int] == deps.last());
        }
        if names(inner, k) && deps.last()@ != k {
            let i = choose|i: int| 0 <= i < inner.len() && (#[trigger] inner[i])@ == k;
            assert(before[i] == inner[i]);
        }
    }
}

proof fn lemma_open(deps: Seq<TaskId>, tasks: Map<Seq<char>, TaskState>)
    ensures
        submit::open_deps(deps, tasks) <= deps.len(),
        submit::open_deps(deps, tasks) == 0 <==> forall|k: Seq<char>| #[trigger]
            names(deps, k) ==> tasks.contains_key(k) && !execution_laws::live(tasks[k].state),
    decreases deps.len(),
{
    if deps.len() > 0 {
        let init = deps.drop_last();
        lemma_open(init, tasks);
        assert(deps[deps.len() - 1] == deps.last());
        assert(names(deps, deps.last()@));
        assert forall|k: Seq<char>| #[trigger] names(init, k) implies names(deps, k) by {
            let i = choose|i: int| 0 <= i < init.len() && (#[trigger] init[i])@ == k;
            assert(deps[i] == init[i]);
        }
        assert forall|k: Seq<char>| #[trigger] names(deps, k) implies names(init, k) || k
            == deps.last()@ by {
            let i = choose|i: int| 0 <= i < deps.len() && (#[trigger] deps[i])@ == k;
            if i < init.len() {
                assert(init[i] == deps[i]);
            }
        }
    }
}

/// A node that is new to a workflow that goes on becomes a pending task, behind an edge without
/// a condition from each task of the graph that it names, and from no other. It is handed out at
/// once exactly where each of those has ended. The workflow runs from then on, and the node is
/// stored and put on record.
pub proof fn law_added_node(
    before: SlotView,
    after: SlotView,
    wf: Seq<char>,
    origin: Option<Seq<char>>,
    node: DagNode,
    deps: Seq<TaskId>,
    now: u64,
    r: Result<AddNodeOutcome, ActantError>,
    effects: Seq<EffectView>,
    a: Seq<char>,
    b: Seq<char>,
)
    requires
        engine::added_node(before, after, wf, origin, node, deps, now, r, effects),
        before.state == SlotState::Ready,
        !before.dag.nodes.contains_key(node.task_id@),
        !before.execution.tasks.contains_key(node.task_id@),
        execution_laws::live(before.execution.state),
        deps.len() <= usize::MAX,
    ensures
        ({
            let id = node.task_id@;
            let idle = before.execution.state == Phase::Pending;
            &&& r matches Ok(AddNodeOutcome::Created { ready })
            &&& ready is Some <==> !held_up(before, deps, id)
            &&& ready matches Some(t) ==> t@.id == id && laws::handed_out(after, wf, origin, t@)
            &&& after.pending.contains_key(id)
            &&& after.pending[id] == 0 <==> !held_up(before, deps, id)
            &&& after.pending.remove(id) == before.pending.remove(id)
            &&& after.dag.nodes == before.dag.nodes.insert(id, node)
            &&& after.dag.default_retry_policy == before.dag.default_retry_policy
            &&& after.dag.failure_strategy == before.dag.failure_strategy
            &&& laws::has_edge(after.dag, a, b) <==> laws::has_edge(before.dag, a, b) || (b == id
                && a != id && names(deps, a) && before.dag.nodes.contains_key(a))
            &&& laws::has_condition(after.dag, a, b) <==> laws::has_condition(before.dag, a, b)
            &&& after.execution.tasks.contains_key(id)
            &&& after.execution.tasks[id].state == Phase::Pending
            &&& after.execution.tasks[id].attempt == 0
            &&& after.execution.tasks[id].retry_count == 0
            &&& after.execution.tasks.remove(id) == before.execution.tasks.remove(id)
            &&& after.execution.total == before.execution.total + 1
            &&& after.execution.state == Phase::Running
            &&& idle && before.execution.started_at_ms is None
                ==> after.execution.started_at_ms == Some(now)
            &&& !idle ==> after.execution.started_at_ms == before.execution.started_at_ms
            &&& effects.len() == if idle {
                3int
            } else {
                2int
            }
            &&& effects[0] == EffectView::PersistWorkflow(wf)
            &&& effects[1] == events::appended(wf, EventKind::NodeAdded { node: node@ })
            &&& idle ==> effects[2] == events::appended(wf, EventKind::Started)
        }),
{
    let id = node.task_id@;
    let nodes = before.dag.nodes.insert(id, node);
    let inner = submit::inner_deps(deps, nodes, id);
    execution_laws::law_registered_task(before.execution, node.task_id);
    execution_laws::law_first_start_counts(
        execution::task_registered(before.execution, node.task_id),
        now,
        now,
    );
    lemma_inner(deps, nodes, id, a);
    lemma_open(inner, before.execution.tasks);
    if held_up(before, deps, id) {
        let i = choose|i: int|
            {
                let k = (#[trigger] deps[i])@;
                &&& 0 <= i < deps.len()
                &&& k != id
                &&& before.dag.nodes.contains_key(k)
                &&& before.execution.tasks.contains_key(k) ==> execution_laws::live(
                    before.execution.tasks[k].state,
                )
            };
        let k = deps[i]@;
        assert(names(deps, k));
        lemma_inner(deps, nodes, id, k);
        assert(names(inner, k));
    } else {
        assert forall|k: Seq<char>| #[trigger]
            names(inner, k) implies before.execution.tasks.contains_key(k)
            && !execution_laws::live(before.execution.tasks[k].state) by {
            lemma_inner(deps, nodes, id, k);
            let i = choose|i: int| 0 <= i < deps.len() && (#[trigger] deps[i])@ == k;
            assert(before.dag.nodes.contains_key(deps[i]@));
        }
    }
    let new = submit::edges_into(inner, node.task_id);
    let old_edges = before.dag.edges;
    assert(after.dag.edges == old_edges + new);
    if laws::has_edge(before.dag, a, b) {
        let i = choose|i: int|
            0 <= i < old_edges.len() && (#[trigger] old_edges[i]).from@ == a && old_edges[i].to@
                == b;
        assert(after.dag.edges[i] == old_edges[i]);
    }
    if laws::has_condition(before.dag, a, b) {
        let i = choose|i: int|
            0 <= i < old_edges.len() && (#[trigger] old_edges[i]).from@ == a && old_edges[i].to@
                == b && old_edges[i].condition is Some;
        assert(after.dag.edges[i] == old_edges[i]);
    }
    if names(inner, a) && b == id {
        let i = choose|i: int| 0 <= i < inner.len() && (#[trigger] inner[i])@ == a;
        assert(after.dag.edges[old_edges.len() + i] == new[i]);
    }
    if laws::has_edge(after.dag, a, b) {
        let i = choose|i: int|
            0 <= i < after.dag.edges.len() && (#[trigger] after.dag.edges[i]).from@ == a
                && after.dag.edges[i].to@ == b;
        if i < old_edges.len() {
            assert(old_edges[i] == after.dag.edges[i]);
        } else {
            assert(new[i - old_edges.len()] == after.dag.edges[i]);
            assert(inner[i - old_edges.len()]@ == a);
        }
    }
    if laws::has_condition(after.dag, a, b) {
        let i = choose|i: int|
            0 <= i < after.dag.edges.len() && (#[trigger] after.dag.edges[i]).from@ == a
                && after.dag.edges[i].to@ == b && after.dag.edges[i].condition is Some;
        if i < old_edges.len() {
            assert(old_edges[i] == after.dag.edges[i]);
        } else {
            assert(new[i - old_edges.len()] == after.dag.edges[i]);
        }
    }
    assert(after.pending.remove(id) =~= before.pending.remove(id));
    laws::law_task_carries_its_node(after, wf, origin, id);
}

/// Nothing is added to a workflow that has ended or is still loading. A node that the graph has
/// is not added again: it is answered only where it says what the one on record says, in its
/// name, its payload, its priority, its limits and the tasks to wait for.
pub proof fn law_node_that_is_not_added(
    before: SlotView,
    after: SlotView,
    wf: Seq<char>,
    origin: Option<Seq<char>>,
    node: DagNode,
    deps: Seq<TaskId>,
    now: u64,
    r: Result<AddNodeOutcome, ActantError>,
    effects: Seq<EffectView>,
    k: Seq<char>,
)
    requires
        engine::added_node(before, after, wf, origin, node, deps, now, r, effects),
        before.state != SlotState::Ready || before.dag.nodes.contains_key(node.task_id@)
            || !execution_laws::live(before.execution.state),
    ensures
        after == before,
        effects.len() == 0,
        before.state != SlotState::Ready ==> r is Err,
        before.state == SlotState::Ready && !before.dag.nodes.contains_key(node.task_id@) ==> r
            is Err,
        r matches Ok(o) ==> {
            let known = before.dag.nodes[node.task_id@];
            &&& o is Existing
            &&& node.name@ == known.name@
            &&& node.payload@ == known.payload@
            &&& node.priority == known.priority
            &&& node.timeout_ms == known.timeout_ms
            &&& node.retry_policy is Some <==> known.retry_policy is Some
            &&& node.retry_policy is Some ==> node.retry_policy->0.max_retries
                == known.retry_policy->0.max_retries && node.retry_policy->0.delay_ms
                == known.retry_policy->0.delay_ms && node.retry_policy->0.max_delay_ms
                == known.retry_policy->0.max_delay_ms
            &&& before.dag.nodes.contains_key(k) && k != node.task_id@ ==> (names(deps, k)
                <==> laws::has_edge(before.dag, k, node.task_id@))
            &&& before.execution.tasks.contains_key(node.task_id@) ==> {
                let t = before.execution.tasks[node.task_id@];
                &&& o->state == t.state
                &&& o->error == t.error
                &&& o->result is Some <==> t.result is Some
                &&& o->result is Some ==> o->result->0@ == t.result->0@
            }
        },
{
    let id = node.task_id@;
    laws::law_neighbours(before.dag, k, id);
    let texts = common::task_texts(deps);
    if names(deps, k) {
        let i = choose|i: int| 0 <= i < deps.len() && (#[trigger] deps[i])@ == k;
        assert(texts[i] == k);
    }
    if texts.contains(k) {
        let i = texts.index_of(k);
        assert(deps[i]@ == k);
    }
}

/// A task that `k` waits for has a result.
pub open spec fn fed(s: SlotView, k: Seq<char>) -> bool {
    exists|i: int|
        0 <= i < s.dag.edges.len() && (#[trigger] s.dag.edges[i]).to@ == k
            && s.execution.tasks.contains_key(s.dag.edges[i].from@)
            && s.execution.tasks[s.dag.edges[i].from@].result is Some
}

proof fn lemma_fed(s: SlotView, k: Seq<char>)
    ensures
        fed(s, k) <==> skip::has_result(s, k),
{
    let ids = graph::sources(slot::pairs(s.dag), k);
    if fed(s, k) {
        let i = choose|i: int|
            0 <= i < s.dag.edges.len() && (#[trigger] s.dag.edges[i]).to@ == k
                && s.execution.tasks.contains_key(s.dag.edges[i].from@)
                && s.execution.tasks[s.dag.edges[i].from@].result is Some;
        let a = s.dag.edges[i].from@;
        assert(laws::has_edge(s.dag, a, k));
        laws::law_neighbours(s.dag, a, k);
        let j = ids.index_of(a);
        assert(s.execution.tasks.contains_key(ids[j]));
    }
    if skip::has_result(s, k) {
        let j = choose|j: int|
            0 <= j < ids.len() && s.execution.tasks.contains_key(#[trigger] ids[j])
                && s.execution.tasks[ids[j]].result is Some;
        assert(ids.contains(ids[j]));
        laws::law_neighbours(s.dag, ids[j], k);
        let i = choose|i: int|
            0 <= i < s.dag.edges.len() && (#[trigger] s.dag.edges[i]).from@ == ids[j]
                && s.dag.edges[i].to@ == k;
        assert(s.dag.edges[i].to@ == k);
    }
}

/// Skipping leaves every result where it is.
pub open spec fn same_results(a: SlotView, b: SlotView) -> bool {
    &&& a.dag == b.dag
    &&& forall|x: Seq<char>| #[trigger]
        a.execution.tasks.contains_key(x) <==> b.execution.tasks.contains_key(x)
    &&& forall|x: Seq<char>|
        a.execution.tasks.contains_key(x) ==> (#[trigger] b.execution.tasks[x]).result
            == a.execution.tasks[x].result
}

proof fn lemma_same_results(a: SlotView, b: SlotView, k: Seq<char>)
    requires
        same_results(a, b),
    ensures
        fed(a, k) <==> fed(b, k),
{
    if fed(a, k) {
        let i = choose|i: int|
            0 <= i < a.dag.edges.len() && (#[trigger] a.dag.edges[i]).to@ == k
                && a.execution.tasks.contains_key(a.dag.edges[i].from@)
                && a.execution.tasks[a.dag.edges[i].from@].result is Some;
        assert(b.execution.tasks[b.dag.edges[i].from@].result is Some);
    }
    if fed(b, k) {
        let i = choose|i: int|
            0 <= i < b.dag.edges.len() && (#[trigger] b.dag.edges[i]).to@ == k
                && b.execution.tasks.contains_key(b.dag.edges[i].from@)
                && b.execution.tasks[b.dag.edges[i].from@].result is Some;
        assert(a.execution.tasks.contains_key(a.dag.edges[i].from@));
    }
}

proof fn lemma_skip_keeps_results(s: SlotView, t: SlotView, k: Seq<char>)
    requires
        t.dag == s.dag,
        t.execution == execution::task_skipped(s.execution, k),
    ensures
        same_results(s, t),
        forall|x: Seq<char>|
            x != k && s.execution.tasks.contains_key(x) ==> #[trigger] t.execution.tasks[x]
                == s.execution.tasks[x],
{
    if s.execution.tasks.contains_key(k) {
        execution_laws::law_skip_is_recorded(s.execution, k);
        let old_tasks = s.execution.tasks;
        let new_tasks = t.execution.tasks;
        assert forall|x: Seq<char>| #[trigger]
            old_tasks.contains_key(x) <==> new_tasks.contains_key(x) by {
            if x != k {
                assert(old_tasks.remove(k).contains_key(x) <==> new_tasks.remove(k).contains_key(
                    x,
                ));
            }
        }
        assert forall|x: Seq<char>| x != k && old_tasks.contains_key(x) implies #[trigger] new_tasks[x]
            == old_tasks[x] by {
            assert(old_tasks.remove(k)[x] == new_tasks.remove(k)[x]);
        }
    }
}

proof fn lemma_wave_at(
    v: SlotView,
    succs: Seq<Seq<char>>,
    cond: Seq<(TaskId, String)>,
    k: Seq<char>,
)
    ensures
        ({
            let w = skip::wave_over(v, succs, cond);
            let n = graph::occurrences(succs, k);
            let hit = !progress::is_conditional(cond, k) && v.pending.contains_key(k) && 1
                <= v.pending[k] <= n;
            &&& same_results(v, w.slot)
            &&& w.slot.pending.contains_key(k) <==> v.pending.contains_key(k)
            &&& w.ready.contains(k) <==> hit && fed(v, k)
            &&& w.skipped.contains(k) <==> hit && !fed(v, k)
            &&& n == 0 || progress::is_conditional(cond, k) ==> {
                &&& v.pending.contains_key(k) ==> w.slot.pending[k] == v.pending[k]
                &&& v.execution.tasks.contains_key(k) ==> w.slot.execution.tasks[k]
                    == v.execution.tasks[k]
            }
            &&& !progress::is_conditional(cond, k) && v.pending.contains_key(k) ==> {
                &&& n >= v.pending[k] ==> w.slot.pending[k] == 0
                &&& n < v.pending[k] ==> w.slot.pending[k] == v.pending[k] - n
            }
            &&& w.skipped.contains(k) && v.execution.tasks.contains_key(k)
                && execution_laws::live(v.execution.tasks[k].state)
                ==> w.slot.execution.tasks[k].state == Phase::Skipped
            &&& !w.skipped.contains(k) && v.execution.tasks.contains_key(k)
                ==> w.slot.execution.tasks[k] == v.execution.tasks[k]
        }),
    decreases succs.len(),
{
    if succs.len() > 0 {
        let init = succs.drop_last();
        let x = succs.last();
        let u = skip::wave_over(v, init, cond);
        let w = skip::wave_over(v, succs, cond);
        lemma_wave_at(v, init, cond, k);
        lemma_wave_at(v, init, cond, x);
        let p = u.slot.pending;
        if !progress::is_conditional(cond, x) && p.contains_key(x) && p[x] > 0 {
            let low = SlotView { pending: p.insert(x, (p[x] - 1) as usize), ..u.slot };
            if p[x] == 1 {
                lemma_same_results(v, low, x);
                lemma_fed(low, x);
                if fed(v, x) {
                    assert(w.ready == u.ready.push(x));
                    lemma_push(u.ready, x, k);
                } else {
                    assert(w.skipped == u.skipped.push(x));
                    lemma_push(u.skipped, x, k);
                    lemma_skip_keeps_results(low, w.slot, x);
                    if k == x && v.execution.tasks.contains_key(x) {
                        execution_laws::law_skip_is_recorded(low.execution, x);
                    }
                }
            }
        }
    }
}

proof fn lemma_push(list: Seq<Seq<char>>, x: Seq<char>, k: Seq<char>)
    ensures
        list.push(x).contains(k) <==> list.contains(k) || k == x,
{
    let longer = list.push(x);
    assert(longer[list.len() as int] == x);
    if list.contains(k) {
        assert(longer[list.index_of(k)] == k);
    }
    if longer.contains(k) && k != x {
        assert(list[longer.index_of(k)] == k);
    }
}

/// The only edge into `k` is the one at `i`, from `a`, without a condition.
pub open spec fn only_way(d: DagView, a: Seq<char>, k: Seq<char>, i: int) -> bool {
    &&& 0 <= i < d.edges.len()
    &&& d.edges[i].from@ == a
    &&& d.edges[i].condition is None
    &&& forall|j: int| 0 <= j < d.edges.len() ==> ((#[trigger] d.edges[j]).to@ == k <==> j == i)
}

proof fn lemma_only_way(d: DagView, a: Seq<char>, k: Seq<char>, i: int, x: Seq<char>)
    requires
        only_way(d, a, k, i),
    ensures
        graph::occurrences(graph::targets(slot::pairs(d), a), k) == 1,
        x != a ==> graph::occurrences(graph::targets(slot::pairs(d), x), k) == 0,
        !progress::is_conditional(dag::conditional_from(d.edges, a), k),
{
    laws::lemma_one_target(d.edges, a, k, i);
    if x != a {
        laws::lemma_no_targets(d.edges, x, k);
    }
    laws::lemma_conditions(d.edges, a);
}

proof fn lemma_cascade_reaches(
    v: SlotView,
    worklist: Seq<Seq<char>>,
    ready: Seq<Seq<char>>,
    a: Seq<char>,
    k: Seq<char>,
    i: int,
)
    requires
        v.pending.dom().finite(),
        worklist.contains(a),
        only_way(v.dag, a, k, i),
        v.pending.contains_key(k),
        v.pending[k] == 1,
        !fed(v, k),
        v.execution.tasks.contains_key(k),
        execution_laws::live(v.execution.tasks[k].state),
    ensures
        ({
            let end = skip::cascaded(v, worklist, ready).0;
            end.execution.tasks.contains_key(k) && end.execution.tasks[k].state == Phase::Skipped
        }),
    decreases skip::waiting(v.pending).len(), worklist.len(),
{
    let x = worklist.last();
    let succs = graph::targets(slot::pairs(v.dag), x);
    let cond = dag::conditional_from(v.dag.edges, x);
    let w = skip::wave_from(v, x);
    let rest = worklist.drop_last() + w.skipped;
    skip::lemma_wave(v, succs, cond);
    lemma_wave_at(v, succs, cond, k);
    lemma_only_way(v.dag, a, k, i, x);
    if x == a {
        assert(w.skipped.contains(k));
        skip::law_cascade_keeps_ended(w.slot, rest, ready + w.ready, k);
    } else {
        lemma_same_results(v, w.slot, k);
        let n = worklist.index_of(a);
        assert(rest[n] == a);
        if w.skipped.len() == 0 {
            assert(rest.len() < worklist.len());
        }
        lemma_cascade_reaches(w.slot, rest, ready + w.ready, a, k, i);
    }
}

/// A branch that is not taken is skipped all the way: the task at its head is skipped where no
/// other task that it waits for has a result, and with it each task that only a skipped one
/// leads to, as far as the way goes.
pub proof fn law_skipping_passes_on(
    before: SlotView,
    after: SlotView,
    id: Seq<char>,
    r: Result<BranchSkip, ActantError>,
    k: Seq<char>,
    i: int,
    m: Seq<char>,
    j: int,
)
    requires
        skip::skip_outcome(before, after, id, r),
        r matches Ok(BranchSkip::Skipped(_)),
        before.pending.dom().finite(),
        only_way(before.dag, id, k, i),
        only_way(before.dag, k, m, j),
        id != k,
        id != m,
        k != m,
        before.pending.contains_key(k),
        before.pending[k] == 1,
        before.pending.contains_key(m),
        before.pending[m] == 1,
        before.execution.tasks.contains_key(id),
        before.execution.tasks[id].result is None,
        before.execution.tasks.contains_key(k),
        execution_laws::live(before.execution.tasks[k].state),
        before.execution.tasks[k].result is None,
        before.execution.tasks.contains_key(m),
        execution_laws::live(before.execution.tasks[m].state),
    ensures
        after.execution.tasks.contains_key(k),
        after.execution.tasks[k].state == Phase::Skipped,
        after.execution.tasks.contains_key(m),
        after.execution.tasks[m].state == Phase::Skipped,
{
    let low = SlotView {
        pending: before.pending.insert(
            id,
            (if before.pending[id] > 0 {
                (before.pending[id] - 1) as usize
            } else {
                0
            }),
        ),
        ..before
    };
    let start = SlotView { execution: execution::task_skipped(before.execution, id), ..low };
    lemma_skip_keeps_results(before, start, id);
    assert(!fed(start, k)) by {
        lemma_same_results(before, start, k);
        if fed(before, k) {
            let n = choose|n: int|
                0 <= n < before.dag.edges.len() && (#[trigger] before.dag.edges[n]).to@ == k
                    && before.execution.tasks.contains_key(before.dag.edges[n].from@)
                    && before.execution.tasks[before.dag.edges[n].from@].result is Some;
            assert(n == i);
        }
    }
    assert(seq![id].contains(id)) by {
        assert(seq![id][0] == id);
    }
    lemma_cascade_reaches(start, seq![id], Seq::empty(), id, k, i);
    let succs = graph::targets(slot::pairs(start.dag), id);
    let cond = dag::conditional_from(start.dag.edges, id);
    let w = skip::wave_from(start, id);
    skip::lemma_wave(start, succs, cond);
    lemma_wave_at(start, succs, cond, k);
    lemma_wave_at(start, succs, cond, m);
    lemma_only_way(start.dag, id, k, i, id);
    lemma_only_way(start.dag, k, m, j, id);
    assert(!fed(w.slot, m)) by {
        lemma_same_results(start, w.slot, m);
        lemma_same_results(before, start, m);
        if fed(before, m) {
            let n = choose|n: int|
                0 <= n < before.dag.edges.len() && (#[trigger] before.dag.edges[n]).to@ == m
                    && before.execution.tasks.contains_key(before.dag.edges[n].from@)
                    && before.execution.tasks[before.dag.edges[n].from@].result is Some;
            assert(n == j);
        }
    }
    let rest = seq![id].drop_last() + w.skipped;
    assert(rest =~= w.skipped);
    assert(seq![id].last() == id);
    lemma_cascade_reaches(w.slot, rest, Seq::empty() + w.ready, k, m, j);
}

/// A condition that does not hold: its target waits for one task less. It goes on waiting where
/// that was not the last one; runs where a task that leads to it without a condition has a
/// result, or two of them have; and is skipped where the only results are behind the refused
/// condition.
pub proof fn law_refused_condition(
    before: SlotView,
    after: SlotView,
    id: Seq<char>,
    r: Result<BranchSkip, ActantError>,
    a: Seq<char>,
    b: Seq<char>,
)
    requires
        skip::skip_outcome(before, after, id, r),
        before.pending.dom().finite(),
        before.pending.contains_key(id),
    ensures
        r is Ok,
        before.pending[id] > 1 ==> {
            &&& r->Ok_0 is Waiting
            &&& after.pending.contains_key(id)
            &&& after.pending[id] == before.pending[id] - 1
            &&& after.pending.remove(id) == before.pending.remove(id)
            &&& after.execution == before.execution
        },
        before.pending[id] <= 1 && laws::has_edge(before.dag, a, id)
            && before.execution.tasks.contains_key(a) && before.execution.tasks[a].result is Some
            && (!laws::has_condition(before.dag, a, id) || (b != a && laws::has_edge(
            before.dag,
            b,
            id,
        ) && before.execution.tasks.contains_key(b) && before.execution.tasks[b].result is Some))
            ==> {
            &&& r->Ok_0 is Ready
            &&& after.execution == before.execution
            &&& after.pending.contains_key(id)
            &&& after.pending[id] == 0
        },
        before.pending[id] <= 1 && laws::has_condition(before.dag, a, id)
            && before.execution.tasks.contains_key(id) && execution_laws::live(
            before.execution.tasks[id].state,
        ) && (forall|x: Seq<char>| #[trigger]
            laws::has_edge(before.dag, x, id) && before.execution.tasks.contains_key(x)
                && before.execution.tasks[x].result is Some ==> x == a) ==> {
            &&& r->Ok_0 is Skipped || r->Ok_0 is Ended
            &&& after.execution.tasks.contains_key(id)
            &&& after.execution.tasks[id].state == Phase::Skipped
        },
{
    let ids = graph::sources(slot::pairs(before.dag), id);
    let left = if before.pending[id] > 0 {
        (before.pending[id] - 1) as usize
    } else {
        0
    };
    let low = SlotView { pending: before.pending.insert(id, left), ..before };
    let start = SlotView { execution: execution::task_skipped(before.execution, id), ..low };
    assert(low.pending.remove(id) =~= before.pending.remove(id));
    laws::law_neighbours(before.dag, a, id);
    laws::law_neighbours(before.dag, b, id);
    laws::lemma_conditions(before.dag.edges, a);
    assert(skip::on_condition(before.dag.edges, a, id) <==> laws::has_condition(
        before.dag,
        a,
        id,
    ));
    if before.pending[id] <= 1 && laws::has_edge(before.dag, a, id)
        && before.execution.tasks.contains_key(a) && before.execution.tasks[a].result is Some && (
    !laws::has_condition(before.dag, a, id) || (b != a && laws::has_edge(before.dag, b, id)
        && before.execution.tasks.contains_key(b) && before.execution.tasks[b].result is Some)) {
        let i = ids.index_of(a);
        assert(skip::delivered(before, ids[i]));
        if laws::has_condition(before.dag, a, id) {
            let j = ids.index_of(b);
            assert(ids[j] != ids[i] && skip::delivered(before, ids[j]));
        }
        assert(skip::has_other_result(before, id));
    }
    if before.pending[id] <= 1 && laws::has_condition(before.dag, a, id)
        && before.execution.tasks.contains_key(id) && execution_laws::live(
        before.execution.tasks[id].state,
    ) && (forall|x: Seq<char>| #[trigger]
        laws::has_edge(before.dag, x, id) && before.execution.tasks.contains_key(x)
            && before.execution.tasks[x].result is Some ==> x == a) {
        if skip::has_other_result(before, id) {
            let i = choose|i: int|
                0 <= i < ids.len() && skip::delivered(before, #[trigger] ids[i]) && (
                !skip::on_condition(before.dag.edges, ids[i], id) || exists|j: int|
                    0 <= j < ids.len() && ids[j] != ids[i] && skip::delivered(
                        before,
                        #[trigger] ids[j],
                    ));
            assert(ids.contains(ids[i]));
            laws::law_neighbours(before.dag, ids[i], id);
            assert(ids[i] == a);
            let j = choose|j: int|
                0 <= j < ids.len() && ids[j] != ids[i] && skip::delivered(
                    before,
                    #[trigger] ids[j],
                );
            assert(ids.contains(ids[j]));
            laws::law_neighbours(before.dag, ids[j], id);
            assert(false);
        }
        execution_laws::law_skip_is_recorded(before.execution, id);
        assert(start.pending.dom() =~= before.pending.dom());
        skip::law_cascade_keeps_ended(start, seq![id], Seq::empty(), id);
    }
}

/// A condition that holds hands the task out that waited for nothing else, as its node says, and
/// hands nothing out while the task still waits.
pub proof fn law_condition_hands_out(
    before: StateView,
    after: StateView,
    wf: Seq<char>,
    origin: Option<Seq<char>>,
    id: Seq<char>,
    retention: usize,
    r: Result<Vec<TaskDefinition>, ActantError>,
    effects: Seq<EffectView>,
)
    requires
        branches::condition_settled(
            before,
            after,
            wf,
            origin,
            id,
            true,
            retention,
            r,
            effects,
        ),
        before.slots.contains_key(wf),
        before.slots[wf].pending.contains_key(id),
        before.slots[wf].dag.nodes.contains_key(id),
    ensures
        effects.len() == 0,
        after.slots.contains_key(wf),
        after.slots.remove(wf) == before.slots.remove(wf),
        after.slots[wf].execution == before.slots[wf].execution,
        r matches Ok(tasks) && {
            &&& before.slots[wf].pending[id] == 1 ==> tasks@.len() == 1 && tasks@[0]@.id == id
                && laws::handed_out(after.slots[wf], wf, origin, tasks@[0]@)
                && after.slots[wf].pending[id] == 0
            &&& before.slots[wf].pending[id] != 1 ==> tasks@.len() == 0
            &&& before.slots[wf].pending[id] > 1 ==> after.slots[wf].pending[id]
                == before.slots[wf].pending[id] - 1
        },
{
    let inner = choose|inner: Result<Option<TaskDefinition>, ActantError>|
        {
            &&& #[trigger] branches::activated(before, after, wf, origin, id, inner)
            &&& match inner {
                Ok(Some(t)) => r matches Ok(tasks) && tasks@ == seq![t],
                Ok(None) => r matches Ok(tasks) && tasks@.len() == 0,
                Err(e) => r == Err::<Vec<TaskDefinition>, ActantError>(e),
            }
        };
    assert(branches::activated(before, after, wf, origin, id, inner));
    let (s, done) = choose|s: SlotView, done: Result<bool, ActantError>|
        {
            &&& #[trigger] progress::activation_outcome(before.slots[wf], s, id, done)
            &&& after == crate::runtime::workflow::orchestrator::state::with_slot(before, wf, s)
            &&& match done {
                Ok(true) => branches::one_built(s, wf, origin, id, inner),
                Ok(false) => inner matches Ok(None),
                Err(e) => inner == Err::<Option<TaskDefinition>, ActantError>(e),
            }
        };
    laws::law_condition_that_holds(before.slots[wf], s, id, done);
    assert(after.slots.remove(wf) =~= before.slots.remove(wf));
    laws::law_task_carries_its_node(s, wf, origin, id);
}

/// A completion returns the tasks that it lets run, each as its node says. It returns none where
/// it ends the workflow, and says so.
pub proof fn law_completion_hands_out(
    before: StateView,
    after: StateView,
    wf: Seq<char>,
    origin: Option<Seq<char>>,
    id: Seq<char>,
    result: Vec<u8>,
    retention: usize,
    r: Result<(Vec<TaskDefinition>, Vec<(TaskId, String)>, bool), ActantError>,
    effects: Seq<EffectView>,
)
    requires
        branches::task_done(before, after, wf, origin, id, result, retention, r, effects),
        before.slots.contains_key(wf),
        before.slots[wf].state == SlotState::Ready,
        retention > 0,
    ensures
        r matches Ok(t) ==> {
            &&& t.2 ==> t.0@.len() == 0 && t.1@.len() == 0 && !execution_laws::live(
                after.slots[wf].execution.state,
            ) && effects.len() == 4
            &&& !t.2 && execution_laws::takes_report(before.slots[wf].execution, id, None)
                ==> execution_laws::live(after.slots[wf].execution.state) && effects.len() == 1
            &&& !t.2 ==> forall|i: int|
                #![trigger t.0@[i]]
                0 <= i < t.0@.len() ==> laws::handed_out(after.slots[wf], wf, origin, t.0@[i]@)
            &&& !execution_laws::takes_report(before.slots[wf].execution, id, None) ==> after
                == before && t.0@.len() == 0 && t.1@.len() == 0 && !t.2
        },
{
    let c = choose|c: Result<CompletionInfo, ActantError>|
        {
            &&& #[trigger] drive::completed(
                before,
                after,
                wf,
                id,
                result,
                None,
                retention,
                c,
                effects,
            )
            &&& match c {
                Err(e) => r == Err::<
                    (Vec<TaskDefinition>, Vec<(TaskId, String)>, bool),
                    ActantError,
                >(e),
                Ok(info) => if info.workflow_terminal {
                    r matches Ok(t) && t.0@.len() == 0 && t.1@.len() == 0 && t.2
                } else {
                    exists|built: Result<Vec<TaskDefinition>, ActantError>|
                        {
                            &&& #[trigger] slot::tasks_built(
                                after.slots[wf],
                                wf,
                                origin,
                                common::task_texts(info.ready_successors@),
                                built,
                            )
                            &&& match built {
                                Ok(tasks) => r == Ok::<
                                    (Vec<TaskDefinition>, Vec<(TaskId, String)>, bool),
                                    ActantError,
                                >((tasks, info.conditional_edges, false)),
                                Err(e) => r == Err::<
                                    (Vec<TaskDefinition>, Vec<(TaskId, String)>, bool),
                                    ActantError,
                                >(e),
                            }
                        }
                },
            }
        };
    laws::law_completion_moves_its_workflow(
        before,
        after,
        wf,
        id,
        result,
        None,
        retention,
        c,
        effects,
    );
    if let Ok(info) = c {
        if !info.workflow_terminal {
            let ids = common::task_texts(info.ready_successors@);
            let built = choose|built: Result<Vec<TaskDefinition>, ActantError>|
                {
                    &&& #[trigger] slot::tasks_built(after.slots[wf], wf, origin, ids, built)
                    &&& match built {
                        Ok(tasks) => r == Ok::<
                            (Vec<TaskDefinition>, Vec<(TaskId, String)>, bool),
                            ActantError,
                        >((tasks, info.conditional_edges, false)),
                        Err(e) => r == Err::<
                            (Vec<TaskDefinition>, Vec<(TaskId, String)>, bool),
                            ActantError,
                        >(e),
                    }
                };
            laws::law_built_tasks_carry_their_nodes(after.slots[wf], wf, origin, ids, built);
        }
    }
}

/// A completion that is to be taken stands on record afterwards: the task has completed with its
/// result, which is the first thing to be told, and no other workflow has changed.
pub proof fn law_completion_is_kept(
    before: StateView,
    after: StateView,
    wf: Seq<char>,
    origin: Option<Seq<char>>,
    id: Seq<char>,
    result: Vec<u8>,
    retention: usize,
    r: Result<(Vec<TaskDefinition>, Vec<(TaskId, String)>, bool), ActantError>,
    effects: Seq<EffectView>,
)
    requires
        branches::task_done(before, after, wf, origin, id, result, retention, r, effects),
        before.slots.contains_key(wf),
        before.slots[wf].state == SlotState::Ready,
        retention > 0,
    ensures
        after.slots.remove(wf) == before.slots.remove(wf),
        !execution_laws::takes_report(before.slots[wf].execution, id, None) ==> after == before
            && effects.len() == 0,
        r is Ok && execution_laws::takes_report(before.slots[wf].execution, id, None) ==> {
            let y = after.slots[wf].execution;
            &&& after.slots.contains_key(wf)
            &&& y.tasks.contains_key(id)
            &&& y.tasks[id].state == Phase::Completed
            &&& y.tasks[id].result == Some(result)
            &&& y.tasks.remove(id) == before.slots[wf].execution.tasks.remove(id)
            &&& effects.len() > 0
            &&& effects[0] == events::appended(
                wf,
                EventKind::TaskCompleted { task_id: id, result: result@ },
            )
        },
{
    let x = before.slots[wf].execution;
    execution_laws::law_completion_is_recorded(x, id, result, None);
    assert(after.slots.remove(wf) =~= before.slots.remove(wf));
}

/// A completion that does not end its workflow hands out the task that waited for nothing else,
/// and asks about the conditions that lead on from it.
pub proof fn law_completion_goes_on(
    before: StateView,
    after: StateView,
    wf: Seq<char>,
    origin: Option<Seq<char>>,
    id: Seq<char>,
    result: Vec<u8>,
    retention: usize,
    r: Result<(Vec<TaskDefinition>, Vec<(TaskId, String)>, bool), ActantError>,
    effects: Seq<EffectView>,
    k: Seq<char>,
)
    requires
        branches::task_done(before, after, wf, origin, id, result, retention, r, effects),
        before.slots.contains_key(wf),
        before.slots[wf].state == SlotState::Ready,
        execution_laws::takes_report(before.slots[wf].execution, id, None),
        r is Ok,
        !(r->Ok_0).2,
    ensures
        ({
            let t = r->Ok_0;
            let b = before.slots[wf];
            let runs = exists|i: int| 0 <= i < t.0@.len() && (#[trigger] t.0@[i])@.id == k;
            let asked = exists|i: int| 0 <= i < t.1@.len() && (#[trigger] t.1@[i]).0@ == k;
            &&& asked <==> laws::has_condition(b.dag, id, k)
            &&& b.pending.contains_key(k) && (!laws::has_edge(b.dag, id, k) || laws::has_condition(
                b.dag,
                id,
                k,
            )) ==> !runs
            &&& forall|e: int|
                b.pending.contains_key(k) && #[trigger] laws::only_edge(b.dag, id, k, e)
                    && b.dag.edges[e].condition is None ==> (runs <==> b.pending[k] == 1)
        }),
{
    let c = choose|c: Result<CompletionInfo, ActantError>|
        {
            &&& #[trigger] drive::completed(
                before,
                after,
                wf,
                id,
                result,
                None,
                retention,
                c,
                effects,
            )
            &&& match c {
                Err(e) => r == Err::<
                    (Vec<TaskDefinition>, Vec<(TaskId, String)>, bool),
                    ActantError,
                >(e),
                Ok(info) => if info.workflow_terminal {
                    r matches Ok(t) && t.0@.len() == 0 && t.1@.len() == 0 && t.2
                } else {
                    exists|built: Result<Vec<TaskDefinition>, ActantError>|
                        {
                            &&& #[trigger] slot::tasks_built(
                                after.slots[wf],
                                wf,
                                origin,
                                common::task_texts(info.ready_successors@),
                                built,
                            )
                            &&& match built {
                                Ok(tasks) => r == Ok::<
                                    (Vec<TaskDefinition>, Vec<(TaskId, String)>, bool),
                                    ActantError,
                                >((tasks, info.conditional_edges, false)),
                                Err(e) => r == Err::<
                                    (Vec<TaskDefinition>, Vec<(TaskId, String)>, bool),
                                    ActantError,
                                >(e),
                            }
                        }
                },
            }
        };
    laws::law_completion_tells_what_is_next(
        before,
        after,
        wf,
        id,
        result,
        None,
        retention,
        c,
        effects,
        k,
    );
    let info = c->Ok_0;
    let ids = common::task_texts(info.ready_successors@);
    let built = choose|built: Result<Vec<TaskDefinition>, ActantError>|
        {
            &&& #[trigger] slot::tasks_built(after.slots[wf], wf, origin, ids, built)
            &&& match built {
                Ok(tasks) => r == Ok::<
                    (Vec<TaskDefinition>, Vec<(TaskId, String)>, bool),
                    ActantError,
                >((tasks, info.conditional_edges, false)),
                Err(e) => r == Err::<
                    (Vec<TaskDefinition>, Vec<(TaskId, String)>, bool),
                    ActantError,
                >(e),
            }
        };
    laws::law_built_tasks_carry_their_nodes(after.slots[wf], wf, origin, ids, built);
    let t = r->Ok_0;
    let s = before.slots[wf];
    assert(t.1 == info.conditional_edges);
    assert((exists|i: int| 0 <= i < t.1@.len() && (#[trigger] t.1@[i]).0@ == k)
        <==> laws::has_condition(s.dag, id, k));
    let ready = exists|i: int|
        0 <= i < info.ready_successors@.len() && (#[trigger] info.ready_successors@[i])@ == k;
    let runs = exists|i: int| 0 <= i < t.0@.len() && (#[trigger] t.0@[i])@.id == k;
    assert(ready ==> runs) by {
        if ready {
            let i = choose|i: int|
                0 <= i < info.ready_successors@.len() && (#[trigger] info.ready_successors@[i])@
                    == k;
            assert(ids[i] == k);
            assert(t.0@[i]@.id == k);
        }
    }
    assert(runs ==> ready) by {
        if runs {
            let i = choose|i: int| 0 <= i < t.0@.len() && (#[trigger] t.0@[i])@.id == k;
            assert(ids[i] == k);
            assert(info.ready_successors@[i]@ == k);
        }
    }
    assert forall|e: int|
        s.pending.contains_key(k) && #[trigger] laws::only_edge(s.dag, id, k, e)
            && s.dag.edges[e].condition is None implies (runs <==> s.pending[k] == 1) by {}
}

/// Not taking a branch hands out what can run after it, each as its node says: the target itself
/// where it has other results to run on, and nothing while it waits. Where it ends the workflow,
/// that is announced.
pub proof fn law_branch_not_taken(
    before: StateView,
    after: StateView,
    wf: Seq<char>,
    origin: Option<Seq<char>>,
    id: Seq<char>,
    retention: usize,
    r: Result<Vec<TaskDefinition>, ActantError>,
    effects: Seq<EffectView>,
    a: Seq<char>,
    b: Seq<char>,
)
    requires
        branches::branch_skipped(before, after, wf, origin, id, retention, r, effects),
        before.slots.contains_key(wf),
        before.slots[wf].pending.dom().finite(),
        before.slots[wf].pending.contains_key(id),
        before.slots[wf].dag.nodes.contains_key(id),
        retention > 0,
    ensures
        after.slots.contains_key(wf),
        after.slots.remove(wf) == before.slots.remove(wf),
        after.slots[wf].dag == before.slots[wf].dag,
        before.slots[wf].pending[id] > 1 ==> {
            &&& r matches Ok(tasks) && tasks@.len() == 0
            &&& effects.len() == 0
            &&& after.slots[wf].execution == before.slots[wf].execution
            &&& after.slots[wf].pending[id] == before.slots[wf].pending[id] - 1
            &&& after.dirty.contains(wf)
        },
        ({
            let s = before.slots[wf];
            s.pending[id] <= 1 && laws::has_edge(s.dag, a, id) && s.execution.tasks.contains_key(a)
                && s.execution.tasks[a].result is Some && (!laws::has_condition(s.dag, a, id) || (b
                != a && laws::has_edge(s.dag, b, id) && s.execution.tasks.contains_key(b)
                && s.execution.tasks[b].result is Some))
        }) ==> {
            &&& r matches Ok(tasks) && tasks@.len() == 1 && tasks@[0]@.id == id
                && laws::handed_out(after.slots[wf], wf, origin, tasks@[0]@)
            &&& effects.len() == 0
            &&& after.slots[wf].execution == before.slots[wf].execution
        },
        r matches Ok(tasks) ==> forall|i: int|
            #![trigger tasks@[i]]
            0 <= i < tasks@.len() ==> laws::handed_out(after.slots[wf], wf, origin, tasks@[i]@),
        effects.len() > 0 ==> effects.len() == 3 && effects[2] == EffectView::NotifyEnded(wf)
            && !execution_laws::live(after.slots[wf].execution.state),
{
    let (s, inner) = choose|s: SlotView, inner: Result<BranchSkip, ActantError>|
        {
            &&& #[trigger] skip::skip_outcome(before.slots[wf], s, id, inner)
            &&& match inner {
                Ok(BranchSkip::Waiting) => {
                    &&& after == drive::moved(before, wf, s)
                    &&& effects.len() == 0
                    &&& r matches Ok(tasks)
                    &&& tasks@.len() == 0
                },
                Ok(BranchSkip::Ready) => {
                    &&& after == drive::moved(before, wf, s)
                    &&& effects.len() == 0
                    &&& slot::tasks_built(s, wf, origin, seq![id], r)
                },
                Ok(BranchSkip::Ended) => {
                    &&& drive::ended(before, after, wf, s, Some(id), retention, effects)
                    &&& r matches Ok(tasks)
                    &&& tasks@.len() == 0
                },
                Ok(BranchSkip::Skipped(ready)) => {
                    &&& after == drive::moved(before, wf, s)
                    &&& effects.len() == 0
                    &&& slot::tasks_built(s, wf, origin, common::task_texts(ready@), r)
                },
                Err(e) => {
                    &&& after == before
                    &&& effects.len() == 0
                    &&& r == Err::<Vec<TaskDefinition>, ActantError>(e)
                },
            }
        };
    law_refused_condition(before.slots[wf], s, id, inner, a, b);
    assert(after.slots.remove(wf) =~= before.slots.remove(wf));
    lemma_skip_keeps_dag(before.slots[wf], s, id, inner);
    match inner {
        Ok(BranchSkip::Ready) => {
            laws::law_built_tasks_carry_their_nodes(s, wf, origin, seq![id], r);
            assert(seq![id][0] == id);
        },
        Ok(BranchSkip::Skipped(ready)) => {
            laws::law_built_tasks_carry_their_nodes(
                s,
                wf,
                origin,
                common::task_texts(ready@),
                r,
            );
        },
        _ => {},
    }
}

proof fn lemma_skip_keeps_dag(
    before: SlotView,
    after: SlotView,
    id: Seq<char>,
    r: Result<BranchSkip, ActantError>,
)
    requires
        skip::skip_outcome(before, after, id, r),
        before.pending.dom().finite(),
        before.pending.contains_key(id),
    ensures
        after.dag == before.dag,
        r matches Ok(BranchSkip::Ended) ==> !execution_laws::live(after.execution.state),
{
    let left = if before.pending[id] > 0 {
        (before.pending[id] - 1) as usize
    } else {
        0
    };
    let low = SlotView { pending: before.pending.insert(id, left), ..before };
    let start = SlotView { execution: execution::task_skipped(before.execution, id), ..low };
    assert(start.pending.dom() =~= before.pending.dom());
    lemma_cascade_keeps_dag(start, seq![id], Seq::empty());
}

proof fn lemma_cascade_keeps_dag(v: SlotView, worklist: Seq<Seq<char>>, ready: Seq<Seq<char>>)
    requires
        v.pending.dom().finite(),
    ensures
        skip::cascaded(v, worklist, ready).0.dag == v.dag,
    decreases skip::waiting(v.pending).len(), worklist.len(),
{
    if worklist.len() > 0 {
        let x = worklist.last();
        let succs = graph::targets(slot::pairs(v.dag), x);
        let cond = dag::conditional_from(v.dag.edges, x);
        let w = skip::wave_from(v, x);
        skip::lemma_wave(v, succs, cond);
        lemma_cascade_keeps_dag(w.slot, worklist.drop_last() + w.skipped, ready + w.ready);
    }
}

} // verus!
