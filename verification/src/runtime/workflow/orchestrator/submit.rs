//! Submitting workflows, whole or task by task.
use vstd::prelude::*;
use vstd::string::*;

use crate::common;
use crate::common::{
    copy_bytes, same_bytes, same_number, same_policy, ActantError, TaskId, WorkflowId,
};
use crate::keymap::KeyMap;
use crate::runtime::workflow::dag;
use crate::runtime::workflow::dag::{Dag, DagEdge, DagNode, DagView};
use crate::runtime::workflow::execution;
use crate::runtime::workflow::execution::{ExecutionView, TaskState, WorkflowExecution};
use crate::runtime::workflow::execution_laws;
use crate::runtime::workflow::graph;
use crate::runtime::workflow::orchestrator::slot;
use crate::runtime::workflow::orchestrator::slot::{SlotState, SlotView, WorkflowSlot};
use crate::runtime::workflow::phase::{Phase, Terminal};
use crate::runtime::workflow::task;

verus! {

/// The identifiers of a graph's tasks, in the order in which they were added.
pub open spec fn node_ids(d: DagView) -> Seq<TaskId> {
    Seq::new(d.order.len(), |i: int| d.nodes[d.order[i]].task_id)
}

/// For each task the number of edges into it.
pub open spec fn predecessor_counts(d: DagView) -> Map<Seq<char>, usize> {
    Map::new(
        |k: Seq<char>| d.nodes.contains_key(k),
        |k: Seq<char>| graph::sources(slot::pairs(d), k).len() as usize,
    )
}

/// The execution of a graph that nothing has happened to: all tasks pending. Without
/// tasks, they are still to come.
pub open spec fn initial_execution(workflow_id: Seq<char>, d: DagView) -> ExecutionView {
    ExecutionView {
        strategy: d.failure_strategy,
        ..if d.order.len() == 0 {
            execution::open_execution(workflow_id)
        } else {
            execution::new_execution(workflow_id, node_ids(d))
        }
    }
}

/// The state of a workflow that has just been submitted.
pub open spec fn submitted(workflow_id: Seq<char>, d: DagView) -> SlotView {
    SlotView {
        dag: d,
        execution: initial_execution(workflow_id, d),
        pending: predecessor_counts(d),
        state: SlotState::Ready,
    }
}

/// The state of a workflow whose data is to come from another node.
pub open spec fn placeholder(workflow_id: Seq<char>) -> SlotView {
    SlotView {
        dag: dag::no_nodes(),
        execution: execution::new_execution(workflow_id, Seq::empty()),
        pending: Map::empty(),
        state: SlotState::Loading,
    }
}

/// The number of edges into each task.
pub fn count_predecessors(dag: &Dag) -> (pending: KeyMap<usize>)
    requires
        dag.wf(),
    ensures
        pending@ == predecessor_counts(dag@),
{
    let mut pending: KeyMap<usize> = KeyMap::new();
    let nodes = dag.nodes();
    let ghost order = dag.node_order();
    let mut i: usize = 0;
    while i < nodes.len()
        invariant
            i <= nodes@.len(),
            dag.wf(),
            order == dag.node_order(),
            dag::names_nodes(nodes@, dag.node_map(), order),
            pending@.dom() == order.take(i as int).to_set(),
            forall|k: Seq<char>| #[trigger]
                pending@.contains_key(k) ==> pending@[k] == predecessor_counts(dag@)[k],
        decreases nodes@.len() - i,
    {
        let id = &nodes[i].task_id;
        proof {
            assert(dag.node_map().contains_key(order[i as int]));
            assert(order.take(i + 1) =~= order.take(i as int).push(id@));
            graph::lemma_to_set_push(order.take(i as int), id@);
        }
        pending.insert(id.0.clone(), dag.predecessor_count(id));
        i += 1;
    }
    proof {
        assert(order.take(i as int) =~= order);
        assert(pending@.dom() =~= predecessor_counts(dag@).dom());
        assert(pending@ =~= predecessor_counts(dag@));
    }
    pending
}

/// The execution of a graph that nothing has happened to.
pub fn first_execution(workflow_id: &WorkflowId, dag: &Dag) -> (e: WorkflowExecution)
    requires
        dag.wf(),
    ensures
        e@ == initial_execution(workflow_id@, dag@),
        execution_laws::counted(e@),
{
    let nodes = dag.nodes();
    let ghost order = dag.node_order();
    let mut ids: Vec<TaskId> = Vec::new();
    let mut i: usize = 0;
    while i < nodes.len()
        invariant
            i <= nodes@.len(),
            order == dag.node_order(),
            dag::names_nodes(nodes@, dag.node_map(), order),
            ids@ == node_ids(dag@).take(i as int),
        decreases nodes@.len() - i,
    {
        proof {
            assert(dag.node_map().contains_key(order[i as int]));
        }
        ids.push(nodes[i].task_id.clone());
        i += 1;
        assert(ids@ =~= node_ids(dag@).take(i as int));
    }
    proof {
        assert(ids@ =~= node_ids(dag@));
        execution_laws::law_counters_agree_new(workflow_id@, ids@);
    }
    let e = if ids.len() == 0 {
        WorkflowExecution::open(workflow_id.clone())
    } else {
        WorkflowExecution::new(workflow_id.clone(), ids)
    };
    e.with_failure_strategy(dag.failure_strategy)
}

/// The tasks among `deps` that are in the graph, other than `id` itself.
pub open spec fn inner_deps(
    deps: Seq<TaskId>,
    nodes: Map<Seq<char>, DagNode>,
    id: Seq<char>,
) -> Seq<TaskId>
    decreases deps.len(),
{
    if deps.len() == 0 {
        Seq::empty()
    } else {
        let init = inner_deps(deps.drop_last(), nodes, id);
        if deps.last()@ != id && nodes.contains_key(deps.last()@) {
            init.push(deps.last())
        } else {
            init
        }
    }
}

/// An unconditional edge into `id` from each of `deps`.
pub open spec fn edges_into(deps: Seq<TaskId>, id: TaskId) -> Seq<DagEdge> {
    Seq::new(deps.len(), |i: int| DagEdge { from: deps[i], to: id, condition: None })
}

/// How many of `deps` have not ended.
pub open spec fn open_deps(deps: Seq<TaskId>, tasks: Map<Seq<char>, TaskState>) -> nat
    decreases deps.len(),
{
    if deps.len() == 0 {
        0
    } else {
        let init = open_deps(deps.drop_last(), tasks);
        let k = deps.last()@;
        if tasks.contains_key(k) && tasks[k].ended() {
            init
        } else {
            init + 1
        }
    }
}

/// A node submitted again is the one on record: same definition, and the same tasks of
/// the graph to wait for.
pub open spec fn node_matches(
    d: DagView,
    existing: DagNode,
    incoming: DagNode,
    deps: Seq<TaskId>,
) -> bool {
    &&& existing.name@ == incoming.name@
    &&& existing.payload@ == incoming.payload@
    &&& existing.timeout_ms == incoming.timeout_ms
    &&& existing.priority == incoming.priority
    &&& common::same_policies(existing.retry_policy, incoming.retry_policy)
    &&& forall|k: Seq<char>|
        #![trigger graph::sources(slot::pairs(d), incoming.task_id@).contains(k)]
        #![trigger common::task_texts(deps).contains(k)]
        graph::sources(slot::pairs(d), incoming.task_id@).contains(k) <==> {
            &&& common::task_texts(deps).contains(k)
            &&& k != incoming.task_id@
            &&& d.nodes.contains_key(k)
        }
}

fn lists_task(ids: &Vec<TaskId>, id: &TaskId) -> (b: bool)
    ensures
        b == common::task_texts(ids@).contains(id@),
{
    let mut i: usize = 0;
    while i < ids.len()
        invariant
            i <= ids@.len(),
            forall|j: int| 0 <= j < i ==> #[trigger] common::task_texts(ids@)[j] != id@,
        decreases ids@.len() - i,
    {
        if ids[i].0 == id.0 {
            assert(common::task_texts(ids@)[i as int] == id@);
            return true;
        }
        i += 1;
    }
    false
}

/// Whether a node submitted again is the one on record.
pub fn flow_node_matches(
    existing: &DagNode,
    incoming: &DagNode,
    dag: &Dag,
    deps: &Vec<TaskId>,
) -> (b: bool)
    requires
        dag.wf(),
        dag.node_map().contains_key(incoming.task_id@),
    ensures
        b == node_matches(dag@, *existing, *incoming, deps@),
{
    if existing.name != incoming.name || !same_bytes(&existing.payload, &incoming.payload)
        || !same_number(existing.timeout_ms, incoming.timeout_ms) || existing.priority
        != incoming.priority || !same_policy(&existing.retry_policy, &incoming.retry_policy) {
        return false;
    }
    let id = &incoming.task_id;
    let recorded = dag.predecessors_of(id);
    let ghost sources = graph::sources(dag.pairs(), id@);
    let ghost texts = common::task_texts(deps@);
    let mut i: usize = 0;
    while i < recorded.len()
        invariant
            i <= recorded@.len(),
            dag.wf(),
            texts == common::task_texts(deps@),
            sources == graph::sources(dag.pairs(), id@),
            id == incoming.task_id,
            dag::names_nodes(recorded@, dag.node_map(), sources),
            forall|j: int|
                0 <= j < i ==> texts.contains(#[trigger] sources[j]) && sources[j] != id@,
        decreases recorded@.len() - i,
    {
        let s = &recorded[i].task_id;
        proof {
            assert(dag.node_map().contains_key(sources[i as int]));
            assert(s@ == sources[i as int]);
            assert(sources.contains(s@));
            assert(graph::sources(slot::pairs(dag@), incoming.task_id@) == sources);
        }
        if s.0 == id.0 || !lists_task(deps, s) {
            return false;
        }
        i += 1;
    }
    let mut j: usize = 0;
    while j < deps.len()
        invariant
            j <= deps@.len(),
            i == recorded@.len(),
            dag.wf(),
            texts == common::task_texts(deps@),
            sources == graph::sources(dag.pairs(), id@),
            id == incoming.task_id,
            dag::names_nodes(recorded@, dag.node_map(), sources),
            forall|q: int|
                0 <= q < j && deps@[q]@ != id@ && dag.node_map().contains_key(deps@[q]@)
                    ==> sources.contains(#[trigger] deps@[q]@),
        decreases deps@.len() - j,
    {
        let d = &deps[j];
        assert(texts[j as int] == d@);
        assert(texts.contains(d@));
        if d.0 != id.0 && dag.get_node(d).is_some() {
            let mut found = false;
            let mut q: usize = 0;
            while q < recorded.len()
                invariant
                    q <= recorded@.len(),
                    dag.wf(),
                    dag::names_nodes(recorded@, dag.node_map(), sources),
                    found == sources.take(q as int).contains(d@),
                decreases recorded@.len() - q,
            {
                proof {
                    assert(dag.node_map().contains_key(sources[q as int]));
                    assert(sources.take(q + 1) =~= sources.take(q as int).push(sources[q as int]));
                    graph::lemma_to_set_push(sources.take(q as int), sources[q as int]);
                    assert(sources.take(q + 1).to_set().contains(d@) <==> sources.take(
                        q as int,
                    ).to_set().insert(sources[q as int]).contains(d@));
                }
                if recorded[q].task_id.0 == d.0 {
                    found = true;
                }
                q += 1;
            }
            assert(sources.take(q as int) =~= sources);
            if !found {
                return false;
            }
        }
        j += 1;
    }
    proof {
        assert forall|k: Seq<char>| sources.contains(k) <==> (texts.contains(k) && k != id@
            && dag.node_map().contains_key(k)) by {
            if sources.contains(k) {
                let p = sources.index_of(k);
                assert(sources[p] == k);
                assert(dag.node_map().contains_key(sources[p]));
            }
            if texts.contains(k) {
                let p = texts.index_of(k);
                assert(deps@[p]@ == k);
            }
        }
    }
    true
}

/// What adding a node to a workflow came to.
#[derive(Debug)]
pub enum NodeAddition {
    /// The node is new. `waits_for` of its predecessors have not ended; `started` says
    /// whether it started the workflow.
    Created { waits_for: usize, started: bool },
    /// The node is on record: this is how its task stands.
    Existing { state: Phase, result: Option<Vec<u8>>, error: Option<String> },
}

/// `v` with the node added and the workflow started at `now` where it had not been.
pub open spec fn node_added(
    v: SlotView,
    node: DagNode,
    deps: Seq<TaskId>,
    now: u64,
) -> SlotView {
    let id = node.task_id;
    let nodes = v.dag.nodes.insert(id@, node);
    let inner = inner_deps(deps, nodes, id@);
    let registered = execution::task_registered(v.execution, id);
    SlotView {
        dag: DagView {
            nodes,
            order: v.dag.order.push(id@),
            edges: v.dag.edges + edges_into(inner, id),
            ..v.dag
        },
        execution: if v.execution.state == Phase::Pending {
            execution::started(registered, now)
        } else {
            registered
        },
        pending: v.pending.insert(id@, open_deps(inner, v.execution.tasks) as usize),
        ..v
    }
}

/// "workflow ", the identifier, and the rest of the message.
pub open spec fn about_workflow(workflow_id: Seq<char>, rest: Seq<char>) -> Seq<char> {
    "workflow "@ + workflow_id + rest
}

/// "workflow ", the identifier, and the rest of the message.
pub fn workflow_message(workflow_id: &WorkflowId, rest: &str) -> (m: String)
    ensures
        m@ == about_workflow(workflow_id@, rest@),
{
    let mut m = "workflow ".to_owned();
    m.append(workflow_id.0.as_str());
    m.append(rest);
    m
}

/// The message for a node that differs from the one on record.
pub open spec fn diverged(workflow_id: Seq<char>, id: Seq<char>) -> Seq<char> {
    "node "@ + id + " in workflow "@ + workflow_id
        + " exists with a different definition; the flow body submit sequence diverged from the recorded history"@
}

/// What adding `node` to `before` returns and leaves behind.
pub open spec fn add_node_outcome(
    before: SlotView,
    after: SlotView,
    workflow_id: Seq<char>,
    node: DagNode,
    deps: Seq<TaskId>,
    now: u64,
    r: Result<NodeAddition, ActantError>,
) -> bool {
    let id = node.task_id@;
    if before.state == SlotState::Loading {
        &&& r matches Err(ActantError::InvalidState(m))
        &&& m@ == about_workflow(
            workflow_id,
            " is still loading (placeholder), cannot add node"@,
        )
        &&& after == before
    } else if before.dag.nodes.contains_key(id) {
        &&& after == before
        &&& if node_matches(before.dag, before.dag.nodes[id], node, deps) {
            &&& r matches Ok(NodeAddition::Existing { state, result, error })
            &&& before.execution.tasks.contains_key(id) ==> {
                let t = before.execution.tasks[id];
                &&& state == t.state
                &&& result is Some <==> t.result is Some
                &&& result is Some ==> result->0@ == t.result->0@
                &&& error == t.error
            }
            &&& !before.execution.tasks.contains_key(id) ==> state == Phase::Pending
                && result is None && error is None
        } else {
            r matches Err(ActantError::Replay(m)) && m@ == diverged(workflow_id, id)
        }
    } else if before.execution.state.ended() {
        &&& r matches Err(ActantError::InvalidState(m))
        &&& m@ == about_workflow(workflow_id, " is already terminal, cannot add node"@)
        &&& after == before
    } else {
        &&& after == node_added(before, node, deps, now)
        &&& r matches Ok(NodeAddition::Created { waits_for, started })
        &&& waits_for == after.pending[id]
        &&& started == (before.execution.state == Phase::Pending)
    }
}

/// Two submissions of a task are the same: same definition, and the same tasks of the graph to
/// wait for.
pub open spec fn same_submission(
    nodes: Map<Seq<char>, DagNode>,
    node: DagNode,
    deps: Seq<TaskId>,
    again: DagNode,
    deps_again: Seq<TaskId>,
) -> bool {
    &&& node.name@ == again.name@
    &&& node.payload@ == again.payload@
    &&& node.timeout_ms == again.timeout_ms
    &&& node.priority == again.priority
    &&& common::same_policies(node.retry_policy, again.retry_policy)
    &&& forall|k: Seq<char>|
        nodes.contains_key(k) && k != node.task_id@ ==> (#[trigger] common::task_texts(
            deps,
        ).contains(k) <==> common::task_texts(deps_again).contains(k))
}

/// The tasks that a new node waits for are those among `deps` that are in the graph.
proof fn lemma_inner_deps_contain(
    deps: Seq<TaskId>,
    nodes: Map<Seq<char>, DagNode>,
    id: Seq<char>,
    k: Seq<char>,
)
    ensures
        common::task_texts(inner_deps(deps, nodes, id)).contains(k) <==> {
            &&& common::task_texts(deps).contains(k)
            &&& k != id
            &&& nodes.contains_key(k)
        },
    decreases deps.len(),
{
    let inner = common::task_texts(inner_deps(deps, nodes, id));
    let texts = common::task_texts(deps);
    if deps.len() == 0 {
        assert(inner =~= Seq::empty());
    } else {
        let last = deps.last()@;
        let init = common::task_texts(inner_deps(deps.drop_last(), nodes, id));
        let head = common::task_texts(deps.drop_last());
        lemma_inner_deps_contain(deps.drop_last(), nodes, id, k);
        assert(texts =~= head.push(last));
        graph::lemma_to_set_push(head, last);
        assert(texts.to_set().contains(k) <==> texts.contains(k));
        assert(head.to_set().contains(k) <==> head.contains(k));
        if last != id && nodes.contains_key(last) {
            assert(inner =~= init.push(last));
            graph::lemma_to_set_push(init, last);
            assert(inner.to_set().contains(k) <==> inner.contains(k));
            assert(init.to_set().contains(k) <==> init.contains(k));
        }
    }
}

/// Where no edge led to `id`, it has the new edges' sources and no others.
proof fn lemma_new_sources(edges: Seq<DagEdge>, inner: Seq<TaskId>, id: TaskId)
    requires
        forall|i: int|
            0 <= i < edges.len() ==> (#[trigger] edges[i]).from@ != id@ && edges[i].to@ != id@,
    ensures
        graph::sources(dag::edge_pairs(edges + edges_into(inner, id)), id@)
            == common::task_texts(inner),
    decreases inner.len(),
{
    let all = dag::edge_pairs(edges + edges_into(inner, id));
    if inner.len() == 0 {
        assert(all =~= dag::edge_pairs(edges));
        graph::lemma_no_edges_at(all, id@);
        assert(graph::sources(all, id@) =~= common::task_texts(inner));
    } else {
        let init = inner.drop_last();
        lemma_new_sources(edges, init, id);
        assert(all.drop_last() =~= dag::edge_pairs(edges + edges_into(init, id)));
        assert(all.last() == (inner.last()@, id@));
        assert(common::task_texts(inner) =~= common::task_texts(init).push(inner.last()@));
    }
}

/// A node that was just added is recognised when it is submitted again, by its definition and
/// by the tasks of the graph that it waits for.
pub proof fn lemma_added_node_matches(
    s: WorkflowSlot,
    node: DagNode,
    deps: Seq<TaskId>,
    now: u64,
    again: DagNode,
    deps_again: Seq<TaskId>,
)
    requires
        s.wf(),
        !s@.dag.nodes.contains_key(node.task_id@),
        again.task_id@ == node.task_id@,
    ensures
        ({
            let d = node_added(s@, node, deps, now).dag;
            node_matches(d, node, again, deps_again) <==> same_submission(
                d.nodes,
                node,
                deps,
                again,
                deps_again,
            )
        }),
{
    let id = node.task_id;
    let d = node_added(s@, node, deps, now).dag;
    let inner = inner_deps(deps, d.nodes, id@);
    assert forall|i: int| 0 <= i < s@.dag.edges.len() implies (#[trigger] s@.dag.edges[i]).from@
        != id@ && s@.dag.edges[i].to@ != id@ by {
        assert(s.dag.nodes@.contains_key(s.dag.edges@[i].from@));
    }
    lemma_new_sources(s@.dag.edges, inner, id);
    let sources = graph::sources(slot::pairs(d), id@);
    assert(sources == common::task_texts(inner));
    assert forall|k: Seq<char>| #[trigger] sources.contains(k) <==> {
        &&& common::task_texts(deps).contains(k)
        &&& k != id@
        &&& d.nodes.contains_key(k)
    } by {
        lemma_inner_deps_contain(deps, d.nodes, id@, k);
    }
    if node_matches(d, node, again, deps_again) {
        assert forall|k: Seq<char>| d.nodes.contains_key(k) && k != id@ implies (
        #[trigger] common::task_texts(deps).contains(k) <==> common::task_texts(
            deps_again,
        ).contains(k)) by {
            assert(sources.contains(k) <==> common::task_texts(deps_again).contains(k));
        }
    }
    if same_submission(d.nodes, node, deps, again, deps_again) {
        assert forall|k: Seq<char>| sources.contains(k) <==> {
            &&& common::task_texts(deps_again).contains(k)
            &&& k != id@
            &&& d.nodes.contains_key(k)
        } by {
            if d.nodes.contains_key(k) && k != id@ {
                assert(common::task_texts(deps).contains(k) <==> common::task_texts(
                    deps_again,
                ).contains(k));
            }
        }
        assert(node_matches(d, node, again, deps_again));
    }
}

impl WorkflowSlot {
    /// The slot of a workflow that has just been submitted.
    pub fn submitted(workflow_id: &WorkflowId, dag: Dag) -> (s: Self)
        requires
            dag.wf(),
        ensures
            s@ == submitted(workflow_id@, dag@),
            s.wf(),
    {
        let execution = first_execution(workflow_id, &dag);
        let pending = count_predecessors(&dag);
        WorkflowSlot { dag, execution, pending, state: SlotState::Ready }
    }

    /// A placeholder for a workflow whose data is to come from another node.
    pub fn placeholder(workflow_id: &WorkflowId) -> (s: Self)
        ensures
            s@ == placeholder(workflow_id@),
            s.wf(),
    {
        let ids: Vec<TaskId> = Vec::new();
        proof {
            execution_laws::law_counters_agree_new(workflow_id@, ids@);
            assert(ids@ =~= Seq::empty());
        }
        WorkflowSlot {
            dag: Dag::new(),
            execution: WorkflowExecution::new(workflow_id.clone(), ids),
            pending: KeyMap::new(),
            state: SlotState::Loading,
        }
    }

    /// Adds one node at time `now`. A node that is on record is recognised, and has to
    /// be the same.
    pub fn add_node(
        &mut self,
        workflow_id: &WorkflowId,
        node: DagNode,
        deps: Vec<TaskId>,
        now: u64,
    ) -> (r: Result<NodeAddition, ActantError>)
        requires
            old(self).wf(),
            old(self)@.execution.total < usize::MAX,
        ensures
            final(self).wf(),
            add_node_outcome(old(self)@, final(self)@, workflow_id@, node, deps@, now, r),
    {
        let task_id = node.task_id.clone();
        let ghost before = self@;
        let ghost id = task_id@;
        if self.state == SlotState::Loading {
            return Err(
                ActantError::InvalidState(
                    workflow_message(
                        workflow_id,
                        " is still loading (placeholder), cannot add node",
                    ),
                ),
            );
        }
        if let Some(existing) = self.dag.get_node(&task_id) {
            if !flow_node_matches(existing, &node, &self.dag, &deps) {
                let mut m = "node ".to_owned();
                m.append(task_id.0.as_str());
                m.append(" in workflow ");
                m.append(workflow_id.0.as_str());
                m.append(
                    " exists with a different definition; the flow body submit sequence diverged from the recorded history",
                );
                return Err(ActantError::Replay(m));
            }
            return Ok(
                match self.execution.tasks.get(&task_id.0) {
                    Some(t) => NodeAddition::Existing {
                        state: t.state,
                        result: match &t.result {
                            Some(bytes) => Some(copy_bytes(bytes)),
                            None => None,
                        },
                        error: match &t.error {
                            Some(e) => Some(e.clone()),
                            None => None,
                        },
                    },
                    None => NodeAddition::Existing {
                        state: Phase::Pending,
                        result: None,
                        error: None,
                    },
                },
            );
        }
        if self.execution.is_terminal() {
            return Err(
                ActantError::InvalidState(
                    workflow_message(workflow_id, " is already terminal, cannot add node"),
                ),
            );
        }
        let started = self.execution.state == Phase::Pending;
        let ghost edges = self.dag.edge_seq();
        proof {
            assert forall|e: int| 0 <= e < edges.len() implies (#[trigger] edges[e]).from@ != id by {
                assert(self.dag.nodes@.contains_key(self.dag.edges@[e].from@));
            }
        }
        let _ = self.dag.add_node(node);
        let ghost nodes = self.dag.node_map();
        let mut waits_for: usize = 0;
        let mut i: usize = 0;
        assert(self.dag.edge_seq() =~= edges + edges_into(inner_deps(deps@.take(0), nodes, id), task_id));
        while i < deps.len()
            invariant
                i <= deps@.len(),
                id == task_id@,
                self.dag.wf(),
                self.dag.node_map() == nodes,
                nodes.contains_key(id),
                self.dag.node_order() == before.dag.order.push(id),
                self.dag.default_retry_policy == before.dag.default_retry_policy,
                self.dag.failure_strategy == before.dag.failure_strategy,
                self.dag.edge_seq() == edges + edges_into(
                    inner_deps(deps@.take(i as int), nodes, id),
                    task_id,
                ),
                forall|e: int| 0 <= e < edges.len() ==> (#[trigger] edges[e]).from@ != id,
                forall|j: int|
                    0 <= j < inner_deps(deps@.take(i as int), nodes, id).len()
                        ==> (#[trigger] inner_deps(deps@.take(i as int), nodes, id)[j])@ != id,
                self.execution@ == before.execution,
                self.pending@ == before.pending,
                self.state == before.state,
                waits_for == open_deps(
                    inner_deps(deps@.take(i as int), nodes, id),
                    before.execution.tasks,
                ),
                waits_for <= i,
            decreases deps@.len() - i,
        {
            let dep = deps[i].clone();
            let ghost inner = inner_deps(deps@.take(i as int), nodes, id);
            proof {
                assert(deps@.take(i + 1).drop_last() =~= deps@.take(i as int));
                assert(deps@.take(i + 1).last() == dep);
            }
            if dep.0 != task_id.0 && self.dag.get_node(&dep).is_some() {
                proof {
                    let ps = self.dag.pairs();
                    assert forall|e: int| 0 <= e < ps.len() implies (#[trigger] ps[e]).0 != id by {
                        if e < edges.len() {
                            assert(self.dag.edge_seq()[e] == edges[e]);
                        } else {
                            assert(self.dag.edge_seq()[e] == edges_into(inner, task_id)[e
                                - edges.len()]);
                            assert(inner[e - edges.len()]@ != id);
                        }
                    }
                    graph::lemma_reach_from_sink(ps, id, dep@);
                    assert(inner.push(dep).drop_last() =~= inner);
                    assert(edges_into(inner.push(dep), task_id) =~= edges_into(
                        inner,
                        task_id,
                    ).push(DagEdge { from: dep, to: task_id, condition: None }));
                    assert forall|j: int| 0 <= j < inner.push(dep).len() implies (
                    #[trigger] inner.push(dep)[j])@ != id by {
                        if j < inner.len() {
                            assert(inner[j]@ != id);
                        }
                    }
                }
                let _ = self.dag.add_edge(dep.clone(), task_id.clone());
                let ended = match self.execution.tasks.get(&dep.0) {
                    Some(t) => t.state.is_terminal(),
                    None => false,
                };
                if !ended {
                    waits_for += 1;
                }
                assert(self.dag.edge_seq() =~= edges + edges_into(inner.push(dep), task_id));
            }
            i += 1;
        }
        proof {
            assert(deps@.take(i as int) =~= deps@);
            execution_laws::law_counters_agree_registered(self.execution@, task_id);
        }
        self.execution.register_task(task_id.clone());
        self.pending.insert(task_id.0.clone(), waits_for);
        if started {
            self.execution.mark_running_at(now);
        }
        Ok(NodeAddition::Created { waits_for, started })
    }
}

} // verus!
