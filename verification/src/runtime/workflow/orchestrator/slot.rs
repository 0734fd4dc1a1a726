//! The state of one workflow, and how it moves.
use vstd::prelude::*;
use vstd::string::*;

use crate::common;
use crate::common::{copy_bytes, ActantError, NodeId, TaskId, WorkflowId};
use crate::keymap::KeyMap;
use crate::runtime::workflow::dag;
use crate::runtime::workflow::dag::{Dag, DagView};
use crate::runtime::workflow::execution;
use crate::runtime::workflow::execution::{ExecutionView, TaskState, WorkflowExecution};
use crate::runtime::workflow::execution_laws;
use crate::runtime::workflow::graph;
use crate::runtime::workflow::task;
use crate::runtime::workflow::task::{copy_node, PayloadView, TaskDefinition, TaskPayload, TaskView};

verus! {

/// Whether a workflow's data has arrived.
#[derive(Debug, Clone, Copy, PartialEq, Eq, Structural)]
pub enum SlotState {
    /// A placeholder that waits for data from another node.
    Loading,
    /// All data is here.
    Ready,
}

/// The state of one workflow: its graph, its execution, and for each task the number of
/// predecessors that it still waits for.
#[derive(Debug)]
pub struct WorkflowSlot {
    pub dag: Dag,
    pub execution: WorkflowExecution,
    pub pending: KeyMap<usize>,
    pub state: SlotState,
}

/// The mathematical value of a [`WorkflowSlot`].
#[verifier::ext_equal]
pub struct SlotView {
    pub dag: DagView,
    pub execution: ExecutionView,
    pub pending: Map<Seq<char>, usize>,
    pub state: SlotState,
}

impl View for WorkflowSlot {
    type V = SlotView;

    open spec fn view(&self) -> SlotView {
        SlotView {
            dag: self.dag@,
            execution: self.execution@,
            pending: self.pending@,
            state: self.state,
        }
    }
}

/// The edges of a graph by their endpoints.
pub open spec fn pairs(d: DagView) -> Seq<(Seq<char>, Seq<char>)> {
    dag::edge_pairs(d.edges)
}

/// The results that the tasks in `ids` have, in order.
pub open spec fn results_of(
    ids: Seq<Seq<char>>,
    tasks: Map<Seq<char>, TaskState>,
) -> Seq<Seq<u8>>
    decreases ids.len(),
{
    if ids.len() == 0 {
        Seq::empty()
    } else {
        let init = results_of(ids.drop_last(), tasks);
        let k = ids.last();
        if tasks.contains_key(k) && tasks[k].result is Some {
            init.push(tasks[k].result->0@)
        } else {
            init
        }
    }
}

/// What a task is run with: its payload, preceded by the results of the tasks that it
/// waited for where there are any.
pub open spec fn payload_for(
    d: DagView,
    tasks: Map<Seq<char>, TaskState>,
    id: Seq<char>,
    submitted: Seq<u8>,
) -> PayloadView {
    let sources = graph::sources(pairs(d), id);
    if sources.len() == 0 {
        PayloadView::Submitted(submitted)
    } else {
        PayloadView::Upstream { results: results_of(sources, tasks), submitted }
    }
}

/// The task `id` of a workflow as it is handed to a scheduler.
pub open spec fn task_for(
    v: SlotView,
    workflow_id: Seq<char>,
    origin: Option<Seq<char>>,
    id: Seq<char>,
) -> TaskView {
    let node = v.dag.nodes[id];
    TaskView {
        id,
        name: node.name@,
        payload: payload_for(v.dag, v.execution.tasks, id, node.payload@),
        workflow_id: Some(workflow_id),
        target_node: None,
        origin_node: origin,
        retry_policy: dag::policy_of(v.dag, id),
        priority: node.priority,
        timeout_ms: node.timeout_ms,
        attempt: if v.execution.tasks.contains_key(id) {
            v.execution.tasks[id].attempt
        } else {
            0
        },
        enqueued_at_ms: 0,
        target_endpoint_addr: None,
        origin_endpoint_addr: None,
    }
}

/// The tasks `ids` of a workflow as they are handed to a scheduler.
pub open spec fn tasks_for(
    v: SlotView,
    workflow_id: Seq<char>,
    origin: Option<Seq<char>>,
    ids: Seq<Seq<char>>,
) -> Seq<TaskView> {
    Seq::new(ids.len(), |i: int| task_for(v, workflow_id, origin, ids[i]))
}

/// What a task is run with.
pub fn build_task_payload(
    dag: &Dag,
    execution: &WorkflowExecution,
    task_id: &TaskId,
    default_payload: &Vec<u8>,
) -> (p: TaskPayload)
    requires
        dag.wf(),
        dag.node_map().contains_key(task_id@),
    ensures
        p@ == payload_for(dag@, execution@.tasks, task_id@, default_payload@),
{
    let predecessors = dag.predecessors_of(task_id);
    let ghost sources = graph::sources(dag.pairs(), task_id@);
    if predecessors.len() == 0 {
        return TaskPayload::Submitted(copy_bytes(default_payload));
    }
    let mut results: Vec<Vec<u8>> = Vec::new();
    let mut i: usize = 0;
    assert(task::contents(results@) =~= results_of(sources.take(0), execution@.tasks));
    while i < predecessors.len()
        invariant
            i <= predecessors@.len(),
            dag.wf(),
            dag::names_nodes(predecessors@, dag.node_map(), sources),
            task::contents(results@) == results_of(sources.take(i as int), execution@.tasks),
        decreases predecessors@.len() - i,
    {
        let id = &predecessors[i].task_id;
        proof {
            assert(dag.node_map().contains_key(sources[i as int]));
            assert(id@ == sources[i as int]);
            assert(sources.take(i + 1).drop_last() =~= sources.take(i as int));
            assert(sources.take(i + 1).last() == id@);
        }
        if let Some(t) = execution.tasks.get(&id.0) {
            if let Some(r) = &t.result {
                let ghost before = results@;
                results.push(copy_bytes(r));
                assert(task::contents(results@) =~= task::contents(before).push(r@));
            }
        }
        i += 1;
    }
    assert(sources.take(i as int) =~= sources);
    TaskPayload::Upstream { results, submitted: copy_bytes(default_payload) }
}

/// The message for a task that has no node.
pub open spec fn node_not_in_dag(id: Seq<char>) -> Seq<char> {
    "node "@ + id + " not found in dag"@
}

/// What building the tasks `ids` returns: all of them, or an error that names the first
/// one without a node.
pub open spec fn tasks_built(
    v: SlotView,
    workflow_id: Seq<char>,
    origin: Option<Seq<char>>,
    ids: Seq<Seq<char>>,
    r: Result<Vec<TaskDefinition>, ActantError>,
) -> bool {
    match r {
        Ok(tasks) => {
            &&& forall|i: int| 0 <= i < ids.len() ==> v.dag.nodes.contains_key(#[trigger] ids[i])
            &&& task::task_views(tasks@) == tasks_for(v, workflow_id, origin, ids)
        },
        Err(e) => exists|i: int|
            {
                &&& 0 <= i < ids.len()
                &&& !v.dag.nodes.contains_key(#[trigger] ids[i])
                &&& forall|j: int| 0 <= j < i ==> v.dag.nodes.contains_key(#[trigger] ids[j])
                &&& (e matches ActantError::Internal(m) && m@ == node_not_in_dag(ids[i]))
            },
    }
}

impl WorkflowSlot {
    /// The graph has no cycle, and the counters of the execution agree with its tasks.
    pub open spec fn wf(&self) -> bool {
        &&& self.dag.wf()
        &&& execution_laws::counted(self.execution@)
    }

    /// The task `task_id` as it is handed to a scheduler.
    pub fn build_task(
        &self,
        workflow_id: &WorkflowId,
        origin: &Option<NodeId>,
        task_id: &TaskId,
    ) -> (r: Option<TaskDefinition>)
        requires
            self.wf(),
        ensures
            match r {
                Some(t) => self@.dag.nodes.contains_key(task_id@) && t@ == task_for(
                    self@,
                    workflow_id@,
                    task::node_text(*origin),
                    task_id@,
                ),
                None => !self@.dag.nodes.contains_key(task_id@),
            },
    {
        let node = match self.dag.get_node(task_id) {
            Some(n) => n,
            None => {
                return None;
            },
        };
        let attempt: u32 = match self.execution.tasks.get(&task_id.0) {
            Some(t) => t.attempt(),
            None => 0,
        };
        let payload = build_task_payload(&self.dag, &self.execution, task_id, &node.payload);
        Some(
            TaskDefinition {
                id: task_id.clone(),
                name: node.name.clone(),
                payload,
                workflow_id: Some(workflow_id.clone()),
                target_node: None,
                origin_node: copy_node(origin),
                retry_policy: self.dag.effective_retry_policy(task_id),
                priority: node.priority,
                timeout_ms: node.timeout_ms,
                attempt,
                enqueued_at_ms: 0,
                target_endpoint_addr: None,
                origin_endpoint_addr: None,
            },
        )
    }

    /// The tasks `ids` as they are handed to a scheduler.
    pub fn build_ready_tasks(
        &self,
        workflow_id: &WorkflowId,
        origin: &Option<NodeId>,
        ids: &Vec<TaskId>,
    ) -> (r: Result<Vec<TaskDefinition>, ActantError>)
        requires
            self.wf(),
        ensures
            tasks_built(
                self@,
                workflow_id@,
                task::node_text(*origin),
                common::task_texts(ids@),
                r,
            ),
    {
        let ghost texts = common::task_texts(ids@);
        let ghost o = task::node_text(*origin);
        let mut tasks: Vec<TaskDefinition> = Vec::new();
        let mut i: usize = 0;
        while i < ids.len()
            invariant
                i <= ids@.len(),
                self.wf(),
                texts == common::task_texts(ids@),
                o == task::node_text(*origin),
                forall|j: int|
                    0 <= j < i ==> self@.dag.nodes.contains_key(#[trigger] texts[j]),
                task::task_views(tasks@) == tasks_for(self@, workflow_id@, o, texts.take(i as int)),
            decreases ids@.len() - i,
        {
            assert(texts[i as int] == ids@[i as int]@);
            match self.build_task(workflow_id, origin, &ids[i]) {
                Some(t) => {
                    let ghost before = tasks@;
                    tasks.push(t);
                    assert(task::task_views(tasks@) =~= tasks_for(
                        self@,
                        workflow_id@,
                        o,
                        texts.take(i + 1),
                    )) by {
                        assert(task::task_views(before).len() == i);
                        assert forall|j: int| 0 <= j < i implies before[j]@ == #[trigger] task_for(
                            self@,
                            workflow_id@,
                            o,
                            texts[j],
                        ) by {
                            assert(task::task_views(before)[j] == before[j]@);
                            assert(texts.take(i as int)[j] == texts[j]);
                        }
                    }
                },
                None => {
                    let mut m = "node ".to_owned();
                    m.append(ids[i].0.as_str());
                    m.append(" not found in dag");
                    assert(!self@.dag.nodes.contains_key(texts[i as int]));
                    return Err(ActantError::Internal(m));
                },
            }
            i += 1;
        }
        assert(texts.take(i as int) =~= texts);
        Ok(tasks)
    }
}

} // verus!
