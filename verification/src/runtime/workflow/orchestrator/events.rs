//! The history of a workflow, and what the orchestrator asks of its surroundings.
use vstd::prelude::*;
use vstd::string::*;

use crate::common::{TaskId, WorkflowId};
use crate::runtime::workflow::dag::{DagNode, NodeView};
use crate::runtime::workflow::task;
use crate::runtime::workflow::wait::WaitCondition;

verus! {

/// One step in the history of a workflow.
#[derive(Debug)]
pub enum WorkflowEventPayload {
    /// The workflow was submitted.
    Submitted { workflow_id: WorkflowId },
    /// A task joined the graph.
    NodeAdded { workflow_id: WorkflowId, node: DagNode },
    /// A worker accepted the task.
    TaskDispatched { workflow_id: WorkflowId, task_id: TaskId },
    /// The workflow started.
    Started { workflow_id: WorkflowId },
    /// The task started.
    TaskRunning { workflow_id: WorkflowId, task_id: TaskId },
    /// The task completed with `result`.
    TaskCompleted { workflow_id: WorkflowId, task_id: TaskId, result: Vec<u8> },
    /// The task failed.
    TaskFailed { workflow_id: WorkflowId, task_id: TaskId, error: String },
    /// The task was cancelled.
    TaskCancelled { workflow_id: WorkflowId, task_id: TaskId },
    /// The workflow completed.
    Completed { workflow_id: WorkflowId },
    /// The workflow failed.
    Failed { workflow_id: WorkflowId, error: String },
    /// The workflow was cancelled.
    Cancelled { workflow_id: WorkflowId },
    /// A wait point was registered.
    WaitPointRegistered { workflow_id: WorkflowId, wait_key: String, condition: WaitCondition },
    /// A wait point was satisfied from outside.
    SignalReceived { workflow_id: WorkflowId, wait_key: String, payload: Vec<u8> },
    /// A timer fell due.
    TimerFired { workflow_id: WorkflowId, wait_key: String },
    /// The workflow was recovered from storage, or dropped as corrupt.
    Recovered { workflow_id: WorkflowId, task_count: usize, corrupt: bool },
}

/// The mathematical value of a [`WorkflowEventPayload`], without the workflow it is
/// about.
#[verifier::ext_equal]
pub enum EventKind {
    Submitted,
    NodeAdded { node: NodeView },
    TaskDispatched { task_id: Seq<char> },
    Started,
    TaskRunning { task_id: Seq<char> },
    TaskCompleted { task_id: Seq<char>, result: Seq<u8> },
    TaskFailed { task_id: Seq<char>, error: Seq<char> },
    TaskCancelled { task_id: Seq<char> },
    Completed,
    Failed { error: Seq<char> },
    Cancelled,
    WaitPointRegistered { wait_key: Seq<char>, condition: WaitCondition },
    SignalReceived { wait_key: Seq<char>, payload: Seq<u8> },
    TimerFired { wait_key: Seq<char> },
    Recovered { task_count: usize, corrupt: bool },
}

/// The mathematical value of a [`WorkflowEventPayload`].
#[verifier::ext_equal]
pub struct EventView {
    pub workflow_id: Seq<char>,
    pub kind: EventKind,
}

/// The workflow that an event is about.
pub open spec fn event_workflow(e: WorkflowEventPayload) -> WorkflowId {
    match e {
        WorkflowEventPayload::Submitted { workflow_id } => workflow_id,
        WorkflowEventPayload::NodeAdded { workflow_id, .. } => workflow_id,
        WorkflowEventPayload::TaskDispatched { workflow_id, .. } => workflow_id,
        WorkflowEventPayload::Started { workflow_id } => workflow_id,
        WorkflowEventPayload::TaskRunning { workflow_id, .. } => workflow_id,
        WorkflowEventPayload::TaskCompleted { workflow_id, .. } => workflow_id,
        WorkflowEventPayload::TaskFailed { workflow_id, .. } => workflow_id,
        WorkflowEventPayload::TaskCancelled { workflow_id, .. } => workflow_id,
        WorkflowEventPayload::Completed { workflow_id } => workflow_id,
        WorkflowEventPayload::Failed { workflow_id, .. } => workflow_id,
        WorkflowEventPayload::Cancelled { workflow_id } => workflow_id,
        WorkflowEventPayload::WaitPointRegistered { workflow_id, .. } => workflow_id,
        WorkflowEventPayload::SignalReceived { workflow_id, .. } => workflow_id,
        WorkflowEventPayload::TimerFired { workflow_id, .. } => workflow_id,
        WorkflowEventPayload::Recovered { workflow_id, .. } => workflow_id,
    }
}

impl View for WorkflowEventPayload {
    type V = EventView;

    open spec fn view(&self) -> EventView {
        EventView {
            workflow_id: event_workflow(*self)@,
            kind: match *self {
                WorkflowEventPayload::Submitted { .. } => EventKind::Submitted,
                WorkflowEventPayload::NodeAdded { node, .. } => EventKind::NodeAdded {
                    node: node@,
                },
                WorkflowEventPayload::TaskDispatched { task_id, .. } => EventKind::TaskDispatched {
                    task_id: task_id@,
                },
                WorkflowEventPayload::Started { .. } => EventKind::Started,
                WorkflowEventPayload::TaskRunning { task_id, .. } => EventKind::TaskRunning {
                    task_id: task_id@,
                },
                WorkflowEventPayload::TaskCompleted { task_id, result, .. } => EventKind::TaskCompleted {
                    task_id: task_id@,
                    result: result@,
                },
                WorkflowEventPayload::TaskFailed { task_id, error, .. } => EventKind::TaskFailed {
                    task_id: task_id@,
                    error: error@,
                },
                WorkflowEventPayload::TaskCancelled { task_id, .. } => EventKind::TaskCancelled {
                    task_id: task_id@,
                },
                WorkflowEventPayload::Completed { .. } => EventKind::Completed,
                WorkflowEventPayload::Failed { error, .. } => EventKind::Failed {
                    error: error@,
                },
                WorkflowEventPayload::Cancelled { .. } => EventKind::Cancelled,
                WorkflowEventPayload::WaitPointRegistered { wait_key, condition, .. } => EventKind::WaitPointRegistered {
                    wait_key: wait_key@,
                    condition: condition,
                },
                WorkflowEventPayload::SignalReceived { wait_key, payload, .. } => EventKind::SignalReceived {
                    wait_key: wait_key@,
                    payload: payload@,
                },
                WorkflowEventPayload::TimerFired { wait_key, .. } => EventKind::TimerFired {
                    wait_key: wait_key@,
                },
                WorkflowEventPayload::Recovered { task_count, corrupt, .. } => EventKind::Recovered {
                    task_count: task_count,
                    corrupt: corrupt,
                },
            },
        }
    }
}

/// The name of an event's kind.
pub open spec fn kind_text(k: EventKind) -> Seq<char> {
    match k {
        EventKind::Submitted => "Submitted"@,
        EventKind::NodeAdded { .. } => "NodeAdded"@,
        EventKind::TaskDispatched { .. } => "TaskDispatched"@,
        EventKind::Started => "Started"@,
        EventKind::TaskRunning { .. } => "TaskRunning"@,
        EventKind::TaskCompleted { .. } => "TaskCompleted"@,
        EventKind::TaskFailed { .. } => "TaskFailed"@,
        EventKind::TaskCancelled { .. } => "TaskCancelled"@,
        EventKind::Completed => "Completed"@,
        EventKind::Failed { .. } => "Failed"@,
        EventKind::Cancelled => "Cancelled"@,
        EventKind::WaitPointRegistered { .. } => "WaitPointRegistered"@,
        EventKind::SignalReceived { .. } => "SignalReceived"@,
        EventKind::TimerFired { .. } => "TimerFired"@,
        EventKind::Recovered { .. } => "Recovered"@,
    }
}

/// The task that an event is about, where it is about one.
pub open spec fn kind_task(k: EventKind) -> Option<Seq<char>> {
    match k {
        EventKind::NodeAdded { node } => Some(node.task_id),
        EventKind::TaskDispatched { task_id } => Some(task_id),
        EventKind::TaskRunning { task_id } => Some(task_id),
        EventKind::TaskCompleted { task_id, .. } => Some(task_id),
        EventKind::TaskFailed { task_id, .. } => Some(task_id),
        EventKind::TaskCancelled { task_id } => Some(task_id),
        _ => None,
    }
}

/// The error that an event carries, where it carries one.
pub open spec fn kind_error(k: EventKind) -> Option<Seq<char>> {
    match k {
        EventKind::TaskFailed { error, .. } => Some(error),
        EventKind::Failed { error } => Some(error),
        _ => None,
    }
}

/// The topic that holds the history of a workflow.
pub open spec fn topic_of(workflow_id: Seq<char>) -> Seq<char> {
    "workflow:"@ + workflow_id
}

/// The topic that holds the history of a workflow.
pub fn workflow_topic(workflow_id: &WorkflowId) -> (t: String)
    ensures
        t@ == topic_of(workflow_id@),
{
    let mut t = "workflow:".to_owned();
    t.append(workflow_id.0.as_str());
    t
}

impl WorkflowEventPayload {
    /// The workflow that the event is about.
    pub fn workflow_id(&self) -> (w: &WorkflowId)
        ensures
            *w == event_workflow(*self),
            w@ == self@.workflow_id,
    {
        match self {
            WorkflowEventPayload::Submitted { workflow_id } => workflow_id,
            WorkflowEventPayload::NodeAdded { workflow_id, .. } => workflow_id,
            WorkflowEventPayload::TaskDispatched { workflow_id, .. } => workflow_id,
            WorkflowEventPayload::Started { workflow_id } => workflow_id,
            WorkflowEventPayload::TaskRunning { workflow_id, .. } => workflow_id,
            WorkflowEventPayload::TaskCompleted { workflow_id, .. } => workflow_id,
            WorkflowEventPayload::TaskFailed { workflow_id, .. } => workflow_id,
            WorkflowEventPayload::TaskCancelled { workflow_id, .. } => workflow_id,
            WorkflowEventPayload::Completed { workflow_id } => workflow_id,
            WorkflowEventPayload::Failed { workflow_id, .. } => workflow_id,
            WorkflowEventPayload::Cancelled { workflow_id } => workflow_id,
            WorkflowEventPayload::WaitPointRegistered { workflow_id, .. } => workflow_id,
            WorkflowEventPayload::SignalReceived { workflow_id, .. } => workflow_id,
            WorkflowEventPayload::TimerFired { workflow_id, .. } => workflow_id,
            WorkflowEventPayload::Recovered { workflow_id, .. } => workflow_id,
        }
    }

    /// The name of the event's kind.
    pub fn kind_name(&self) -> (s: &'static str)
        ensures
            s@ == kind_text(self@.kind),
    {
        match self {
            WorkflowEventPayload::Submitted { .. } => "Submitted",
            WorkflowEventPayload::NodeAdded { .. } => "NodeAdded",
            WorkflowEventPayload::TaskDispatched { .. } => "TaskDispatched",
            WorkflowEventPayload::Started { .. } => "Started",
            WorkflowEventPayload::TaskRunning { .. } => "TaskRunning",
            WorkflowEventPayload::TaskCompleted { .. } => "TaskCompleted",
            WorkflowEventPayload::TaskFailed { .. } => "TaskFailed",
            WorkflowEventPayload::TaskCancelled { .. } => "TaskCancelled",
            WorkflowEventPayload::Completed { .. } => "Completed",
            WorkflowEventPayload::Failed { .. } => "Failed",
            WorkflowEventPayload::Cancelled { .. } => "Cancelled",
            WorkflowEventPayload::WaitPointRegistered { .. } => "WaitPointRegistered",
            WorkflowEventPayload::SignalReceived { .. } => "SignalReceived",
            WorkflowEventPayload::TimerFired { .. } => "TimerFired",
            WorkflowEventPayload::Recovered { .. } => "Recovered",
        }
    }

    /// The task that the event is about, where it is about one.
    pub fn task_id(&self) -> (t: Option<&TaskId>)
        ensures
            match t {
                Some(id) => kind_task(self@.kind) == Some(id@),
                None => kind_task(self@.kind) is None,
            },
    {
        match self {
            WorkflowEventPayload::NodeAdded { node, .. } => Some(&node.task_id),
            WorkflowEventPayload::TaskDispatched { task_id, .. } => Some(task_id),
            WorkflowEventPayload::TaskRunning { task_id, .. } => Some(task_id),
            WorkflowEventPayload::TaskCompleted { task_id, .. } => Some(task_id),
            WorkflowEventPayload::TaskFailed { task_id, .. } => Some(task_id),
            WorkflowEventPayload::TaskCancelled { task_id, .. } => Some(task_id),
            _ => None,
        }
    }

    /// The error that the event carries, where it carries one.
    pub fn error(&self) -> (e: Option<&str>)
        ensures
            match e {
                Some(s) => kind_error(self@.kind) == Some(s@),
                None => kind_error(self@.kind) is None,
            },
    {
        match self {
            WorkflowEventPayload::TaskFailed { error, .. } => Some(error.as_str()),
            WorkflowEventPayload::Failed { error, .. } => Some(error.as_str()),
            _ => None,
        }
    }

    /// The topic that the event is appended to.
    pub fn topic(&self) -> (t: String)
        ensures
            t@ == topic_of(self@.workflow_id),
    {
        workflow_topic(self.workflow_id())
    }
}

/// Something the orchestrator needs done outside of its own state, in order.
#[derive(Debug)]
pub enum Effect {
    /// Append the event to its topic, and move the workflow's watermark to it.
    Append(WorkflowEventPayload),
    /// Store the workflow's graph, execution state and pending counts now.
    PersistWorkflow(WorkflowId),
    /// Store the workflow's execution state now.
    PersistExecution(WorkflowId),
    /// Store the workflow's execution state together with its results now.
    PersistResults(WorkflowId, Vec<Vec<u8>>),
    /// Delete everything stored for the workflow.
    Erase(WorkflowId),
    /// Delete everything stored for the workflow but its results.
    EraseState(WorkflowId),
    /// Wake whoever waits for the workflow to end, and release whoever waits at its wait
    /// points.
    NotifyEnded(WorkflowId),
    /// Wake whoever waits at the wait point.
    Wake(WorkflowId, String, Vec<u8>),
    /// Tell every worker, this node included, to stop the task.
    CancelEverywhere(WorkflowId, TaskId),
}

/// The mathematical value of an [`Effect`].
#[verifier::ext_equal]
pub enum EffectView {
    Append(EventView),
    PersistWorkflow(Seq<char>),
    PersistExecution(Seq<char>),
    PersistResults(Seq<char>, Seq<Seq<u8>>),
    Erase(Seq<char>),
    EraseState(Seq<char>),
    NotifyEnded(Seq<char>),
    Wake(Seq<char>, Seq<char>, Seq<u8>),
    CancelEverywhere(Seq<char>, Seq<char>),
}

impl View for Effect {
    type V = EffectView;

    open spec fn view(&self) -> EffectView {
        match *self {
            Effect::Append(e) => EffectView::Append(e@),
            Effect::PersistWorkflow(w) => EffectView::PersistWorkflow(w@),
            Effect::PersistExecution(w) => EffectView::PersistExecution(w@),
            Effect::PersistResults(w, r) => EffectView::PersistResults(w@, task::contents(r@)),
            Effect::Erase(w) => EffectView::Erase(w@),
            Effect::EraseState(w) => EffectView::EraseState(w@),
            Effect::NotifyEnded(w) => EffectView::NotifyEnded(w@),
            Effect::Wake(w, k, p) => EffectView::Wake(w@, k@, p@),
            Effect::CancelEverywhere(w, t) => EffectView::CancelEverywhere(w@, t@),
        }
    }
}

/// The values of a list of effects.
pub open spec fn effect_views(effects: Seq<Effect>) -> Seq<EffectView> {
    Seq::new(effects.len(), |i: int| effects[i]@)
}

/// The effect that appends an event.
pub open spec fn appended(workflow_id: Seq<char>, kind: EventKind) -> EffectView {
    EffectView::Append(EventView { workflow_id, kind })
}

/// Adds an effect to a list.
pub fn push_effect(effects: &mut Vec<Effect>, e: Effect)
    ensures
        effect_views(final(effects)@) == effect_views(old(effects)@).push(e@),
{
    effects.push(e);
    assert(effect_views(effects@) =~= effect_views(old(effects)@).push(e@));
}

} // verus!
