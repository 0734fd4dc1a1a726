//! Tasks as they are handed to a scheduler.
use vstd::prelude::*;

use crate::common::{NodeId, RetryPolicy, TaskId, WorkflowId};

verus! {

/// What a task is run with.
#[derive(Debug)]
pub enum TaskPayload {
    /// The payload as submitted.
    Submitted(Vec<u8>),
    /// The submitted payload, to be preceded by the results of the tasks that this one
    /// waited for, in the order of the edges.
    Upstream { results: Vec<Vec<u8>>, submitted: Vec<u8> },
}

/// The mathematical value of a [`TaskPayload`].
#[verifier::ext_equal]
pub enum PayloadView {
    Submitted(Seq<u8>),
    Upstream { results: Seq<Seq<u8>>, submitted: Seq<u8> },
}

/// The contents of byte strings.
pub open spec fn contents(list: Seq<Vec<u8>>) -> Seq<Seq<u8>> {
    Seq::new(list.len(), |i: int| list[i]@)
}

impl View for TaskPayload {
    type V = PayloadView;

    open spec fn view(&self) -> PayloadView {
        match self {
            TaskPayload::Submitted(p) => PayloadView::Submitted(p@),
            TaskPayload::Upstream { results, submitted } => PayloadView::Upstream {
                results: contents(results@),
                submitted: submitted@,
            },
        }
    }
}

/// A task ready to be scheduled.
#[derive(Debug)]
pub struct TaskDefinition {
    pub id: TaskId,
    pub name: String,
    pub payload: TaskPayload,
    pub workflow_id: Option<WorkflowId>,
    pub target_node: Option<NodeId>,
    pub origin_node: Option<NodeId>,
    pub retry_policy: Option<RetryPolicy>,
    pub priority: i32,
    pub timeout_ms: Option<u64>,
    pub attempt: u32,
    pub enqueued_at_ms: u64,
    pub target_endpoint_addr: Option<String>,
    pub origin_endpoint_addr: Option<String>,
}

/// The mathematical value of a [`TaskDefinition`].
#[verifier::ext_equal]
pub struct TaskView {
    pub id: Seq<char>,
    pub name: Seq<char>,
    pub payload: PayloadView,
    pub workflow_id: Option<Seq<char>>,
    pub target_node: Option<Seq<char>>,
    pub origin_node: Option<Seq<char>>,
    pub retry_policy: Option<RetryPolicy>,
    pub priority: i32,
    pub timeout_ms: Option<u64>,
    pub attempt: u32,
    pub enqueued_at_ms: u64,
    pub target_endpoint_addr: Option<Seq<char>>,
    pub origin_endpoint_addr: Option<Seq<char>>,
}

/// The text of an optional string.
pub open spec fn text_of(s: Option<String>) -> Option<Seq<char>> {
    match s {
        Some(t) => Some(t@),
        None => None,
    }
}

/// The text of an optional node identifier.
pub open spec fn node_text(n: Option<NodeId>) -> Option<Seq<char>> {
    match n {
        Some(t) => Some(t@),
        None => None,
    }
}

/// The text of an optional workflow identifier.
pub open spec fn workflow_text(w: Option<WorkflowId>) -> Option<Seq<char>> {
    match w {
        Some(t) => Some(t@),
        None => None,
    }
}

impl View for TaskDefinition {
    type V = TaskView;

    open spec fn view(&self) -> TaskView {
        TaskView {
            id: self.id@,
            name: self.name@,
            payload: self.payload@,
            workflow_id: workflow_text(self.workflow_id),
            target_node: node_text(self.target_node),
            origin_node: node_text(self.origin_node),
            retry_policy: self.retry_policy,
            priority: self.priority,
            timeout_ms: self.timeout_ms,
            attempt: self.attempt,
            enqueued_at_ms: self.enqueued_at_ms,
            target_endpoint_addr: text_of(self.target_endpoint_addr),
            origin_endpoint_addr: text_of(self.origin_endpoint_addr),
        }
    }
}

/// The values of a list of tasks.
pub open spec fn task_views(tasks: Seq<TaskDefinition>) -> Seq<TaskView> {
    Seq::new(tasks.len(), |i: int| tasks[i]@)
}

/// Copies an optional node identifier.
pub fn copy_node(n: &Option<NodeId>) -> (r: Option<NodeId>)
    ensures
        r == *n,
{
    match n {
        Some(id) => Some(id.clone()),
        None => None,
    }
}

} // verus!
