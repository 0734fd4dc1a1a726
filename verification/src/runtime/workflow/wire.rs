//! What nodes tell each other.
use vstd::prelude::*;

use crate::common::{copy_bytes, NodeId, TaskId, WorkflowId};
use crate::runtime::state::hlc::HlcTimestamp;
use crate::runtime::workflow::task;
use crate::runtime::workflow::task::{copy_node, TaskDefinition};

verus! {

/// How a task stands, as it is told to other nodes.
#[derive(Debug)]
pub enum WireTaskState {
    Running,
    Completed { result: Vec<u8> },
    Failed { error: String },
    Cancelled,
    Skipped,
}

impl WireTaskState {
    /// Nothing follows this state.
    pub open spec fn ends(self) -> bool {
        !(self is Running)
    }

    /// Whether nothing follows this state.
    pub fn is_terminal(&self) -> (b: bool)
        ensures
            b == self.ends(),
    {
        match self {
            WireTaskState::Running => false,
            _ => true,
        }
    }
}

/// The news that a task has come to a state.
#[derive(Debug)]
pub struct WireDagStateUpdate {
    pub workflow_id: WorkflowId,
    pub task_id: TaskId,
    pub task_state: WireTaskState,
    pub hlc_timestamp: HlcTimestamp,
    pub origin_node: NodeId,
}

/// How far a node has brought a workflow.
#[derive(Debug)]
pub struct WorkflowHead {
    pub workflow_id: WorkflowId,
    pub succeeded_count: usize,
    pub total_count: usize,
    pub hlc_timestamp: HlcTimestamp,
}

/// How far a node has brought its workflows.
#[derive(Debug)]
pub struct HeadsExchange {
    pub node_id: NodeId,
    pub heads: Vec<WorkflowHead>,
}

/// A request for all that is known of a workflow.
#[derive(Debug)]
pub struct WorkflowStateRequest {
    pub workflow_id: WorkflowId,
    pub requesting_node: NodeId,
}

/// What is known of a workflow, in encoded parts.
#[derive(Debug)]
pub struct WorkflowStateResponse {
    pub workflow_id: WorkflowId,
    pub dag: Option<Vec<u8>>,
    pub execution: Option<Vec<u8>>,
    pub pending: Option<Vec<u8>>,
}

/// A node's sign of life.
#[derive(Debug)]
pub struct NodeHeartbeat {
    pub node_id: NodeId,
    pub active_workflows: Vec<WorkflowId>,
    pub timestamp_ms: u64,
    pub available_slots: u32,
    pub max_slots: u32,
    pub endpoint_addr: Option<String>,
}

/// The news that a node has taken a workflow over.
#[derive(Debug)]
pub struct OrchestratorClaim {
    pub node_id: NodeId,
    pub workflow_id: WorkflowId,
    pub timestamp_ms: u64,
}

/// How a task ended, as the node that ran it tells the node that sent it.
#[derive(Debug)]
pub enum WireTaskOutcome {
    Completed(Vec<u8>),
    Failed(String),
    Cancelled,
    Skipped,
}

/// What is known of a task besides how it ended.
#[derive(Debug)]
pub struct TaskRef {
    pub workflow_id: WorkflowId,
    pub task_id: TaskId,
    pub task_name: String,
    pub target_node: Option<NodeId>,
}

/// The end of a task.
#[derive(Debug)]
pub struct TaskCompletion {
    pub task: TaskRef,
    pub outcome: WireTaskOutcome,
}

/// What is sent under a topic.
#[derive(Debug)]
pub enum WireMessage {
    TaskDispatch(TaskDefinition),
    DagStateUpdate(WireDagStateUpdate),
    NodeHeartbeat(NodeHeartbeat),
    OrchestratorClaim(OrchestratorClaim),
    HeadsExchange(HeadsExchange),
    WorkflowStateRequest(WorkflowStateRequest),
    WorkflowStateResponse(WorkflowStateResponse),
    /// The bytes of an actor's answer.
    RemoteActorReply(Vec<u8>),
}

/// What a topic is about.
#[derive(Debug, Clone, Copy, PartialEq, Eq, Structural)]
pub enum TopicRoute {
    Task,
    Actor,
    ActorReply,
    DagState,
    Heartbeat,
    Failover,
    Heads,
    WorkflowStateReq,
    WorkflowStateResp,
    Cancel,
    CapabilityGossip,
    Unknown,
}

/// The news that a task is cancelled.
#[derive(Debug)]
pub struct CancelBroadcast {
    pub workflow_id: WorkflowId,
    pub task_id: TaskId,
}

/// The mathematical value of a [`WireTaskOutcome`].
#[verifier::ext_equal]
pub enum OutcomeView {
    Completed(Seq<u8>),
    Failed(Seq<char>),
    Cancelled,
    Skipped,
}

impl View for WireTaskOutcome {
    type V = OutcomeView;

    open spec fn view(&self) -> OutcomeView {
        match *self {
            WireTaskOutcome::Completed(result) => OutcomeView::Completed(result@),
            WireTaskOutcome::Failed(error) => OutcomeView::Failed(error@),
            WireTaskOutcome::Cancelled => OutcomeView::Cancelled,
            WireTaskOutcome::Skipped => OutcomeView::Skipped,
        }
    }
}

impl Clone for WireTaskOutcome {
    fn clone(&self) -> (r: Self)
        ensures
            r@ == self@,
    {
        match self {
            WireTaskOutcome::Completed(result) => WireTaskOutcome::Completed(copy_bytes(result)),
            WireTaskOutcome::Failed(error) => WireTaskOutcome::Failed(error.clone()),
            WireTaskOutcome::Cancelled => WireTaskOutcome::Cancelled,
            WireTaskOutcome::Skipped => WireTaskOutcome::Skipped,
        }
    }
}

/// The mathematical value of a [`TaskRef`].
#[verifier::ext_equal]
pub struct TaskRefView {
    pub workflow_id: Seq<char>,
    pub task_id: Seq<char>,
    pub task_name: Seq<char>,
    pub target_node: Option<Seq<char>>,
}

impl View for TaskRef {
    type V = TaskRefView;

    open spec fn view(&self) -> TaskRefView {
        TaskRefView {
            workflow_id: self.workflow_id@,
            task_id: self.task_id@,
            task_name: self.task_name@,
            target_node: task::node_text(self.target_node),
        }
    }
}

impl Clone for TaskRef {
    fn clone(&self) -> (r: Self)
        ensures
            r@ == self@,
    {
        TaskRef {
            workflow_id: self.workflow_id.clone(),
            task_id: self.task_id.clone(),
            task_name: self.task_name.clone(),
            target_node: copy_node(&self.target_node),
        }
    }
}

/// The mathematical value of a [`TaskCompletion`].
#[verifier::ext_equal]
pub struct CompletionView {
    pub task: TaskRefView,
    pub outcome: OutcomeView,
}

impl View for TaskCompletion {
    type V = CompletionView;

    open spec fn view(&self) -> CompletionView {
        CompletionView { task: self.task@, outcome: self.outcome@ }
    }
}

/// The state tells of the end.
pub open spec fn tells(outcome: OutcomeView, s: WireTaskState) -> bool {
    match outcome {
        OutcomeView::Completed(result) => s matches WireTaskState::Completed { result: b } && b@
            == result,
        OutcomeView::Failed(error) => s matches WireTaskState::Failed { error: e } && e@ == error,
        OutcomeView::Cancelled => s is Cancelled,
        OutcomeView::Skipped => s is Skipped,
    }
}

impl TaskCompletion {
    /// The state in which the task is told to be to other nodes.
    pub fn wire_state(&self) -> (s: WireTaskState)
        ensures
            tells(self.outcome@, s),
            s.ends(),
    {
        match &self.outcome {
            WireTaskOutcome::Completed(result) => WireTaskState::Completed {
                result: copy_bytes(result),
            },
            WireTaskOutcome::Failed(error) => WireTaskState::Failed { error: error.clone() },
            WireTaskOutcome::Cancelled => WireTaskState::Cancelled,
            WireTaskOutcome::Skipped => WireTaskState::Skipped,
        }
    }
}

} // verus!
