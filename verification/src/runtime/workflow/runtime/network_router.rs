//! What a node does with what comes from the network.
use vstd::prelude::*;
use vstd::string::*;

use crate::common::{ActantError, NodeId};
use crate::runtime::workflow::actor::workflow_actor::{
    ResultSource, TaskResultOutcome, WorkflowCommand, WorkflowReply,
};
use crate::runtime::workflow::runtime::result_delivery::DirectRequest;
use crate::runtime::workflow::runtime::Worker;
use crate::runtime::workflow::scheduler;
use crate::runtime::workflow::scheduler::{InnerScheduler, Scheduler};
use crate::runtime::workflow::task::TaskDefinition;
use crate::runtime::workflow::wire::{
    CancelBroadcast, CompletionView, HeadsExchange, NodeHeartbeat, OrchestratorClaim, OutcomeView,
    TaskCompletion, TaskRef, TaskRefView, TopicRoute, WireDagStateUpdate, WireMessage,
    WireTaskOutcome, WorkflowStateRequest, WorkflowStateResponse,
};

verus! {

/// The event under which the end of a task is published.
#[derive(Debug, Clone, Copy, PartialEq, Eq, Structural)]
pub enum CompletionEvent {
    TaskCompleted,
    TaskFailed,
    TaskCancelled,
    TaskSkipped,
}

/// The event under which an end is published.
pub open spec fn event_for(o: OutcomeView) -> CompletionEvent {
    match o {
        OutcomeView::Completed(_) => CompletionEvent::TaskCompleted,
        OutcomeView::Failed(_) => CompletionEvent::TaskFailed,
        OutcomeView::Cancelled => CompletionEvent::TaskCancelled,
        OutcomeView::Skipped => CompletionEvent::TaskSkipped,
    }
}

impl TaskCompletion {
    /// The event under which the end is published.
    pub fn event(&self) -> (e: CompletionEvent)
        ensures
            e == event_for(self@.outcome),
    {
        match &self.outcome {
            WireTaskOutcome::Completed(_) => CompletionEvent::TaskCompleted,
            WireTaskOutcome::Failed(_) => CompletionEvent::TaskFailed,
            WireTaskOutcome::Cancelled => CompletionEvent::TaskCancelled,
            WireTaskOutcome::Skipped => CompletionEvent::TaskSkipped,
        }
    }
}

/// What to do with a result that another node has brought.
#[derive(Debug)]
pub enum ResultRoute {
    /// Publish it; the node is told that it was taken.
    Publish(TaskCompletion),
    /// Ask the actor; the node is told whether it was taken.
    Ask(WorkflowCommand),
    /// Drop it; the node is told that it was not taken.
    Reject,
}

/// How the end of a task that another node ran is published.
pub open spec fn remote_completion(
    task: TaskRefView,
    outcome: OutcomeView,
    worker: Seq<char>,
) -> CompletionView {
    CompletionView { task: TaskRefView { target_node: Some(worker), ..task }, outcome }
}

/// The end of a task that `worker_node` ran, as it is published here.
pub fn publish_remote_completion(
    task: &TaskRef,
    outcome: &WireTaskOutcome,
    worker_node: &NodeId,
) -> (c: TaskCompletion)
    ensures
        c@ == remote_completion(task@, outcome@, worker_node@),
{
    TaskCompletion {
        task: TaskRef {
            workflow_id: task.workflow_id.clone(),
            task_id: task.task_id.clone(),
            task_name: task.task_name.clone(),
            target_node: Some(worker_node.clone()),
        },
        outcome: outcome.clone(),
    }
}

/// What is done with a result: without a workflow or an actor it is published; a skipped task
/// is no result; anything else goes to the actor.
pub open spec fn routed(
    task: TaskRef,
    outcome: WireTaskOutcome,
    worker: NodeId,
    has_actor: bool,
    r: ResultRoute,
) -> bool {
    if task.workflow_id@.len() == 0 || !has_actor {
        r matches ResultRoute::Publish(c) && c@ == remote_completion(task@, outcome@, worker@)
    } else {
        match outcome {
            WireTaskOutcome::Skipped => r is Reject,
            _ => r == ResultRoute::Ask(
                WorkflowCommand::OnTaskResult {
                    workflow_id: task.workflow_id,
                    task_id: task.task_id,
                    outcome: match outcome {
                        WireTaskOutcome::Completed(result) => TaskResultOutcome::Completed(result),
                        WireTaskOutcome::Failed(error) => TaskResultOutcome::Failed(error),
                        _ => TaskResultOutcome::Cancelled,
                    },
                    attempt: None,
                    source: ResultSource::Remote,
                },
            ),
        }
    }
}

/// What to do with a result that `worker_node` has brought.
pub fn handle_task_result(
    task: TaskRef,
    outcome: WireTaskOutcome,
    worker_node: &NodeId,
    has_actor: bool,
) -> (r: ResultRoute)
    ensures
        routed(task, outcome, *worker_node, has_actor, r),
{
    if task.workflow_id.0.as_str().unicode_len() == 0 || !has_actor {
        return ResultRoute::Publish(publish_remote_completion(&task, &outcome, worker_node));
    }
    let outcome = match outcome {
        WireTaskOutcome::Completed(result) => TaskResultOutcome::Completed(result),
        WireTaskOutcome::Failed(error) => TaskResultOutcome::Failed(error),
        WireTaskOutcome::Cancelled => TaskResultOutcome::Cancelled,
        WireTaskOutcome::Skipped => {
            return ResultRoute::Reject;
        },
    };
    ResultRoute::Ask(
        WorkflowCommand::OnTaskResult {
            workflow_id: task.workflow_id,
            task_id: task.task_id,
            outcome,
            attempt: None,
            source: ResultSource::Remote,
        },
    )
}

/// Whether the node that brought a result is told that it was taken, given the actor's
/// answer.
pub fn result_accepted(reply: &Result<WorkflowReply, ActantError>) -> (accepted: bool)
    ensures
        accepted == (reply is Ok),
{
    reply.is_ok()
}

/// What a node has to hand messages to.
#[derive(Debug, Clone, Copy, PartialEq, Eq, Structural)]
pub struct Handlers {
    /// The actor that keeps workflows the same on all nodes.
    pub gossip: bool,
    /// The manager that takes over the workflows of failed nodes.
    pub failover: bool,
    /// The actor that tells which node can do what.
    pub capabilities: bool,
}

/// What to do with a message.
#[derive(Debug)]
pub enum Dispatch {
    /// Nothing: the message is not what its topic is about, or nobody is there to take it.
    Drop,
    /// Queue a task.
    Enqueue(TaskDefinition),
    ApplyUpdate(WireDagStateUpdate),
    TakeHeartbeat(NodeHeartbeat),
    TakeClaim(OrchestratorClaim),
    ReviewHeads(HeadsExchange),
    AnswerStateRequest(WorkflowStateRequest),
    TakeStateResponse(WorkflowStateResponse),
    /// Publish that a task was cancelled; where it was not known before, one more cancellation
    /// waits for its task.
    Cancelled { completion: TaskCompletion, is_new: bool },
    /// Hand the bytes on as they came.
    TakeCapabilities,
}

/// How the cancellation of a task is published: nothing is known of the task but its
/// identifier.
pub open spec fn cancelled_remotely(c: CancelBroadcast) -> CompletionView {
    CompletionView {
        task: TaskRefView {
            workflow_id: c.workflow_id@,
            task_id: c.task_id@,
            task_name: c.task_id@,
            target_node: None,
        },
        outcome: OutcomeView::Cancelled,
    }
}

/// What is done with a message that came under a topic.
pub open spec fn dispatched(
    route: TopicRoute,
    message: Option<WireMessage>,
    cancel: Option<CancelBroadcast>,
    handlers: Handlers,
    cancelled: Map<Seq<char>, u64>,
    d: Dispatch,
) -> bool {
    match (route, message) {
        (TopicRoute::Task, Some(WireMessage::TaskDispatch(t))) => d == Dispatch::Enqueue(t),
        (TopicRoute::DagState, Some(WireMessage::DagStateUpdate(u))) => if handlers.gossip {
            d == Dispatch::ApplyUpdate(u)
        } else {
            d is Drop
        },
        (TopicRoute::Heartbeat, Some(WireMessage::NodeHeartbeat(h))) => if handlers.failover {
            d == Dispatch::TakeHeartbeat(h)
        } else {
            d is Drop
        },
        (TopicRoute::Failover, Some(WireMessage::OrchestratorClaim(c))) => if handlers.failover {
            d == Dispatch::TakeClaim(c)
        } else {
            d is Drop
        },
        (TopicRoute::Heads, Some(WireMessage::HeadsExchange(x))) => if handlers.gossip {
            d == Dispatch::ReviewHeads(x)
        } else {
            d is Drop
        },
        (TopicRoute::WorkflowStateReq, Some(WireMessage::WorkflowStateRequest(r))) =>
            if handlers.gossip {
            d == Dispatch::AnswerStateRequest(r)
        } else {
            d is Drop
        },
        (TopicRoute::WorkflowStateResp, Some(WireMessage::WorkflowStateResponse(r))) =>
            if handlers.gossip {
            d == Dispatch::TakeStateResponse(r)
        } else {
            d is Drop
        },
        (TopicRoute::Cancel, _) => match cancel {
            Some(c) => {
                &&& d matches Dispatch::Cancelled { completion, is_new }
                &&& completion@ == cancelled_remotely(c)
                &&& is_new == !cancelled.contains_key(c.task_id@)
            },
            None => d is Drop,
        },
        (TopicRoute::CapabilityGossip, _) => if handlers.capabilities {
            d is TakeCapabilities
        } else {
            d is Drop
        },
        _ => d is Drop,
    }
}

/// Decides what to do with a message that came under a topic at time `now`. The message is
/// given as far as it could be read, and so is the cancellation that the same bytes may be. A
/// worker takes in a cancellation at once.
pub fn dispatch_topic(
    worker: &mut Worker,
    route: TopicRoute,
    message: Option<WireMessage>,
    cancel: Option<CancelBroadcast>,
    handlers: Handlers,
    now: u64,
) -> (d: Dispatch)
    ensures
        dispatched(route, message, cancel, handlers, old(worker).cancelled_tasks@, d),
        match (route, cancel) {
            (TopicRoute::Cancel, Some(c)) => {
                let id = c.task_id@;
                &&& final(worker).cancelled_tasks@ == old(worker).cancelled_tasks@.insert(id, now)
                &&& final(worker).cancel_flags@ == (if old(worker).cancel_flags@.contains_key(id) {
                    old(worker).cancel_flags@.insert(id, true)
                } else {
                    old(worker).cancel_flags@
                })
                &&& final(worker).node_id == old(worker).node_id
                &&& final(worker).max_concurrent_tasks == old(worker).max_concurrent_tasks
                &&& final(worker).available_permits == old(worker).available_permits
                &&& final(worker).task_timeout_ms == old(worker).task_timeout_ms
                &&& final(worker).state == old(worker).state
            },
            _ => *final(worker) == *old(worker),
        },
{
    match route {
        TopicRoute::Task => {
            if let Some(WireMessage::TaskDispatch(t)) = message {
                return Dispatch::Enqueue(t);
            }
            Dispatch::Drop
        },
        TopicRoute::DagState => {
            if let Some(WireMessage::DagStateUpdate(u)) = message {
                if handlers.gossip {
                    return Dispatch::ApplyUpdate(u);
                }
            }
            Dispatch::Drop
        },
        TopicRoute::Heartbeat => {
            if let Some(WireMessage::NodeHeartbeat(h)) = message {
                if handlers.failover {
                    return Dispatch::TakeHeartbeat(h);
                }
            }
            Dispatch::Drop
        },
        TopicRoute::Failover => {
            if let Some(WireMessage::OrchestratorClaim(c)) = message {
                if handlers.failover {
                    return Dispatch::TakeClaim(c);
                }
            }
            Dispatch::Drop
        },
        TopicRoute::Heads => {
            if let Some(WireMessage::HeadsExchange(x)) = message {
                if handlers.gossip {
                    return Dispatch::ReviewHeads(x);
                }
            }
            Dispatch::Drop
        },
        TopicRoute::WorkflowStateReq => {
            if let Some(WireMessage::WorkflowStateRequest(r)) = message {
                if handlers.gossip {
                    return Dispatch::AnswerStateRequest(r);
                }
            }
            Dispatch::Drop
        },
        TopicRoute::WorkflowStateResp => {
            if let Some(WireMessage::WorkflowStateResponse(r)) = message {
                if handlers.gossip {
                    return Dispatch::TakeStateResponse(r);
                }
            }
            Dispatch::Drop
        },
        TopicRoute::Cancel => match cancel {
            Some(c) => {
                let is_new = worker.note_remote_cancel(&c.task_id.0, now);
                let task_name = c.task_id.0.clone();
                let completion = TaskCompletion {
                    task: TaskRef {
                        workflow_id: c.workflow_id,
                        task_id: c.task_id,
                        task_name,
                        target_node: None,
                    },
                    outcome: WireTaskOutcome::Cancelled,
                };
                assert(completion@ =~= cancelled_remotely(c));
                Dispatch::Cancelled { completion, is_new }
            },
            None => Dispatch::Drop,
        },
        TopicRoute::CapabilityGossip => if handlers.capabilities {
            Dispatch::TakeCapabilities
        } else {
            Dispatch::Drop
        },
        TopicRoute::Actor | TopicRoute::ActorReply | TopicRoute::Unknown => Dispatch::Drop,
    }
}

/// What to do with a request of another node.
#[derive(Debug)]
pub enum DirectStep {
    /// Answer whether a task was queued.
    DispatchAck { accepted: bool },
    /// Do this with a result, and answer accordingly.
    Result(ResultRoute),
    /// Answer that the request cannot be served.
    Error(String),
}

/// What is answered to a request that cannot be served.
pub open spec fn no_handler(shown: Seq<char>) -> Seq<char> {
    "no handler for DirectRequest variant on this node: "@ + shown
}

/// Decides what to do with a request of another node at time `now`: a task is queued, a
/// result routed, and everything else answered with an error.
pub fn handle_direct_request(
    queue: &mut InnerScheduler,
    request: DirectRequest,
    has_actor: bool,
    now: u64,
) -> (s: DirectStep)
    requires
        old(queue).sound(),
    ensures
        final(queue).sound(),
        final(queue).closed == old(queue).closed,
        final(queue).ranked == old(queue).ranked,
        match request {
            DirectRequest::DispatchTask { task } => {
                &&& s == DirectStep::DispatchAck { accepted: !old(queue).closed }
                &&& final(queue).queued() == (if old(queue).closed {
                    old(queue).queued()
                } else {
                    scheduler::joined(
                        old(queue).queued(),
                        old(queue).ranked,
                        scheduler::stamped(task@, now),
                    )
                })
            },
            DirectRequest::TaskResult { task, outcome, worker_node } => {
                &&& s matches DirectStep::Result(r)
                &&& routed(task, outcome, worker_node, has_actor, r)
                &&& final(queue).queued() == old(queue).queued()
            },
            DirectRequest::Other(shown) => {
                &&& s matches DirectStep::Error(m)
                &&& m@ == no_handler(shown@)
                &&& final(queue).queued() == old(queue).queued()
            },
        },
{
    match request {
        DirectRequest::DispatchTask { task } => DirectStep::DispatchAck {
            accepted: queue.enqueue_at(task, now).is_ok(),
        },
        DirectRequest::TaskResult { task, outcome, worker_node } => DirectStep::Result(
            handle_task_result(task, outcome, &worker_node, has_actor),
        ),
        DirectRequest::Other(shown) => {
            let mut m = "no handler for DirectRequest variant on this node: ".to_owned();
            m.append(shown.as_str());
            DirectStep::Error(m)
        },
    }
}

} // verus!
