//! What a node that only runs tasks does with what comes from the network: tasks are queued,
//! actors are called, and everything else is published.
use vstd::prelude::*;

use crate::runtime::workflow::runtime::result_delivery::DirectRequest;
use crate::runtime::workflow::scheduler;
use crate::runtime::workflow::scheduler::{InnerScheduler, Scheduler};
use crate::runtime::workflow::task::TaskDefinition;
use crate::runtime::workflow::wire::{TopicRoute, WireMessage};

verus! {

/// What to do with a message.
#[derive(Debug)]
pub enum Forwarding {
    /// Nothing: the message is not what its topic is about, or nobody here takes it.
    Drop,
    /// Queue a task.
    Enqueue(TaskDefinition),
    /// Read the bytes as a request to an actor, and serve it.
    CallActor,
    /// Hand an actor's answer to whoever waits for it.
    DeliverReply(Vec<u8>),
    /// Publish the message on this node.
    Publish(WireMessage),
}

/// What is done with a message that came under a topic.
pub open spec fn forwarding(
    route: TopicRoute,
    message: Option<WireMessage>,
    has_actors: bool,
) -> Forwarding {
    match (route, message) {
        (TopicRoute::Task, Some(WireMessage::TaskDispatch(t))) => Forwarding::Enqueue(t),
        (TopicRoute::Actor, _) => if has_actors {
            Forwarding::CallActor
        } else {
            Forwarding::Drop
        },
        (TopicRoute::ActorReply, Some(WireMessage::RemoteActorReply(reply))) => if has_actors {
            Forwarding::DeliverReply(reply)
        } else {
            Forwarding::Drop
        },
        (TopicRoute::DagState, Some(WireMessage::DagStateUpdate(u))) => Forwarding::Publish(
            WireMessage::DagStateUpdate(u),
        ),
        (TopicRoute::Heartbeat, Some(WireMessage::NodeHeartbeat(h))) => Forwarding::Publish(
            WireMessage::NodeHeartbeat(h),
        ),
        (TopicRoute::Failover, Some(WireMessage::OrchestratorClaim(c))) => Forwarding::Publish(
            WireMessage::OrchestratorClaim(c),
        ),
        (TopicRoute::Heads, Some(WireMessage::HeadsExchange(x))) => Forwarding::Publish(
            WireMessage::HeadsExchange(x),
        ),
        _ => Forwarding::Drop,
    }
}

/// Decides what to do with a message that came under a topic, given as far as it could be
/// read.
pub fn handle_message(route: TopicRoute, message: Option<WireMessage>, has_actors: bool) -> (f:
    Forwarding)
    ensures
        f == forwarding(route, message, has_actors),
{
    match (route, message) {
        (TopicRoute::Task, Some(WireMessage::TaskDispatch(t))) => Forwarding::Enqueue(t),
        (TopicRoute::Actor, _) => if has_actors {
            Forwarding::CallActor
        } else {
            Forwarding::Drop
        },
        (TopicRoute::ActorReply, Some(WireMessage::RemoteActorReply(reply))) => if has_actors {
            Forwarding::DeliverReply(reply)
        } else {
            Forwarding::Drop
        },
        (TopicRoute::DagState, Some(WireMessage::DagStateUpdate(u))) => Forwarding::Publish(
            WireMessage::DagStateUpdate(u),
        ),
        (TopicRoute::Heartbeat, Some(WireMessage::NodeHeartbeat(h))) => Forwarding::Publish(
            WireMessage::NodeHeartbeat(h),
        ),
        (TopicRoute::Failover, Some(WireMessage::OrchestratorClaim(c))) => Forwarding::Publish(
            WireMessage::OrchestratorClaim(c),
        ),
        (TopicRoute::Heads, Some(WireMessage::HeadsExchange(x))) => Forwarding::Publish(
            WireMessage::HeadsExchange(x),
        ),
        _ => Forwarding::Drop,
    }
}

/// What to do with a request of another node.
#[derive(Debug)]
pub enum RequestStep {
    /// Answer whether a task was queued.
    DispatchAck { accepted: bool },
    /// Publish the request on this node; whoever takes it answers.
    Publish(DirectRequest),
}

/// Decides what to do with a request of another node at time `now`: a task is queued, anything
/// else published.
pub fn handle_direct_request(queue: &mut InnerScheduler, request: DirectRequest, now: u64) -> (s:
    RequestStep)
    requires
        old(queue).sound(),
    ensures
        final(queue).sound(),
        final(queue).closed == old(queue).closed,
        final(queue).ranked == old(queue).ranked,
        match request {
            DirectRequest::DispatchTask { task } => {
                &&& s == RequestStep::DispatchAck { accepted: !old(queue).closed }
                &&& final(queue).queued() == (if old(queue).closed {
                    old(queue).queued()
                } else {
                    scheduler::joined(
                        old(queue).queued(),
                        old(queue).ranked,
                        scheduler::stamped(task@, now),
                    )
                })
            },
            other => s == RequestStep::Publish(other) && *final(queue) == *old(queue),
        },
{
    match request {
        DirectRequest::DispatchTask { task } => RequestStep::DispatchAck {
            accepted: queue.enqueue_at(task, now).is_ok(),
        },
        other => RequestStep::Publish(other),
    }
}

} // verus!
