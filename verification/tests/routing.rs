//! The loop that runs tasks, and what comes from the network.
use actant::common::{NodeId, TaskId, WorkflowId};
use actant::runtime::workflow::runtime::network_router::{
    dispatch_topic, handle_direct_request, Dispatch, DirectStep, Handlers, ResultRoute,
};
use actant::runtime::workflow::runtime::result_delivery::{
    DirectRequest, PendingQueue, PendingResult,
};
use actant::runtime::workflow::runtime::{
    settle_delivery, DirectReply, LoopAction, LoopEvent, TaskStep, Worker, WorkerState,
};
use actant::runtime::workflow::scheduler::{InnerScheduler, Scheduler};
use actant::runtime::workflow::task::{TaskDefinition, TaskPayload};
use actant::runtime::workflow::wire::{
    CancelBroadcast, NodeHeartbeat, TaskRef, TopicRoute, WireMessage, WireTaskOutcome,
    WorkflowStateRequest,
};
use actant::worker::router::{self, Forwarding, RequestStep};
use actant::worker::runtime::{self as plain, RetryStep, WorkerRuntime};

fn node(name: &str) -> NodeId {
    NodeId(name.to_string())
}

fn task(id: &str) -> TaskDefinition {
    TaskDefinition {
        id: TaskId(id.to_string()),
        name: "n".to_string(),
        payload: TaskPayload::Submitted(vec![]),
        workflow_id: Some(WorkflowId("wf".to_string())),
        target_node: None,
        origin_node: None,
        retry_policy: None,
        priority: 0,
        timeout_ms: None,
        attempt: 0,
        enqueued_at_ms: 0,
        target_endpoint_addr: None,
        origin_endpoint_addr: None,
    }
}

fn result_request() -> DirectRequest {
    DirectRequest::TaskResult {
        task: TaskRef {
            workflow_id: WorkflowId("wf".to_string()),
            task_id: TaskId("t".to_string()),
            task_name: "n".to_string(),
            target_node: None,
        },
        outcome: WireTaskOutcome::Completed(vec![1]),
        worker_node: node("w"),
    }
}

#[test]
fn loop_drains_and_ends() {
    let mut w = Worker::new(node("me"), 2, 10);
    let mut q = InnerScheduler::fifo();
    q.enqueue_at(task("a"), 1).unwrap();
    assert!(!w.begin_turn(&mut q));
    assert_eq!(q.len(), 1);
    assert!(matches!(w.run_task_execution_loop(LoopEvent::Cancelled), LoopAction::Await));
    assert_eq!(w.state(), WorkerState::Draining);
    assert!(matches!(w.run_task_execution_loop(LoopEvent::Waited), LoopAction::End));
    assert_eq!(w.state(), WorkerState::Stopped);

    let mut w = Worker::new(node("me"), 2, 10);
    w.shutdown();
    assert!(w.begin_turn(&mut q));
    assert_eq!(w.state(), WorkerState::Stopped);
    assert!(q.is_closed() && q.is_empty());
}

#[test]
fn task_that_cannot_be_forwarded_is_queued_again() {
    let mut w = Worker::new(node("me"), 2, 10);
    let nothing = LoopEvent::Taken { task: None, choice: None };
    assert!(matches!(w.run_task_execution_loop(nothing), LoopAction::Next));
    let taken = LoopEvent::Taken {
        task: Some(task("a")),
        choice: Some((node("far"), "addr".to_string())),
    };
    let (forwarded, address) = match w.run_task_execution_loop(taken) {
        LoopAction::Place(TaskStep::Forward { task, address }) => (task, address),
        other => panic!("unexpected {:?}", other),
    };
    assert_eq!(address, "addr");
    let refused = LoopEvent::Answered {
        task: forwarded,
        address,
        reply: DirectReply::DispatchAck { accepted: false },
    };
    match w.run_task_execution_loop(refused) {
        LoopAction::Place(TaskStep::Requeue(t)) => assert!(t.target_node.is_none()),
        other => panic!("unexpected {:?}", other),
    }
    let taken = LoopEvent::Answered {
        task: task("a"),
        address: "addr".to_string(),
        reply: DirectReply::DispatchAck { accepted: true },
    };
    assert!(matches!(w.run_task_execution_loop(taken), LoopAction::Next));
}

#[test]
fn cancellation_counts_once() {
    let mut w = Worker::new(node("me"), 2, 10);
    let cancel = || {
        Some(CancelBroadcast {
            workflow_id: WorkflowId("wf".to_string()),
            task_id: TaskId("a".to_string()),
        })
    };
    let handlers = Handlers { gossip: false, failover: false, capabilities: false };
    match dispatch_topic(&mut w, TopicRoute::Cancel, None, cancel(), handlers, 5) {
        Dispatch::Cancelled { completion, is_new } => {
            assert!(is_new);
            assert_eq!(completion.task.task_name, "a");
            assert!(matches!(completion.outcome, WireTaskOutcome::Cancelled));
        }
        other => panic!("unexpected {:?}", other),
    }
    assert!(matches!(
        dispatch_topic(&mut w, TopicRoute::Cancel, None, cancel(), handlers, 6),
        Dispatch::Cancelled { is_new: false, .. }
    ));
    let taken = || LoopEvent::Taken { task: Some(task("a")), choice: None };
    assert!(matches!(
        w.run_task_execution_loop(taken()),
        LoopAction::Place(TaskStep::Skip(_))
    ));
    assert!(matches!(
        w.run_task_execution_loop(taken()),
        LoopAction::Place(TaskStep::Run(_))
    ));
}

#[test]
fn messages_go_where_their_topic_says() {
    let mut w = Worker::new(node("me"), 2, 10);
    let all = Handlers { gossip: true, failover: true, capabilities: true };
    let none = Handlers { gossip: false, failover: false, capabilities: false };
    let dispatch = || Some(WireMessage::TaskDispatch(task("a")));
    assert!(matches!(
        dispatch_topic(&mut w, TopicRoute::Task, dispatch(), None, none, 0),
        Dispatch::Enqueue(t) if t.id.0 == "a"
    ));
    assert!(matches!(
        dispatch_topic(&mut w, TopicRoute::Heads, dispatch(), None, all, 0),
        Dispatch::Drop
    ));
    let heartbeat = || {
        Some(WireMessage::NodeHeartbeat(NodeHeartbeat {
            node_id: node("far"),
            timestamp_ms: 1,
            active_workflows: vec![],
            available_slots: 1,
            max_slots: 2,
            endpoint_addr: None,
        }))
    };
    assert!(matches!(
        dispatch_topic(&mut w, TopicRoute::Heartbeat, heartbeat(), None, all, 0),
        Dispatch::TakeHeartbeat(h) if h.node_id.0 == "far"
    ));
    assert!(matches!(
        dispatch_topic(&mut w, TopicRoute::Heartbeat, heartbeat(), None, none, 0),
        Dispatch::Drop
    ));
    let request = || {
        Some(WireMessage::WorkflowStateRequest(WorkflowStateRequest {
            workflow_id: WorkflowId("wf".to_string()),
            requesting_node: node("far"),
        }))
    };
    assert!(matches!(
        dispatch_topic(&mut w, TopicRoute::WorkflowStateReq, request(), None, all, 0),
        Dispatch::AnswerStateRequest(_)
    ));
    assert!(matches!(
        dispatch_topic(&mut w, TopicRoute::WorkflowStateResp, request(), None, all, 0),
        Dispatch::Drop
    ));
    assert!(matches!(
        dispatch_topic(&mut w, TopicRoute::CapabilityGossip, None, None, all, 0),
        Dispatch::TakeCapabilities
    ));
    assert!(matches!(
        dispatch_topic(&mut w, TopicRoute::CapabilityGossip, None, None, none, 0),
        Dispatch::Drop
    ));
}

#[test]
fn direct_requests_are_answered() {
    let mut q = InnerScheduler::fifo();
    let dispatch = || DirectRequest::DispatchTask { task: task("a") };
    assert!(matches!(
        handle_direct_request(&mut q, dispatch(), true, 3),
        DirectStep::DispatchAck { accepted: true }
    ));
    assert_eq!(q.len(), 1);
    q.close();
    assert!(matches!(
        handle_direct_request(&mut q, dispatch(), true, 3),
        DirectStep::DispatchAck { accepted: false }
    ));
    assert!(matches!(
        handle_direct_request(&mut q, result_request(), true, 3),
        DirectStep::Result(ResultRoute::Ask(_))
    ));
    assert!(matches!(
        handle_direct_request(&mut q, result_request(), false, 3),
        DirectStep::Result(ResultRoute::Publish(_))
    ));
    match handle_direct_request(&mut q, DirectRequest::Other("Ping".into()), true, 3) {
        DirectStep::Error(m) => {
            assert_eq!(m, "no handler for DirectRequest variant on this node: Ping")
        }
        other => panic!("unexpected {:?}", other),
    }
}

#[test]
fn no_result_is_lost() {
    let mut q = PendingQueue::new(1);
    let taken = DirectReply::TaskResultAck { accepted: true };
    let refused = DirectReply::TaskResultAck { accepted: false };
    let failed = DirectReply::Failed("down".to_string());
    assert!(settle_delivery(&mut q, &taken, "o".into(), result_request(), &task("t")).is_none());
    assert_eq!(q.entries.len(), 0);
    assert!(settle_delivery(&mut q, &refused, "o".into(), result_request(), &task("t")).is_none());
    assert_eq!(q.entries.len(), 1);
    let lost = settle_delivery(&mut q, &failed, "o".into(), result_request(), &task("t")).unwrap();
    assert!(matches!(
        lost.outcome,
        WireTaskOutcome::Failed(m) if m == "delivery to o failed: down and retry queue full"
    ));

    let pending = q.take().unwrap();
    assert!(q.settle_retry(pending, &failed).is_none());
    assert_eq!(q.entries[0].attempts, 1);
    let second = PendingResult { target: "o".into(), request: result_request(), attempts: 4 };
    let lost = q.settle_retry(second, &DirectReply::Other).unwrap();
    assert!(matches!(
        lost.outcome,
        WireTaskOutcome::Failed(m) if m.ends_with("after 5 retry attempts")
    ));
    let pending = q.take().unwrap();
    assert!(q.settle_retry(pending, &taken).is_none());
    assert!(q.entries.is_empty());
}

#[test]
fn plain_worker_runs_the_same_loop() {
    let mut w = WorkerRuntime::new(node("me"), 1, 10).with_task_timeout(20);
    assert_eq!(w.effective_timeout_ms(&task("a")), 20);
    w.begin_task();
    assert_eq!(w.running_task_count(), 1);
    w.finish_task();
    assert_eq!(w.running_task_count(), 0);
    let mut q = InnerScheduler::fifo();
    q.enqueue_at(task("a"), 1).unwrap();
    assert!(!w.begin_turn(&mut q));
    // It chooses no node by itself.
    let taken = LoopEvent::Taken {
        task: Some(task("a")),
        choice: Some((node("far"), "addr".to_string())),
    };
    assert!(matches!(w.run(taken), LoopAction::Place(TaskStep::Run(_))));
    let failed = LoopEvent::Answered {
        task: task("a"),
        address: "far".to_string(),
        reply: DirectReply::Other,
    };
    assert!(matches!(w.run(failed), LoopAction::Place(TaskStep::Requeue(_))));
    w.drain(&mut q);
    assert_eq!(q.len(), 1);
    assert!(w.begin_turn(&mut q));
    assert!(q.is_empty());
    assert_eq!(w.state(), WorkerState::Stopped);
    assert!(matches!(w.run(LoopEvent::Cancelled), LoopAction::Await));
    assert!(matches!(w.run(LoopEvent::Waited), LoopAction::End));
    assert_eq!(w.node_id().0, "me");
}

#[test]
fn plain_worker_drops_results_without_room() {
    let mut q = PendingQueue::new(1);
    let refused = DirectReply::TaskResultAck { accepted: false };
    plain::settle_delivery(&mut q, &DirectReply::TaskResultAck { accepted: true }, "o".into(), result_request());
    assert!(q.entries.is_empty());
    plain::settle_delivery(&mut q, &refused, "o".into(), result_request());
    plain::settle_delivery(&mut q, &refused, "p".into(), result_request());
    assert_eq!(q.entries.len(), 1);
    let pending = q.take().unwrap();
    assert_eq!(plain::retry_step(&pending, 0, 100), RetryStep::GiveUp);
    assert_eq!(plain::retry_step(&pending, 1, 100), RetryStep::RetryAfter(100));
    plain::settle_retry(&mut q, pending, &DirectReply::Failed("x".into()));
    assert_eq!(q.entries[0].attempts, 1);
    assert_eq!(plain::retry_step(&q.entries[0], 3, 100), RetryStep::RetryAfter(200));
}

#[test]
fn plain_router_publishes() {
    assert!(matches!(
        router::handle_message(TopicRoute::Task, Some(WireMessage::TaskDispatch(task("a"))), false),
        Forwarding::Enqueue(_)
    ));
    assert!(matches!(
        router::handle_message(TopicRoute::Actor, None, true),
        Forwarding::CallActor
    ));
    assert!(matches!(
        router::handle_message(TopicRoute::Actor, None, false),
        Forwarding::Drop
    ));
    assert!(matches!(
        router::handle_message(
            TopicRoute::ActorReply,
            Some(WireMessage::RemoteActorReply(vec![1])),
            true
        ),
        Forwarding::DeliverReply(b) if b == vec![1]
    ));
    assert!(matches!(
        router::handle_message(TopicRoute::Heads, None, true),
        Forwarding::Drop
    ));
    let mut q = InnerScheduler::fifo();
    assert!(matches!(
        router::handle_direct_request(&mut q, DirectRequest::DispatchTask { task: task("a") }, 1),
        RequestStep::DispatchAck { accepted: true }
    ));
    assert!(matches!(
        router::handle_direct_request(&mut q, result_request(), 1),
        RequestStep::Publish(DirectRequest::TaskResult { .. })
    ));
}
