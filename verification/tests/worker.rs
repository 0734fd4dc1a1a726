//! What a worker does with tasks and how they end.
use actant::common::{ActantError, NodeId, TaskId, WorkflowId};
use actant::keymap::KeyMap;
use actant::runtime::workflow::actor::workflow_actor::{
    ResultSource, TaskResultOutcome, WorkflowCommand, WorkflowReply,
};
use actant::runtime::workflow::failover::PeerInfo;
use actant::runtime::workflow::messaging::{
    ok_or_error, ok_result, payload_or_error, payload_result, ActorMessageResult, MessageId,
};
use actant::runtime::workflow::runtime::cancel::{
    cleanup_expired_cancelled_tasks, CANCELLED_TASKS_TTL_MS,
};
use actant::runtime::workflow::runtime::network_router::{
    handle_task_result, result_accepted, CompletionEvent, ResultRoute,
};
use actant::runtime::workflow::runtime::result_delivery::{
    backoff_ms, extract_task_result, DirectRequest, PendingQueue, PendingResult, PendingStep,
};
use actant::runtime::workflow::runtime::{
    build_completion_from_dispatch_result, forward_remote_task, publish_task_completion,
    schedule_task, select_remote_target, unbound, undelivered_completion, Delivery, DirectReply,
    DispatchOutcome, TaskStep, Worker, WorkerState,
};
use actant::runtime::workflow::scheduler::{InnerScheduler, Scheduler};
use actant::runtime::workflow::task::{TaskDefinition, TaskPayload};
use actant::runtime::workflow::wire::{TaskCompletion, TaskRef, WireTaskOutcome};
use actant::worker::runtime as plain;
use actant::worker::runtime::WorkerRuntime;

fn node(name: &str) -> NodeId {
    NodeId(name.to_string())
}

fn task(id: &str) -> TaskDefinition {
    TaskDefinition {
        id: TaskId(id.to_string()),
        name: format!("name-{id}"),
        payload: TaskPayload::Submitted(vec![]),
        workflow_id: Some(WorkflowId("wf".to_string())),
        target_node: None,
        origin_node: None,
        retry_policy: None,
        priority: 0,
        timeout_ms: None,
        attempt: 0,
        enqueued_at_ms: 0,
        target_endpoint_addr: None,
        origin_endpoint_addr: None,
    }
}

fn peer(name: &str, available: u32, max: u32, heard: u64) -> (NodeId, PeerInfo) {
    (
        node(name),
        PeerInfo {
            last_heartbeat_ms: heard,
            active_workflows: vec![],
            available_slots: available,
            max_slots: max,
            endpoint_addr: if name == "named" { None } else { Some(format!("addr-{name}")) },
        },
    )
}

fn task_ref(wf: &str) -> TaskRef {
    TaskRef {
        workflow_id: WorkflowId(wf.to_string()),
        task_id: TaskId("t".to_string()),
        task_name: "n".to_string(),
        target_node: None,
    }
}

fn error_of(c: &TaskCompletion) -> String {
    match &c.outcome {
        WireTaskOutcome::Failed(e) => e.clone(),
        other => panic!("not a failure: {:?}", other),
    }
}

#[test]
fn states_have_stable_names() {
    assert_eq!(WorkerState::Running.as_str(), "healthy");
    assert_eq!(WorkerState::Draining.as_str(), "draining");
    assert_eq!(WorkerState::Stopped.as_str(), "stopped");
    assert_eq!(plain::WorkerState::Running.as_str(), "healthy");
}

#[test]
fn task_goes_to_the_node_with_most_free_slots() {
    let peers = vec![peer("a", 2, 4, 900), peer("b", 3, 4, 900), peer("c", 3, 8, 900)];
    let (n, addr) = select_remote_target(&peers, 1, 1_000, 500).unwrap();
    assert_eq!(n.0, "c");
    assert_eq!(addr, "addr-c");
}

#[test]
fn ties_go_to_the_lesser_name() {
    let peers = vec![peer("z", 3, 4, 900), peer("named", 3, 4, 900)];
    let (n, addr) = select_remote_target(&peers, 1, 1_000, 500).unwrap();
    assert_eq!(n.0, "named");
    assert_eq!(addr, "named");
}

#[test]
fn task_stays_where_no_node_is_better() {
    let peers = vec![peer("a", 2, 4, 900)];
    assert!(select_remote_target(&peers, 2, 1_000, 500).is_none());
    assert!(select_remote_target(&vec![], 0, 1_000, 500).is_none());
    // Silent, never heard of, full, or without slots.
    let peers = vec![
        peer("a", 9, 9, 499),
        peer("b", 9, 9, 0),
        peer("c", 0, 9, 900),
        peer("d", 9, 0, 900),
    ];
    assert!(select_remote_target(&peers, 0, 1_000, 500).is_none());
    assert!(select_remote_target(&vec![peer("a", 9, 9, 500)], 0, 1_000, 500).is_some());
}

#[test]
fn unbound_task_runs_here_or_is_forwarded() {
    let mut w = Worker::new(node("me"), 2, 1_000);
    assert!(matches!(w.place(task("t"), None), TaskStep::Run(_)));
    match w.place(task("t"), Some((node("other"), "addr".to_string()))) {
        TaskStep::Forward { task, address } => {
            assert_eq!(task.target_node.unwrap().0, "other");
            assert_eq!(address, "addr");
        }
        other => panic!("unexpected {:?}", other),
    }
    let mut bound = task("t");
    bound.target_node = Some(node("far"));
    match w.place(bound, Some((node("other"), "addr".to_string()))) {
        TaskStep::Forward { task, address } => {
            assert_eq!(task.target_node.unwrap().0, "far");
            assert_eq!(address, "far");
        }
        other => panic!("unexpected {:?}", other),
    }
    let mut mine = task("t");
    mine.target_node = Some(node("me"));
    assert!(matches!(w.place(mine, None), TaskStep::Run(_)));
}

#[test]
fn node_without_slots_queues_again() {
    let mut w = Worker::new(node("me"), 0, 1_000);
    assert!(matches!(w.place(task("t"), None), TaskStep::Requeue(_)));
    assert!(matches!(
        WorkerRuntime::new(node("me"), 0, 1).place(task("t")),
        TaskStep::Requeue(_)
    ));
    assert!(matches!(
        WorkerRuntime::new(node("me"), 1, 1).place(task("t")),
        TaskStep::Run(_)
    ));
}

#[test]
fn cancelled_task_is_skipped_once() {
    let mut w = Worker::new(node("me"), 2, 1_000);
    assert!(w.note_remote_cancel(&"t".to_string(), 5));
    assert!(!w.note_remote_cancel(&"t".to_string(), 6));
    match w.place(task("t"), None) {
        TaskStep::Skip(c) => {
            assert_eq!(c.task.task_id.0, "t");
            assert_eq!(c.task.workflow_id.0, "wf");
            assert!(matches!(c.outcome, WireTaskOutcome::Cancelled));
        }
        other => panic!("unexpected {:?}", other),
    }
    assert!(matches!(w.place(task("t"), None), TaskStep::Run(_)));
}

#[test]
fn running_task_can_be_told_to_stop() {
    let mut w = Worker::new(node("me"), 2, 1_000);
    let id = TaskId("t".to_string());
    assert!(!w.cancel_task(&id.0));
    w.begin_task(&id);
    assert_eq!(w.running_task_count(), 1);
    assert_eq!(w.capacity(), (1, 2));
    assert_eq!(w.cancel_flags.get(&id.0), Some(&false));
    assert!(w.cancel_task(&id.0));
    assert_eq!(w.cancel_flags.get(&id.0), Some(&true));
    w.finish_task(&id);
    assert_eq!(w.running_task_count(), 0);
    assert!(!w.cancel_task(&id.0));
}

#[test]
fn slots_only_grow() {
    let mut w = Worker::new(node("me"), 2, 1_000);
    assert_eq!(w.set_max_concurrent_tasks(1), 0);
    assert_eq!(w.max_concurrent_tasks(), 2);
    assert_eq!(w.set_max_concurrent_tasks(5), 3);
    assert_eq!(w.max_concurrent_tasks(), 5);
    assert_eq!(w.capacity(), (5, 5));
    assert_eq!(w.with_max_concurrent_tasks(1).capacity(), (1, 1));
}

#[test]
fn task_may_ask_for_its_own_limit() {
    let w = Worker::new(node("me"), 2, 1_000).with_task_timeout(30);
    let mut t = task("t");
    assert_eq!(w.effective_timeout_ms(&t), 30);
    t.timeout_ms = Some(7);
    assert_eq!(w.effective_timeout_ms(&t), 7);
}

#[test]
fn outcomes_become_completions() {
    let t = task("t");
    let c = build_completion_from_dispatch_result(DispatchOutcome::Completed(vec![1]), &t, 50);
    assert!(matches!(&c.outcome, WireTaskOutcome::Completed(b) if b == &vec![1]));
    assert_eq!(c.task.task_name, "name-t");
    assert_eq!(c.event(), CompletionEvent::TaskCompleted);
    let c = build_completion_from_dispatch_result(DispatchOutcome::Failed("bad".into()), &t, 50);
    assert_eq!(error_of(&c), "bad");
    assert_eq!(c.event(), CompletionEvent::TaskFailed);
    let c = build_completion_from_dispatch_result(
        DispatchOutcome::Panicked(Some("oops".into())),
        &t,
        50,
    );
    assert_eq!(error_of(&c), "dispatcher panicked: oops");
    let c = build_completion_from_dispatch_result(DispatchOutcome::Panicked(None), &t, 50);
    assert_eq!(error_of(&c), "dispatcher panicked: <non-string panic>");
    let c = build_completion_from_dispatch_result(DispatchOutcome::TimedOut, &t, 1500);
    assert_eq!(error_of(&c), "task timed out after 1500ms");
}

#[test]
fn completion_without_workflow_has_an_empty_one() {
    let mut t = task("t");
    t.workflow_id = None;
    let c = build_completion_from_dispatch_result(DispatchOutcome::TimedOut, &t, 1);
    assert_eq!(c.task.workflow_id.0, "");
}

#[test]
fn forward_replies() {
    assert!(forward_remote_task(&DirectReply::DispatchAck { accepted: true }, "a").is_ok());
    assert_eq!(
        forward_remote_task(&DirectReply::DispatchAck { accepted: false }, "a").unwrap_err(),
        ActantError::Network("worker a rejected task dispatch".into())
    );
    assert_eq!(
        forward_remote_task(&DirectReply::Other, "a").unwrap_err(),
        ActantError::Network("unexpected response from worker a".into())
    );
    assert_eq!(
        forward_remote_task(&DirectReply::Failed("gone".into()), "a").unwrap_err(),
        ActantError::Network("forward to node a failed: gone".into())
    );
    let mut t = task("t");
    t.target_node = Some(node("a"));
    assert!(unbound(t).target_node.is_none());
}

#[test]
fn results_go_back_to_where_the_task_came_from() {
    let mut t = task("t");
    let done = |t: &TaskDefinition| {
        build_completion_from_dispatch_result(DispatchOutcome::Completed(vec![5]), t, 1)
    };
    assert!(matches!(
        publish_task_completion(done(&t), &t, &node("me")),
        Delivery::Publish(_)
    ));
    t.origin_node = Some(node("me"));
    assert!(matches!(
        publish_task_completion(done(&t), &t, &node("me")),
        Delivery::Publish(_)
    ));
    t.origin_node = Some(node("home"));
    match publish_task_completion(done(&t), &t, &node("me")) {
        Delivery::Send { address, request } => {
            assert_eq!(address, "home");
            let (w, id, name, outcome) = extract_task_result(&request).unwrap();
            assert_eq!((w.0.as_str(), id.0.as_str(), name.as_str()), ("wf", "t", "name-t"));
            assert!(matches!(outcome, WireTaskOutcome::Completed(b) if b == vec![5]));
        }
        other => panic!("unexpected {:?}", other),
    }
    t.origin_endpoint_addr = Some("key".into());
    assert!(matches!(
        publish_task_completion(done(&t), &t, &node("me")),
        Delivery::Send { address, .. } if address == "key"
    ));
    assert!(plain::deliver(done(&t), &t, &node("me")).is_some());
    t.workflow_id = None;
    assert!(plain::deliver(done(&t), &t, &node("me")).is_none());
}

#[test]
fn undelivered_results_are_told_as_failures() {
    let t = task("t");
    assert!(undelivered_completion(&DirectReply::TaskResultAck { accepted: true }, "o", &t).is_none());
    let error = |reply: DirectReply| error_of(&undelivered_completion(&reply, "o", &t).unwrap());
    assert_eq!(
        error(DirectReply::TaskResultAck { accepted: false }),
        "result delivery to orchestrator o rejected and retry queue full"
    );
    assert_eq!(
        error(DirectReply::Other),
        "unexpected response from o and retry queue full"
    );
    assert_eq!(
        error(DirectReply::Failed("x".into())),
        "delivery to o failed: x and retry queue full"
    );
}

fn pending(attempts: usize) -> PendingResult {
    PendingResult {
        target: "o".into(),
        request: DirectRequest::TaskResult {
            task: task_ref("wf"),
            outcome: WireTaskOutcome::Completed(vec![1]),
            worker_node: node("me"),
        },
        attempts,
    }
}

#[test]
fn pending_result_is_tried_then_given_up() {
    assert!(matches!(
        pending(0).next_step(3, 100, 1_000),
        PendingStep::RetryAfter(100)
    ));
    assert!(matches!(
        pending(2).next_step(3, 100, 1_000),
        PendingStep::RetryAfter(400)
    ));
    match pending(3).next_step(3, 100, 1_000) {
        PendingStep::GiveUp(Some(c)) => {
            assert_eq!(
                error_of(&c),
                "network: task result could not be delivered to orchestrator o after 3 retry attempts"
            );
            assert_eq!(c.task.workflow_id.0, "wf");
            assert!(c.task.target_node.is_none());
        }
        other => panic!("unexpected {:?}", other),
    }
    assert_eq!(pending(1).failed_again().attempts, 2);
    assert!(error_of(&pending(2).no_room().unwrap()).contains("after 2 retry attempts"));
    let other = PendingResult { target: "o".into(), request: DirectRequest::Other("query".into()), attempts: 9 };
    assert!(matches!(other.next_step(3, 1, 1), PendingStep::GiveUp(None)));
}

#[test]
fn backoff_doubles_up_to_the_cap() {
    assert_eq!(backoff_ms(100, 0, 1_000), 100);
    assert_eq!(backoff_ms(100, 3, 1_000), 800);
    assert_eq!(backoff_ms(100, 4, 1_000), 1_000);
    assert_eq!(backoff_ms(u64::MAX, 9, u64::MAX), u64::MAX);
    assert_eq!(backoff_ms(5_000, 0, 1_000), 1_000);
    assert_eq!(plain::retry_delay_ms(100, 3), 800);
    assert_eq!(plain::retry_delay_ms(2, 40), 2 * u32::MAX as u128);
}

#[test]
fn pending_results_channel_rejects_when_full() {
    let mut queue = PendingQueue::new(1);
    let request = |target: &str| PendingResult {
        target: target.to_string(),
        request: DirectRequest::Other("query".into()),
        attempts: 0,
    };
    assert!(plain::enqueue_pending_result(&mut queue, request("peer-1")));
    assert_eq!(queue.entries.len(), 1, "first enqueue should succeed");

    assert!(!plain::enqueue_pending_result(&mut queue, request("peer-2")));
    assert_eq!(
        queue.entries.len(),
        1,
        "second enqueue must be dropped (channel full), not blocked"
    );

    let first = queue.take().expect("first item present");
    assert_eq!(first.target, "peer-1");
    assert!(plain::enqueue_pending_result(&mut queue, request("peer-3")));
    assert_eq!(queue.entries.len(), 1, "enqueue should succeed after drain");
}

#[test]
fn remote_results_are_routed() {
    let me = node("worker-1");
    match handle_task_result(task_ref(""), WireTaskOutcome::Cancelled, &me, true) {
        ResultRoute::Publish(c) => {
            assert_eq!(c.task.target_node.as_ref().unwrap().0, "worker-1");
            assert_eq!(c.event(), CompletionEvent::TaskCancelled);
        }
        other => panic!("unexpected {:?}", other),
    }
    assert!(matches!(
        handle_task_result(task_ref("wf"), WireTaskOutcome::Skipped, &me, false),
        ResultRoute::Publish(c) if c.event() == CompletionEvent::TaskSkipped
    ));
    assert!(matches!(
        handle_task_result(task_ref("wf"), WireTaskOutcome::Skipped, &me, true),
        ResultRoute::Reject
    ));
    match handle_task_result(task_ref("wf"), WireTaskOutcome::Failed("e".into()), &me, true) {
        ResultRoute::Ask(WorkflowCommand::OnTaskResult { outcome, attempt, source, .. }) => {
            assert!(matches!(outcome, TaskResultOutcome::Failed(e) if e == "e"));
            assert_eq!(attempt, None);
            assert_eq!(source, ResultSource::Remote);
        }
        other => panic!("unexpected {:?}", other),
    }
    assert!(result_accepted(&Ok(WorkflowReply::Done)));
    assert!(!result_accepted(&Err(ActantError::Actor("no".into()))));
}

#[test]
fn old_cancellations_are_dropped() {
    let mut m: KeyMap<u64> = KeyMap::new();
    m.insert("old".into(), 0);
    m.insert("edge".into(), 1);
    m.insert("young".into(), 2);
    let removed =
        cleanup_expired_cancelled_tasks(&mut m, CANCELLED_TASKS_TTL_MS + 1, CANCELLED_TASKS_TTL_MS);
    assert_eq!(removed, 2);
    assert_eq!(m.len(), 1);
    assert!(m.contains_key(&"young".to_string()));
}

#[test]
fn draining_closes_and_stopping_empties() {
    let mut w = Worker::new(node("me"), 1, 1);
    let mut q = InnerScheduler::fifo();
    schedule_task(&mut q, task("t"), node("me"), 9).unwrap();
    w.drain(&mut q);
    assert_eq!(w.state(), WorkerState::Draining);
    assert_eq!(q.len(), 1);
    assert!(schedule_task(&mut q, task("u"), node("me"), 9).is_err());
    w.stop(&mut q);
    assert_eq!(w.state(), WorkerState::Stopped);
    assert!(q.is_empty());
}

#[test]
fn scheduled_task_is_bound() {
    let mut q = InnerScheduler::fifo();
    schedule_task(&mut q, task("t"), node("there"), 9).unwrap();
    let t = q.try_dequeue().unwrap();
    assert_eq!(t.target_node.unwrap().0, "there");
    assert_eq!(t.enqueued_at_ms, 9);
}

#[test]
fn actor_answers() {
    let id = || MessageId("m".into());
    assert!(ok_or_error(ok_result(id())).is_ok());
    assert_eq!(payload_or_error(payload_result(id(), vec![4])).unwrap(), vec![4]);
    let failed = || ActorMessageResult {
        message_id: id(),
        payload: vec![],
        error: Some("broken".into()),
    };
    assert_eq!(ok_or_error(failed()).unwrap_err(), ActantError::Actor("broken".into()));
    assert_eq!(
        payload_or_error(failed()).unwrap_err(),
        ActantError::Actor("broken".into())
    );
}
