//! The exchange of task states between nodes.
use std::time::Duration;

use actant::common::{ActantError, NodeId, TaskId, WorkflowId};
use actant::keymap::KeyMap;
use actant::runtime::state::hlc::HlcTimestamp;
use actant::runtime::workflow::actor::workflow_actor::{
    WorkflowActor, WorkflowCommand, WorkflowReply,
};
use actant::runtime::workflow::dag::{Dag, DagNode};
use actant::runtime::workflow::gossip::{
    settle, state_priority, BroadcastRetry, DagGossip, GossipConfig, HeadAction, RetryStep,
    SeenEntry,
};
use actant::runtime::workflow::orchestrator::engine::Orchestrator;
use actant::runtime::workflow::phase::Phase;
use actant::runtime::workflow::wire::{
    HeadsExchange, TaskCompletion, TaskRef, WireDagStateUpdate, WireTaskOutcome, WireTaskState,
    WorkflowHead, WorkflowStateResponse,
};

/// One second in nanoseconds.
const SECOND: u64 = 1_000_000_000;

fn default_config() -> GossipConfig {
    GossipConfig {
        dedup_window_size: 1000,
        dedup_ttl_secs: 300,
        retry_attempts: 3,
        retry_base_delay_ms: 100,
        heads_broadcast_interval_ms: 5000,
    }
}

fn make_gossip(node_id: &str, config: GossipConfig) -> DagGossip {
    DagGossip::new(NodeId(node_id.to_string()), config)
}

fn make_entry(ts: u64, prio: u8) -> SeenEntry {
    SeenEntry {
        inserted_at: 0,
        hlc_timestamp: HlcTimestamp::from_parts(ts, 0),
        state_priority: prio,
    }
}

fn update(wf: &str, task: &str, state: WireTaskState, ts: (u64, u32)) -> WireDagStateUpdate {
    WireDagStateUpdate {
        workflow_id: WorkflowId(wf.to_string()),
        task_id: TaskId(task.to_string()),
        task_state: state,
        hlc_timestamp: HlcTimestamp::from_parts(ts.0, ts.1),
        origin_node: NodeId("node-B".to_string()),
    }
}

/// An actor with a started workflow `wf-1` of one task `t-1`.
fn actor() -> WorkflowActor {
    let mut actor = WorkflowActor::new(Orchestrator::new(10));
    let wf = WorkflowId("wf-1".to_string());
    let mut dag = Dag::new();
    dag.add_node(DagNode {
        task_id: TaskId("t-1".to_string()),
        name: "work".to_string(),
        payload: vec![],
        retry_policy: None,
        timeout_ms: None,
        priority: 0,
        metadata: KeyMap::new(),
    })
    .unwrap();
    actor.orchestrator.submit(&wf, dag).0.unwrap();
    actor.orchestrator.start(&wf, 1).0.unwrap();
    actor
}

fn phase(actor: &WorkflowActor) -> Phase {
    actor
        .orchestrator
        .get_state(&WorkflowId("wf-1".to_string()))
        .unwrap()
        .state
}

#[test]
fn state_priority_orders_terminal_above_running() {
    assert_eq!(state_priority(&WireTaskState::Running), 1);
    assert_eq!(state_priority(&WireTaskState::Skipped), 2);
    assert_eq!(state_priority(&WireTaskState::Cancelled), 3);
    assert_eq!(
        state_priority(&WireTaskState::Failed { error: "e".into() }),
        4
    );
    assert_eq!(
        state_priority(&WireTaskState::Completed { result: Vec::new() }),
        5
    );
}

#[test]
fn seen_entry_superseded_by_higher_hlc() {
    let entry = make_entry(10, 3);
    assert!(entry.is_superseded_by(&HlcTimestamp::from_parts(20, 0), 1));
}

#[test]
fn seen_entry_not_superseded_by_lower_hlc() {
    let entry = make_entry(20, 1);
    assert!(!entry.is_superseded_by(&HlcTimestamp::from_parts(10, 0), 5));
}

#[test]
fn seen_entry_superseded_by_equal_hlc_and_higher_or_equal_prio() {
    let entry = make_entry(10, 3);
    assert!(entry.is_superseded_by(&HlcTimestamp::from_parts(10, 0), 4));
    assert!(entry.is_superseded_by(&HlcTimestamp::from_parts(10, 0), 3));
    assert!(!entry.is_superseded_by(&HlcTimestamp::from_parts(10, 0), 2));
}

#[test]
fn getters_return_configured_values() {
    let cfg = GossipConfig {
        dedup_window_size: 50,
        dedup_ttl_secs: 30,
        retry_attempts: 4,
        retry_base_delay_ms: 200,
        heads_broadcast_interval_ms: 1500,
    };
    let g = make_gossip("node-A", cfg);
    assert_eq!(g.node_id().0.as_str(), "node-A");
    assert_eq!(
        Duration::from_millis(g.heads_broadcast_interval()),
        Duration::from_millis(1500)
    );
    let (seen, window, ttl, retries) = g.dedup_stats();
    assert_eq!(seen, 0);
    assert_eq!(window, 50);
    assert_eq!(ttl, 30);
    assert_eq!(retries, 4);
}

#[test]
fn seen_count_tracks_inserts() {
    let mut g = make_gossip("node-A", default_config());
    assert_eq!(g.seen_count(), 0);
    g.seen.insert("wf-1/t-1".to_string(), make_entry(5, 1));
    assert_eq!(g.seen_count(), 1);
}

#[test]
fn evict_seen_noop_below_window_threshold() {
    let cfg = GossipConfig {
        dedup_window_size: 10,
        dedup_ttl_secs: 60,
        retry_attempts: 1,
        retry_base_delay_ms: 1,
        heads_broadcast_interval_ms: 1000,
    };
    let mut g = make_gossip("node-A", cfg);
    for i in 0..15 {
        g.seen.insert(format!("wf-{}/t-{}", i, i), make_entry(i as u64, 1));
    }
    g.evict_seen(0);
    // 15 < 10*2=20
    assert_eq!(g.seen_count(), 15);
}

#[test]
fn evict_seen_trims_to_window_size_when_exceeding_double() {
    let cfg = GossipConfig {
        dedup_window_size: 5,
        dedup_ttl_secs: 60,
        retry_attempts: 1,
        retry_base_delay_ms: 1,
        heads_broadcast_interval_ms: 1000,
    };
    let mut g = make_gossip("node-A", cfg);
    let now = 100 * SECOND;
    // 12 entries (> 5*2=10)
    for i in 0..12u64 {
        g.seen.insert(
            format!("wf-{}/t-{}", i, i),
            SeenEntry {
                inserted_at: now - (100 - i) * 1_000_000,
                hlc_timestamp: HlcTimestamp::from_parts(i, 0),
                state_priority: 1,
            },
        );
    }
    g.evict_seen(now);
    assert!(
        g.seen_count() <= 5,
        "expected <= 5 after eviction, got {}",
        g.seen_count()
    );
    // Those that came last stay.
    for i in 7..12u64 {
        assert!(g.seen.contains_key(&format!("wf-{}/t-{}", i, i)));
    }
}

#[test]
fn old_entries_go_before_young_ones() {
    let cfg = GossipConfig {
        dedup_window_size: 2,
        dedup_ttl_secs: 60,
        retry_attempts: 1,
        retry_base_delay_ms: 1,
        heads_broadcast_interval_ms: 1000,
    };
    let mut g = make_gossip("node-A", cfg);
    let now = 1_000 * SECOND;
    for i in 0..5u64 {
        let age = if i == 4 { 59 } else { 60 };
        g.seen.insert(
            format!("k{i}"),
            SeenEntry {
                inserted_at: now - age * SECOND,
                hlc_timestamp: HlcTimestamp::from_parts(i, 0),
                state_priority: 1,
            },
        );
    }
    g.evict_seen(now);
    assert_eq!(g.seen_count(), 1);
    assert!(g.seen.contains_key(&"k4".to_string()));
}

#[test]
fn apply_remote_update_drops_stale_lower_hlc() {
    let mut g = make_gossip("node-A", default_config());
    let mut actor = actor();

    let newer = WireDagStateUpdate {
        workflow_id: WorkflowId("wf-1".to_string()),
        task_id: TaskId("t-1".to_string()),
        task_state: WireTaskState::Completed {
            result: vec![1, 2, 3],
        },
        hlc_timestamp: HlcTimestamp::from_parts(100, 5),
        origin_node: NodeId("node-B".to_string()),
    };
    let (r, _) = g.apply_remote_update(&mut actor, newer, 50, 0, 1);
    assert!(r.is_ok());
    assert_eq!(g.seen_count(), 1);
    assert_eq!(phase(&actor), Phase::Completed);

    let older = WireDagStateUpdate {
        workflow_id: WorkflowId("wf-1".to_string()),
        task_id: TaskId("t-1".to_string()),
        task_state: WireTaskState::Running,
        hlc_timestamp: HlcTimestamp::from_parts(50, 0),
        origin_node: NodeId("node-C".to_string()),
    };
    let existing = *g.seen.value_at(0);
    assert!(!existing.is_superseded_by(&older.hlc_timestamp, state_priority(&older.task_state)));
    let (r, effects) = g.apply_remote_update(&mut actor, older, 60, 0, 1);
    assert!(r.is_ok());
    assert!(effects.is_empty());
    assert_eq!(g.seen_count(), 1);
    assert_eq!(g.seen.value_at(0).state_priority, 5);
    assert_eq!(phase(&actor), Phase::Completed);
}

#[test]
fn clock_tick_monotonic() {
    let mut g = make_gossip("node-A", default_config());
    let t1 = g.clock().tick();
    let t2 = g.clock().tick();
    assert!(t2 > t1, "HLC tick must be monotonic: {:?} -> {:?}", t1, t2);
}

#[test]
fn clock_merges_remote_timestamp() {
    let mut g = make_gossip("node-A", default_config());
    let remote = HlcTimestamp::from_parts(999, 9);
    g.clock().merge(&remote);
    let local = g.clock().tick();
    assert!(local > remote, "after merge, local tick must exceed remote");
}

#[test]
fn news_of_an_unknown_workflow_is_no_error() {
    let mut g = make_gossip("node-A", default_config());
    let mut actor = actor();
    for state in [
        WireTaskState::Running,
        WireTaskState::Completed { result: vec![] },
        WireTaskState::Failed { error: "e".into() },
        WireTaskState::Cancelled,
        WireTaskState::Skipped,
    ] {
        let name = format!("wf-{}", state_priority(&state) + 10);
        let (r, effects) = g.apply_remote_update(&mut actor, update(&name, "t", state, (1, 0)), 1, 0, 1);
        assert!(r.is_ok());
        assert!(effects.is_empty());
    }
    assert_eq!(g.seen_count(), 5);
}

#[test]
fn remote_failure_fails_the_workflow() {
    let mut g = make_gossip("node-A", default_config());
    let mut actor = actor();
    let u = update("wf-1", "t-1", WireTaskState::Failed { error: "boom".into() }, (7, 0));
    g.apply_remote_update(&mut actor, u, 1, 0, 1).0.unwrap();
    assert_eq!(phase(&actor), Phase::Failed);
}

#[test]
fn receiving_moves_the_clock_past_the_news() {
    let mut g = make_gossip("node-A", default_config());
    let c = g.receive(update("wf", "t", WireTaskState::Running, (10, 3)), 5, 0);
    assert!(matches!(c, Some(WorkflowCommand::MarkTaskRunning { .. })));
    assert_eq!(g.clock.last.wall_time(), 10);
    assert_eq!(g.clock.last.logical(), 4);
    let c = g.receive(update("wf", "t", WireTaskState::Skipped, (10, 3)), 5, 0);
    assert!(matches!(c, Some(WorkflowCommand::SkipConditionalBranch { .. })));
}

#[test]
fn tasks_with_confusable_names_are_kept_apart() {
    let mut g = make_gossip("node-A", default_config());
    assert!(g.receive(update("a", "bc", WireTaskState::Running, (9, 0)), 1, 0).is_some());
    assert!(g.receive(update("ab", "c", WireTaskState::Running, (1, 0)), 1, 0).is_some());
    assert_eq!(g.seen_count(), 2);
}

#[test]
fn only_ends_are_sent_again() {
    let mut g = make_gossip("node-A", default_config());
    let wf = WorkflowId("wf".to_string());
    let t = TaskId("t".to_string());
    let (running, again) = g.broadcast_task_running(&wf, &t, 100, 0);
    assert!(!again);
    assert_eq!(running.hlc_timestamp.wall_time(), 100);
    assert_eq!(running.origin_node.0, "node-A");
    let completion = TaskCompletion {
        task: TaskRef {
            workflow_id: wf.clone(),
            task_id: t.clone(),
            task_name: "n".into(),
            target_node: None,
        },
        outcome: WireTaskOutcome::Failed("e".into()),
    };
    let (ended, again) = g.broadcast_state_update(&completion, 100, 0);
    assert!(again);
    assert!(matches!(ended.task_state, WireTaskState::Failed { error } if error == "e"));
    assert!(ended.hlc_timestamp > running.hlc_timestamp);
    assert_eq!(g.seen_count(), 1);
}

#[test]
fn broadcast_is_tried_a_limited_number_of_times() {
    let mut cfg = default_config();
    cfg.retry_attempts = 3;
    cfg.retry_base_delay_ms = 100;
    let mut b = BroadcastRetry::new(&cfg);
    b.begin().unwrap();
    let failure = || Err(ActantError::Network("down".into()));
    assert!(matches!(b.on_result(failure()), RetryStep::WaitThenTry(100)));
    assert!(matches!(b.on_result(failure()), RetryStep::WaitThenTry(200)));
    assert!(matches!(
        b.on_result(failure()),
        RetryStep::Stop(Err(ActantError::Network(_)))
    ));
    let mut b = BroadcastRetry::new(&cfg);
    assert!(matches!(b.on_result(Ok(())), RetryStep::Stop(Ok(()))));
    cfg.retry_attempts = 0;
    assert_eq!(
        BroadcastRetry::new(&cfg).begin().unwrap_err(),
        ActantError::Internal(
            "broadcast_with_retry: no attempts made (retry_attempts=0)".to_string()
        )
    );
}

#[test]
fn heads_tell_how_far_workflows_have_come() {
    let mut g = make_gossip("node-A", default_config());
    let actor = actor();
    let x = g.broadcast_heads(&actor, 500);
    assert_eq!(x.node_id.0, "node-A");
    assert_eq!(x.heads.len(), 1);
    assert_eq!(x.heads[0].workflow_id.0, "wf-1");
    assert_eq!(x.heads[0].succeeded_count, 0);
    assert_eq!(x.heads[0].total_count, 1);
    assert_eq!(x.heads[0].hlc_timestamp.wall_time(), 500);
}

fn head(wf: &str, succeeded_count: usize) -> WorkflowHead {
    WorkflowHead {
        workflow_id: WorkflowId(wf.to_string()),
        succeeded_count,
        total_count: 9,
        hlc_timestamp: HlcTimestamp::from_parts(1, 0),
    }
}

#[test]
fn heads_of_a_peer_are_reviewed() {
    let g = make_gossip("node-A", default_config());
    let actor = actor();
    let mut review = g.handle_heads_exchange(HeadsExchange {
        node_id: NodeId("node-B".to_string()),
        heads: vec![head("unknown", 0), head("wf-1", 0), head("wf-1", 1)],
    });
    let (wf, action) = review.step(&actor).unwrap();
    assert_eq!((wf.0.as_str(), action), ("unknown", HeadAction::AdoptAndRequest));
    assert_eq!(review.step(&actor).unwrap().1, HeadAction::Ignore);
    assert_eq!(review.step(&actor).unwrap().1, HeadAction::Request);
    assert!(review.step(&actor).is_none());
}

#[test]
fn own_heads_are_not_acted_on() {
    let g = make_gossip("node-A", default_config());
    let mut review = g.handle_heads_exchange(HeadsExchange {
        node_id: NodeId("node-A".to_string()),
        heads: vec![head("unknown", 0)],
    });
    assert!(review.step(&actor()).is_none());
}

#[test]
fn state_is_answered_where_there_is_any() {
    let g = make_gossip("node-A", default_config());
    let request = g.request_workflow_state(&WorkflowId("wf".to_string()));
    assert_eq!(request.requesting_node.0, "node-A");
    assert!(g.handle_workflow_state_request(&request, None).is_none());
    assert!(g
        .handle_workflow_state_request(&request, Some((vec![], vec![], vec![1])))
        .is_none());
    let r = g
        .handle_workflow_state_request(&request, Some((vec![1], vec![], vec![2])))
        .unwrap();
    assert_eq!(r.workflow_id.0, "wf");
    assert_eq!(r.dag, Some(vec![1]));
    assert_eq!(r.execution, None);
    assert_eq!(r.pending, Some(vec![2]));
    assert!(g.handle_workflow_state_response(&r));
    assert!(!g.handle_workflow_state_response(&WorkflowStateResponse {
        workflow_id: WorkflowId("wf".to_string()),
        dag: None,
        execution: None,
        pending: Some(vec![2]),
    }));
}

#[test]
fn settling_ignores_only_unknown_workflows() {
    assert!(settle(Ok(WorkflowReply::Done)).is_ok());
    assert!(settle(Err(ActantError::NotFound("x".into()))).is_ok());
    assert_eq!(
        settle(Err(ActantError::Internal("x".into()))).unwrap_err(),
        ActantError::Internal("x".into())
    );
}

#[test]
fn news_order_does_not_matter() {
    let a = || update("wf", "t", WireTaskState::Running, (5, 0));
    let b = || update("wf", "t", WireTaskState::Cancelled, (5, 0));
    let mut g1 = make_gossip("node-A", default_config());
    g1.receive(a(), 1, 0);
    g1.receive(b(), 1, 0);
    let mut g2 = make_gossip("node-A", default_config());
    g2.receive(b(), 1, 0);
    assert!(g2.receive(a(), 1, 0).is_none());
    assert_eq!(g1.seen.value_at(0).state_priority, 3);
    assert_eq!(g2.seen.value_at(0).state_priority, 3);
}
