//! Heartbeats, leases and taking workflows over.
use actant::common::{NodeId, TaskId, WorkflowId};
use actant::keymap::KeyMap;
use actant::runtime::state::hlc::HlcTimestamp;
use actant::runtime::workflow::actor::workflow_actor::WorkflowActor;
use actant::runtime::workflow::dag::{Dag, DagNode};
use actant::runtime::workflow::failover::{
    lease_key, FailoverConfig, FailoverManager, LeaseEntry, PeerInfo,
};
use actant::runtime::workflow::orchestrator::engine::Orchestrator;
use actant::runtime::workflow::wire::{NodeHeartbeat, OrchestratorClaim, WireTaskState};

fn node(name: &str) -> NodeId {
    NodeId(name.to_string())
}

fn wf(name: &str) -> WorkflowId {
    WorkflowId(name.to_string())
}

fn manager(has_store: bool) -> FailoverManager {
    FailoverManager::with_config(
        node("me"),
        FailoverConfig {
            heartbeat_interval_ms: 100,
            failure_timeout_ms: 1_000,
            lease_duration_ms: 5_000,
            lease_expiry_check_interval_secs: 1,
        },
        has_store,
    )
}

fn heartbeat(from: &str, workflows: &[&str], available: u32) -> NodeHeartbeat {
    NodeHeartbeat {
        node_id: node(from),
        active_workflows: workflows.iter().map(|w| wf(w)).collect(),
        timestamp_ms: 77,
        available_slots: available,
        max_slots: 8,
        endpoint_addr: Some(format!("addr-{from}")),
    }
}

fn actor_with(name: &str) -> WorkflowActor {
    let mut actor = WorkflowActor::new(Orchestrator::new(10));
    let mut dag = Dag::new();
    dag.add_node(DagNode {
        task_id: TaskId("t".to_string()),
        name: "work".to_string(),
        payload: vec![],
        retry_policy: None,
        timeout_ms: None,
        priority: 0,
        metadata: KeyMap::new(),
    })
    .unwrap();
    actor.orchestrator.submit(&wf(name), dag).0.unwrap();
    actor.orchestrator.start(&wf(name), 1).0.unwrap();
    actor
}

#[test]
fn monotonic_deadline_beats_the_wall_clock() {
    let l = LeaseEntry::new_with_monotonic(node("n"), 1_000, 6_000, 5_000, 200);
    assert_eq!(l.deadline, Some(5_200));
    assert!(l.is_valid(u64::MAX, 5_199));
    assert!(!l.is_valid(0, 5_200));
}

#[test]
fn restored_lease_goes_by_the_wall_clock() {
    let l = LeaseEntry::restored(node("n"), 1_000, 6_000);
    assert_eq!(l.deadline, None);
    assert!(l.is_valid(5_999, u64::MAX));
    assert!(!l.is_valid(6_000, 0));
}

#[test]
fn deadline_beyond_the_clock_is_none() {
    let l = LeaseEntry::new_with_monotonic(node("n"), 0, 10, u64::MAX, 1);
    assert_eq!(l.deadline, None);
}

#[test]
fn heartbeat_is_timed_by_the_receiver() {
    let mut m = manager(false);
    assert!(m.handle_heartbeat(&heartbeat("peer", &["w", "v", "w"], 3), 500));
    assert!(!m.handle_heartbeat(&heartbeat("peer", &["w", "v", "w"], 2), 600));
    let infos = m.get_peer_infos();
    assert_eq!(infos.len(), 1);
    assert_eq!(infos[0].0 .0, "peer");
    assert_eq!(infos[0].1.last_heartbeat_ms, 600);
    assert_eq!(infos[0].1.available_slots, 2);
    assert_eq!(infos[0].1.active_workflows.len(), 2);
    let capacities = m.get_peer_capacities();
    assert_eq!(capacities[0].1, (2, 8, Some("addr-peer".to_string())));
}

#[test]
fn own_heartbeat_changes_nothing() {
    let mut m = manager(false);
    assert!(!m.handle_heartbeat(&heartbeat("me", &["w"], 3), 500));
    assert!(m.get_peer_infos().is_empty());
}

#[test]
fn silent_peers_are_forgotten() {
    let mut m = manager(false);
    m.handle_heartbeat(&heartbeat("old", &["w"], 1), 100);
    m.handle_heartbeat(&heartbeat("new", &[], 1), 900);
    assert!(m.expire_stale_peers(1_100).is_empty());
    let removed = m.expire_stale_peers(1_101);
    assert_eq!(removed.len(), 1);
    assert_eq!(removed[0].0 .0, "old");
    assert_eq!(removed[0].1.active_workflows[0].0, "w");
    assert_eq!(m.get_peer_infos().len(), 1);
}

#[test]
fn peer_never_heard_of_is_not_silent() {
    let p = PeerInfo {
        last_heartbeat_ms: 0,
        active_workflows: vec![],
        available_slots: 0,
        max_slots: 0,
        endpoint_addr: None,
    };
    assert!(!p.is_silent(u64::MAX, 1));
}

#[test]
fn failed_node_leaves_workflows_to_the_living() {
    let mut m = manager(false);
    m.handle_heartbeat(&heartbeat("dead", &["w1", "w2"], 1), 100);
    m.handle_heartbeat(&heartbeat("idle-dead", &[], 1), 100);
    m.handle_heartbeat(&heartbeat("alive", &["w3"], 1), 2_000);
    let (failed, candidates) = m.detect_failed_nodes(2_000, 2_000);
    assert_eq!(failed.len(), 1);
    assert_eq!(failed[0].0 .0, "dead");
    assert_eq!(failed[0].1.active_workflows.len(), 2);
    let mut candidates = candidates;
    candidates.sort();
    assert_eq!(candidates, vec!["alive".to_string(), "me".to_string()]);
}

#[test]
fn holding_lease_is_not_contested() {
    let mut m = manager(false);
    let lease = m.begin_claim(&wf("w"), 1_000, 10).unwrap();
    assert_eq!(lease.expires_at_ms, 6_000);
    assert_eq!(lease.deadline, Some(5_010));
    let claim = m.finish_claim(&wf("w"), lease);
    assert_eq!(claim.node_id.0, "me");
    assert_eq!(claim.timestamp_ms, 1_000);
    assert!(m.begin_claim(&wf("w"), 1_001, 5_009).is_none());
    assert!(m.begin_claim(&wf("w"), 1_001, 5_010).is_some());
    assert_eq!(
        m.active_leases(),
        vec![("w".to_string(), "me".to_string(), 1_000, 6_000)]
    );
}

#[test]
fn claim_of_another_node_is_yielded_to() {
    let mut m = manager(true);
    let mut actor = actor_with("w");
    let claim = OrchestratorClaim {
        node_id: node("other"),
        workflow_id: wf("w"),
        timestamp_ms: 4_000,
    };
    let written = m.handle_claim(&mut actor, &claim, 50).unwrap().unwrap();
    assert_eq!(written.0, "lease:w");
    assert!(!actor.orchestrator.has_workflow(&wf("w")));
    assert!(m.begin_claim(&wf("w"), 4_001, 60).is_none());
    assert_eq!(
        m.active_leases(),
        vec![("w".to_string(), "other".to_string(), 4_000, 9_000)]
    );
}

#[test]
fn own_claim_keeps_the_workflow() {
    let mut m = manager(false);
    let mut actor = actor_with("w");
    let claim = OrchestratorClaim {
        node_id: node("me"),
        workflow_id: wf("w"),
        timestamp_ms: 4_000,
    };
    assert!(m.handle_claim(&mut actor, &claim, 50).unwrap().is_none());
    assert!(actor.orchestrator.has_workflow(&wf("w")));
}

#[test]
fn lapsed_leases_are_renewed_or_dropped() {
    let mut m = manager(true);
    for (w, n) in [("mine", "me"), ("idle", "me"), ("theirs", "other")] {
        m.keep_lease(
            &wf(w),
            LeaseEntry::new_with_monotonic(node(n), 0, 5_000, 5_000, 0),
        );
    }
    m.keep_lease(
        &wf("fresh"),
        LeaseEntry::new_with_monotonic(node("other"), 0, 5_000, 5_000, 9_000),
    );
    let active = vec![wf("mine"), wf("theirs")];
    let sweep = m.expire_leases(&active, 10_000, 10_000);
    assert_eq!(sweep.renewed.len(), 1);
    assert_eq!(sweep.renewed[0].0 .0, "mine");
    assert_eq!(sweep.renewed[0].1.expires_at_ms, 15_000);
    assert_eq!(sweep.renewed[0].1.deadline, Some(15_000));
    let mut deleted = sweep.deleted;
    deleted.sort();
    assert_eq!(
        deleted,
        vec!["lease:idle".to_string(), "lease:theirs".to_string()]
    );
    let mut left: Vec<String> = m.active_leases().into_iter().map(|l| l.0).collect();
    left.sort();
    assert_eq!(left, vec!["fresh".to_string(), "mine".to_string()]);
}

#[test]
fn stored_leases_come_back() {
    let mut m = manager(true);
    let lease = LeaseEntry::new_with_monotonic(node("other"), 1_000, 6_000, 5_000, 0);
    let (key, bytes) = m.persist_lease(&wf("w"), &lease).unwrap().unwrap();
    assert_eq!(key, lease_key(&wf("w")));
    let ended = LeaseEntry::new_with_monotonic(node("other"), 1, 2, 1, 0);
    let (old_key, old_bytes) = m.persist_lease(&wf("old"), &ended).unwrap().unwrap();
    assert_ne!(bytes, old_bytes);
    let entries = vec![
        (key, bytes),
        (old_key.clone(), old_bytes),
        ("lease:bad".to_string(), vec![1, 2, 3]),
    ];
    let deleted = m.recover_leases_from_store(&entries, 3_000);
    assert_eq!(deleted, vec![old_key, "lease:bad".to_string()]);
    assert_eq!(
        m.active_leases(),
        vec![("w".to_string(), "other".to_string(), 1_000, 6_000)]
    );
    assert!(m.begin_claim(&wf("w"), 5_999, u64::MAX).is_none());
    assert!(m.begin_claim(&wf("w"), 6_000, 0).is_some());
}

#[test]
fn leases_are_not_stored_without_a_store() {
    let mut m = manager(false);
    let lease = LeaseEntry::restored(node("n"), 1, 2);
    assert!(m.persist_lease(&wf("w"), &lease).unwrap().is_none());
    assert!(m.remove_lease(&wf("w")).is_none());
}

#[test]
fn running_tasks_are_dispatched_anew() {
    let mut m = manager(false);
    let mut actor = actor_with("w");
    actor
        .orchestrator
        .mark_task_running(&wf("w"), &TaskId("t".to_string()))
        .0
        .unwrap();
    let (tasks, notices) = m
        .reschedule_workflow_tasks(&mut actor, &wf("w"), 900)
        .unwrap();
    assert_eq!(tasks.len(), 1);
    assert_eq!(tasks[0].id.0, "t");
    assert_eq!(tasks[0].attempt, 1);
    assert_eq!(notices.len(), 1);
    assert!(matches!(
        &notices[0].task_state,
        WireTaskState::Failed { error } if error == "original orchestrator failed, rescheduling"
    ));
    assert_eq!(notices[0].hlc_timestamp, HlcTimestamp::from_parts(900, 0));
    assert_eq!(notices[0].origin_node.0, "me");
}

#[test]
fn heartbeat_tells_workflows_and_capacity() {
    let m = manager(false).with_capacity(3, 4).with_heartbeat_interval(250);
    assert_eq!(m.heartbeat_interval_ms(), 250);
    assert_eq!(m.failure_timeout_ms(), 1_000);
    let hb = m.send_heartbeat(&actor_with("w"), 42, None);
    assert_eq!(hb.node_id.0, "me");
    assert_eq!(hb.timestamp_ms, 42);
    assert_eq!((hb.available_slots, hb.max_slots), (3, 4));
    assert_eq!(hb.active_workflows.len(), 1);
}

#[test]
fn capacities_can_be_updated() {
    let mut m = manager(false);
    m.handle_heartbeat(&heartbeat("peer", &["w"], 3), 500);
    m.update_peer_capacity(&node("peer"), 1, 2);
    m.update_peer_capacity(&node("nobody"), 9, 9);
    let infos = m.get_peer_infos();
    assert_eq!(infos.len(), 1);
    assert_eq!((infos[0].1.available_slots, infos[0].1.max_slots), (1, 2));
    assert_eq!(infos[0].1.active_workflows.len(), 1);
    m.update_local_capacity(5, 6);
    assert_eq!((m.local_available_capacity, m.local_max_capacity), (5, 6));
    m.remove_peer(&node("peer"));
    assert!(m.get_peer_infos().is_empty());
}
