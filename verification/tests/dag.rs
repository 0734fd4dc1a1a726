//! Graphs, executions and the names of their states.
use actant::common::{ActantError, TaskId, WorkflowId};
use actant::keymap::KeyMap;
use actant::runtime::workflow::dag::{Dag, DagNode};
use actant::runtime::workflow::execution::WorkflowExecution;
use actant::runtime::workflow::phase::{FailureScope, FailureStrategy, Phase};
use actant::table::Table;
use actant::text::{
    push_decimal, push_fixed_width, same_text, same_text_any_case, text_before, truncate_text,
    without_prefix,
};

fn id(name: &str) -> TaskId {
    TaskId(name.to_string())
}

fn node(name: &str) -> DagNode {
    DagNode {
        task_id: id(name),
        name: name.to_string(),
        payload: vec![],
        retry_policy: None,
        timeout_ms: None,
        priority: 0,
        metadata: KeyMap::new(),
    }
}

fn diamond() -> Dag {
    let mut d = Dag::new();
    for n in ["a", "b", "c", "d"] {
        d.add_node(node(n)).unwrap();
    }
    for (x, y) in [("a", "b"), ("a", "c"), ("b", "d"), ("c", "d")] {
        d.add_edge(id(x), id(y)).unwrap();
    }
    d
}

fn names(nodes: Vec<&DagNode>) -> Vec<String> {
    nodes.into_iter().map(|n| n.task_id.0.clone()).collect()
}

#[test]
fn diamond_is_sorted() {
    let d = diamond();
    let order = names(d.topological_sort().unwrap());
    let at = |n: &str| order.iter().position(|x| x == n).unwrap();
    assert!(at("a") < at("b") && at("a") < at("c") && at("b") < at("d") && at("c") < at("d"));
    assert_eq!(names(d.roots()), vec!["a"]);
    assert_eq!(names(d.sinks()), vec!["d"]);
    assert_eq!(d.predecessor_count(&id("d")), 2);
    assert_eq!(d.node_count(), 4);
    assert_eq!(d.edge_count(), 4);
}

#[test]
fn cycles_are_refused() {
    let mut d = diamond();
    let cycle = ActantError::Workflow("adding edge would create a cycle".to_string());
    assert_eq!(d.add_edge(id("d"), id("a")).unwrap_err(), cycle);
    assert_eq!(d.add_edge(id("a"), id("a")).unwrap_err(), cycle);
    assert_eq!(d.edge_count(), 4);
}

#[test]
fn edges_need_their_nodes() {
    let mut d = diamond();
    // A node added again takes the place of the first.
    d.add_node(node("a")).unwrap();
    assert_eq!(d.node_count(), 4);
    assert_eq!(d.edge_count(), 4);
    let unknown = ActantError::Workflow("node zz not found".to_string());
    assert_eq!(d.add_edge(id("a"), id("zz")).unwrap_err(), unknown);
    assert_eq!(d.add_edge(id("zz"), id("a")).unwrap_err(), unknown);
}

#[test]
fn conditional_edges_are_told_apart() {
    let mut d = Dag::new();
    for n in ["a", "b", "c"] {
        d.add_node(node(n)).unwrap();
    }
    d.add_edge(id("a"), id("b")).unwrap();
    d.add_conditional_edge(id("a"), id("c"), "x".to_string()).unwrap();
    let edges = d.conditional_edges_from(&id("a"));
    assert_eq!(edges.len(), 1);
    assert_eq!((edges[0].0 .0.as_str(), edges[0].1.as_str()), ("c", "x"));
}

fn execution(tasks: &[&str]) -> WorkflowExecution {
    WorkflowExecution::new(
        WorkflowId("w".to_string()),
        tasks.iter().map(|t| id(t)).collect(),
    )
}

#[test]
fn counters_agree_with_tasks() {
    let mut x = execution(&["a", "b", "c"]);
    x.mark_running_at(9);
    assert!(x.mark_task_completed(&id("a"), vec![1], None));
    assert!(!x.mark_task_completed(&id("a"), vec![2], None));
    x.mark_task_skipped(&id("b"));
    assert_eq!(x.succeeded_count(), 1);
    assert_eq!(x.total_count(), 3);
    assert_eq!(x.state, Phase::Running);
    assert!(x.mark_task_completed(&id("c"), vec![3], None));
    assert_eq!(x.state, Phase::Completed);
    assert_eq!(x.collected_results(), vec![vec![1], vec![3]]);
}

#[test]
fn failure_of_the_task_alone_is_not_the_workflows() {
    let mut x = execution(&["a", "b"]);
    x.mark_running_at(0);
    x.fail_task(&id("a"), "e".into(), FailureScope::TaskOnly, None);
    assert!(!x.is_workflow_failed());
    let mut y = execution(&["a", "b"]);
    y.mark_running_at(0);
    y.fail_task(&id("a"), "e".into(), FailureScope::WorkflowLevel, None);
    assert!(y.is_workflow_failed());
    assert!(!y.mark_task_completed(&id("b"), vec![], None));
}

#[test]
fn failures_are_summed_up() {
    let mut x = execution(&["a", "b"]).with_failure_strategy(FailureStrategy::Continue);
    x.mark_running_at(0);
    x.fail_task(&id("a"), "first".into(), FailureScope::WorkflowLevel, None);
    x.fail_task(&id("b"), "second".into(), FailureScope::WorkflowLevel, None);
    assert_eq!(x.state, Phase::Failed);
    let error = x.error.unwrap();
    assert!(error.contains("first") && error.contains("second"));
}

#[test]
fn only_running_and_failed_tasks_are_reset() {
    let mut x = execution(&["a"]);
    x.reset_task(&id("a"), false, true);
    let t = x.tasks.get(&"a".to_string()).unwrap();
    assert_eq!(t.state, Phase::Pending);
    assert_eq!(t.attempt(), 0);
    assert_eq!(t.retry_count(), 0);
    x.mark_running_at(0);
    x.mark_task_running(&id("a"));
    x.reset_task(&id("a"), false, true);
    let t = x.tasks.get(&"a".to_string()).unwrap();
    assert_eq!(t.state, Phase::Pending);
    assert_eq!(t.attempt(), 1);
    x.fail_task(&id("a"), "e".into(), FailureScope::TaskOnly, None);
    x.reset_task(&id("a"), true, true);
    let t = x.tasks.get(&"a".to_string()).unwrap();
    assert_eq!(t.state, Phase::Pending);
    assert_eq!(t.attempt(), 2);
    assert_eq!(t.retry_count(), 1);
}

#[test]
fn cancelling_does_not_hide_a_failure() {
    let mut x = execution(&["a", "b"]);
    x.mark_running_at(0);
    x.mark_task_running(&id("b"));
    x.fail_task(&id("a"), "boom".into(), FailureScope::WorkflowLevel, None);
    x.mark_cancelled();
    assert_eq!(x.state, Phase::Failed);
    assert_eq!(x.error.as_deref(), Some("boom"));
    assert_eq!(x.tasks.get(&"b".to_string()).unwrap().state, Phase::Running);
    let mut y = execution(&["a"]);
    y.mark_running_at(0);
    y.mark_task_running(&id("a"));
    y.mark_cancelled();
    assert_eq!(y.state, Phase::Cancelled);
    assert_eq!(y.tasks.get(&"a".to_string()).unwrap().state, Phase::Cancelled);
}

#[test]
fn a_workflow_whose_tasks_are_still_to_come_goes_on() {
    let mut x = WorkflowExecution::open(WorkflowId("w".into()))
        .with_failure_strategy(FailureStrategy::Continue);
    x.mark_running_at(0);
    x.register_task(id("a"));
    x.fail_task(&id("a"), "e".into(), FailureScope::WorkflowLevel, None);
    assert_eq!(x.state, Phase::Running);
    x.seal_nodes();
    assert_eq!(x.state, Phase::Failed);
    assert_eq!(x.error.as_deref(), Some("failed tasks: [a: e]"));
    let mut y = WorkflowExecution::open(WorkflowId("w".into()));
    y.mark_running_at(0);
    y.register_task(id("a"));
    y.mark_task_skipped(&id("a"));
    assert_eq!(y.state, Phase::Running);
    y.seal_nodes();
    assert_eq!(y.state, Phase::Completed);
}

#[test]
fn deadlines_pass() {
    let mut x = execution(&["a"]);
    x.set_deadline_ms(10);
    assert!(!x.is_expired_at(1_000));
    x.mark_running_at(100);
    assert!(!x.is_expired_at(105));
    assert!(x.is_expired_at(200));
}

#[test]
fn phases_have_names() {
    for p in [
        Phase::Pending,
        Phase::Running,
        Phase::Completed,
        Phase::Failed,
        Phase::Cancelled,
        Phase::Skipped,
    ] {
        assert_eq!(Phase::parse(p.as_str()), Some(p));
    }
    assert_eq!(Phase::Pending.as_str(), "Pending");
    assert_eq!(Phase::parse("done"), None);
    for s in [FailureStrategy::FailFast, FailureStrategy::Continue] {
        assert_eq!(FailureStrategy::parse(s.as_str()), Some(s));
    }
}

#[test]
fn texts() {
    assert!(same_text("ab", "ab") && !same_text("ab", "Ab"));
    assert!(same_text_any_case("aB", "Ab"));
    assert_eq!(without_prefix("orch:dag:x", "orch:dag:"), Some("x"));
    assert_eq!(without_prefix("orch", "orch:"), None);
    assert!(text_before(&"a".to_string(), &"b".to_string()));
    assert!(text_before(&"a".to_string(), &"aa".to_string()));
    assert!(!text_before(&"b".to_string(), &"aa".to_string()));
    let mut s = String::new();
    push_decimal(&mut s, 1_050);
    assert_eq!(s, "1050");
    push_fixed_width(&mut s, 255, 16, 4);
    assert_eq!(s, "105000ff");
    assert_eq!(truncate_text("héllo", 2), "h");
    assert_eq!(truncate_text("héllo", 3), "hé");
}

#[test]
fn table_finds_what_was_put_in() {
    let mut t: Table<u32> = Table::new();
    assert!(t.insert("a".into(), 1).is_none());
    assert!(t.insert("b".into(), 2).is_none());
    assert_eq!(t.insert("a".into(), 3), Some(1));
    assert_eq!(t.len(), 2);
    assert_eq!(t.get(&"a".to_string()), Some(&3));
    *t.get_mut(&"b".to_string()).unwrap() = 9;
    assert_eq!(t.keys(), vec!["a".to_string(), "b".to_string()]);
    assert_eq!(t.remove(&"a".to_string()), Some(3));
    assert_eq!(t.remove(&"a".to_string()), None);
    assert!(!t.contains_key(&"a".to_string()));
    assert_eq!(t.get(&"b".to_string()), Some(&9));
}

#[test]
fn errors_can_be_compared() {
    assert_eq!(
        ActantError::NotFound("x".into()),
        ActantError::NotFound("x".into())
    );
    assert_ne!(
        ActantError::NotFound("x".into()),
        ActantError::Internal("x".into())
    );
}
