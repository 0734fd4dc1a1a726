//! Workflows from submission to their end, through the orchestrator and its actor.
use actant::common::{ActantError, NodeId, RetryPolicy, TaskId, WorkflowId};
use actant::keymap::KeyMap;
use actant::runtime::state::event_log::EventId;
use actant::runtime::state::hlc::HlcTimestamp;
use actant::runtime::workflow::actor::failover_methods::FailoverMethod;
use actant::runtime::workflow::actor::gossip_methods::GossipMethod;
use actant::runtime::workflow::actor::scheduler_actor::{
    fifo_scheduler_actor, priority_scheduler_actor, SchedulerActor, SchedulerCommand,
    SchedulerReply,
};
use actant::runtime::workflow::actor::scheduler_methods::SchedulerMethod;
use actant::runtime::workflow::actor::workflow_actor::{
    ResultSource, TaskResultOutcome, WorkflowActor, WorkflowAnswer, WorkflowCommand, WorkflowQuery,
    WorkflowReply,
};
use actant::runtime::workflow::actor::workflow_methods::WorkflowMethod;
use actant::runtime::workflow::dag::{Dag, DagNode};
use actant::runtime::workflow::execution::WorkflowExecution;
use actant::runtime::workflow::orchestrator::branches::{evaluate_edges, ConditionEvaluator};
use actant::runtime::workflow::orchestrator::counts::{archive_pending, read_pending};
use actant::runtime::workflow::orchestrator::engine::{AddNodeOutcome, Orchestrator};
use actant::runtime::workflow::orchestrator::events::{Effect, WorkflowEventPayload};
use actant::runtime::workflow::orchestrator::keys::{
    dag_key, event_seq_key, exec_key, pending_key, result_key, signals_key, wait_key,
    workflow_of_key, STORE_KEY_DAG,
};
use actant::runtime::workflow::orchestrator::queries::whole_state;
use actant::runtime::workflow::orchestrator::recovery::Stored;
use actant::runtime::workflow::phase::{FailureScope, FailureStrategy, Phase};
use actant::runtime::workflow::scheduler::{
    is_registered, registered_names, DequeueStep, InnerScheduler, Scheduler,
};
use actant::runtime::workflow::task::{TaskDefinition, TaskPayload};
use actant::runtime::workflow::wait::{WaitCondition, WaitPoint};
use actant::table;

fn wf(name: &str) -> WorkflowId {
    WorkflowId(name.to_string())
}

fn id(name: &str) -> TaskId {
    TaskId(name.to_string())
}

fn dag_node(name: &str) -> DagNode {
    DagNode {
        task_id: id(name),
        name: format!("fn-{name}"),
        payload: name.as_bytes().to_vec(),
        retry_policy: None,
        timeout_ms: None,
        priority: 0,
        metadata: KeyMap::new(),
    }
}

/// A graph of nodes and edges.
fn dag(nodes: &[&str], edges: &[(&str, &str)]) -> Dag {
    let mut d = Dag::new();
    for n in nodes {
        d.add_node(dag_node(n)).unwrap();
    }
    for (a, b) in edges {
        d.add_edge(id(a), id(b)).unwrap();
    }
    d
}

fn started(nodes: &[&str], edges: &[(&str, &str)]) -> Orchestrator {
    let mut o = Orchestrator::new(10).with_node_id(NodeId("me".to_string()));
    o.submit(&wf("w"), dag(nodes, edges)).0.unwrap();
    o.start(&wf("w"), 1_000).0.unwrap();
    o
}

fn state(o: &Orchestrator) -> Phase {
    o.get_state(&wf("w")).unwrap().state
}

fn names(tasks: &[TaskDefinition]) -> Vec<String> {
    tasks.iter().map(|t| t.id.0.clone()).collect()
}

fn events(effects: &[Effect]) -> Vec<&'static str> {
    effects
        .iter()
        .filter_map(|e| match e {
            Effect::Append(p) => Some(p.kind_name()),
            _ => None,
        })
        .collect()
}

#[test]
fn chain_runs_to_completion() {
    let mut o = Orchestrator::new(10).with_node_id(NodeId("me".to_string()));
    o.submit(&wf("w"), dag(&["a", "b"], &[("a", "b")])).0.unwrap();
    assert_eq!(state(&o), Phase::Pending);
    let (first, effects) = o.start(&wf("w"), 5);
    let first = first.unwrap();
    assert_eq!(names(&first), vec!["a"]);
    assert_eq!(first[0].origin_node.as_ref().unwrap().0, "me");
    assert_eq!(events(&effects), vec!["Started"]);
    assert_eq!(o.get_state(&wf("w")).unwrap().started_at_ms(), Some(5));

    let (r, _) = o.on_task_completed(&wf("w"), &id("a"), vec![1, 2]);
    let (ready, conditional, terminal) = r.unwrap();
    assert_eq!(names(&ready), vec!["b"]);
    assert!(conditional.is_empty());
    assert!(!terminal);
    match &ready[0].payload {
        TaskPayload::Upstream { results, submitted } => {
            assert_eq!(results, &vec![vec![1, 2]]);
            assert_eq!(submitted, b"b");
        }
        other => panic!("unexpected {:?}", other),
    }

    let (r, effects) = o.on_task_completed(&wf("w"), &id("b"), vec![3]);
    assert!(r.unwrap().2);
    assert_eq!(state(&o), Phase::Completed);
    assert_eq!(events(&effects), vec!["TaskCompleted", "Completed"]);
    assert!(effects
        .iter()
        .any(|e| matches!(e, Effect::PersistResults(_, r) if r == &vec![vec![1, 2], vec![3]])));
    assert_eq!(o.get_results(&wf("w")).unwrap(), vec![vec![1, 2], vec![3]]);
    assert!(o.active_workflow_ids().is_empty());
}

#[test]
fn task_waits_for_all_that_it_depends_on() {
    let mut o = started(&["a", "b", "c"], &[("a", "c"), ("b", "c")]);
    let (ready, _, _) = o.on_task_completed(&wf("w"), &id("b"), vec![2]).0.unwrap();
    assert!(ready.is_empty());
    let (ready, _, _) = o.on_task_completed(&wf("w"), &id("a"), vec![1]).0.unwrap();
    assert_eq!(names(&ready), vec!["c"]);
    match &ready[0].payload {
        TaskPayload::Upstream { results, .. } => assert_eq!(results, &vec![vec![1], vec![2]]),
        other => panic!("unexpected {:?}", other),
    }
}

#[test]
fn successors_of_a_failed_task_never_run() {
    let mut o = Orchestrator::new(10);
    let mut d = dag(&["a", "b", "c"], &[("a", "c"), ("b", "c")]);
    d.failure_strategy = FailureStrategy::Continue;
    o.submit(&wf("w"), d).0.unwrap();
    o.start(&wf("w"), 0).0.unwrap();
    o.fail_task(&wf("w"), &id("a"), "boom".into(), FailureScope::TaskOnly).0.unwrap();
    let (ready, _, _) = o.on_task_completed(&wf("w"), &id("b"), vec![2]).0.unwrap();
    assert!(ready.is_empty());
    let slot = o.state.slot(&wf("w")).unwrap();
    assert_eq!(slot.pending.get(&"c".to_string()), Some(&1));
}

#[test]
fn duplicate_completion_is_ignored() {
    let mut o = started(&["a", "b"], &[]);
    o.on_task_completed(&wf("w"), &id("a"), vec![1]).0.unwrap();
    let (r, effects) = o.on_task_completed(&wf("w"), &id("a"), vec![9]);
    let (ready, _, terminal) = r.unwrap();
    assert!(ready.is_empty() && !terminal && effects.is_empty());
    assert_eq!(o.get_state(&wf("w")).unwrap().succeeded_count(), 1);
}

#[test]
fn unknown_workflow_is_not_found() {
    let mut o = Orchestrator::new(10);
    let expected = ActantError::NotFound("workflow w not found".to_string());
    assert_eq!(o.start(&wf("w"), 0).0.unwrap_err(), expected);
    assert_eq!(
        o.on_task_completed(&wf("w"), &id("a"), vec![]).0.unwrap_err(),
        expected
    );
    assert_eq!(o.cancel(&wf("w")).0.unwrap_err(), expected);
    assert_eq!(
        o.register_wait_point(&wf("w"), &"k".to_string(), WaitCondition::Suspend)
            .0
            .unwrap_err(),
        expected
    );
}

#[test]
fn workflow_is_submitted_once() {
    let mut o = started(&["a"], &[]);
    assert!(matches!(
        o.submit(&wf("w"), dag(&["a"], &[])).0,
        Err(ActantError::AlreadyExists(m)) if m == "workflow w already submitted"
    ));
    // An empty graph over a workflow that is there changes nothing.
    assert!(o.submit(&wf("w"), Dag::new()).0.is_ok());
    assert_eq!(o.get_dag(&wf("w")).unwrap().node_count(), 1);
}

#[test]
fn failure_fails_fast() {
    let mut o = started(&["a", "b"], &[]);
    let mut actor = WorkflowActor::new(o);
    let (r, effects) = actor.on_task_result(
        &wf("w"),
        &id("a"),
        TaskResultOutcome::Failed("boom".into()),
        None,
        ResultSource::Remote,
    );
    assert!(r.unwrap().is_none());
    o = actor.orchestrator;
    assert_eq!(state(&o), Phase::Failed);
    assert!(events(&effects).contains(&"TaskFailed"));
}

#[test]
fn failure_may_be_carried_on_from() {
    let mut o = Orchestrator::new(10);
    let mut d = dag(&["a", "b"], &[]);
    d.failure_strategy = FailureStrategy::Continue;
    o.submit(&wf("w"), d).0.unwrap();
    o.start(&wf("w"), 0).0.unwrap();
    let mut actor = WorkflowActor::new(o);
    actor
        .on_task_result(
            &wf("w"),
            &id("a"),
            TaskResultOutcome::Failed("boom".into()),
            None,
            ResultSource::Local,
        )
        .0
        .unwrap();
    assert_eq!(state(&actor.orchestrator), Phase::Running);
    actor.orchestrator.on_task_completed(&wf("w"), &id("b"), vec![]).0.unwrap();
    assert_eq!(state(&actor.orchestrator), Phase::Failed);
}

#[test]
fn results_of_older_dispatches_are_dropped() {
    let mut o = started(&["a"], &[]);
    o.mark_task_running(&wf("w"), &id("a")).0.unwrap();
    let again = o.reschedule_running_tasks(&wf("w")).unwrap();
    assert_eq!(again[0].attempt, 1);
    let mut actor = WorkflowActor::new(o);
    let (r, effects) = actor.on_task_result(
        &wf("w"),
        &id("a"),
        TaskResultOutcome::Completed(vec![1]),
        Some(0),
        ResultSource::Remote,
    );
    assert!(r.unwrap().is_none());
    assert!(effects.is_empty());
    assert_eq!(state(&actor.orchestrator), Phase::Running);
    let (r, _) = actor.on_task_result(
        &wf("w"),
        &id("a"),
        TaskResultOutcome::Completed(vec![1]),
        Some(1),
        ResultSource::Remote,
    );
    assert!(r.unwrap().unwrap().workflow_terminal);
}

#[test]
fn ended_workflow_absorbs_results() {
    let mut actor = WorkflowActor::new(started(&["a", "b"], &[]));
    actor.orchestrator.cancel(&wf("w")).0.unwrap();
    assert_eq!(state(&actor.orchestrator), Phase::Cancelled);
    actor
        .on_task_result(
            &wf("w"),
            &id("a"),
            TaskResultOutcome::Completed(vec![1]),
            None,
            ResultSource::Gossip,
        )
        .0
        .unwrap();
    assert_eq!(state(&actor.orchestrator), Phase::Cancelled);
    assert_eq!(
        actor.orchestrator.get_state(&wf("w")).unwrap().succeeded_count(),
        0
    );
}

#[test]
fn cancelling_again_changes_nothing() {
    let mut o = started(&["a"], &[]);
    let (r, effects) = o.cancel(&wf("w"));
    r.unwrap();
    assert!(events(&effects).contains(&"Cancelled"));
    let (r, effects) = o.cancel(&wf("w"));
    r.unwrap();
    assert!(effects.is_empty());
}

fn task_phase(o: &Orchestrator, name: &str) -> Phase {
    o.get_state(&wf("w")).unwrap().tasks.get(&name.to_string()).unwrap().state
}

/// `a` leads to `b` under a condition; `a` is done.
fn branching() -> (Orchestrator, Vec<(TaskId, String)>) {
    let mut o = Orchestrator::new(10);
    let mut d = dag(&["a", "b"], &[]);
    d.add_conditional_edge(id("a"), id("b"), "x > 1".to_string()).unwrap();
    o.submit(&wf("w"), d).0.unwrap();
    assert_eq!(names(&o.start(&wf("w"), 0).0.unwrap()), vec!["a"]);
    let (ready, conditional, terminal) =
        o.on_task_completed(&wf("w"), &id("a"), vec![1]).0.unwrap();
    assert!(ready.is_empty() && !terminal);
    (o, conditional)
}

#[test]
fn conditional_branch_waits_for_its_condition() {
    let (mut o, conditional) = branching();
    assert_eq!(conditional.len(), 1);
    assert_eq!(conditional[0].0 .0, "b");
    assert_eq!(conditional[0].1, "x > 1");
    assert_eq!(task_phase(&o, "b"), Phase::Pending);
    let (r, _) = o.settle_condition(&wf("w"), &id("b"), true);
    assert_eq!(names(&r.unwrap()), vec!["b"]);
    assert_eq!(state(&o), Phase::Running);
}

#[test]
fn refused_condition_skips_its_branch() {
    let (mut o, _) = branching();
    let (r, effects) = o.settle_condition(&wf("w"), &id("b"), false);
    assert!(r.unwrap().is_empty());
    assert_eq!(task_phase(&o, "b"), Phase::Skipped);
    assert_eq!(state(&o), Phase::Completed);
    assert_eq!(events(&effects), vec!["Completed"]);
}

#[test]
fn refused_condition_leaves_other_predecessors_in_force() {
    let mut o = Orchestrator::new(10);
    let mut d = dag(&["a", "b", "c"], &[("c", "b")]);
    d.add_conditional_edge(id("a"), id("b"), "x > 1".to_string()).unwrap();
    o.submit(&wf("w"), d).0.unwrap();
    o.start(&wf("w"), 0).0.unwrap();
    o.on_task_completed(&wf("w"), &id("c"), vec![3]).0.unwrap();
    o.on_task_completed(&wf("w"), &id("a"), vec![1]).0.unwrap();
    let (r, _) = o.skip_conditional_branch(&wf("w"), &id("b"));
    assert_eq!(names(&r.unwrap()), vec!["b"]);
}

#[test]
fn branch_without_results_is_skipped() {
    let mut o = Orchestrator::new(10);
    let mut d = dag(&["a", "b"], &[]);
    d.add_conditional_edge(id("a"), id("b"), "x > 1".to_string()).unwrap();
    o.submit(&wf("w"), d).0.unwrap();
    o.start(&wf("w"), 0).0.unwrap();
    let (r, _) = o.settle_condition(&wf("w"), &id("b"), false);
    assert!(r.unwrap().is_empty());
    let x = o.get_state(&wf("w")).unwrap();
    assert_eq!(x.tasks.get(&"b".to_string()).unwrap().state, Phase::Skipped);
    assert_eq!(state(&o), Phase::Running);
    assert!(o.on_task_completed(&wf("w"), &id("a"), vec![]).0.unwrap().2);
    assert_eq!(state(&o), Phase::Completed);
}

#[test]
fn skipping_cascades() {
    let mut o = Orchestrator::new(10);
    let mut d = dag(&["a", "b", "c", "d"], &[("b", "c"), ("a", "d"), ("c", "d")]);
    d.add_conditional_edge(id("a"), id("b"), "never".to_string()).unwrap();
    o.submit(&wf("w"), d).0.unwrap();
    o.start(&wf("w"), 0).0.unwrap();
    let (r, _) = o.skip_conditional_branch(&wf("w"), &id("b"));
    assert!(r.unwrap().is_empty());
    let x = o.get_state(&wf("w")).unwrap();
    assert_eq!(x.tasks.get(&"b".to_string()).unwrap().state, Phase::Skipped);
    assert_eq!(x.tasks.get(&"c".to_string()).unwrap().state, Phase::Skipped);
    assert_eq!(x.tasks.get(&"d".to_string()).unwrap().state, Phase::Pending);
    // The task that depends on both branches still runs.
    let (ready, _, _) = o.on_task_completed(&wf("w"), &id("a"), vec![1]).0.unwrap();
    assert_eq!(names(&ready), vec!["d"]);
}

struct Table;

impl ConditionEvaluator for Table {
    fn evaluate(
        &self,
        _workflow_id: &WorkflowId,
        _task_id: &TaskId,
        condition: &String,
    ) -> Result<bool, ActantError> {
        match condition.as_str() {
            "yes" => Ok(true),
            "no" => Ok(false),
            _ => Err(ActantError::Internal("cannot tell".into())),
        }
    }
}

#[test]
fn edges_are_evaluated_one_by_one() {
    let edges = vec![
        (id("a"), "yes".to_string()),
        (id("b"), "maybe".to_string()),
        (id("c"), "no".to_string()),
    ];
    assert_eq!(
        evaluate_edges(&Table, &wf("w"), &id("t"), &edges),
        vec![Some(true), None, Some(false)]
    );
}

#[test]
fn conditions_are_settled_one_by_one() {
    let mut o = Orchestrator::new(10);
    let mut d = dag(&["t", "a", "b", "c"], &[]);
    for (to, condition) in [("a", "yes"), ("b", "maybe"), ("c", "no")] {
        d.add_conditional_edge(id("t"), id(to), condition.to_string()).unwrap();
    }
    o.submit(&wf("w"), d).0.unwrap();
    o.start(&wf("w"), 0).0.unwrap();
    let (_, edges, _) = o.on_task_completed(&wf("w"), &id("t"), vec![1]).0.unwrap();
    assert_eq!(edges.len(), 3);
    let (r, _) = o.process_conditional_edges(&Table, &wf("w"), &id("t"), &edges);
    let (ready, deferred) = r.unwrap();
    assert_eq!(names(&ready), vec!["a"]);
    assert_eq!(deferred, vec![(id("b"), "maybe".to_string())]);
    assert_eq!(task_phase(&o, "b"), Phase::Pending);
    assert_eq!(task_phase(&o, "c"), Phase::Skipped);

    let unknown = o.settle_conditions(&wf("v"), &edges, &vec![None, Some(true), None]).0;
    assert!(matches!(unknown, Err(ActantError::NotFound(_))));
}

/// Says the same of every condition.
struct Always(bool);

impl ConditionEvaluator for Always {
    fn evaluate(
        &self,
        _workflow_id: &WorkflowId,
        _task_id: &TaskId,
        _condition: &String,
    ) -> Result<bool, ActantError> {
        Ok(self.0)
    }
}

fn one_condition(condition: &str, retention: usize) -> Orchestrator {
    let mut o = Orchestrator::new(retention);
    let mut d = dag(&["a", "b"], &[]);
    d.add_conditional_edge(id("a"), id("b"), condition.to_string()).unwrap();
    o.submit(&wf("w"), d).0.unwrap();
    o.start(&wf("w"), 0).0.unwrap();
    o
}

#[test]
fn completing_and_settling_is_one_step() {
    let mut o = one_condition("x", 10);
    let (r, effects) = o.complete_and_settle(&Always(false), &wf("w"), &id("a"), vec![1]);
    let (ready, edges, ended) = r.unwrap();
    assert!(ready.is_empty() && edges.is_empty() && !ended);
    assert_eq!(task_phase(&o, "b"), Phase::Skipped);
    assert_eq!(state(&o), Phase::Completed);
    assert_eq!(events(&effects)[0], "TaskCompleted");
    assert!(events(&effects).contains(&"Completed"));

    let mut o = one_condition("x", 10);
    let (r, _) = o.complete_and_settle(&Always(true), &wf("w"), &id("a"), vec![1]);
    let (ready, edges, ended) = r.unwrap();
    assert_eq!(names(&ready), vec!["b"]);
    assert!(edges.is_empty() && !ended);

    // What cannot be decided is handed back.
    let mut o = one_condition("maybe", 10);
    let (r, _) = o.complete_and_settle(&Table, &wf("w"), &id("a"), vec![1]);
    let (ready, edges, ended) = r.unwrap();
    assert!(ready.is_empty() && !ended);
    assert_eq!(edges, vec![(id("b"), "maybe".to_string())]);
    assert_eq!(task_phase(&o, "b"), Phase::Pending);

    let (r, effects) = o.complete_and_settle(&Table, &wf("v"), &id("a"), vec![1]);
    assert!(matches!(r, Err(ActantError::NotFound(_))) && effects.is_empty());
}

#[test]
fn last_task_completes_a_workflow_that_is_not_kept() {
    let mut o = Orchestrator::new(0);
    o.submit(&wf("w"), dag(&["a"], &[])).0.unwrap();
    o.start(&wf("w"), 0).0.unwrap();
    let (ready, edges, ended) = o.on_task_completed(&wf("w"), &id("a"), vec![1]).0.unwrap();
    assert!(ready.is_empty() && edges.is_empty() && ended);
    assert!(!o.has_workflow(&wf("w")));
}

#[test]
fn a_submission_is_stored_first() {
    let mut o = Orchestrator::new(10);
    let (r, effects) = o.submit(&wf("w"), dag(&["a", "b"], &[("a", "b")]));
    r.unwrap();
    assert!(matches!(&effects[0], Effect::PersistWorkflow(w) if w.0 == "w"));
    assert_eq!(events(&effects), vec!["Submitted", "NodeAdded", "NodeAdded"]);
    assert_eq!(effects.len(), 4);
    let (r, effects) = o.submit_with_timeout(&wf("v"), dag(&["a"], &[]), 9);
    r.unwrap();
    assert!(matches!(&effects[0], Effect::PersistWorkflow(w) if w.0 == "v"));
    assert_eq!(effects.len(), 3);
    // Submitting it again stores nothing.
    let (r, effects) = o.submit(&wf("w"), dag(&["a"], &[]));
    assert!(matches!(r, Err(ActantError::AlreadyExists(_))) && effects.is_empty());
}

#[test]
fn what_was_submitted_is_recovered() {
    let mut o = Orchestrator::new(10);
    o.submit(&wf("w"), dag(&["a", "b"], &[("a", "b")])).0.unwrap();
    let (_, execution, pending) = o.workflow_parts(&wf("w")).unwrap();
    let mut stored_execution = WorkflowExecution::new(wf("w"), vec![id("a"), id("b")]);
    stored_execution.failure_strategy = execution.failure_strategy;
    let bytes = archive_pending(pending).unwrap();
    let (r, _) = Orchestrator::recover(
        Stored {
            dags: vec![(wf("w"), Some(dag(&["a", "b"], &[("a", "b")])))],
            executions: vec![(wf("w"), Some(stored_execution))],
            pendings: vec![(wf("w"), read_pending(&bytes))],
            waits: vec![],
            signals: vec![],
        },
        10,
    );
    let (_, execution, pending) = r.workflow_parts(&wf("w")).unwrap();
    assert_eq!(execution.state, Phase::Pending);
    assert_eq!(execution.total_count(), 2);
    assert_eq!(pending.get(&"a".to_string()), Some(&0));
    assert_eq!(pending.get(&"b".to_string()), Some(&1));
    assert_eq!(names(&r.recover_ready_tasks()), vec!["a"]);
}

#[test]
fn pending_counts_round_trip() {
    let mut pending: KeyMap<usize> = KeyMap::new();
    pending.insert("a".into(), 0);
    pending.insert("a task with a longer name".into(), 7);
    let bytes = archive_pending(&pending).unwrap();
    let back = read_pending(&bytes).unwrap();
    assert_eq!(back.len(), 2);
    assert_eq!(back.get(&"a".to_string()), Some(&0));
    assert_eq!(back.get(&"a task with a longer name".to_string()), Some(&7));
    assert_eq!(read_pending(&archive_pending(&KeyMap::new()).unwrap()).unwrap().len(), 0);
    assert!(read_pending(&vec![1, 2, 3]).is_none());
}

#[test]
fn wait_points_and_signals_are_recovered() {
    let mut waits = table::Table::new();
    waits.insert("s".to_string(), WaitPoint::waiting(WaitCondition::Suspend));
    let mut signals = table::Table::new();
    signals.insert("early".to_string(), vec![]);
    let (mut r, _) = Orchestrator::recover(
        Stored {
            dags: vec![(wf("w"), Some(dag(&["a"], &[])))],
            executions: vec![],
            pendings: vec![],
            waits: vec![(wf("w"), Some(waits)), (wf("v"), None)],
            signals: vec![(wf("w"), Some(signals))],
        },
        10,
    );
    assert_eq!(r.resume_suspended(&wf("w")).0, 1);
    let early = WaitCondition::Signal { name: "early".to_string() };
    r.register_wait_point(&wf("w"), &"early".to_string(), early).0.unwrap();
    assert_eq!(r.wait_payload(&wf("w"), &"early".to_string()), Some(vec![]));
}

#[test]
fn the_default_graph_is_empty() {
    let d = Dag::default();
    assert_eq!(d.node_count(), 0);
    assert_eq!(d.failure_strategy, FailureStrategy::FailFast);
    assert!(d.default_retry_policy.is_none());
}

#[test]
fn nodes_can_be_added_to_a_running_workflow() {
    let mut o = Orchestrator::new(10);
    o.submit(&wf("w"), Dag::new()).0.unwrap();
    let (r, effects) = o.add_node(&wf("w"), dag_node("a"), vec![], 7);
    match r.unwrap() {
        AddNodeOutcome::Created { ready } => assert_eq!(ready.unwrap().id.0, "a"),
        other => panic!("unexpected {:?}", other),
    }
    assert!(events(&effects).contains(&"NodeAdded"));
    match o.add_node(&wf("w"), dag_node("b"), vec![id("a")], 8).0.unwrap() {
        AddNodeOutcome::Created { ready } => assert!(ready.is_none()),
        other => panic!("unexpected {:?}", other),
    }
    let (ready, _, terminal) = o.on_task_completed(&wf("w"), &id("a"), vec![1]).0.unwrap();
    assert_eq!(names(&ready), vec!["b"]);
    assert!(!terminal);
    // The same node again is found as it stands.
    match o.add_node(&wf("w"), dag_node("a"), vec![], 9).0.unwrap() {
        AddNodeOutcome::Existing { state, result, .. } => {
            assert_eq!(state, Phase::Completed);
            assert_eq!(result, Some(vec![1]));
        }
        other => panic!("unexpected {:?}", other),
    }
    // Another node under the same name is refused.
    let mut other = dag_node("a");
    other.payload = vec![0];
    assert!(matches!(
        o.add_node(&wf("w"), other, vec![], 9).0,
        Err(ActantError::Replay(_))
    ));
    // Until it is sealed the workflow does not end.
    assert!(!o.on_task_completed(&wf("w"), &id("b"), vec![]).0.unwrap().2);
    assert_eq!(state(&o), Phase::Running);
    let (r, effects) = o.seal_workflow(&wf("w"));
    r.unwrap();
    assert_eq!(state(&o), Phase::Completed);
    assert!(events(&effects).contains(&"Completed"));
    let (r, effects) = o.seal_workflow(&wf("w"));
    assert!(r.is_ok() && effects.is_empty());
}

#[test]
fn failed_task_is_retried_as_often_as_allowed() {
    let mut o = Orchestrator::new(10);
    let mut d = Dag::new();
    let mut n = dag_node("a");
    n.retry_policy = Some(RetryPolicy {
        max_retries: 1,
        delay_ms: 40,
        backoff_multiplier_bits: 2.0f64.to_bits(),
        max_delay_ms: 1_000,
    });
    d.add_node(n).unwrap();
    o.submit(&wf("w"), d).0.unwrap();
    o.start(&wf("w"), 0).0.unwrap();
    o.mark_task_running(&wf("w"), &id("a")).0.unwrap();
    assert_eq!(o.get_retry_info(&wf("w"), &id("a")).unwrap().0, 0);
    let (r, _) = o.handle_task_failure(&wf("w"), &id("a"), "once".into());
    let (task, _delay) = r.unwrap().unwrap();
    assert_eq!(task.attempt, 1);
    assert_eq!(o.get_retry_info(&wf("w"), &id("a")).unwrap().0, 1);
    // The attempt that failed is no longer heard.
    assert!(!o.result_attempt_accepted(&wf("w"), &id("a"), Some(0)));
    assert!(o.result_attempt_accepted(&wf("w"), &id("a"), Some(1)));
    o.mark_task_running(&wf("w"), &id("a")).0.unwrap();
    let (r, _) = o.handle_task_failure(&wf("w"), &id("a"), "twice".into());
    assert!(r.unwrap().is_none());
    assert_eq!(state(&o), Phase::Failed);
}

#[test]
fn early_signal_is_not_lost() {
    let mut o = started(&["a"], &[]);
    let key = "k".to_string();
    let signal = WaitCondition::Signal { name: "go".to_string() };
    let (r, effects) = o.signal_wait_point(&wf("w"), &key);
    assert!(r.unwrap().is_none());
    assert_eq!(events(&effects), vec!["SignalReceived"]);
    // A second signal is the same signal.
    assert!(o.signal_wait_point(&wf("w"), &key).1.is_empty());
    o.register_wait_point(&wf("w"), &key, signal).0.unwrap();
    assert_eq!(o.wait_payload(&wf("w"), &key), Some(vec![]));
}

#[test]
fn registered_wait_is_woken_once() {
    let mut o = started(&["a"], &[]);
    let key = "k".to_string();
    let (r, effects) = o.register_wait_point(
        &wf("w"),
        &key,
        WaitCondition::Signal { name: "go".to_string() },
    );
    r.unwrap();
    assert_eq!(events(&effects), vec!["WaitPointRegistered"]);
    assert_eq!(o.wait_payload(&wf("w"), &key), None);
    let again = o.register_wait_point(
        &wf("w"),
        &key,
        WaitCondition::Signal { name: "go".to_string() },
    );
    assert!(again.0.is_ok() && again.1.is_empty());
    let (r, effects) = o.signal_wait_point(&wf("w"), &key);
    assert_eq!(r.unwrap(), Some(vec![]));
    assert!(effects.iter().any(|e| matches!(e, Effect::Wake(_, k, _) if k == "k")));
    let (r, effects) = o.signal_wait_point(&wf("w"), &key);
    assert_eq!(r.unwrap(), Some(vec![]));
    assert!(effects.is_empty());
}

#[test]
fn signal_meets_no_timer_and_no_operator() {
    let mut o = started(&["a"], &[]);
    let timer = "t".to_string();
    let suspended = "s".to_string();
    let due = WaitCondition::Timer { deadline_ms: 50 };
    o.register_wait_point(&wf("w"), &timer, due).0.unwrap();
    o.register_wait_point(&wf("w"), &suspended, WaitCondition::Suspend).0.unwrap();
    let (r, effects) = o.signal_wait_point(&wf("w"), &timer);
    assert_eq!(r.unwrap(), None);
    assert_eq!(events(&effects), vec!["SignalReceived"]);
    let (r, effects) = o.signal_wait_point(&wf("w"), &suspended);
    assert_eq!(r.unwrap(), None);
    assert_eq!(events(&effects), vec!["SignalReceived"]);
    let (r, effects) = o.signal_wait_point(&wf("w"), &suspended);
    assert_eq!(r.unwrap(), None);
    assert!(effects.is_empty());
    assert_eq!(o.wait_payload(&wf("w"), &timer), None);
    assert_eq!(o.wait_payload(&wf("w"), &suspended), None);
    // What the history says of the signal does not meet the timer either.
    let received = WorkflowEventPayload::SignalReceived {
        workflow_id: wf("w"),
        wait_key: timer.clone(),
        payload: vec![],
    };
    o.replay_events(vec![received], 0);
    assert_eq!(o.wait_payload(&wf("w"), &timer), None);
    assert_eq!(o.poll_expired_timers(50).0.len(), 1);
    assert_eq!(o.resume_suspended(&wf("w")).0, 1);
}

#[test]
fn wait_key_must_not_be_empty() {
    let mut o = started(&["a"], &[]);
    let expected = ActantError::Config("wait_key must not be empty".to_string());
    let empty = String::new();
    assert_eq!(
        o.register_wait_point(&wf("w"), &empty, WaitCondition::Suspend).0.unwrap_err(),
        expected
    );
    assert_eq!(o.signal_wait_point(&wf("w"), &empty).0.unwrap_err(), expected);
}

#[test]
fn timers_fire_when_due() {
    let mut o = started(&["a"], &[]);
    o.register_wait_point(&wf("w"), &"t".to_string(), WaitCondition::Timer { deadline_ms: 50 })
        .0
        .unwrap();
    assert!(o.poll_expired_timers(49).0.is_empty());
    let (fired, effects) = o.poll_expired_timers(50);
    assert_eq!(fired.len(), 1);
    assert_eq!(fired[0].1, "t");
    assert_eq!(events(&effects), vec!["TimerFired"]);
    assert!(o.poll_expired_timers(60).0.is_empty());
}

#[test]
fn suspended_waits_are_resumed_once() {
    let mut o = started(&["a"], &[]);
    for k in ["s1", "s2"] {
        o.register_wait_point(&wf("w"), &k.to_string(), WaitCondition::Suspend).0.unwrap();
    }
    assert_eq!(o.resume_suspended(&wf("w")).0, 2);
    assert_eq!(o.resume_suspended(&wf("w")).0, 0);
}

#[test]
fn overdue_workflows_fail() {
    let mut o = Orchestrator::new(10);
    o.submit_with_timeout(&wf("w"), dag(&["a"], &[]), 100).0.unwrap();
    o.start(&wf("w"), 1_000).0.unwrap();
    o.mark_task_running(&wf("w"), &id("a")).0.unwrap();
    assert!(o.get_expired_workflow_ids(1_050).is_empty());
    assert!(o.expire_workflows(1_050).0.is_empty());
    let (gone, effects) = o.expire_workflows(2_000);
    assert_eq!(gone.len(), 1);
    let x = o.get_state(&wf("w")).unwrap();
    assert_eq!(x.state, Phase::Failed);
    assert_eq!(x.error.as_deref(), Some("workflow timeout exceeded"));
    assert!(effects
        .iter()
        .any(|e| matches!(e, Effect::CancelEverywhere(_, t) if t.0 == "a")));
}

#[test]
fn changed_workflows_are_due_until_stored() {
    let mut o = started(&["a"], &[]);
    o.mark_task_running(&wf("w"), &id("a")).0.unwrap();
    let due = o.take_flush();
    assert_eq!(due.len(), 1);
    assert_eq!(due[0].workflow_id.0, "w");
    assert!(!due[0].has_waits);
    assert!(due[0].keys().contains(&"orch:exec:w".to_string()));
    assert!(o.take_flush().is_empty());
    o.mark_unflushed(&vec![wf("w")]);
    assert_eq!(o.take_flush().len(), 1);
}

#[test]
fn adopted_workflow_waits_for_its_graph() {
    let mut o = Orchestrator::new(10);
    o.adopt_workflow(&wf("w"), None);
    assert!(o.has_workflow(&wf("w")));
    assert!(matches!(
        o.start(&wf("w"), 0).0,
        Err(ActantError::InvalidState(m))
            if m == "workflow w is still loading (placeholder), cannot start"
    ));
    let (restored, effects) =
        o.restore_workflow_from_parts(&wf("w"), Some(dag(&["a"], &[])), None, None);
    assert!(restored);
    assert!(matches!(effects[0], Effect::PersistWorkflow(_)));
    assert_eq!(names(&o.start(&wf("w"), 0).0.unwrap()), vec!["a"]);
    assert!(!o.restore_workflow_from_parts(&wf("v"), None, None, None).0);
    let effects = o.delete_workflow(&wf("w"));
    assert!(matches!(effects[0], Effect::Erase(_)));
    assert!(!o.has_workflow(&wf("w")));
}

fn taken(o: &Orchestrator) -> (Dag, WorkflowExecution) {
    let mut d = dag(&["a", "b"], &[]);
    d.add_edge(id("a"), id("b")).unwrap();
    let mut x = WorkflowExecution::new(wf("w"), vec![id("a"), id("b")]);
    if state(o) == Phase::Running {
        x.mark_running_at(1);
    }
    (d, x)
}

#[test]
fn recovery_takes_up_stored_workflows() {
    let o = started(&["a", "b"], &[("a", "b")]);
    let (d, x) = taken(&o);
    let mut pending: KeyMap<usize> = KeyMap::new();
    pending.insert("a".into(), 0);
    pending.insert("b".into(), 1);
    let (mut r, _) = Orchestrator::recover(
        Stored {
            dags: vec![(wf("w"), Some(d)), (wf("bad"), None)],
            executions: vec![(wf("w"), Some(x))],
            pendings: vec![(wf("w"), Some(pending))],
            waits: vec![],
            signals: vec![],
        },
        10,
    );
    assert!(r.has_workflow(&wf("w")));
    assert!(!r.has_workflow(&wf("bad")));
    assert_eq!(names(&r.recover_ready_tasks()), vec!["a"]);
    let targets = r.replay_targets(&KeyMap::new());
    assert_eq!(targets.len(), 1);
    assert_eq!(targets[0].1, None);

    // What was logged after the workflow was stored is not lost.
    let done = || WorkflowEventPayload::TaskCompleted {
        workflow_id: wf("w"),
        task_id: id("a"),
        result: vec![7],
    };
    r.replay_events(vec![done(), done()], 0);
    let x = r.get_state(&wf("w")).unwrap();
    assert_eq!(x.succeeded_count(), 1);
    assert_eq!(names(&r.recover_ready_tasks()), vec!["b"]);
    let effects = r.replay_events(
        vec![WorkflowEventPayload::TaskCompleted {
            workflow_id: wf("w"),
            task_id: id("b"),
            result: vec![8],
        }],
        0,
    );
    assert_eq!(state(&r), Phase::Completed);
    assert!(effects.iter().any(|e| matches!(e, Effect::PersistResults(_, _))));
}

/// A workflow with a running, a failed and a completed task.
fn half_done() -> (Dag, WorkflowExecution) {
    let d = dag(&["x", "f", "c"], &[]);
    let mut e = WorkflowExecution::new(wf("w"), vec![id("x"), id("f"), id("c")])
        .with_failure_strategy(FailureStrategy::Continue);
    e.mark_running_at(1);
    e.mark_task_running(&id("x"));
    e.fail_task(&id("f"), "boom".into(), FailureScope::WorkflowLevel, None);
    assert!(e.mark_task_completed(&id("c"), vec![3], None));
    (d, e)
}

fn check_half_done(o: &Orchestrator) {
    let e = o.get_state(&wf("w")).unwrap();
    let task = |name: &str| e.tasks.get(&name.to_string()).unwrap();
    assert_eq!(task("x").state, Phase::Pending);
    assert_eq!(task("x").attempt(), 1);
    assert_eq!(task("f").state, Phase::Failed);
    assert_eq!(task("f").error.as_deref(), Some("boom"));
    assert_eq!(task("f").attempt(), 0);
    assert_eq!(task("c").state, Phase::Completed);
    assert_eq!(task("c").result, Some(vec![3]));
    assert_eq!(e.succeeded_count(), 1);
    assert_eq!(e.total_count(), 3);
}

#[test]
fn recovery_resets_running_tasks_only() {
    let (d, e) = half_done();
    let mut pending: KeyMap<usize> = KeyMap::new();
    for k in ["x", "f", "c"] {
        pending.insert(k.into(), 0);
    }
    let stored = Stored {
        dags: vec![(wf("w"), Some(d))],
        executions: vec![(wf("w"), Some(e))],
        pendings: vec![(wf("w"), Some(pending))],
        waits: vec![],
        signals: vec![],
    };
    let (o, _) = Orchestrator::recover(stored, 10);
    check_half_done(&o);
    assert_eq!(names(&o.recover_ready_tasks()), vec!["x"]);
}

#[test]
fn adoption_resets_running_tasks_only() {
    let (d, e) = half_done();
    let mut o = Orchestrator::new(10);
    o.adopt_workflow(&wf("w"), Some((d, Some(e))));
    check_half_done(&o);
    let (d, e) = half_done();
    let mut o = Orchestrator::new(10);
    assert!(o.restore_workflow_from_parts(&wf("w"), Some(d), Some(e), None).0);
    check_half_done(&o);
}

#[test]
fn counters_that_disagree_are_counted_again() {
    let (d, mut e) = half_done();
    e.succeeded_count = 7;
    e.skipped_count = 2;
    e.total_count = 0;
    let mut o = Orchestrator::new(10);
    o.adopt_workflow(&wf("w"), Some((d, Some(e))));
    check_half_done(&o);
    let (d, mut e) = half_done();
    e.succeeded_count = 0;
    let stored = Stored {
        dags: vec![(wf("w"), Some(d))],
        executions: vec![(wf("w"), Some(e))],
        pendings: vec![],
        waits: vec![],
        signals: vec![],
    };
    check_half_done(&Orchestrator::recover(stored, 10).0);
}

#[test]
fn watermarks_are_read_from() {
    let o = started(&["a"], &[]);
    let mut marks: KeyMap<EventId> = KeyMap::new();
    let mark = EventId { timestamp: HlcTimestamp::from_parts(4, 0), sequence: 2 };
    marks.insert("w".into(), mark);
    let targets = o.replay_targets(&marks);
    assert_eq!(targets[0].0 .0, "w");
    assert_eq!(targets[0].1, Some(mark));
}

#[test]
fn keys_name_their_workflow() {
    assert_eq!(dag_key(&wf("w")), "orch:dag:w");
    assert_eq!(exec_key(&wf("w")), "orch:exec:w");
    assert_eq!(pending_key(&wf("w")), "orch:pending:w");
    assert_eq!(result_key(&wf("w")), "orch:result:w");
    assert_eq!(wait_key(&wf("w")), "orch:wait:w");
    assert_eq!(event_seq_key(&wf("w")), "orch:eventseq:w");
    assert_eq!(signals_key(&wf("w")), "orch:sigbuf:w");
    assert_eq!(workflow_of_key(STORE_KEY_DAG, "orch:dag:w").0, "w");
}

#[test]
fn whole_state_needs_graph_and_execution() {
    assert!(whole_state(None, Some(vec![1]), Some(vec![2])).is_none());
    assert_eq!(
        whole_state(Some(vec![1]), Some(vec![2]), Some(vec![3])),
        Some((vec![1], vec![2], vec![3]))
    );
}

#[test]
fn actor_takes_commands() {
    let mut actor = WorkflowActor::new(Orchestrator::new(10));
    let (r, _) = actor.handle_message(
        WorkflowCommand::Submit { workflow_id: wf("w"), dag: dag(&["a"], &[]) },
        0,
    );
    assert!(matches!(r, Ok(WorkflowReply::Done)));
    let (r, _) = actor.handle_message(WorkflowCommand::Start { workflow_id: wf("w") }, 3);
    assert!(matches!(r, Ok(WorkflowReply::Tasks(t)) if t.len() == 1));
    let (r, effects) = actor.handle_message(
        WorkflowCommand::TaskDispatched { workflow_id: wf("w"), task_id: id("a") },
        3,
    );
    assert!(r.is_ok());
    assert_eq!(events(&effects), vec!["TaskDispatched"]);
    match actor.answer(&WorkflowQuery::ActiveWorkflowIds) {
        WorkflowAnswer::Ids(ids) => assert_eq!(ids[0].0, "w"),
        _ => panic!("no ids"),
    }
    assert!(matches!(
        actor.answer(&WorkflowQuery::GetState { workflow_id: wf("v") }),
        WorkflowAnswer::State(None)
    ));
    assert!(matches!(
        actor.answer(&WorkflowQuery::GetWorkflowState { workflow_id: wf("w") }),
        WorkflowAnswer::Parts(Some(_))
    ));
    let (r, _) = actor.handle_message(
        WorkflowCommand::CompleteTask { workflow_id: wf("w"), task_id: id("a"), result: vec![1] },
        4,
    );
    assert!(matches!(r, Ok(WorkflowReply::Completion(c)) if c.workflow_terminal));
    let (r, _) = actor.handle_message(
        WorkflowCommand::FailTask { workflow_id: wf("v"), task_id: id("a"), error: "e".into() },
        4,
    );
    assert!(matches!(r, Err(ActantError::NotFound(_))));
    let (r, effects) =
        actor.handle_message(WorkflowCommand::DeleteWorkflow { workflow_id: wf("w") }, 5);
    assert!(r.is_ok() && matches!(effects[0], Effect::Erase(_)));
}

#[test]
fn methods_have_names() {
    assert!(matches!(WorkflowMethod::parse("on_task_result"), Ok(WorkflowMethod::OnTaskResult)));
    assert!(matches!(
        WorkflowMethod::parse("nope"),
        Err(ActantError::Actor(m)) if m == "WorkflowActor: unknown method nope"
    ));
    assert!(matches!(SchedulerMethod::parse("drain_unrouted"), Ok(SchedulerMethod::DrainUnrouted)));
    assert!(matches!(
        SchedulerMethod::parse("nope"),
        Err(ActantError::Actor(m)) if m == "SchedulerActor: unknown method nope"
    ));
    assert!(matches!(FailoverMethod::parse("handle_claim"), Ok(FailoverMethod::HandleClaim)));
    assert!(FailoverMethod::parse("").is_err());
    assert!(matches!(
        GossipMethod::parse("broadcast_heads"),
        Ok(GossipMethod::BroadcastHeads)
    ));
    assert!(GossipMethod::parse("Broadcast_heads").is_err());
}

fn queued(name: &str, priority: i32) -> TaskDefinition {
    TaskDefinition {
        id: id(name),
        name: name.to_string(),
        payload: TaskPayload::Submitted(vec![]),
        workflow_id: None,
        target_node: None,
        origin_node: None,
        retry_policy: None,
        priority,
        timeout_ms: None,
        attempt: 0,
        enqueued_at_ms: 0,
        target_endpoint_addr: None,
        origin_endpoint_addr: None,
    }
}

#[test]
fn fifo_keeps_the_order() {
    let mut q = InnerScheduler::fifo();
    for (n, p) in [("a", 1), ("b", 9), ("c", 5)] {
        q.enqueue_at(queued(n, p), 7).unwrap();
    }
    assert_eq!(names(&q.dequeue_batch(10)), vec!["a", "b", "c"]);
}

#[test]
fn priority_comes_first_and_keeps_the_order_within() {
    let mut q = InnerScheduler::priority();
    q.enqueue_batch(
        vec![queued("a", 1), queued("b", 9), queued("c", 9), queued("d", -1)],
        7,
    )
    .unwrap();
    assert_eq!(q.len(), 4);
    let first = q.try_dequeue().unwrap();
    assert_eq!((first.id.0.as_str(), first.enqueued_at_ms), ("b", 7));
    assert_eq!(names(&q.dequeue_batch(2)), vec!["c", "a"]);
    assert_eq!(names(&q.dequeue_batch(2)), vec!["d"]);
}

#[test]
fn closed_queue_hands_out_but_takes_nothing() {
    let mut q = InnerScheduler::fifo();
    q.enqueue(queued("a", 0)).unwrap();
    q.close();
    assert!(q.is_closed());
    assert_eq!(
        q.enqueue_at(queued("b", 0), 1).unwrap_err(),
        ActantError::Internal("scheduler is closed".to_string())
    );
    assert!(matches!(q.next_step(), DequeueStep::Run(t) if t.id.0 == "a"));
    assert!(matches!(q.next_step(), DequeueStep::Stop));
    assert!(matches!(InnerScheduler::fifo().next_step(), DequeueStep::Wait));
}

#[test]
fn unrouted_tasks_can_be_drained() {
    let mut q = InnerScheduler::priority();
    let mut bound = queued("bound", 3);
    bound.target_node = Some(NodeId("n".into()));
    q.enqueue_batch(vec![queued("a", 1), bound, queued("b", 2)], 0).unwrap();
    assert_eq!(names(&q.drain_unrouted()), vec!["b", "a"]);
    assert_eq!(q.len(), 1);
}

#[test]
fn scheduler_actor_takes_commands() {
    let mut a = priority_scheduler_actor();
    let (r, wake) = a.handle_message(SchedulerCommand::Enqueue(queued("a", 1)), 5);
    assert!(matches!(r, Ok(SchedulerReply::Done)) && wake);
    let (r, wake) = a.handle_message(SchedulerCommand::Len, 5);
    assert!(matches!(r, Ok(SchedulerReply::Number(1))) && !wake);
    let (r, _) = a.handle_message(SchedulerCommand::TryDequeue, 5);
    assert!(matches!(r, Ok(SchedulerReply::Task(Some(t))) if t.enqueued_at_ms == 5));
    let (r, _) = a.handle_message(SchedulerCommand::IsEmpty, 5);
    assert!(matches!(r, Ok(SchedulerReply::Flag(true))));
    let (r, wake) = a.handle_message(SchedulerCommand::Close, 5);
    assert!(r.is_ok() && wake);
    let (r, wake) = a.handle_message(SchedulerCommand::EnqueueBatch(vec![queued("b", 1)]), 5);
    assert!(r.is_err() && !wake);
    let (r, _) = a.handle_message(SchedulerCommand::IsClosed, 5);
    assert!(matches!(r, Ok(SchedulerReply::Flag(true))));
    assert!(fifo_scheduler_actor().with_priority().inner.ranked);
    assert!(!SchedulerActor::fifo().inner.ranked);
}

#[test]
fn priority_is_kept_from_command_to_command() {
    let mut a = priority_scheduler_actor();
    for (name, priority) in [("low", 1), ("high", 5), ("late", 5)] {
        a.handle_message(SchedulerCommand::Enqueue(queued(name, priority)), 0).0.unwrap();
    }
    let mut out = Vec::new();
    for _ in 0..2 {
        match a.handle_message(SchedulerCommand::TryDequeue, 0).0.unwrap() {
            SchedulerReply::Task(Some(t)) => out.push(t.id.0),
            other => panic!("unexpected {:?}", other),
        }
    }
    a.handle_message(SchedulerCommand::Enqueue(queued("top", 9)), 0).0.unwrap();
    while let SchedulerReply::Task(Some(t)) =
        a.handle_message(SchedulerCommand::TryDequeue, 0).0.unwrap()
    {
        out.push(t.id.0);
    }
    assert_eq!(out, vec!["high", "late", "top", "low"]);
    assert!(a.inner.ranked);
}

#[test]
fn scheduler_names() {
    assert!(is_registered("fifo"));
    assert!(is_registered("priority"));
    assert!(!is_registered("lifo"));
    assert_eq!(registered_names(), vec!["fifo".to_string(), "priority".to_string()]);
}
