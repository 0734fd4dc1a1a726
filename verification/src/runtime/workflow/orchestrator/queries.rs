//! Reading what the orchestrator knows.
use vstd::prelude::*;

use crate::common::{RetryPolicy, TaskId, WorkflowId};
use crate::keymap::KeyMap;
use crate::runtime::workflow::dag;
use crate::runtime::workflow::dag::Dag;
use crate::runtime::workflow::execution;
use crate::runtime::workflow::execution::WorkflowExecution;
use crate::runtime::workflow::orchestrator::engine;
use crate::runtime::workflow::orchestrator::engine::Orchestrator;
use crate::runtime::workflow::orchestrator::state;
use crate::runtime::workflow::phase::Terminal;
use crate::runtime::workflow::task;

verus! {

impl Orchestrator {
    /// How a workflow stands.
    pub fn get_state(&self, workflow_id: &WorkflowId) -> (r: Option<&WorkflowExecution>)
        requires
            self.wf(),
        ensures
            match r {
                Some(e) => self.state@.slots.contains_key(workflow_id@) && e@
                    == self.state@.slots[workflow_id@].execution,
                None => !self.state@.slots.contains_key(workflow_id@),
            },
    {
        match self.state.slot(workflow_id) {
            Some(s) => Some(&s.execution),
            None => None,
        }
    }

    /// The graph of a workflow.
    pub fn get_dag(&self, workflow_id: &WorkflowId) -> (r: Option<&Dag>)
        requires
            self.wf(),
        ensures
            match r {
                Some(d) => self.state@.slots.contains_key(workflow_id@) && d@
                    == self.state@.slots[workflow_id@].dag && d.wf(),
                None => !self.state@.slots.contains_key(workflow_id@),
            },
    {
        match self.state.slot(workflow_id) {
            Some(s) => Some(&s.dag),
            None => None,
        }
    }

    /// The graph, the execution and the pending counts of a workflow: all that another
    /// node needs to take it over.
    pub fn workflow_parts(&self, workflow_id: &WorkflowId) -> (r: Option<
        (&Dag, &WorkflowExecution, &KeyMap<usize>),
    >)
        requires
            self.wf(),
        ensures
            match r {
                Some(p) => {
                    let s = self.state@.slots[workflow_id@];
                    &&& self.state@.slots.contains_key(workflow_id@)
                    &&& p.0@ == s.dag
                    &&& p.1@ == s.execution
                    &&& p.2@ == s.pending
                },
                None => !self.state@.slots.contains_key(workflow_id@),
            },
    {
        match self.state.slot(workflow_id) {
            Some(s) => Some((&s.dag, &s.execution, &s.pending)),
            None => None,
        }
    }

    /// The workflows that have not ended.
    pub fn active_workflow_ids(&self) -> (ids: Vec<WorkflowId>)
        requires
            self.wf(),
        ensures
            state::workflow_texts(ids@).no_duplicates(),
            forall|k: Seq<char>| #[trigger]
                state::workflow_texts(ids@).contains(k) <==> self.state@.slots.contains_key(k)
                    && !self.state@.slots[k].execution.state.ended(),
    {
        self.state.active_workflow_ids()
    }

    /// Whether a workflow is known.
    pub fn has_workflow(&self, workflow_id: &WorkflowId) -> (b: bool)
        requires
            self.wf(),
        ensures
            b == self.state@.slots.contains_key(workflow_id@),
    {
        self.state.contains_workflow(workflow_id)
    }

    /// Forgets a workflow. What is stored of it stays.
    pub fn remove_active_workflow(&mut self, workflow_id: &WorkflowId)
        requires
            old(self).wf(),
        ensures
            final(self).wf(),
            final(self).same_settings(old(self)),
            final(self).state@ == state::without(old(self).state@, workflow_id@),
    {
        self.state.remove_workflow(workflow_id);
    }

    /// The results of a workflow by ascending task identifier, where there are any.
    pub fn get_results(&self, workflow_id: &WorkflowId) -> (r: Option<Vec<Vec<u8>>>)
        requires
            self.wf(),
        ensures
            match r {
                Some(results) => {
                    &&& self.state@.slots.contains_key(workflow_id@)
                    &&& results@.len() > 0
                    &&& engine::sorted_results(
                        self.state@.slots[workflow_id@].execution,
                        task::contents(results@),
                    )
                },
                None => !self.state@.slots.contains_key(workflow_id@) || !engine::any_results(
                    self.state@.slots[workflow_id@].execution,
                ),
            },
    {
        match self.state.slot(workflow_id) {
            Some(s) => {
                let results = s.execution.collected_results();
                let ghost v = s.execution@;
                let ghost ids = choose|ids: Seq<Seq<char>>|
                    execution::results_listing(v.tasks, ids, results@);
                if results.len() > 0 {
                    assert(engine::sorted_results(v, task::contents(results@)));
                    Some(results)
                } else {
                    assert(!engine::any_results(v));
                    None
                }
            },
            None => None,
        }
    }

    /// How often a task was retried, and the retry policy that applies to it.
    pub fn get_retry_info(&self, workflow_id: &WorkflowId, task_id: &TaskId) -> (r: Option<
        (u32, RetryPolicy),
    >)
        requires
            self.wf(),
        ensures
            ({
                let s = self.state@.slots[workflow_id@];
                let policy = dag::policy_of(s.dag, task_id@);
                r == if self.state@.slots.contains_key(workflow_id@) && policy is Some
                    && s.execution.tasks.contains_key(task_id@) {
                    Some((s.execution.tasks[task_id@].retry_count, policy->0))
                } else {
                    None
                }
            }),
    {
        match self.state.slot(workflow_id) {
            Some(s) => match s.dag.effective_retry_policy(task_id) {
                Some(policy) => match s.execution.tasks.get(&task_id.0) {
                    Some(t) => Some((t.retry_count, policy)),
                    None => None,
                },
                None => None,
            },
            None => None,
        }
    }

    /// The workflows that have not ended and have run past their deadline at `now`.
    pub fn get_expired_workflow_ids(&self, now: u64) -> (ids: Vec<WorkflowId>)
        requires
            self.wf(),
        ensures
            state::workflow_texts(ids@).no_duplicates(),
            forall|k: Seq<char>| #[trigger]
                state::workflow_texts(ids@).contains(k) <==> state::overdue(self.state@, k, now),
    {
        self.state.expired_workflow_ids(now)
    }
}

/// What is stored of a workflow is handed on whole or not at all.
pub fn whole_state(dag: Option<Vec<u8>>, execution: Option<Vec<u8>>, pending: Option<Vec<u8>>) -> (r:
    Option<(Vec<u8>, Vec<u8>, Vec<u8>)>)
    ensures
        r == match (dag, execution, pending) {
            (Some(d), Some(e), Some(p)) => Some((d, e, p)),
            _ => None,
        },
{
    match (dag, execution, pending) {
        (Some(d), Some(e), Some(p)) => Some((d, e, p)),
        _ => None,
    }
}

} // verus!
