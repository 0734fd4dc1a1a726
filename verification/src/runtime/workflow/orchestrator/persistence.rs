//! Storing workflows, and taking over workflows from elsewhere.
use vstd::prelude::*;

use crate::common;
use crate::common::WorkflowId;
use crate::keymap::KeyMap;
use crate::runtime::state::event_log::EventId;
use crate::runtime::workflow::dag::{Dag, DagView};
use crate::runtime::workflow::execution;
use crate::runtime::workflow::execution::{ExecutionView, WorkflowExecution};
use crate::runtime::workflow::execution_laws;
use crate::runtime::workflow::graph;
use crate::runtime::workflow::orchestrator::engine::Orchestrator;
use crate::runtime::workflow::orchestrator::events;
use crate::runtime::workflow::orchestrator::events::{push_effect, Effect, EffectView};
use crate::runtime::workflow::orchestrator::keys;
use crate::runtime::workflow::orchestrator::keys::{
    event_seq_key, exec_key, pending_key, signals_key, wait_key,
};
use crate::runtime::workflow::orchestrator::lifecycle;
use crate::runtime::workflow::orchestrator::lifecycle::redispatch_running;
use crate::runtime::workflow::orchestrator::recovery;
use crate::runtime::workflow::orchestrator::slot::{SlotState, SlotView, WorkflowSlot};
use crate::runtime::workflow::orchestrator::state;
use crate::runtime::workflow::orchestrator::state::StateView;
use crate::runtime::workflow::orchestrator::submit;
use crate::runtime::workflow::orchestrator::submit::{count_predecessors, first_execution};
use crate::runtime::workflow::orchestrator::waitpoint;

verus! {

/// What is to be stored of one workflow, in one batch: its execution and pending counts,
/// and its wait points, buffered signals and watermark where it has them.
#[derive(Debug)]
pub struct FlushEntry {
    pub workflow_id: WorkflowId,
    pub has_waits: bool,
    pub has_signals: bool,
    /// The watermark from before the rest is read: what it covers is in the rest.
    pub watermark: Option<EventId>,
}

/// The keys that an entry writes, in order.
pub open spec fn flush_keys(e: FlushEntry) -> Seq<Seq<char>> {
    let wf = e.workflow_id@;
    seq![keys::STORE_KEY_EXEC@ + wf, keys::STORE_KEY_PENDING@ + wf] + (if e.has_waits {
        seq![keys::STORE_KEY_WAIT@ + wf]
    } else {
        Seq::empty()
    }) + (if e.has_signals {
        seq![keys::STORE_KEY_SIGNALS@ + wf]
    } else {
        Seq::empty()
    }) + (if e.watermark is Some {
        seq![keys::STORE_KEY_EVENT_SEQ@ + wf]
    } else {
        Seq::empty()
    })
}

impl FlushEntry {
    /// The keys that this entry writes, in order.
    pub fn keys(&self) -> (list: Vec<String>)
        ensures
            waitpoint::texts(list@) == flush_keys(*self),
    {
        let mut list: Vec<String> = Vec::new();
        list.push(exec_key(&self.workflow_id));
        list.push(pending_key(&self.workflow_id));
        if self.has_waits {
            list.push(wait_key(&self.workflow_id));
        }
        if self.has_signals {
            list.push(signals_key(&self.workflow_id));
        }
        if self.watermark.is_some() {
            list.push(event_seq_key(&self.workflow_id));
        }
        assert(waitpoint::texts(list@) =~= flush_keys(*self));
        list
    }
}

/// The workflows that `entries` names.
pub open spec fn entry_ids(entries: Seq<FlushEntry>) -> Seq<Seq<char>> {
    Seq::new(entries.len(), |i: int| entries[i].workflow_id@)
}

/// The entry tells what there is to be stored of its workflow.
pub open spec fn entry_for(v: StateView, e: FlushEntry) -> bool {
    let wf = e.workflow_id@;
    &&& e.has_waits == v.waits.contains_key(wf)
    &&& e.has_signals == v.signals.contains_key(wf)
    &&& e.watermark == if v.seqs.contains_key(wf) {
        Some(v.seqs[wf])
    } else {
        None
    }
}

/// `v` with those of the workflows `ids` that are known to be stored.
pub open spec fn marked_again(v: StateView, ids: Seq<Seq<char>>) -> StateView {
    StateView {
        dirty: v.dirty.union(
            Set::new(|k: Seq<char>| ids.contains(k) && v.slots.contains_key(k)),
        ),
        ..v
    }
}

impl Orchestrator {
    /// Takes the workflows that have changed since they were stored. From here on they
    /// count as stored; one that cannot be is to be marked again.
    pub fn take_flush(&mut self) -> (entries: Vec<FlushEntry>)
        requires
            old(self).wf(),
        ensures
            final(self).wf(),
            final(self).same_settings(old(self)),
            flush_outcome(old(self).state@, final(self).state@, entries@),
    {
        let ghost before = self.state@;
        let ids = self.state.drain_dirty();
        let ghost order = state::workflow_texts(ids@);
        let mut entries: Vec<FlushEntry> = Vec::new();
        let mut i: usize = 0;
        while i < ids.len()
            invariant
                i <= ids@.len(),
                self.wf(),
                self.same_settings(old(self)),
                self.state@ == (StateView { dirty: Set::empty(), ..before }),
                order == state::workflow_texts(ids@),
                order.no_duplicates(),
                order.to_set() == before.dirty,
                entry_ids(entries@).no_duplicates(),
                forall|k: Seq<char>| #[trigger]
                    entry_ids(entries@).contains(k) <==> order.take(i as int).contains(k)
                        && before.slots.contains_key(k),
                forall|j: int|
                    0 <= j < entries@.len() ==> entry_for(before, #[trigger] entries@[j]),
            decreases ids@.len() - i,
        {
            let ghost listed = entries@;
            let id = &ids[i];
            let known = self.state.contains_workflow(id);
            if known {
                let watermark = self.state.event_seq(id);
                entries.push(
                    FlushEntry {
                        workflow_id: id.clone(),
                        has_waits: self.state.waitpoints.contains_key(&id.0),
                        has_signals: self.state.pending_signals.contains_key(&id.0),
                        watermark,
                    },
                );
                assert(entry_ids(entries@) =~= entry_ids(listed).push(id@));
            }
            proof {
                state::lemma_filter_step(
                    order,
                    i as int,
                    entry_ids(listed),
                    entry_ids(entries@),
                    known,
                );
            }
            i += 1;
        }
        proof {
            assert(order.take(i as int) =~= order);
            assert forall|k: Seq<char>| #[trigger] entry_ids(entries@).contains(k) <==> before.dirty.contains(
                k,
            ) && before.slots.contains_key(k) by {
                assert(order.contains(k) <==> order.to_set().contains(k));
            }
        }
        entries
    }

    /// Marks workflows that could not be stored, as far as they are still known.
    pub fn mark_unflushed(&mut self, ids: &Vec<WorkflowId>)
        requires
            old(self).wf(),
        ensures
            final(self).wf(),
            final(self).same_settings(old(self)),
            final(self).state@ == marked_again(old(self).state@, state::workflow_texts(ids@)),
    {
        let ghost before = self.state@;
        let ghost order = state::workflow_texts(ids@);
        let mut i: usize = 0;
        assert(self.state@ =~= marked_again(before, order.take(0)));
        while i < ids.len()
            invariant
                i <= ids@.len(),
                self.wf(),
                self.same_settings(old(self)),
                order == state::workflow_texts(ids@),
                self.state@ == marked_again(before, order.take(i as int)),
            decreases ids@.len() - i,
        {
            if self.state.contains_workflow(&ids[i]) {
                self.state.mark_dirty(&ids[i]);
            }
            proof {
                let k = order[i as int];
                assert(order.take(i + 1) =~= order.take(i as int).push(k));
                graph::lemma_to_set_push(order.take(i as int), k);
                assert forall|x: Seq<char>| #[trigger] order.take(i + 1).contains(x) <==> order.take(
                    i as int,
                ).contains(x) || x == k by {
                    assert(order.take(i + 1).to_set().contains(x) <==> order.take(
                        i as int,
                    ).to_set().insert(k).contains(x));
                }
                assert(self.state@ =~= marked_again(before, order.take(i + 1)));
            }
            i += 1;
        }
        assert(order.take(i as int) =~= order);
    }

    /// Forgets a workflow, and has everything stored of it deleted.
    pub fn evict_workflow(&mut self, workflow_id: &WorkflowId) -> (effects: Vec<Effect>)
        requires
            old(self).wf(),
        ensures
            final(self).wf(),
            final(self).same_settings(old(self)),
            final(self).state@ == state::without(old(self).state@, workflow_id@),
            events::effect_views(effects@) == seq![EffectView::Erase(workflow_id@)],
    {
        self.state.remove_workflow(workflow_id);
        let mut effects: Vec<Effect> = Vec::new();
        push_effect(&mut effects, Effect::Erase(workflow_id.clone()));
        assert(events::effect_views(effects@) =~= seq![EffectView::Erase(workflow_id@)]);
        effects
    }

    /// Deletes a workflow.
    pub fn delete_workflow(&mut self, workflow_id: &WorkflowId) -> (effects: Vec<Effect>)
        requires
            old(self).wf(),
        ensures
            final(self).wf(),
            final(self).same_settings(old(self)),
            final(self).state@ == state::without(old(self).state@, workflow_id@),
            events::effect_views(effects@) == seq![EffectView::Erase(workflow_id@)],
    {
        self.evict_workflow(workflow_id)
    }
}

/// A workflow taken over with graph `d`: the execution that came with it, the running tasks
/// of which are dispatched anew, or a fresh one.
pub open spec fn adopted(
    workflow_id: Seq<char>,
    d: DagView,
    execution: Option<ExecutionView>,
) -> SlotView {
    SlotView {
        dag: d,
        execution: match execution {
            Some(x) if recovery::recoverable(x) => lifecycle::running_redispatched(
                recovery::recounted(x),
            ),
            _ => execution::new_execution(workflow_id, submit::node_ids(d)),
        },
        pending: submit::predecessor_counts(d),
        state: SlotState::Ready,
    }
}

/// What taking over a workflow leaves behind.
pub open spec fn adopt_outcome(
    before: StateView,
    after: StateView,
    wf: Seq<char>,
    stored: Option<(Dag, Option<WorkflowExecution>)>,
) -> bool {
    if before.slots.contains_key(wf) {
        after == before
    } else {
        &&& after == state::with_slot(before, wf, after.slots[wf])
        &&& match stored {
            Some(s) => after.slots[wf] == adopted(wf, s.0@, execution_view(s.1)),
            None => after.slots[wf] == submit::placeholder(wf),
        }
    }
}

/// What restoring a workflow from the parts that arrived leaves: nothing new without a
/// graph; without an execution, the workflow as it was submitted.
pub open spec fn restored(
    workflow_id: Seq<char>,
    d: DagView,
    execution: Option<ExecutionView>,
    pending: Option<Map<Seq<char>, usize>>,
) -> SlotView {
    match execution {
        Some(x) => SlotView {
            dag: d,
            execution: lifecycle::running_redispatched(recovery::recounted(x)),
            pending: match pending {
                Some(p) => p,
                None => submit::predecessor_counts(d),
            },
            state: SlotState::Ready,
        },
        None => submit::submitted(workflow_id, d),
    }
}

/// What taking the workflows that are to be stored returns and leaves behind.
pub open spec fn flush_outcome(
    before: StateView,
    after: StateView,
    entries: Seq<FlushEntry>,
) -> bool {
    &&& after == (StateView { dirty: Set::empty(), ..before })
    &&& entry_ids(entries).no_duplicates()
    &&& forall|k: Seq<char>| #[trigger]
        entry_ids(entries).contains(k) <==> before.dirty.contains(k) && before.slots.contains_key(
            k,
        )
    &&& forall|i: int| 0 <= i < entries.len() ==> entry_for(before, #[trigger] entries[i])
}

/// What restoring a workflow from the parts that arrived returns, leaves behind and has done.
pub open spec fn restore_outcome(
    before: StateView,
    after: StateView,
    wf: Seq<char>,
    dag: Option<Dag>,
    execution: Option<WorkflowExecution>,
    pending: Option<KeyMap<usize>>,
    done: bool,
    effects: Seq<Effect>,
) -> bool {
    &&& done == dag is Some
    &&& match dag {
        Some(d) => {
            &&& after == state::with_slot(
                before,
                wf,
                restored(wf, d@, execution_view(execution), pending_view(pending)),
            )
            &&& events::effect_views(effects) == seq![EffectView::PersistWorkflow(wf)]
        },
        None => after == before && effects.len() == 0,
    }
}

/// The value of an execution that may be missing.
pub open spec fn execution_view(e: Option<WorkflowExecution>) -> Option<ExecutionView> {
    match e {
        Some(x) => Some(x@),
        None => None,
    }
}

/// The value of pending counts that may be missing.
pub open spec fn pending_view(p: Option<KeyMap<usize>>) -> Option<Map<Seq<char>, usize>> {
    match p {
        Some(x) => Some(x@),
        None => None,
    }
}

/// A fresh execution for a graph.
fn plain_execution(workflow_id: &WorkflowId, dag: &Dag) -> (e: WorkflowExecution)
    requires
        dag.wf(),
    ensures
        e@ == execution::new_execution(workflow_id@, submit::node_ids(dag@)),
        execution_laws::counted(e@),
{
    let nodes = dag.nodes();
    let ghost order = dag.node_order();
    let mut ids: Vec<common::TaskId> = Vec::new();
    let mut i: usize = 0;
    while i < nodes.len()
        invariant
            i <= nodes@.len(),
            order == dag.node_order(),
            crate::runtime::workflow::dag::names_nodes(nodes@, dag.node_map(), order),
            ids@ == submit::node_ids(dag@).take(i as int),
        decreases nodes@.len() - i,
    {
        proof {
            assert(dag.node_map().contains_key(order[i as int]));
        }
        ids.push(nodes[i].task_id.clone());
        i += 1;
        assert(ids@ =~= submit::node_ids(dag@).take(i as int));
    }
    proof {
        assert(ids@ =~= submit::node_ids(dag@));
        execution_laws::law_counters_agree_new(workflow_id@, ids@);
    }
    WorkflowExecution::new(workflow_id.clone(), ids)
}

impl Orchestrator {
    /// Takes over a workflow with what this node has stored of it: its graph, and its
    /// execution where that could be read. Without a graph, a placeholder stands in until
    /// the data comes from another node.
    pub fn adopt_workflow(
        &mut self,
        workflow_id: &WorkflowId,
        stored: Option<(Dag, Option<WorkflowExecution>)>,
    )
        requires
            old(self).wf(),
            stored matches Some(s) ==> s.0.wf(),
        ensures
            final(self).wf(),
            final(self).same_settings(old(self)),
            adopt_outcome(
                old(self).state@,
                final(self).state@,
                workflow_id@,
                stored,
            ),
    {
        if self.state.contains_workflow(workflow_id) {
            return;
        }
        match stored {
            Some((dag, stored_execution)) => {
                let pending = count_predecessors(&dag);
                let execution = match stored_execution {
                    Some(x) => if x.is_recoverable() {
                        let mut x = x;
                        x.recount();
                        redispatch_running(&mut x);
                        x
                    } else {
                        plain_execution(workflow_id, &dag)
                    },
                    None => plain_execution(workflow_id, &dag),
                };
                self.state.insert_slot(
                    workflow_id.clone(),
                    WorkflowSlot { dag, execution, pending, state: SlotState::Ready },
                );
            },
            None => {
                self.state.insert_placeholder(workflow_id);
            },
        }
    }

    /// Puts a workflow in place, and has it stored.
    pub fn restore_workflow(
        &mut self,
        workflow_id: &WorkflowId,
        dag: Dag,
        execution: WorkflowExecution,
        pending: KeyMap<usize>,
    ) -> (effects: Vec<Effect>)
        requires
            old(self).wf(),
            dag.wf(),
            execution_laws::counted(execution@),
        ensures
            final(self).wf(),
            final(self).same_settings(old(self)),
            final(self).state@ == state::with_slot(
                old(self).state@,
                workflow_id@,
                (SlotView {
                    dag: dag@,
                    execution: execution@,
                    pending: pending@,
                    state: SlotState::Ready,
                }),
            ),
            events::effect_views(effects@) == seq![EffectView::PersistWorkflow(workflow_id@)],
    {
        self.state.insert_slot(
            workflow_id.clone(),
            WorkflowSlot { dag, execution, pending, state: SlotState::Ready },
        );
        let mut effects: Vec<Effect> = Vec::new();
        push_effect(&mut effects, Effect::PersistWorkflow(workflow_id.clone()));
        assert(events::effect_views(effects@) =~= seq![EffectView::PersistWorkflow(workflow_id@)]);
        effects
    }

    /// Restores a workflow from the parts that arrived from another node; a part that did
    /// not arrive or could not be read is missing. Returns whether it could be restored.
    pub fn restore_workflow_from_parts(
        &mut self,
        workflow_id: &WorkflowId,
        dag: Option<Dag>,
        execution: Option<WorkflowExecution>,
        pending: Option<KeyMap<usize>>,
    ) -> (r: (bool, Vec<Effect>))
        requires
            old(self).wf(),
            dag matches Some(d) ==> d.wf(),
            execution matches Some(x) ==> recovery::recoverable(x@),
        ensures
            final(self).wf(),
            final(self).same_settings(old(self)),
            restore_outcome(
                old(self).state@,
                final(self).state@,
                workflow_id@,
                dag,
                execution,
                pending,
                r.0,
                r.1@,
            ),
    {
        match dag {
            Some(d) => {
                let counts = count_predecessors(&d);
                match execution {
                    Some(x) => {
                        let mut x = x;
                        x.recount();
                        redispatch_running(&mut x);
                        let p = match pending {
                            Some(p) => p,
                            None => counts,
                        };
                        (true, self.restore_workflow(workflow_id, d, x, p))
                    },
                    None => {
                        let x = first_execution(workflow_id, &d);
                        (true, self.restore_workflow(workflow_id, d, x, counts))
                    },
                }
            },
            None => (false, Vec::new()),
        }
    }
}

/// Storing is never forgotten: a workflow that could not be stored is due again, as long
/// as it is known.
pub proof fn law_unflushed_stays_due(v: StateView, ids: Seq<Seq<char>>, k: Seq<char>)
    requires
        ids.contains(k),
        v.slots.contains_key(k),
    ensures
        marked_again(v, ids).dirty.contains(k),
{
}

} // verus!
