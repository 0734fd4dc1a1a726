//! Workflows that run past their deadline, and tasks that are to be dispatched again.
use vstd::prelude::*;
use vstd::string::*;

use crate::common;
use crate::common::{ActantError, TaskId, WorkflowId};
use crate::runtime::workflow::execution;
use crate::runtime::workflow::execution_laws;
use crate::runtime::workflow::orchestrator::engine::Orchestrator;
use crate::runtime::workflow::orchestrator::events;
use crate::runtime::workflow::orchestrator::events::{
    push_effect, Effect, EffectView, EventKind, WorkflowEventPayload,
};
use crate::runtime::workflow::orchestrator::lifecycle;
use crate::runtime::workflow::orchestrator::slot;
use crate::runtime::workflow::orchestrator::slot::SlotView;
use crate::runtime::workflow::orchestrator::state;
use crate::runtime::workflow::orchestrator::state::StateView;
use crate::runtime::workflow::task;
use crate::runtime::workflow::task::TaskDefinition;

verus! {

pub const TIMEOUT_MESSAGE: &'static str = "workflow timeout exceeded";

/// The orders to stop the running tasks of `wf`.
pub open spec fn stop_orders(wf: Seq<char>, running: Seq<Seq<char>>) -> Seq<EffectView> {
    Seq::new(running.len(), |i: int| EffectView::CancelEverywhere(wf, running[i]))
}

/// The orders to stop the running tasks of every workflow in `ids`.
pub open spec fn all_stop_orders(v: StateView, ids: Seq<Seq<char>>) -> Seq<EffectView>
    decreases ids.len(),
{
    if ids.len() == 0 {
        Seq::empty()
    } else {
        all_stop_orders(v, ids.drop_last()) + stop_orders(
            ids.last(),
            lifecycle::running_ids(v.slots[ids.last()].execution),
        )
    }
}

/// The events that say that the workflows in `ids` ran out of time.
pub open spec fn timeout_events(ids: Seq<Seq<char>>) -> Seq<EffectView> {
    Seq::new(
        ids.len(),
        |i: int| events::appended(ids[i], EventKind::Failed { error: TIMEOUT_MESSAGE@ }),
    )
}

/// The orders to store the workflows in `ids`.
pub open spec fn store_orders(ids: Seq<Seq<char>>) -> Seq<EffectView> {
    Seq::new(ids.len(), |i: int| EffectView::PersistExecution(ids[i]))
}

/// The orders to notify whoever waits for the workflows in `ids`.
pub open spec fn notify_orders(ids: Seq<Seq<char>>) -> Seq<EffectView> {
    Seq::new(ids.len(), |i: int| EffectView::NotifyEnded(ids[i]))
}

/// `after` is `before` with every workflow in `ids` failed for lack of time.
pub open spec fn timed_out(before: StateView, after: StateView, ids: Seq<Seq<char>>) -> bool {
    &&& after == StateView { slots: after.slots, ..before }
    &&& after.slots.dom() == before.slots.dom()
    &&& forall|k: Seq<char>|
        before.slots.contains_key(k) && !ids.contains(k) ==> #[trigger] after.slots[k]
            == before.slots[k]
    &&& forall|k: Seq<char>|
        before.slots.contains_key(k) && ids.contains(k) ==> failed_for_time(
            before.slots[k],
            #[trigger] after.slots[k],
        )
}

/// What failing the workflows that have run past their deadline at `now` returns, leaves behind
/// and has done.
pub open spec fn expire_outcome(
    before: StateView,
    after: StateView,
    now: u64,
    ids: Seq<Seq<char>>,
    effects: Seq<EffectView>,
) -> bool {
    &&& ids.no_duplicates()
    &&& forall|k: Seq<char>| #[trigger] ids.contains(k) <==> state::overdue(before, k, now)
    &&& timed_out(before, after, ids)
    &&& effects == timeout_events(ids) + store_orders(ids) + all_stop_orders(before, ids)
        + notify_orders(ids)
}

/// `after` is `before` failed for lack of time.
pub open spec fn failed_for_time(before: SlotView, after: SlotView) -> bool {
    exists|m: String|
        m@ == TIMEOUT_MESSAGE@ && after == (SlotView {
            execution: #[trigger] execution::workflow_failed(before.execution, m),
            ..before
        })
}

proof fn lemma_views_append(a: Seq<Effect>, b: Seq<Effect>)
    ensures
        events::effect_views(a + b) == events::effect_views(a) + events::effect_views(b),
{
    assert(events::effect_views(a + b) =~= events::effect_views(a) + events::effect_views(b));
}

impl Orchestrator {
    /// The orders to stop the running tasks of the workflows in `ids`.
    fn stop_running(&self, ids: &Vec<WorkflowId>) -> (effects: Vec<Effect>)
        requires
            self.wf(),
            forall|i: int|
                0 <= i < ids@.len() ==> self.state@.slots.contains_key((#[trigger] ids@[i])@),
        ensures
            events::effect_views(effects@) == all_stop_orders(
                self.state@,
                state::workflow_texts(ids@),
            ),
    {
        let ghost texts = state::workflow_texts(ids@);
        let mut effects: Vec<Effect> = Vec::new();
        let mut i: usize = 0;
        assert(events::effect_views(effects@) =~= all_stop_orders(self.state@, texts.take(0)));
        while i < ids.len()
            invariant
                i <= ids@.len(),
                self.wf(),
                texts == state::workflow_texts(ids@),
                forall|j: int|
                    0 <= j < ids@.len() ==> self.state@.slots.contains_key((#[trigger] ids@[j])@),
                events::effect_views(effects@) == all_stop_orders(
                    self.state@,
                    texts.take(i as int),
                ),
            decreases ids@.len() - i,
        {
            let wf = &ids[i];
            proof {
                assert(texts.take(i + 1).drop_last() =~= texts.take(i as int));
                assert(texts.take(i + 1).last() == wf@);
            }
            if let Some(slot) = self.state.slot(wf) {
                let running = slot.running_task_ids();
                let ghost names = lifecycle::running_ids(slot@.execution);
                let ghost base = events::effect_views(effects@);
                let ghost orders = stop_orders(wf@, names);
                let mut j: usize = 0;
                assert(base =~= base + orders.take(0));
                while j < running.len()
                    invariant
                        j <= running@.len(),
                        common::task_texts(running@) == names,
                        orders == stop_orders(wf@, names),
                        events::effect_views(effects@) == base + orders.take(j as int),
                    decreases running@.len() - j,
                {
                    assert(common::task_texts(running@)[j as int] == running@[j as int]@);
                    push_effect(
                        &mut effects,
                        Effect::CancelEverywhere(wf.clone(), running[j].clone()),
                    );
                    assert(base + orders.take(j + 1) =~= (base + orders.take(j as int)).push(
                        orders[j as int],
                    ));
                    j += 1;
                }
                assert(common::task_texts(running@).len() == running@.len());
                assert(orders.take(j as int) =~= orders);
            }
            i += 1;
        }
        assert(texts.take(i as int) =~= texts);
        effects
    }

    /// Fails every workflow that has run past its deadline at `now`, and has their
    /// running tasks stopped everywhere. Returns these workflows.
    pub fn expire_workflows(&mut self, now: u64) -> (r: (Vec<WorkflowId>, Vec<Effect>))
        requires
            old(self).wf(),
        ensures
            final(self).wf(),
            final(self).same_settings(old(self)),
            expire_outcome(
                old(self).state@,
                final(self).state@,
                now,
                state::workflow_texts(r.0@),
                events::effect_views(r.1@),
            ),
    {
        let ghost before = self.state@;
        let expired = self.state.expired_workflow_ids(now);
        let ghost texts = state::workflow_texts(expired@);
        proof {
            assert forall|i: int| 0 <= i < expired@.len() implies before.slots.contains_key(
                (#[trigger] expired@[i])@,
            ) by {
                assert(texts[i] == expired@[i]@);
                assert(texts.contains(expired@[i]@));
            }
        }
        let mut stops = self.stop_running(&expired);
        let mut appends: Vec<Effect> = Vec::new();
        let mut stores: Vec<Effect> = Vec::new();
        let mut notices: Vec<Effect> = Vec::new();
        let mut i: usize = 0;
        proof {
            assert(events::effect_views(appends@) =~= timeout_events(texts.take(0)));
            assert(events::effect_views(stores@) =~= store_orders(texts.take(0)));
            assert(events::effect_views(notices@) =~= notify_orders(texts.take(0)));
        }
        while i < expired.len()
            invariant
                i <= expired@.len(),
                self.wf(),
                self.same_settings(old(self)),
                texts == state::workflow_texts(expired@),
                texts.no_duplicates(),
                forall|j: int|
                    0 <= j < expired@.len() ==> before.slots.contains_key(
                        (#[trigger] expired@[j])@,
                    ),
                timed_out(before, self.state@, texts.take(i as int)),
                events::effect_views(appends@) == timeout_events(texts.take(i as int)),
                events::effect_views(stores@) == store_orders(texts.take(i as int)),
                events::effect_views(notices@) == notify_orders(texts.take(i as int)),
            decreases expired@.len() - i,
        {
            let wf = &expired[i];
            let ghost now_state = self.state@;
            let ghost head = texts.take(i as int);
            let ghost more = texts.take(i + 1);
            proof {
                assert(texts[i as int] == wf@);
                assert(more =~= head.push(wf@));
                assert(!head.contains(wf@));
                crate::runtime::workflow::graph::lemma_queue_push(head, more, wf@, true);
            }
            let message = TIMEOUT_MESSAGE.to_owned();
            let ghost m = message;
            if let Some(slot) = self.state.slot_mut(wf) {
                proof {
                    execution_laws::lemma_ended_counted(slot.execution@, message);
                }
                slot.execution.mark_workflow_failed(message);
            }
            proof {
                assert(self.state@.slots.dom() =~= before.slots.dom());
                assert(failed_for_time(before.slots[wf@], self.state@.slots[wf@])) by {
                    assert(self.state@.slots[wf@] == (SlotView {
                        execution: execution::workflow_failed(before.slots[wf@].execution, m),
                        ..before.slots[wf@]
                    }));
                }
                assert(timed_out(before, self.state@, more));
            }
            push_effect(
                &mut appends,
                Effect::Append(
                    WorkflowEventPayload::Failed {
                        workflow_id: wf.clone(),
                        error: TIMEOUT_MESSAGE.to_owned(),
                    },
                ),
            );
            push_effect(&mut stores, Effect::PersistExecution(wf.clone()));
            push_effect(&mut notices, Effect::NotifyEnded(wf.clone()));
            proof {
                assert(timeout_events(more) =~= timeout_events(head).push(
                    events::appended(wf@, EventKind::Failed { error: TIMEOUT_MESSAGE@ }),
                ));
                assert(store_orders(more) =~= store_orders(head).push(
                    EffectView::PersistExecution(wf@),
                ));
                assert(notify_orders(more) =~= notify_orders(head).push(
                    EffectView::NotifyEnded(wf@),
                ));
            }
            i += 1;
        }
        assert(texts.take(i as int) =~= texts);
        let ghost a = appends@;
        let ghost b = stores@;
        let ghost c = stops@;
        let ghost d = notices@;
        let mut effects: Vec<Effect> = appends;
        effects.append(&mut stores);
        effects.append(&mut stops);
        effects.append(&mut notices);
        proof {
            assert(effects@ =~= a + b + c + d);
            lemma_views_append(a, b);
            lemma_views_append(a + b, c);
            lemma_views_append(a + b + c, d);
        }
        (expired, effects)
    }

    /// The running tasks of a workflow; none where it is not known.
    pub fn get_running_task_ids(&self, workflow_id: &WorkflowId) -> (ids: Vec<TaskId>)
        requires
            self.wf(),
        ensures
            common::task_texts(ids@).no_duplicates(),
            common::task_texts(ids@) == (if self.state@.slots.contains_key(workflow_id@) {
                lifecycle::running_ids(self.state@.slots[workflow_id@].execution)
            } else {
                Seq::empty()
            }),
    {
        match self.state.slot(workflow_id) {
            Some(slot) => slot.running_task_ids(),
            None => {
                let ids: Vec<TaskId> = Vec::new();
                assert(common::task_texts(ids@) =~= Seq::empty());
                ids
            },
        }
    }

    /// Dispatches the running tasks of a workflow anew. Returns them as they are handed
    /// to a scheduler.
    pub fn reschedule_running_tasks(&mut self, workflow_id: &WorkflowId) -> (r: Result<
        Vec<TaskDefinition>,
        ActantError,
    >)
        requires
            old(self).wf(),
            old(self).state@.slots.contains_key(workflow_id@) ==> lifecycle::running_attempts_left(
                old(self).state@.slots[workflow_id@].execution,
            ),
        ensures
            final(self).wf(),
            final(self).same_settings(old(self)),
            reschedule_outcome(
                old(self).state@,
                final(self).state@,
                workflow_id@,
                old(self).origin(),
                r,
            ),
    {
        let ghost before = self.state@;
        let ghost wf = workflow_id@;
        let ghost s = before.slots[wf];
        let running = self.get_running_task_ids(workflow_id);
        let ghost ids = common::task_texts(running@);
        let mut tasks: Vec<TaskDefinition> = Vec::new();
        if !self.state.contains_workflow(workflow_id) {
            return Ok(tasks);
        }
        let mut i: usize = 0;
        assert(self.state@ =~= state::with_slot(before, wf, s));
        proof {
            lifecycle::lemma_running_ids(s.execution);
        }
        while i < running.len()
            invariant
                i <= running@.len(),
                self.wf(),
                self.same_settings(old(self)),
                before.slots.contains_key(wf),
                s == before.slots[wf],
                wf == workflow_id@,
                ids == common::task_texts(running@),
                ids.no_duplicates(),
                lifecycle::running_attempts_left(s.execution),
                lifecycle::all_running(s.execution, ids),
                self.state@ == state::with_slot(
                    before,
                    wf,
                    SlotView {
                        execution: lifecycle::redispatched(s.execution, ids.take(i as int)),
                        ..s
                    },
                ),
            decreases running@.len() - i,
        {
            let id = &running[i];
            if let Some(slot) = self.state.slot_mut(workflow_id) {
                proof {
                    assert(ids.take(i + 1).drop_last() =~= ids.take(i as int));
                    assert(ids.take(i + 1).last() == id@);
                    assert(ids[i as int] == id@);
                    assert(!ids.take(i as int).contains(id@));
                    lifecycle::lemma_redispatched(s.execution, ids.take(i as int));
                    execution_laws::lemma_reset_counted(slot.execution@, id@, false, true);
                }
                slot.execution.reset_task(id, false, true);
            }
            assert(self.state@.slots =~= state::with_slot(
                before,
                wf,
                SlotView {
                    execution: lifecycle::redispatched(s.execution, ids.take(i + 1)),
                    ..s
                },
            ).slots);
            i += 1;
        }
        assert(ids.take(i as int) =~= ids);
        let ghost moved = self.state@.slots[wf];
        let ghost o = old(self).origin();
        let mut j: usize = 0;
        assert(task::task_views(tasks@) =~= slot::tasks_for(moved, wf, o, known_ids(s, ids.take(0))));
        while j < running.len()
            invariant
                j <= running@.len(),
                self.wf(),
                self.same_settings(old(self)),
                o == self.origin(),
                self.state@.slots.contains_key(wf),
                moved == self.state@.slots[wf],
                moved.dag == s.dag,
                wf == workflow_id@,
                ids == common::task_texts(running@),
                task::task_views(tasks@) == slot::tasks_for(
                    moved,
                    wf,
                    o,
                    known_ids(s, ids.take(j as int)),
                ),
            decreases running@.len() - j,
        {
            let ghost known = known_ids(s, ids.take(j as int));
            proof {
                assert(ids.take(j + 1).drop_last() =~= ids.take(j as int));
                assert(ids.take(j + 1).last() == running@[j as int]@);
            }
            if let Some(t) = self.build_task_for_id(workflow_id, &running[j]) {
                let ghost tasks_before = tasks@;
                tasks.push(t);
                assert(task::task_views(tasks@) =~= task::task_views(tasks_before).push(t@));
                assert(slot::tasks_for(moved, wf, o, known.push(running@[j as int]@))
                    =~= slot::tasks_for(moved, wf, o, known).push(t@));
            }
            j += 1;
        }
        assert(ids.take(j as int) =~= ids);
        Ok(tasks)
    }
}

/// The tasks among `ids` that the graph has.
pub open spec fn known_ids(s: SlotView, ids: Seq<Seq<char>>) -> Seq<Seq<char>>
    decreases ids.len(),
{
    if ids.len() == 0 {
        Seq::empty()
    } else {
        let init = known_ids(s, ids.drop_last());
        if s.dag.nodes.contains_key(ids.last()) {
            init.push(ids.last())
        } else {
            init
        }
    }
}

/// What dispatching the running tasks of a workflow anew returns and leaves behind.
pub open spec fn reschedule_outcome(
    before: StateView,
    after: StateView,
    wf: Seq<char>,
    origin: Option<Seq<char>>,
    r: Result<Vec<TaskDefinition>, ActantError>,
) -> bool {
    let s = before.slots[wf];
    let ids = lifecycle::running_ids(s.execution);
    let moved = SlotView {
        execution: lifecycle::redispatched(s.execution, ids),
        ..s
    };
    if before.slots.contains_key(wf) {
        &&& after == state::with_slot(before, wf, moved)
        &&& r matches Ok(tasks)
        &&& task::task_views(tasks@) == slot::tasks_for(
            moved,
            wf,
            origin,
            known_ids(s, ids),
        )
    } else {
        after == before && (r matches Ok(tasks) && tasks@.len() == 0)
    }
}

} // verus!
