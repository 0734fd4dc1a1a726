//! Everything the orchestrator holds in memory.
use vstd::prelude::*;

use crate::common::{ActantError, WorkflowId};
use crate::runtime::state::event_log::EventId;
use crate::runtime::workflow::orchestrator::slot::{SlotState, SlotView, WorkflowSlot};
use crate::runtime::workflow::orchestrator::submit;
use crate::runtime::workflow::orchestrator::submit::workflow_message;
use crate::runtime::workflow::phase::Terminal;
use crate::runtime::workflow::wait::{WaitPoint, WaitView};
use crate::table::Table;

verus! {

/// The state of all workflows of a node.
pub struct OrchestratorState {
    pub slots: Table<WorkflowSlot>,
    pub waitpoints: Table<Table<WaitPoint>>,
    /// Signals that arrived before their wait point was registered.
    pub pending_signals: Table<Table<Vec<u8>>>,
    /// Workflows that have changed since they were stored.
    pub dirty: Table<()>,
    /// For each workflow the last event of its history.
    pub event_seqs: Table<EventId>,
}

/// The mathematical value of an [`OrchestratorState`].
#[verifier::ext_equal]
pub struct StateView {
    pub slots: Map<Seq<char>, SlotView>,
    pub waits: Map<Seq<char>, Map<Seq<char>, WaitView>>,
    pub signals: Map<Seq<char>, Map<Seq<char>, Seq<u8>>>,
    pub dirty: Set<Seq<char>>,
    pub seqs: Map<Seq<char>, EventId>,
}

/// Every table of `m` is in order.
pub open spec fn tables_sound<V>(m: Map<Seq<char>, Table<V>>) -> bool {
    forall|k: Seq<char>| #[trigger] m.contains_key(k) ==> m[k].wf()
}

/// The values of slots.
pub open spec fn slot_views(m: Map<Seq<char>, WorkflowSlot>) -> Map<Seq<char>, SlotView> {
    m.map_values(|s: WorkflowSlot| s@)
}

/// The values of the wait points of one workflow.
pub open spec fn wait_views(m: Map<Seq<char>, WaitPoint>) -> Map<Seq<char>, WaitView> {
    m.map_values(|w: WaitPoint| w@)
}

/// The buffered signals of one workflow.
pub open spec fn signal_views(m: Map<Seq<char>, Vec<u8>>) -> Map<Seq<char>, Seq<u8>> {
    m.map_values(|b: Vec<u8>| b@)
}

/// The values of the wait points of all workflows.
pub open spec fn all_wait_views(m: Map<Seq<char>, Table<WaitPoint>>) -> Map<
    Seq<char>,
    Map<Seq<char>, WaitView>,
> {
    m.map_values(|t: Table<WaitPoint>| wait_views(t@))
}

/// The buffered signals of all workflows.
pub open spec fn all_signal_views(m: Map<Seq<char>, Table<Vec<u8>>>) -> Map<
    Seq<char>,
    Map<Seq<char>, Seq<u8>>,
> {
    m.map_values(|t: Table<Vec<u8>>| signal_views(t@))
}

impl View for OrchestratorState {
    type V = StateView;

    open spec fn view(&self) -> StateView {
        StateView {
            slots: slot_views(self.slots@),
            waits: all_wait_views(self.waitpoints@),
            signals: all_signal_views(self.pending_signals@),
            dirty: self.dirty@.dom(),
            seqs: self.event_seqs@,
        }
    }
}

/// Nothing at all.
pub open spec fn no_workflows() -> StateView {
    StateView {
        slots: Map::empty(),
        waits: Map::empty(),
        signals: Map::empty(),
        dirty: Set::empty(),
        seqs: Map::empty(),
    }
}

/// `v` with the slot of `wf` replaced.
pub open spec fn with_slot(v: StateView, wf: Seq<char>, s: SlotView) -> StateView {
    StateView { slots: v.slots.insert(wf, s), ..v }
}

/// `v` with `wf` to be stored.
pub open spec fn with_dirty(v: StateView, wf: Seq<char>) -> StateView {
    StateView { dirty: v.dirty.insert(wf), ..v }
}

/// `v` without anything about `wf`.
pub open spec fn without(v: StateView, wf: Seq<char>) -> StateView {
    StateView {
        slots: v.slots.remove(wf),
        waits: v.waits.remove(wf),
        signals: v.signals.remove(wf),
        dirty: v.dirty.remove(wf),
        seqs: v.seqs.remove(wf),
    }
}

/// The error for a workflow that is not known.
pub open spec fn not_found(wf: Seq<char>, e: ActantError) -> bool {
    e matches ActantError::NotFound(m) && m@ == submit::about_workflow(wf, " not found"@)
}

/// The error for a workflow that is not known.
pub fn not_found_error(wf: &WorkflowId) -> (e: ActantError)
    ensures
        not_found(wf@, e),
{
    ActantError::NotFound(workflow_message(wf, " not found"))
}

impl OrchestratorState {
    /// Every table is in order, and so is every workflow.
    pub open spec fn wf(&self) -> bool {
        &&& self.slots.wf()
        &&& self.waitpoints.wf()
        &&& self.pending_signals.wf()
        &&& self.dirty.wf()
        &&& self.event_seqs.wf()
        &&& tables_sound(self.waitpoints@)
        &&& tables_sound(self.pending_signals@)
        &&& forall|k: Seq<char>| #[trigger] self.slots@.contains_key(k) ==> self.slots@[k].wf()
    }

    /// No workflows.
    pub fn new() -> (s: Self)
        ensures
            s.wf(),
            s@ == no_workflows(),
    {
        let s = OrchestratorState {
            slots: Table::new(),
            waitpoints: Table::new(),
            pending_signals: Table::new(),
            dirty: Table::new(),
            event_seqs: Table::new(),
        };
        assert(s@ =~= no_workflows());
        s
    }

    /// Exclusive access to a workflow.
    pub fn slot_mut(&mut self, wf: &WorkflowId) -> (s: Option<&mut WorkflowSlot>)
        requires
            old(self).wf(),
        ensures
            match s {
                Some(x) => {
                    &&& old(self)@.slots.contains_key(wf@)
                    &&& (*x)@ == old(self)@.slots[wf@]
                    &&& x.wf()
                    &&& final(self)@ == with_slot(old(self)@, wf@, (*final(x))@)
                    &&& final(x).wf() ==> final(self).wf()
                },
                None => {
                    &&& !old(self)@.slots.contains_key(wf@)
                    &&& final(self)@ == old(self)@
                    &&& final(self).wf()
                },
            },
    {
        proof {
            assert forall|y: WorkflowSlot| #[trigger]
                slot_views(self.slots@.insert(wf@, y)) == slot_views(self.slots@).insert(
                    wf@,
                    y@,
                ) by {
                assert(slot_views(self.slots@.insert(wf@, y)) =~= slot_views(self.slots@).insert(
                    wf@,
                    y@,
                ));
            }
        }
        self.slots.get_mut(&wf.0)
    }

    /// Access to a workflow.
    pub fn slot(&self, wf: &WorkflowId) -> (s: Option<&WorkflowSlot>)
        requires
            self.wf(),
        ensures
            match s {
                Some(x) => self@.slots.contains_key(wf@) && x@ == self@.slots[wf@] && x.wf(),
                None => !self@.slots.contains_key(wf@),
            },
    {
        self.slots.get(&wf.0)
    }

    /// Puts a workflow in place of whatever is known of it.
    pub fn insert_slot(&mut self, wf: WorkflowId, s: WorkflowSlot)
        requires
            old(self).wf(),
            s.wf(),
        ensures
            final(self).wf(),
            final(self)@ == with_slot(old(self)@, wf@, s@),
    {
        self.slots.insert(wf.0, s);
        assert(self@.slots =~= old(self)@.slots.insert(wf@, s@));
    }

    /// Puts a placeholder in place of whatever is known of a workflow.
    pub fn insert_placeholder(&mut self, wf: &WorkflowId)
        requires
            old(self).wf(),
        ensures
            final(self).wf(),
            final(self)@ == with_slot(old(self)@, wf@, submit::placeholder(wf@)),
    {
        let s = WorkflowSlot::placeholder(wf);
        self.insert_slot(wf.clone(), s);
    }

    /// Whether a workflow's data is here.
    pub fn is_ready(&self, wf: &WorkflowId) -> (b: bool)
        requires
            self.wf(),
        ensures
            b == (self@.slots.contains_key(wf@) && self@.slots[wf@].state == SlotState::Ready),
    {
        match self.slots.get(&wf.0) {
            Some(s) => s.state == SlotState::Ready,
            None => false,
        }
    }

    /// Whether a workflow is known.
    pub fn contains_workflow(&self, wf: &WorkflowId) -> (b: bool)
        requires
            self.wf(),
        ensures
            b == self@.slots.contains_key(wf@),
    {
        self.slots.contains_key(&wf.0)
    }

    /// Forgets a workflow: its slot, wait points, buffered signals, watermark and mark.
    pub fn remove_workflow(&mut self, wf: &WorkflowId)
        requires
            old(self).wf(),
        ensures
            final(self).wf(),
            final(self)@ == without(old(self)@, wf@),
    {
        self.slots.remove(&wf.0);
        self.dirty.remove(&wf.0);
        self.waitpoints.remove(&wf.0);
        self.pending_signals.remove(&wf.0);
        self.event_seqs.remove(&wf.0);
        assert(self@ =~= without(old(self)@, wf@)) by {
            assert(self@.slots =~= old(self)@.slots.remove(wf@));
            assert(self@.waits =~= old(self)@.waits.remove(wf@));
            assert(self@.signals =~= old(self)@.signals.remove(wf@));
            assert(self@.dirty =~= old(self)@.dirty.remove(wf@));
        }
    }

    /// Marks a workflow to be stored.
    pub fn mark_dirty(&mut self, wf: &WorkflowId)
        requires
            old(self).wf(),
        ensures
            final(self).wf(),
            final(self)@ == with_dirty(old(self)@, wf@),
    {
        self.dirty.insert(wf.0.clone(), ());
        assert(self@.dirty =~= old(self)@.dirty.insert(wf@));
    }

    /// Takes out the workflows that are to be stored.
    pub fn drain_dirty(&mut self) -> (ids: Vec<WorkflowId>)
        requires
            old(self).wf(),
        ensures
            final(self).wf(),
            final(self)@ == (StateView { dirty: Set::empty(), ..old(self)@ }),
            workflow_texts(ids@).no_duplicates(),
            workflow_texts(ids@).to_set() == old(self)@.dirty,
    {
        let mut ids: Vec<WorkflowId> = Vec::new();
        let n: usize = self.dirty.len();
        let ghost order = self.dirty.order();
        let mut i: usize = 0;
        while i < n
            invariant
                i <= n,
                n == order.len(),
                self.wf(),
                order == self.dirty.order(),
                workflow_texts(ids@) == order.take(i as int),
            decreases n - i,
        {
            let k = self.dirty.key_at(i);
            let ghost before = ids@;
            ids.push(WorkflowId(k.clone()));
            assert(workflow_texts(ids@) =~= workflow_texts(before).push(k@));
            assert(order.take(i + 1) =~= order.take(i as int).push(k@));
            i += 1;
        }
        assert(order.take(i as int) =~= order);
        let mut cleared: Table<()> = Table::new();
        std::mem::swap(&mut cleared, &mut self.dirty);
        assert(self@.dirty =~= Set::empty());
        ids
    }

    /// Moves a workflow's watermark.
    pub fn record_event_seq(&mut self, wf: &WorkflowId, id: EventId)
        requires
            old(self).wf(),
        ensures
            final(self).wf(),
            final(self)@ == (StateView { seqs: old(self)@.seqs.insert(wf@, id), ..old(self)@ }),
    {
        self.event_seqs.insert(wf.0.clone(), id);
    }

    /// A workflow's watermark.
    pub fn event_seq(&self, wf: &WorkflowId) -> (r: Option<EventId>)
        requires
            self.wf(),
        ensures
            match r {
                Some(id) => self@.seqs.contains_key(wf@) && self@.seqs[wf@] == id,
                None => !self@.seqs.contains_key(wf@),
            },
    {
        match self.event_seqs.get(&wf.0) {
            Some(id) => Some(*id),
            None => None,
        }
    }

    /// The workflows that have not ended.
    pub fn active_workflow_ids(&self) -> (ids: Vec<WorkflowId>)
        requires
            self.wf(),
        ensures
            workflow_texts(ids@).no_duplicates(),
            forall|k: Seq<char>| #[trigger]
                workflow_texts(ids@).contains(k) <==> self@.slots.contains_key(k)
                    && !self@.slots[k].execution.state.ended(),
    {
        let mut ids: Vec<WorkflowId> = Vec::new();
        let n: usize = self.slots.len();
        let ghost order = self.slots.order();
        let mut i: usize = 0;
        while i < n
            invariant
                i <= n,
                n == order.len(),
                self.wf(),
                self.slots.listed(),
                order == self.slots.order(),
                workflow_texts(ids@).no_duplicates(),
                forall|k: Seq<char>| #[trigger]
                    workflow_texts(ids@).contains(k) <==> order.take(i as int).contains(k)
                        && !self@.slots[k].execution.state.ended(),
            decreases n - i,
        {
            let id = self.slots.key_at(i);
            let s = self.slots.value_at(i);
            let ghost before = ids@;
            let take = !s.execution.is_terminal();
            if take {
                ids.push(WorkflowId(id.clone()));
                assert(workflow_texts(ids@) =~= workflow_texts(before).push(id@));
            }
            proof {
                lemma_filter_step(
                    order,
                    i as int,
                    workflow_texts(before),
                    workflow_texts(ids@),
                    take,
                );
            }
            i += 1;
        }
        proof {
            assert(order.take(i as int) =~= order);
        }
        ids
    }

    /// The workflows that have not ended and have run past their deadline at `now`.
    pub fn expired_workflow_ids(&self, now: u64) -> (ids: Vec<WorkflowId>)
        requires
            self.wf(),
        ensures
            workflow_texts(ids@).no_duplicates(),
            forall|k: Seq<char>| #[trigger]
                workflow_texts(ids@).contains(k) <==> overdue(self@, k, now),
    {
        let mut ids: Vec<WorkflowId> = Vec::new();
        let n: usize = self.slots.len();
        let ghost order = self.slots.order();
        let mut i: usize = 0;
        while i < n
            invariant
                i <= n,
                n == order.len(),
                self.wf(),
                self.slots.listed(),
                order == self.slots.order(),
                workflow_texts(ids@).no_duplicates(),
                forall|k: Seq<char>| #[trigger]
                    workflow_texts(ids@).contains(k) <==> order.take(i as int).contains(k)
                        && overdue(self@, k, now),
            decreases n - i,
        {
            let id = self.slots.key_at(i);
            let s = self.slots.value_at(i);
            let ghost before = ids@;
            let take = !s.execution.is_terminal() && s.execution.is_expired_at(now);
            if take {
                ids.push(WorkflowId(id.clone()));
                assert(workflow_texts(ids@) =~= workflow_texts(before).push(id@));
            }
            proof {
                lemma_filter_step(
                    order,
                    i as int,
                    workflow_texts(before),
                    workflow_texts(ids@),
                    take,
                );
            }
            i += 1;
        }
        proof {
            assert(order.take(i as int) =~= order);
        }
        ids
    }
}

/// The workflow has not ended and has run past its deadline at `now`.
pub open spec fn overdue(v: StateView, k: Seq<char>, now: u64) -> bool {
    &&& v.slots.contains_key(k)
    &&& !v.slots[k].execution.state.ended()
    &&& crate::runtime::workflow::execution::expired(v.slots[k].execution, now)
}

/// The texts of workflow identifiers.
pub open spec fn workflow_texts(ids: Seq<WorkflowId>) -> Seq<Seq<char>> {
    Seq::new(ids.len(), |i: int| ids[i]@)
}

/// One step of picking members out of a listing: what was picked stays picked, and the
/// next member joins where it is taken.
pub proof fn lemma_filter_step(
    order: Seq<Seq<char>>,
    i: int,
    before: Seq<Seq<char>>,
    after: Seq<Seq<char>>,
    take: bool,
)
    requires
        0 <= i < order.len(),
        order.no_duplicates(),
        before.no_duplicates(),
        forall|k: Seq<char>| #[trigger] before.contains(k) ==> order.take(i).contains(k),
        take ==> after == before.push(order[i]),
        !take ==> after == before,
    ensures
        after.no_duplicates(),
        forall|k: Seq<char>| #[trigger]
            after.contains(k) <==> before.contains(k) || (take && k == order[i]),
        forall|k: Seq<char>| #[trigger]
            order.take(i + 1).contains(k) <==> order.take(i).contains(k) || k == order[i],
        !order.take(i).contains(order[i]),
{
    let k = order[i];
    assert(order.take(i + 1) =~= order.take(i).push(k));
    assert(!order.take(i).contains(k));
    crate::runtime::workflow::graph::lemma_queue_push(order.take(i), order.take(i + 1), k, true);
    crate::runtime::workflow::graph::lemma_queue_push(before, after, k, take);
}

impl Default for OrchestratorState {
    fn default() -> (s: Self)
        ensures
            s.wf(),
            s@ == no_workflows(),
    {
        OrchestratorState::new()
    }
}

} // verus!
