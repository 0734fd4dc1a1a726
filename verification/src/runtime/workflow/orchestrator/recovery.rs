//! Recovering workflows from what was stored of them.
use vstd::prelude::*;

use crate::common;
use crate::common::{reversed, ActantError, WorkflowId};
use crate::keymap::KeyMap;
use crate::runtime::state::event_log::EventId;
use crate::runtime::workflow::dag::{Dag, DagView};
use crate::runtime::workflow::execution;
use crate::runtime::workflow::execution::{ExecutionView, WorkflowExecution};
use crate::runtime::workflow::execution_laws;
use crate::runtime::workflow::graph;
use crate::runtime::workflow::orchestrator::engine;
use crate::runtime::workflow::orchestrator::engine::Orchestrator;
use crate::runtime::workflow::orchestrator::events;
use crate::runtime::workflow::orchestrator::events::{
    push_effect, Effect, EffectView, EventKind, WorkflowEventPayload,
};
use crate::runtime::workflow::orchestrator::lifecycle;
use crate::runtime::workflow::orchestrator::lifecycle::redispatch_running;
use crate::runtime::workflow::orchestrator::slot;
use crate::runtime::workflow::orchestrator::slot::{SlotState, SlotView, WorkflowSlot};
use crate::runtime::workflow::orchestrator::state;
use crate::runtime::workflow::orchestrator::state::{OrchestratorState, StateView};
use crate::runtime::workflow::orchestrator::submit;
use crate::runtime::workflow::phase::{Phase, Terminal};
use crate::runtime::workflow::task;
use crate::runtime::workflow::task::TaskDefinition;
use crate::runtime::workflow::wait::WaitPoint;
use crate::table::Table;

verus! {

/// An execution whose running tasks can be dispatched anew: none of their generations is
/// exhausted.
pub open spec fn recoverable(v: ExecutionView) -> bool {
    lifecycle::running_attempts_left(v)
}

/// `v` with its counters as its tasks have them. Where they agree already, it is `v`.
pub open spec fn recounted(v: ExecutionView) -> ExecutionView {
    ExecutionView {
        succeeded: execution_laws::in_phase(v.tasks, Phase::Completed).len() as int,
        skipped: execution_laws::in_phase(v.tasks, Phase::Skipped).len() as int,
        total: if v.tasks.dom().len() <= v.total {
            v.total
        } else {
            v.tasks.dom().len() as int
        },
        ..v
    }
}

/// An execution as it is taken up again: its running tasks are to be dispatched anew, unless
/// the workflow has ended.
pub open spec fn taken_up(v: ExecutionView) -> ExecutionView {
    if v.state.ended() {
        recounted(v)
    } else {
        lifecycle::running_redispatched(recounted(v))
    }
}

/// What is taken up again keeps what its tasks have come to: completed, failed, cancelled,
/// skipped and pending tasks stay as they are, and a running one is pending again, under a
/// generation that no report of the old one passes.
pub proof fn law_recovery_keeps_tasks(v: ExecutionView, k: Seq<char>)
    requires
        recoverable(v),
        v.tasks.contains_key(k),
    ensures
        taken_up(v).state == v.state,
        taken_up(v).tasks.contains_key(k),
        v.tasks[k].state != Phase::Running ==> taken_up(v).tasks[k] == v.tasks[k],
        v.tasks[k].state == Phase::Running && !v.state.ended() ==> {
            &&& taken_up(v).tasks[k].state == Phase::Pending
            &&& !execution::fencing_passes(taken_up(v), k, Some(v.tasks[k].attempt))
        },
{
}

/// Counters that agree with the tasks are kept.
pub proof fn law_recount_keeps_agreement(v: ExecutionView)
    requires
        execution_laws::counted(v),
    ensures
        recounted(v) == v,
{
}

/// The workflow has ended, or no task of it is running.
pub open spec fn none_running(v: ExecutionView) -> bool {
    v.state.ended() || forall|k: Seq<char>| #[trigger]
        v.tasks.contains_key(k) ==> v.tasks[k].state != Phase::Running
}

/// How many of the first tasks are in phase `p`.
spec fn found(order: Seq<Seq<char>>, v: ExecutionView, i: int, p: Phase) -> Set<Seq<char>> {
    execution_laws::in_phase(v.tasks, p).intersect(order.take(i).to_set())
}

proof fn lemma_found_step(order: Seq<Seq<char>>, v: ExecutionView, i: int, p: Phase)
    requires
        0 <= i < order.len(),
        order.no_duplicates(),
        v.tasks.contains_key(order[i]),
    ensures
        found(order, v, i, p).finite(),
        found(order, v, i, p).len() <= i,
        found(order, v, i + 1, p).len() == found(order, v, i, p).len() + (if v.tasks[order[i]].state
            == p {
            1int
        } else {
            0
        }),
{
    broadcast use vstd::seq_lib::seq_to_set_is_finite;

    let k = order[i];
    let head = order.take(i);
    assert(order.take(i + 1) =~= head.push(k));
    graph::lemma_to_set_push(head, k);
    assert(!head.contains(k));
    head.unique_seq_to_set();
    vstd::set_lib::lemma_len_subset(found(order, v, i, p), head.to_set());
    if v.tasks[k].state == p {
        assert(found(order, v, i + 1, p) =~= found(order, v, i, p).insert(k));
    } else {
        assert(found(order, v, i + 1, p) =~= found(order, v, i, p));
    }
}

impl WorkflowExecution {
    /// Whether the running tasks of this execution can be dispatched anew.
    pub fn is_recoverable(&self) -> (b: bool)
        ensures
            b == recoverable(self@),
    {
        let ghost v = self@;
        let ghost order = self@.order;
        let n: usize = self.tasks.len();
        let mut i: usize = 0;
        while i < n
            invariant
                i <= n,
                n == order.len(),
                v == self@,
                order == v.order,
                self.tasks.listed(),
                forall|j: int|
                    0 <= j < i ==> (v.tasks[#[trigger] order[j]].state == Phase::Running
                        ==> v.tasks[order[j]].attempt < u32::MAX),
            decreases n - i,
        {
            let t = self.tasks.value_at(i);
            if t.state == Phase::Running && t.attempt == u32::MAX {
                assert(v.tasks.contains_key(order[i as int]));
                return false;
            }
            i += 1;
        }
        proof {
            assert forall|k: Seq<char>| #[trigger]
                v.tasks.contains_key(k) && v.tasks[k].state
                    == Phase::Running implies v.tasks[k].attempt < u32::MAX by {
                assert(order.contains(k));
                assert(order[order.index_of(k)] == k);
            }
        }
        true
    }

    /// Sets the counters to what the tasks say.
    pub fn recount(&mut self)
        ensures
            final(self)@ == recounted(old(self)@),
            execution_laws::counted(final(self)@),
    {
        let ghost v = self@;
        let ghost order = self@.order;
        let n: usize = self.tasks.len();
        let mut completed: usize = 0;
        let mut skipped: usize = 0;
        let mut i: usize = 0;
        proof {
            assert(found(order, v, 0, Phase::Completed) =~= Set::empty());
            assert(found(order, v, 0, Phase::Skipped) =~= Set::empty());
        }
        while i < n
            invariant
                i <= n,
                n == order.len(),
                v == self@,
                order == v.order,
                self.tasks.listed(),
                completed <= i,
                skipped <= i,
                completed == found(order, v, i as int, Phase::Completed).len(),
                skipped == found(order, v, i as int, Phase::Skipped).len(),
            decreases n - i,
        {
            let t = self.tasks.value_at(i);
            proof {
                lemma_found_step(order, v, i as int, Phase::Completed);
                lemma_found_step(order, v, i as int, Phase::Skipped);
            }
            match t.state {
                Phase::Completed => {
                    completed += 1;
                },
                Phase::Skipped => {
                    skipped += 1;
                },
                _ => {},
            }
            i += 1;
        }
        proof {
            broadcast use vstd::seq_lib::seq_to_set_is_finite;

            assert(order.take(n as int) =~= order);
            assert(order.to_set() =~= v.tasks.dom());
            order.unique_seq_to_set();
            assert(found(order, v, n as int, Phase::Completed) =~= execution_laws::in_phase(
                v.tasks,
                Phase::Completed,
            ));
            assert(found(order, v, n as int, Phase::Skipped) =~= execution_laws::in_phase(
                v.tasks,
                Phase::Skipped,
            ));
        }
        self.succeeded_count = completed;
        self.skipped_count = skipped;
        if self.total_count < n {
            self.total_count = n;
        }
    }
}

/// What was stored, entry by entry. An entry that could not be decoded has no value.
pub struct Stored {
    pub dags: Vec<(WorkflowId, Option<Dag>)>,
    pub executions: Vec<(WorkflowId, Option<WorkflowExecution>)>,
    pub pendings: Vec<(WorkflowId, Option<KeyMap<usize>>)>,
    pub waits: Vec<(WorkflowId, Option<Table<WaitPoint>>)>,
    pub signals: Vec<(WorkflowId, Option<Table<Vec<u8>>>)>,
}

/// The graphs that were decoded are in order.
pub open spec fn dags_in_order(entries: Seq<(WorkflowId, Option<Dag>)>) -> bool {
    forall|i: int|
        0 <= i < entries.len() ==> ((#[trigger] entries[i]).1 matches Some(d) ==> d.wf())
}

/// The tables that were decoded are in order.
pub open spec fn tables_in_order<V>(entries: Seq<(WorkflowId, Option<Table<V>>)>) -> bool {
    forall|i: int|
        0 <= i < entries.len() ==> ((#[trigger] entries[i]).1 matches Some(t) ==> t.wf())
}

/// Workflows in the course of being recovered, and those with a corrupt entry.
#[verifier::ext_equal]
pub struct Loading {
    pub state: StateView,
    pub corrupt: Seq<Seq<char>>,
}

/// `l` with `wf` known to be corrupt.
pub open spec fn spoilt(l: Loading, wf: Seq<char>) -> Loading {
    if l.corrupt.contains(wf) {
        l
    } else {
        Loading { corrupt: l.corrupt.push(wf), ..l }
    }
}

/// `l` with the entry of a graph: a workflow as it was submitted.
pub open spec fn dag_loaded(l: Loading, e: (WorkflowId, Option<Dag>)) -> Loading {
    match e.1 {
        Some(d) => Loading {
            state: state::with_slot(l.state, e.0@, submit::submitted(e.0@, d@)),
            ..l
        },
        None => spoilt(l, e.0@),
    }
}

/// `l` with the entry of an execution, where the workflow has a graph.
pub open spec fn execution_loaded(l: Loading, e: (WorkflowId, Option<WorkflowExecution>)) -> Loading {
    match e.1 {
        Some(x) => if !x@.state.ended() && !recoverable(x@) {
            spoilt(l, e.0@)
        } else if !l.state.slots.contains_key(e.0@) {
            l
        } else {
            Loading {
                state: state::with_slot(
                    l.state,
                    e.0@,
                    SlotView { execution: taken_up(x@), ..l.state.slots[e.0@] },
                ),
                ..l
            }
        },
        None => spoilt(l, e.0@),
    }
}

/// `l` with the entry of pending counts, where the workflow has a graph.
pub open spec fn pending_loaded(l: Loading, e: (WorkflowId, Option<KeyMap<usize>>)) -> Loading {
    match e.1 {
        Some(p) => if !l.state.slots.contains_key(e.0@) {
            l
        } else {
            Loading {
                state: state::with_slot(
                    l.state,
                    e.0@,
                    SlotView { pending: p@, ..l.state.slots[e.0@] },
                ),
                ..l
            }
        },
        None => spoilt(l, e.0@),
    }
}

/// `l` with the entry of wait points. Without it, the history has them.
pub open spec fn waits_loaded(l: Loading, e: (WorkflowId, Option<Table<WaitPoint>>)) -> Loading {
    match e.1 {
        Some(t) => Loading {
            state: StateView {
                waits: l.state.waits.insert(e.0@, state::wait_views(t@)),
                ..l.state
            },
            ..l
        },
        None => l,
    }
}

/// `l` with the entry of buffered signals. Without it, the history has them.
pub open spec fn signals_loaded(l: Loading, e: (WorkflowId, Option<Table<Vec<u8>>>)) -> Loading {
    match e.1 {
        Some(t) => Loading {
            state: StateView {
                signals: l.state.signals.insert(e.0@, state::signal_views(t@)),
                ..l.state
            },
            ..l
        },
        None => l,
    }
}

/// What was stored, loaded entry by entry: the graphs first, then what belongs to them.
pub open spec fn loaded(s: Stored) -> Loading {
    let start = Loading {
        state: state::no_workflows(),
        corrupt: Seq::empty(),
    };
    let with_dags = s.dags@.fold_left(
        start,
        |l: Loading, e: (WorkflowId, Option<Dag>)| dag_loaded(l, e),
    );
    let with_executions = s.executions@.fold_left(
        with_dags,
        |l: Loading, e: (WorkflowId, Option<WorkflowExecution>)| execution_loaded(l, e),
    );
    let with_pendings = s.pendings@.fold_left(
        with_executions,
        |l: Loading, e: (WorkflowId, Option<KeyMap<usize>>)| pending_loaded(l, e),
    );
    let with_waits = s.waits@.fold_left(
        with_pendings,
        |l: Loading, e: (WorkflowId, Option<Table<WaitPoint>>)| waits_loaded(l, e),
    );
    s.signals@.fold_left(
        with_waits,
        |l: Loading, e: (WorkflowId, Option<Table<Vec<u8>>>)| signals_loaded(l, e),
    )
}

/// `v` without the workflows in `ids`.
pub open spec fn dropped(v: StateView, ids: Seq<Seq<char>>) -> StateView {
    ids.fold_left(v, |w: StateView, k: Seq<char>| state::without(w, k))
}

/// What has to be done for the workflows that are dropped.
pub open spec fn drop_effects(ids: Seq<Seq<char>>) -> Seq<EffectView>
    decreases ids.len(),
{
    if ids.len() == 0 {
        Seq::empty()
    } else {
        drop_effects(ids.drop_last()).push(EffectView::EraseState(ids.last())).push(
            events::appended(ids.last(), EventKind::Recovered { task_count: 0, corrupt: true }),
        )
    }
}

/// The events for the workflows that are recovered.
pub open spec fn recovery_events(v: StateView, ids: Seq<Seq<char>>) -> Seq<EffectView> {
    Seq::new(
        ids.len(),
        |i: int|
            events::appended(
                ids[i],
                EventKind::Recovered {
                    task_count: v.slots[ids[i]].execution.order.len() as usize,
                    corrupt: false,
                },
            ),
    )
}

/// `ids` lists the workflows of `v`, each once.
pub open spec fn lists_workflows(v: StateView, ids: Seq<Seq<char>>) -> bool {
    ids.no_duplicates() && ids.to_set() == v.slots.dom()
}

/// Workflows in the course of being recovered.
struct Loader {
    state: OrchestratorState,
    corrupt: Vec<WorkflowId>,
}

impl View for Loader {
    type V = Loading;

    closed spec fn view(&self) -> Loading {
        Loading { state: self.state@, corrupt: state::workflow_texts(self.corrupt@) }
    }
}

/// No workflow of `v` has a running task, but for those that have ended.
pub open spec fn quiet(v: StateView) -> bool {
    forall|k: Seq<char>| #[trigger]
        v.slots.contains_key(k) ==> none_running(v.slots[k].execution)
}

impl Loader {
    spec fn wf(&self) -> bool {
        &&& self.state.wf()
        &&& quiet(self.state@)
    }

    fn is_corrupt(&self, wf: &WorkflowId) -> (b: bool)
        ensures
            b == self@.corrupt.contains(wf@),
    {
        let mut i: usize = 0;
        while i < self.corrupt.len()
            invariant
                i <= self.corrupt@.len(),
                forall|j: int| 0 <= j < i ==> self@.corrupt[j] != wf@,
            decreases self.corrupt@.len() - i,
        {
            if self.corrupt[i].0 == wf.0 {
                assert(self@.corrupt[i as int] == wf@);
                return true;
            }
            i += 1;
        }
        false
    }

    fn spoil(&mut self, wf: WorkflowId)
        requires
            old(self).wf(),
        ensures
            final(self).wf(),
            final(self)@ == spoilt(old(self)@, wf@),
    {
        if !self.is_corrupt(&wf) {
            self.corrupt.push(wf);
            assert(self@.corrupt =~= old(self)@.corrupt.push(wf@));
        }
    }

    fn load_dag(&mut self, wf: WorkflowId, dag: Option<Dag>)
        requires
            old(self).wf(),
            dag matches Some(d) ==> d.wf(),
        ensures
            final(self).wf(),
            final(self)@ == dag_loaded(old(self)@, (wf, dag)),
    {
        match dag {
            Some(d) => {
                let slot = WorkflowSlot::submitted(&wf, d);
                proof {
                    execution::lemma_fresh_order(submit::node_ids(d@));
                    execution::lemma_fresh_order(Seq::empty());
                }
                self.state.insert_slot(wf, slot);
            },
            None => self.spoil(wf),
        }
    }

    fn load_execution(&mut self, wf: WorkflowId, execution: Option<WorkflowExecution>)
        requires
            old(self).wf(),
        ensures
            final(self).wf(),
            final(self)@ == execution_loaded(old(self)@, (wf, execution)),
    {
        match execution {
            Some(x) => {
                if !x.is_terminal() && !x.is_recoverable() {
                    self.spoil(wf);
                    return;
                }
                let mut x = x;
                x.recount();
                if !x.is_terminal() {
                    redispatch_running(&mut x);
                }
                assert(none_running(x@));
                if let Some(slot) = self.state.slot_mut(&wf) {
                    slot.execution = x;
                }
            },
            None => self.spoil(wf),
        }
    }

    fn load_pending(&mut self, wf: WorkflowId, pending: Option<KeyMap<usize>>)
        requires
            old(self).wf(),
        ensures
            final(self).wf(),
            final(self)@ == pending_loaded(old(self)@, (wf, pending)),
    {
        match pending {
            Some(p) => {
                if let Some(slot) = self.state.slot_mut(&wf) {
                    slot.pending = p;
                }
            },
            None => self.spoil(wf),
        }
    }

    fn load_waits(&mut self, wf: WorkflowId, waits: Option<Table<WaitPoint>>)
        requires
            old(self).wf(),
            waits matches Some(t) ==> t.wf(),
        ensures
            final(self).wf(),
            final(self)@ == waits_loaded(old(self)@, (wf, waits)),
    {
        if let Some(t) = waits {
            self.state.waitpoints.insert(wf.0, t);
            assert(self.state@.waits =~= old(self).state@.waits.insert(
                wf@,
                state::wait_views(t@),
            ));
        }
    }

    fn load_signals(&mut self, wf: WorkflowId, signals: Option<Table<Vec<u8>>>)
        requires
            old(self).wf(),
            signals matches Some(t) ==> t.wf(),
        ensures
            final(self).wf(),
            final(self)@ == signals_loaded(old(self)@, (wf, signals)),
    {
        if let Some(t) = signals {
            self.state.pending_signals.insert(wf.0, t);
            assert(self.state@.signals =~= old(self).state@.signals.insert(
                wf@,
                state::signal_views(t@),
            ));
        }
    }
}

impl Loader {
    /// Loads the entries of graphs.
    fn load_all_dags(&mut self, entries: Vec<(WorkflowId, Option<Dag>)>)
        requires
            old(self).wf(),
            dags_in_order(entries@),
        ensures
            final(self).wf(),
            final(self)@ == entries@.fold_left(
                old(self)@,
                |l: Loading, e: (WorkflowId, Option<Dag>)| dag_loaded(l, e),
            ),
    {
        let ghost before = self@;
        let ghost all = entries@;
        let ghost step = |l: Loading, e: (WorkflowId, Option<Dag>)| dag_loaded(l, e);
        let mut queue = reversed(entries);
        let ghost mut done: int = 0;
        assert(all.take(0) =~= Seq::empty());
        assert(all.skip(0) =~= all);
        while queue.len() > 0
            invariant
                0 <= done <= all.len(),
                queue@.reverse() == all.skip(done),
                self.wf(),
                dags_in_order(all),
                step == (|l: Loading, e: (WorkflowId, Option<Dag>)| dag_loaded(l, e)),
                self@ == all.take(done).fold_left(before, step),
            decreases queue@.len(),
        {
            let ghost q = queue@;
            if let Some((wf, entry)) = queue.pop() {
                proof {
                    common::lemma_next(all, done, q);
                    assert(queue@ =~= q.drop_last());
                    assert(all[done] == (wf, entry));
                }
                self.load_dag(wf, entry);
                proof {
                    done = done + 1;
                }
            }
        }
        assert(all.take(done) =~= all);
    }

    /// Loads the entries of executions.
    fn load_all_executions(&mut self, entries: Vec<(WorkflowId, Option<WorkflowExecution>)>)
        requires
            old(self).wf(),
        ensures
            final(self).wf(),
            final(self)@ == entries@.fold_left(
                old(self)@,
                |l: Loading, e: (WorkflowId, Option<WorkflowExecution>)| execution_loaded(l, e),
            ),
    {
        let ghost before = self@;
        let ghost all = entries@;
        let ghost step = |l: Loading, e: (WorkflowId, Option<WorkflowExecution>)| execution_loaded(l, e);
        let mut queue = reversed(entries);
        let ghost mut done: int = 0;
        assert(all.take(0) =~= Seq::empty());
        assert(all.skip(0) =~= all);
        while queue.len() > 0
            invariant
                0 <= done <= all.len(),
                queue@.reverse() == all.skip(done),
                self.wf(),
                step == (|l: Loading, e: (WorkflowId, Option<WorkflowExecution>)| execution_loaded(l, e)),
                self@ == all.take(done).fold_left(before, step),
            decreases queue@.len(),
        {
            let ghost q = queue@;
            if let Some((wf, entry)) = queue.pop() {
                proof {
                    common::lemma_next(all, done, q);
                    assert(queue@ =~= q.drop_last());
                    assert(all[done] == (wf, entry));
                }
                self.load_execution(wf, entry);
                proof {
                    done = done + 1;
                }
            }
        }
        assert(all.take(done) =~= all);
    }

    /// Loads the entries of pending counts.
    fn load_all_pendings(&mut self, entries: Vec<(WorkflowId, Option<KeyMap<usize>>)>)
        requires
            old(self).wf(),
        ensures
            final(self).wf(),
            final(self)@ == entries@.fold_left(
                old(self)@,
                |l: Loading, e: (WorkflowId, Option<KeyMap<usize>>)| pending_loaded(l, e),
            ),
    {
        let ghost before = self@;
        let ghost all = entries@;
        let ghost step = |l: Loading, e: (WorkflowId, Option<KeyMap<usize>>)| pending_loaded(l, e);
        let mut queue = reversed(entries);
        let ghost mut done: int = 0;
        assert(all.take(0) =~= Seq::empty());
        assert(all.skip(0) =~= all);
        while queue.len() > 0
            invariant
                0 <= done <= all.len(),
                queue@.reverse() == all.skip(done),
                self.wf(),
                step == (|l: Loading, e: (WorkflowId, Option<KeyMap<usize>>)| pending_loaded(l, e)),
                self@ == all.take(done).fold_left(before, step),
            decreases queue@.len(),
        {
            let ghost q = queue@;
            if let Some((wf, entry)) = queue.pop() {
                proof {
                    common::lemma_next(all, done, q);
                    assert(queue@ =~= q.drop_last());
                    assert(all[done] == (wf, entry));
                }
                self.load_pending(wf, entry);
                proof {
                    done = done + 1;
                }
            }
        }
        assert(all.take(done) =~= all);
    }

    /// Loads the entries of wait points.
    fn load_all_waits(&mut self, entries: Vec<(WorkflowId, Option<Table<WaitPoint>>)>)
        requires
            old(self).wf(),
            tables_in_order(entries@),
        ensures
            final(self).wf(),
            final(self)@ == entries@.fold_left(
                old(self)@,
                |l: Loading, e: (WorkflowId, Option<Table<WaitPoint>>)| waits_loaded(l, e),
            ),
    {
        let ghost before = self@;
        let ghost all = entries@;
        let ghost step = |l: Loading, e: (WorkflowId, Option<Table<WaitPoint>>)| waits_loaded(l, e);
        let mut queue = reversed(entries);
        let ghost mut done: int = 0;
        assert(all.take(0) =~= Seq::empty());
        assert(all.skip(0) =~= all);
        while queue.len() > 0
            invariant
                0 <= done <= all.len(),
                queue@.reverse() == all.skip(done),
                tables_in_order(all),
                self.wf(),
                step == (|l: Loading, e: (WorkflowId, Option<Table<WaitPoint>>)| waits_loaded(l, e)),
                self@ == all.take(done).fold_left(before, step),
            decreases queue@.len(),
        {
            let ghost q = queue@;
            if let Some((wf, entry)) = queue.pop() {
                proof {
                    common::lemma_next(all, done, q);
                    assert(queue@ =~= q.drop_last());
                    assert(all[done] == (wf, entry));
                }
                self.load_waits(wf, entry);
                proof {
                    done = done + 1;
                }
            }
        }
        assert(all.take(done) =~= all);
    }

    /// Loads the entries of buffered signals.
    fn load_all_signals(&mut self, entries: Vec<(WorkflowId, Option<Table<Vec<u8>>>)>)
        requires
            old(self).wf(),
            tables_in_order(entries@),
        ensures
            final(self).wf(),
            final(self)@ == entries@.fold_left(
                old(self)@,
                |l: Loading, e: (WorkflowId, Option<Table<Vec<u8>>>)| signals_loaded(l, e),
            ),
    {
        let ghost before = self@;
        let ghost all = entries@;
        let ghost step = |l: Loading, e: (WorkflowId, Option<Table<Vec<u8>>>)| signals_loaded(l, e);
        let mut queue = reversed(entries);
        let ghost mut done: int = 0;
        assert(all.take(0) =~= Seq::empty());
        assert(all.skip(0) =~= all);
        while queue.len() > 0
            invariant
                0 <= done <= all.len(),
                queue@.reverse() == all.skip(done),
                tables_in_order(all),
                self.wf(),
                step == (|l: Loading, e: (WorkflowId, Option<Table<Vec<u8>>>)| signals_loaded(l, e)),
                self@ == all.take(done).fold_left(before, step),
            decreases queue@.len(),
        {
            let ghost q = queue@;
            if let Some((wf, entry)) = queue.pop() {
                proof {
                    common::lemma_next(all, done, q);
                    assert(queue@ =~= q.drop_last());
                    assert(all[done] == (wf, entry));
                }
                self.load_signals(wf, entry);
                proof {
                    done = done + 1;
                }
            }
        }
        assert(all.take(done) =~= all);
    }

    /// Drops the workflows with a corrupt entry.
    fn drop_corrupt(&mut self) -> (effects: Vec<Effect>)
        requires
            old(self).wf(),
        ensures
            final(self).wf(),
            final(self)@ == (Loading {
                state: dropped(old(self)@.state, old(self)@.corrupt),
                ..old(self)@
            }),
            events::effect_views(effects@) == drop_effects(old(self)@.corrupt),
    {
        let ghost before = self.state@;
        let ghost ids = self@.corrupt;
        let ghost step = |w: StateView, k: Seq<char>| state::without(w, k);
        let mut effects: Vec<Effect> = Vec::new();
        let mut i: usize = 0;
        assert(ids.take(0).len() == 0);
        assert(events::effect_views(effects@) =~= drop_effects(ids.take(0)));
        while i < self.corrupt.len()
            invariant
                i <= self.corrupt@.len(),
                self.wf(),
                ids == self@.corrupt,
                step == (|w: StateView, k: Seq<char>| state::without(w, k)),
                self.state@ == ids.take(i as int).fold_left(before, step),
                events::effect_views(effects@) == drop_effects(ids.take(i as int)),
            decreases self.corrupt@.len() - i,
        {
            let wf = self.corrupt[i].clone();
            proof {
                assert(ids.take(i + 1).drop_last() =~= ids.take(i as int));
                assert(ids.take(i + 1).last() == wf@);
            }
            self.state.remove_workflow(&wf);
            push_effect(&mut effects, Effect::EraseState(wf.clone()));
            push_effect(
                &mut effects,
                Effect::Append(
                    WorkflowEventPayload::Recovered {
                        workflow_id: wf,
                        task_count: 0,
                        corrupt: true,
                    },
                ),
            );
            i += 1;
        }
        assert(ids.take(i as int) =~= ids);
        effects
    }
}

impl OrchestratorState {
    /// The workflows that are known.
    pub fn workflow_ids(&self) -> (ids: Vec<WorkflowId>)
        requires
            self.wf(),
        ensures
            lists_workflows(self@, state::workflow_texts(ids@)),
    {
        let mut ids: Vec<WorkflowId> = Vec::new();
        let n: usize = self.slots.len();
        let ghost order = self.slots.order();
        let mut i: usize = 0;
        while i < n
            invariant
                i <= n,
                n == order.len(),
                self.wf(),
                order == self.slots.order(),
                state::workflow_texts(ids@) == order.take(i as int),
            decreases n - i,
        {
            let k = self.slots.key_at(i);
            let ghost before = ids@;
            ids.push(WorkflowId(k.clone()));
            assert(state::workflow_texts(ids@) =~= state::workflow_texts(before).push(k@));
            assert(order.take(i + 1) =~= order.take(i as int).push(k@));
            i += 1;
        }
        assert(order.take(i as int) =~= order);
        assert(state::workflow_texts(ids@).to_set() =~= self@.slots.dom());
        ids
    }
}

impl Orchestrator {
    /// Takes up the workflows that were stored. A workflow with a corrupt graph, execution
    /// or pending counts is dropped, with everything stored of it but its results.
    pub fn recover(stored: Stored, completed_retention_count: usize) -> (r: (Self, Vec<Effect>))
        requires
            dags_in_order(stored.dags@),
            tables_in_order(stored.waits@),
            tables_in_order(stored.signals@),
        ensures
            r.0.wf(),
            r.0.node_id is None,
            r.0.completed_retention_count == completed_retention_count,
            r.0.state@ == dropped(loaded(stored).state, loaded(stored).corrupt),
            quiet(r.0.state@),
            exists|ids: Seq<Seq<char>>| #[trigger]
                lists_workflows(r.0.state@, ids) && events::effect_views(r.1@) == drop_effects(
                    loaded(stored).corrupt,
                ) + recovery_events(r.0.state@, ids),
    {
        let mut loader = Loader { state: OrchestratorState::new(), corrupt: Vec::new() };
        assert(loader@.corrupt =~= Seq::empty());
        loader.load_all_dags(stored.dags);
        loader.load_all_executions(stored.executions);
        loader.load_all_pendings(stored.pendings);
        loader.load_all_waits(stored.waits);
        loader.load_all_signals(stored.signals);
        let mut effects = loader.drop_corrupt();
        let ghost head = events::effect_views(effects@);
        let ids = loader.state.workflow_ids();
        let ghost order = state::workflow_texts(ids@);
        let ghost v = loader.state@;
        let mut i: usize = 0;
        assert(head =~= head + recovery_events(v, order.take(0)));
        while i < ids.len()
            invariant
                i <= ids@.len(),
                loader.wf(),
                v == loader.state@,
                order == state::workflow_texts(ids@),
                lists_workflows(v, order),
                events::effect_views(effects@) == head + recovery_events(v, order.take(i as int)),
            decreases ids@.len() - i,
        {
            proof {
                assert(order.to_set().contains(order[i as int]));
            }
            if let Some(slot) = loader.state.slot(&ids[i]) {
                let task_count: usize = slot.execution.tasks.len();
                push_effect(
                    &mut effects,
                    Effect::Append(
                        WorkflowEventPayload::Recovered {
                            workflow_id: ids[i].clone(),
                            task_count,
                            corrupt: false,
                        },
                    ),
                );
                assert(events::effect_views(effects@) =~= head + recovery_events(
                    v,
                    order.take(i + 1),
                ));
            }
            i += 1;
        }
        assert(order.take(i as int) =~= order);
        assert(lists_workflows(v, order));
        (
            Orchestrator { state: loader.state, node_id: None, completed_retention_count },
            effects,
        )
    }

    /// For each workflow the event after which its history is to be replayed; the whole
    /// history where there is no watermark.
    pub fn replay_targets(&self, watermarks: &KeyMap<EventId>) -> (targets: Vec<
        (WorkflowId, Option<EventId>),
    >)
        requires
            self.wf(),
        ensures
            lists_workflows(self.state@, target_ids(targets@)),
            forall|i: int|
                0 <= i < targets@.len() ==> (#[trigger] targets@[i]).1 == (
                if watermarks@.contains_key(targets@[i].0@) {
                    Some(watermarks@[targets@[i].0@])
                } else {
                    None
                }),
    {
        let ids = self.state.workflow_ids();
        let ghost order = state::workflow_texts(ids@);
        let mut targets: Vec<(WorkflowId, Option<EventId>)> = Vec::new();
        let mut i: usize = 0;
        while i < ids.len()
            invariant
                i <= ids@.len(),
                order == state::workflow_texts(ids@),
                target_ids(targets@) == order.take(i as int),
                forall|j: int|
                    0 <= j < targets@.len() ==> (#[trigger] targets@[j]).1 == (
                    if watermarks@.contains_key(targets@[j].0@) {
                        Some(watermarks@[targets@[j].0@])
                    } else {
                        None
                    }),
            decreases ids@.len() - i,
        {
            let mark = match watermarks.get(&ids[i].0) {
                Some(id) => Some(*id),
                None => None,
            };
            let ghost before = targets@;
            targets.push((ids[i].clone(), mark));
            assert(target_ids(targets@) =~= target_ids(before).push(order[i as int]));
            assert(order.take(i + 1) =~= order.take(i as int).push(order[i as int]));
            i += 1;
        }
        assert(order.take(i as int) =~= order);
        targets
    }
}

/// The workflows that `targets` names.
pub open spec fn target_ids(targets: Seq<(WorkflowId, Option<EventId>)>) -> Seq<Seq<char>> {
    Seq::new(targets.len(), |i: int| targets[i].0@)
}

/// Nothing is left of a workflow that is dropped.
pub proof fn law_dropped_leaves_nothing(v: StateView, ids: Seq<Seq<char>>, k: Seq<char>)
    ensures
        ({
            let w = dropped(v, ids);
            &&& ids.contains(k) ==> !w.slots.contains_key(k) && !w.waits.contains_key(k)
                && !w.signals.contains_key(k) && !w.dirty.contains(k) && !w.seqs.contains_key(k)
            &&& !ids.contains(k) ==> w.slots.contains_key(k) == v.slots.contains_key(k)
                && w.slots[k] == v.slots[k] && w.waits.contains_key(k) == v.waits.contains_key(k)
                && w.waits[k] == v.waits[k]
        }),
    decreases ids.len(),
{
    if ids.len() > 0 {
        let init = ids.drop_last();
        law_dropped_leaves_nothing(v, init, k);
        if ids.contains(k) && k != ids.last() {
            assert(init[ids.index_of(k)] == k);
            assert(init.contains(k));
        }
        if !ids.contains(k) {
            if init.contains(k) {
                assert(ids[init.index_of(k)] == k);
            }
            assert(ids[ids.len() - 1] == ids.last());
        }
    }
}

/// A property that every step keeps holds after all of them.
proof fn lemma_fold_keeps<A, B>(
    s: Seq<A>,
    b: B,
    f: spec_fn(B, A) -> B,
    holds: spec_fn(B) -> bool,
)
    requires
        holds(b),
        forall|x: B, a: A| #[trigger] holds(f(x, a)) || !holds(x),
    ensures
        holds(s.fold_left(b, f)),
    decreases s.len(),
{
    if s.len() > 0 {
        lemma_fold_keeps(s.drop_last(), b, f, holds);
        let x = s.drop_last().fold_left(b, f);
        assert(holds(f(x, s.last())) || !holds(x));
    }
}

/// A property that one step brings about and every step keeps holds after all of them.
proof fn lemma_fold_reaches<A, B>(
    s: Seq<A>,
    b: B,
    f: spec_fn(B, A) -> B,
    holds: spec_fn(B) -> bool,
    i: int,
)
    requires
        0 <= i < s.len(),
        forall|x: B| #[trigger] holds(f(x, s[i])),
        forall|x: B, a: A| #[trigger] holds(f(x, a)) || !holds(x),
    ensures
        holds(s.fold_left(b, f)),
    decreases s.len(),
{
    let x = s.drop_last().fold_left(b, f);
    if i < s.len() - 1 {
        assert(s.drop_last()[i] == s[i]);
        lemma_fold_reaches(s.drop_last(), b, f, holds, i);
        assert(holds(f(x, s.last())) || !holds(x));
    } else {
        assert(holds(f(x, s[i])));
    }
}

/// A property that one step turns into another, which the later steps keep, holds after all
/// of them.
proof fn lemma_fold_through<A, B>(
    s: Seq<A>,
    b: B,
    f: spec_fn(B, A) -> B,
    first: spec_fn(B) -> bool,
    then_on: spec_fn(B) -> bool,
    i: int,
)
    requires
        0 <= i < s.len(),
        first(b),
        forall|x: B, j: int| 0 <= j < i && first(x) ==> #[trigger] first(f(x, s[j])),
        forall|x: B| first(x) ==> #[trigger] then_on(f(x, s[i])),
        forall|x: B, j: int| i < j < s.len() && then_on(x) ==> #[trigger] then_on(f(x, s[j])),
    ensures
        then_on(s.fold_left(b, f)),
    decreases s.len(),
{
    let init = s.drop_last();
    let x = init.fold_left(b, f);
    if i < s.len() - 1 {
        assert forall|y: B, j: int| 0 <= j < i && first(y) implies #[trigger] first(
            f(y, init[j]),
        ) by {
            assert(first(f(y, s[j])));
        }
        assert forall|y: B| first(y) implies #[trigger] then_on(f(y, init[i])) by {
            assert(then_on(f(y, s[i])));
        }
        assert forall|y: B, j: int| i < j < init.len() && then_on(y) implies #[trigger] then_on(
            f(y, init[j]),
        ) by {
            assert(then_on(f(y, s[j])));
        }
        lemma_fold_through(init, b, f, first, then_on, i);
        assert(then_on(f(x, s[s.len() - 1])));
    } else {
        lemma_fold_part(init, b, f, first);
        assert(then_on(f(x, s[i])));
    }
}

/// A property that every step keeps holds after all of them.
proof fn lemma_fold_part<A, B>(
    s: Seq<A>,
    b: B,
    f: spec_fn(B, A) -> B,
    holds: spec_fn(B) -> bool,
)
    requires
        holds(b),
        forall|x: B, j: int| 0 <= j < s.len() && holds(x) ==> #[trigger] holds(f(x, s[j])),
    ensures
        holds(s.fold_left(b, f)),
    decreases s.len(),
{
    if s.len() > 0 {
        let init = s.drop_last();
        assert forall|y: B, j: int| 0 <= j < init.len() && holds(y) implies #[trigger] holds(
            f(y, init[j]),
        ) by {
            assert(holds(f(y, s[j])));
        }
        lemma_fold_part(init, b, f, holds);
        assert(holds(f(init.fold_left(b, f), s[s.len() - 1])));
    }
}

/// Entry `i`, and no other, is of the workflow.
pub open spec fn only_entry<T>(
    entries: Seq<(WorkflowId, Option<T>)>,
    wf: Seq<char>,
    i: int,
) -> bool {
    &&& 0 <= i < entries.len()
    &&& forall|j: int| 0 <= j < entries.len() ==> ((#[trigger] entries[j]).0@ == wf <==> j == i)
}

/// The parts of the workflow's slot are stored, each once: its graph, its execution and its
/// pending counts.
pub open spec fn stores_slot(
    stored: Stored,
    wf: Seq<char>,
    s: SlotView,
    i: int,
    j: int,
    k: int,
) -> bool {
    &&& only_entry(stored.dags@, wf, i)
    &&& only_entry(stored.executions@, wf, j)
    &&& only_entry(stored.pendings@, wf, k)
    &&& stored.dags@[i].1 matches Some(d) && d@ == s.dag
    &&& stored.executions@[j].1 matches Some(x) && x@ == s.execution
    &&& stored.pendings@[k].1 matches Some(p) && p@ == s.pending
}

/// A workflow whose parts are stored is recovered from them: with its graph and its pending
/// counts as they are, and its execution as it is taken up again.
pub proof fn law_stored_workflow_is_recovered(
    stored: Stored,
    wf: Seq<char>,
    s: SlotView,
    i: int,
    j: int,
    k: int,
)
    requires
        stores_slot(stored, wf, s, i, j, k),
        s.execution.state.ended() || recoverable(s.execution),
    ensures
        ({
            let v = dropped(loaded(stored).state, loaded(stored).corrupt);
            &&& v.slots.contains_key(wf)
            &&& v.slots[wf] == SlotView {
                execution: taken_up(s.execution),
                state: SlotState::Ready,
                ..s
            }
        }),
{
    let start = Loading { state: state::no_workflows(), corrupt: Seq::empty() };
    let f1 = |l: Loading, e: (WorkflowId, Option<Dag>)| dag_loaded(l, e);
    let f2 = |l: Loading, e: (WorkflowId, Option<WorkflowExecution>)| execution_loaded(l, e);
    let f3 = |l: Loading, e: (WorkflowId, Option<KeyMap<usize>>)| pending_loaded(l, e);
    let f4 = |l: Loading, e: (WorkflowId, Option<Table<WaitPoint>>)| waits_loaded(l, e);
    let f5 = |l: Loading, e: (WorkflowId, Option<Table<Vec<u8>>>)| signals_loaded(l, e);
    let base = submit::submitted(wf, s.dag);
    let with_execution = SlotView { execution: taken_up(s.execution), ..base };
    let whole = SlotView { pending: s.pending, ..with_execution };
    let sound = |l: Loading| !l.corrupt.contains(wf);
    let has = |t: SlotView|
        |l: Loading|
            !l.corrupt.contains(wf) && l.state.slots.contains_key(wf) && l.state.slots[wf] == t;
    assert forall|l: Loading, n: Seq<char>| !l.corrupt.contains(wf) && n != wf implies !(
    #[trigger] spoilt(l, n)).corrupt.contains(wf) by {
        let c = spoilt(l, n).corrupt;
        if c.contains(wf) {
            let p = c.index_of(wf);
            assert(p < l.corrupt.len() ==> l.corrupt[p] == wf);
        }
    }
    let l1 = stored.dags@.fold_left(start, f1);
    let l2 = stored.executions@.fold_left(l1, f2);
    let l3 = stored.pendings@.fold_left(l2, f3);
    let l4 = stored.waits@.fold_left(l3, f4);
    let l5 = stored.signals@.fold_left(l4, f5);
    lemma_fold_through(stored.dags@, start, f1, sound, has(base), i);
    lemma_fold_through(stored.executions@, l1, f2, has(base), has(with_execution), j);
    lemma_fold_through(stored.pendings@, l2, f3, has(with_execution), has(whole), k);
    lemma_fold_keeps(stored.waits@, l3, f4, has(whole));
    lemma_fold_keeps(stored.signals@, l4, f5, has(whole));
    assert(l5 == loaded(stored));
    law_dropped_leaves_nothing(loaded(stored).state, loaded(stored).corrupt, wf);
}

/// The wait points and the signals that are stored for a sound workflow are there again after a
/// recovery, as they were stored.
pub proof fn law_stored_waits_are_recovered(
    stored: Stored,
    wf: Seq<char>,
    s: SlotView,
    i: int,
    j: int,
    k: int,
    m: int,
    n: int,
)
    requires
        stores_slot(stored, wf, s, i, j, k),
        s.execution.state.ended() || recoverable(s.execution),
        only_entry(stored.waits@, wf, m),
        stored.waits@[m].1 is Some,
        only_entry(stored.signals@, wf, n),
        stored.signals@[n].1 is Some,
    ensures
        ({
            let v = dropped(loaded(stored).state, loaded(stored).corrupt);
            let waits = (stored.waits@[m].1->0)@;
            let signals = (stored.signals@[n].1->0)@;
            &&& v.waits.contains_key(wf)
            &&& v.waits[wf].dom() == waits.dom()
            &&& forall|x: Seq<char>|
                waits.contains_key(x) ==> #[trigger] v.waits[wf][x] == waits[x]@
            &&& v.signals.contains_key(wf)
            &&& v.signals[wf].dom() == signals.dom()
            &&& forall|x: Seq<char>|
                signals.contains_key(x) ==> #[trigger] v.signals[wf][x] == signals[x]@
        }),
{
    let start = Loading { state: state::no_workflows(), corrupt: Seq::empty() };
    let f1 = |l: Loading, e: (WorkflowId, Option<Dag>)| dag_loaded(l, e);
    let f2 = |l: Loading, e: (WorkflowId, Option<WorkflowExecution>)| execution_loaded(l, e);
    let f3 = |l: Loading, e: (WorkflowId, Option<KeyMap<usize>>)| pending_loaded(l, e);
    let f4 = |l: Loading, e: (WorkflowId, Option<Table<WaitPoint>>)| waits_loaded(l, e);
    let f5 = |l: Loading, e: (WorkflowId, Option<Table<Vec<u8>>>)| signals_loaded(l, e);
    let l1 = stored.dags@.fold_left(start, f1);
    let l2 = stored.executions@.fold_left(l1, f2);
    let l3 = stored.pendings@.fold_left(l2, f3);
    let l4 = stored.waits@.fold_left(l3, f4);
    let l5 = stored.signals@.fold_left(l4, f5);
    let waits = state::wait_views((stored.waits@[m].1->0)@);
    let signals = state::signal_views((stored.signals@[n].1->0)@);
    let any = |l: Loading| true;
    let woken = |l: Loading| l.state.waits.contains_key(wf) && l.state.waits[wf] == waits;
    let both = |l: Loading|
        {
            &&& l.state.waits.contains_key(wf)
            &&& l.state.waits[wf] == waits
            &&& l.state.signals.contains_key(wf)
            &&& l.state.signals[wf] == signals
        };
    lemma_fold_through(stored.waits@, l3, f4, any, woken, m);
    lemma_fold_through(stored.signals@, l4, f5, woken, both, n);
    assert(both(l5));
    law_stored_workflow_is_recovered(stored, wf, s, i, j, k);
    assert(l5 == loaded(stored));
    law_dropped_leaves_nothing(loaded(stored).state, loaded(stored).corrupt, wf);
    let v = dropped(loaded(stored).state, loaded(stored).corrupt);
    lemma_dropped_signals(loaded(stored).state, loaded(stored).corrupt, wf);
    assert(!loaded(stored).corrupt.contains(wf));
    assert(v.waits[wf].dom() =~= (stored.waits@[m].1->0)@.dom());
    assert(v.signals[wf].dom() =~= (stored.signals@[n].1->0)@.dom());
}

proof fn lemma_dropped_signals(v: StateView, ids: Seq<Seq<char>>, k: Seq<char>)
    ensures
        !ids.contains(k) ==> dropped(v, ids).signals.contains_key(k) == v.signals.contains_key(k)
            && dropped(v, ids).signals[k] == v.signals[k],
    decreases ids.len(),
{
    if ids.len() > 0 {
        lemma_dropped_signals(v, ids.drop_last(), k);
        if !ids.contains(k) {
            assert(!ids.drop_last().contains(k)) by {
                if ids.drop_last().contains(k) {
                    let i = ids.drop_last().index_of(k);
                    assert(ids[i] == k);
                }
            }
            assert(ids[ids.len() - 1] != k);
        }
    }
}

/// What was submitted is recovered: submitting orders the workflow stored before anything is
/// told of it, and from its parts, as they were stored, the same workflow is taken up.
pub proof fn law_submission_is_recovered(
    before: StateView,
    after: StateView,
    wf: Seq<char>,
    d: DagView,
    r: Result<(), ActantError>,
    effects: Seq<Effect>,
    stored: Stored,
    i: int,
    j: int,
    k: int,
)
    requires
        engine::submit_outcome(before, after, wf, d, r, effects),
        !engine::ready(before, wf),
        stores_slot(stored, wf, after.slots[wf], i, j, k),
    ensures
        r is Ok,
        effects.len() > 0,
        events::effect_views(effects)[0] == EffectView::PersistWorkflow(wf),
        ({
            let v = dropped(loaded(stored).state, loaded(stored).corrupt);
            v.slots.contains_key(wf) && v.slots[wf] == after.slots[wf]
        }),
{
    let s = submit::submitted(wf, d);
    let x = s.execution;
    assert(events::effect_views(effects).len() == effects.len());
    execution_laws::law_counters_agree_new(wf, submit::node_ids(d));
    execution::lemma_fresh_order(submit::node_ids(d));
    execution::lemma_fresh_order(Seq::empty());
    assert(execution_laws::counted(x));
    law_recount_keeps_agreement(x);
    assert forall|n: Seq<char>| #[trigger] x.tasks.contains_key(n) implies x.tasks[n].state
        == Phase::Pending by {}
    assert(lifecycle::running_redispatched(x).tasks =~= x.tasks);
    assert(taken_up(x) == x);
    law_stored_workflow_is_recovered(stored, wf, s, i, j, k);
}

/// A workflow with an entry that could not be decoded, or with an execution that tasks
/// cannot be dispatched from, is dropped: graph, execution and pending counts stand and
/// fall together.
pub proof fn law_corrupt_entry_drops_workflow(stored: Stored, wf: Seq<char>, i: int)
    requires
        ({
            ||| 0 <= i < stored.dags@.len() && stored.dags@[i].0@ == wf && stored.dags@[i].1 is None
            ||| 0 <= i < stored.executions@.len() && stored.executions@[i].0@ == wf && (
            stored.executions@[i].1 matches Some(x) ==> !x@.state.ended() && !recoverable(
            x@,
        ))
            ||| 0 <= i < stored.pendings@.len() && stored.pendings@[i].0@ == wf
                && stored.pendings@[i].1 is None
        }),
    ensures
        loaded(stored).corrupt.contains(wf),
        !dropped(loaded(stored).state, loaded(stored).corrupt).slots.contains_key(wf),
        !dropped(loaded(stored).state, loaded(stored).corrupt).waits.contains_key(wf),
{
    let start = Loading {
        state: state::no_workflows(),
        corrupt: Seq::empty(),
    };
    let holds = |l: Loading| l.corrupt.contains(wf);
    let f1 = |l: Loading, e: (WorkflowId, Option<Dag>)| dag_loaded(l, e);
    let f2 = |l: Loading, e: (WorkflowId, Option<WorkflowExecution>)| execution_loaded(l, e);
    let f3 = |l: Loading, e: (WorkflowId, Option<KeyMap<usize>>)| pending_loaded(l, e);
    let f4 = |l: Loading, e: (WorkflowId, Option<Table<WaitPoint>>)| waits_loaded(l, e);
    let f5 = |l: Loading, e: (WorkflowId, Option<Table<Vec<u8>>>)| signals_loaded(l, e);
    assert forall|l: Loading, k: Seq<char>| l.corrupt.contains(wf) || k == wf implies #[trigger] spoilt(
        l,
        k,
    ).corrupt.contains(wf) by {
        if !l.corrupt.contains(k) {
            let c = l.corrupt.push(k);
            if l.corrupt.contains(wf) {
                assert(c[l.corrupt.index_of(wf)] == wf);
            } else {
                assert(c[l.corrupt.len() as int] == wf);
            }
        }
    }
    let l1 = stored.dags@.fold_left(start, f1);
    let l2 = stored.executions@.fold_left(l1, f2);
    let l3 = stored.pendings@.fold_left(l2, f3);
    let l4 = stored.waits@.fold_left(l3, f4);
    if 0 <= i < stored.dags@.len() && stored.dags@[i].0@ == wf && stored.dags@[i].1 is None {
        lemma_fold_reaches(stored.dags@, start, f1, holds, i);
        lemma_fold_keeps(stored.executions@, l1, f2, holds);
        lemma_fold_keeps(stored.pendings@, l2, f3, holds);
    } else if 0 <= i < stored.executions@.len() && stored.executions@[i].0@ == wf && (
    stored.executions@[i].1 matches Some(x) ==> !x@.state.ended() && !recoverable(
            x@,
        )) {
        lemma_fold_reaches(stored.executions@, l1, f2, holds, i);
        lemma_fold_keeps(stored.pendings@, l2, f3, holds);
    } else {
        lemma_fold_reaches(stored.pendings@, l2, f3, holds, i);
    }
    assert(holds(l3));
    lemma_fold_keeps(stored.waits@, l3, f4, holds);
    lemma_fold_keeps(stored.signals@, l4, f5, holds);
    law_dropped_leaves_nothing(loaded(stored).state, loaded(stored).corrupt, wf);
}

/// Every task of the workflow that can run has a node.
pub open spec fn buildable(s: SlotView) -> bool {
    forall|k: Seq<char>| #[trigger] lifecycle::runnable(s, k) ==> s.dag.nodes.contains_key(k)
}

/// The task can run, in a workflow that has not ended and whose tasks can all be built.
pub open spec fn resumable(v: StateView, wf: Seq<char>, k: Seq<char>) -> bool {
    &&& v.slots.contains_key(wf)
    &&& !v.slots[wf].execution.state.ended()
    &&& buildable(v.slots[wf])
    &&& lifecycle::runnable(v.slots[wf], k)
}

/// The workflow and the identifier of each task.
pub open spec fn task_names(tasks: Seq<TaskDefinition>) -> Seq<(Seq<char>, Seq<char>)> {
    Seq::new(tasks.len(), |i: int| (tasks[i]@.workflow_id->0, tasks[i]@.id))
}

/// `tasks` are the resumable tasks of the workflows in `ids`, each once.
pub open spec fn lists_resumable(
    v: StateView,
    origin: Option<Seq<char>>,
    ids: Set<Seq<char>>,
    tasks: Seq<TaskDefinition>,
) -> bool {
    &&& task_names(tasks).no_duplicates()
    &&& forall|wf: Seq<char>, k: Seq<char>| #[trigger]
        task_names(tasks).contains((wf, k)) <==> ids.contains(wf) && resumable(v, wf, k)
    &&& forall|i: int|
        #![trigger tasks[i]]
        0 <= i < tasks.len() ==> tasks[i]@ == slot::task_for(
            v.slots[task_names(tasks)[i].0],
            task_names(tasks)[i].0,
            origin,
            task_names(tasks)[i].1,
        )
}

proof fn lemma_resumable(
    v: StateView,
    origin: Option<Seq<char>>,
    ids: Set<Seq<char>>,
    wf: Seq<char>,
    tasks: Seq<TaskDefinition>,
    more: Seq<TaskDefinition>,
    keys: Seq<Seq<char>>,
)
    requires
        lists_resumable(v, origin, ids, tasks),
        !ids.contains(wf),
        task::task_views(more) == slot::tasks_for(v.slots[wf], wf, origin, keys),
        keys.no_duplicates(),
        forall|k: Seq<char>| #[trigger] keys.contains(k) <==> resumable(v, wf, k),
    ensures
        lists_resumable(v, origin, ids.insert(wf), tasks + more),
{
    let all = tasks + more;
    let names = task_names(all);
    assert(task::task_views(more).len() == keys.len());
    assert forall|i: int| 0 <= i < more.len() implies #[trigger] more[i]@ == slot::task_for(
        v.slots[wf],
        wf,
        origin,
        keys[i],
    ) by {
        assert(task::task_views(more)[i] == more[i]@);
    }
    assert forall|i: int| 0 <= i < tasks.len() implies names[i] == task_names(tasks)[i] by {}
    assert forall|i: int| tasks.len() <= i < all.len() implies names[i] == (
        wf,
        keys[i - tasks.len()],
    ) by {
        assert(all[i] == more[i - tasks.len()]);
    }
    assert forall|i: int, j: int| 0 <= i < names.len() && 0 <= j < names.len() && i != j implies names[i]
        != names[j] by {
        if i < tasks.len() {
            assert(task_names(tasks).contains((names[i].0, names[i].1)));
        }
        if j < tasks.len() {
            assert(task_names(tasks).contains((names[j].0, names[j].1)));
        }
    }
    assert forall|w: Seq<char>, k: Seq<char>| #[trigger] names.contains((w, k)) <==> ids.insert(
        wf,
    ).contains(w) && resumable(v, w, k) by {
        if task_names(tasks).contains((w, k)) {
            let i = task_names(tasks).index_of((w, k));
            assert(names[i] == (w, k));
        }
        if w == wf && keys.contains(k) {
            let i = keys.index_of(k);
            assert(names[tasks.len() + i] == (w, k));
        }
        if names.contains((w, k)) {
            let i = names.index_of((w, k));
            if i < tasks.len() {
                assert(task_names(tasks)[i] == (w, k));
                assert(task_names(tasks).contains((w, k)));
            } else {
                assert(keys[i - tasks.len()] == k);
                assert(keys.contains(k));
            }
        }
    }
    assert forall|i: int| #![trigger all[i]] 0 <= i < all.len() implies all[i]@ == slot::task_for(
        v.slots[names[i].0],
        names[i].0,
        origin,
        names[i].1,
    ) by {
        if i < tasks.len() {
            assert(tasks[i] == all[i]);
        } else {
            assert(all[i] == more[i - tasks.len()]);
        }
    }
}

impl Orchestrator {
    /// The tasks that can run in the workflows that were recovered, as they are handed to
    /// a scheduler. A workflow with a runnable task that has no node is left out.
    pub fn recover_ready_tasks(&self) -> (tasks: Vec<TaskDefinition>)
        requires
            self.wf(),
        ensures
            lists_resumable(self.state@, self.origin(), self.state@.slots.dom(), tasks@),
    {
        let ghost v = self.state@;
        let ghost o = self.origin();
        let ids = self.state.workflow_ids();
        let ghost order = state::workflow_texts(ids@);
        let mut tasks: Vec<TaskDefinition> = Vec::new();
        let mut i: usize = 0;
        assert(order.take(0).to_set() =~= Set::empty());
        while i < ids.len()
            invariant
                i <= ids@.len(),
                self.wf(),
                v == self.state@,
                o == self.origin(),
                order == state::workflow_texts(ids@),
                lists_workflows(v, order),
                lists_resumable(v, o, order.take(i as int).to_set(), tasks@),
            decreases ids@.len() - i,
        {
            let ghost wf = order[i as int];
            let ghost done = order.take(i as int).to_set();
            let ghost before = tasks@;
            let mut more: Vec<TaskDefinition> = Vec::new();
            let ghost mut keys: Seq<Seq<char>> = Seq::empty();
            proof {
                assert(order.to_set().contains(wf));
                assert(order.take(i + 1) =~= order.take(i as int).push(wf));
                graph::lemma_to_set_push(order.take(i as int), wf);
                assert(!done.contains(wf));
                assert(task::task_views(more@) =~= slot::tasks_for(v.slots[wf], wf, o, keys));
            }
            if let Some(slot) = self.state.slot(&ids[i]) {
                if !slot.execution.is_terminal() {
                    let ready = slot.runnable_task_ids();
                    let ghost texts = common::task_texts(ready@);
                    match slot.build_ready_tasks(&ids[i], &self.node_id, &ready) {
                        Ok(built) => {
                            more = built;
                            proof {
                                keys = texts;
                                assert(buildable(v.slots[wf])) by {
                                    assert forall|k: Seq<char>| #[trigger]
                                        lifecycle::runnable(v.slots[wf], k) implies v.slots[wf].dag.nodes.contains_key(
                                    k) by {
                                        assert(texts.contains(k));
                                        assert(texts[texts.index_of(k)] == k);
                                    }
                                }
                            }
                        },
                        Err(_) => {
                            proof {
                                let j = choose|j: int|
                                    0 <= j < texts.len() && !v.slots[wf].dag.nodes.contains_key(
                                        #[trigger] texts[j],
                                    );
                                assert(texts.contains(texts[j]));
                                assert(lifecycle::runnable(v.slots[wf], texts[j]));
                                assert(!buildable(v.slots[wf]));
                            }
                        },
                    }
                }
            }
            proof {
                assert forall|k: Seq<char>| #[trigger] keys.contains(k) <==> resumable(v, wf, k) by {}
                lemma_resumable(v, o, done, wf, before, more@, keys);
            }
            tasks.append(&mut more);
            i += 1;
        }
        assert(order.take(i as int) =~= order);
        tasks
    }
}

} // verus!
