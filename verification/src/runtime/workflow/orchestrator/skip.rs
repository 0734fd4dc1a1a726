//! Skipping branches whose condition does not hold.
use vstd::prelude::*;
use vstd::string::*;

use crate::common;
use crate::common::{ActantError, TaskId};
use crate::runtime::workflow::dag;
use crate::runtime::workflow::dag::DagEdge;
use crate::runtime::workflow::execution;
use crate::runtime::workflow::execution::TaskState;
use crate::runtime::workflow::execution_laws;
use crate::runtime::workflow::graph;
use crate::runtime::workflow::orchestrator::progress;
use crate::runtime::workflow::orchestrator::progress::{no_pending_count_error, targets_task};
use crate::runtime::workflow::orchestrator::slot;
use crate::runtime::workflow::orchestrator::slot::{SlotView, WorkflowSlot};
use crate::runtime::workflow::phase::{Phase, Terminal};
use crate::text::same_text;

verus! {

/// Some task in `ids` has produced a result.
pub open spec fn any_result(ids: Seq<Seq<char>>, tasks: Map<Seq<char>, TaskState>) -> bool {
    exists|i: int|
        0 <= i < ids.len() && tasks.contains_key(#[trigger] ids[i]) && tasks[ids[i]].result is Some
}

/// Some task that `id` waits for has produced a result.
pub open spec fn has_result(v: SlotView, id: Seq<char>) -> bool {
    any_result(graph::sources(slot::pairs(v.dag), id), v.execution.tasks)
}

/// `t` has produced a result.
pub open spec fn delivered(v: SlotView, t: Seq<char>) -> bool {
    v.execution.tasks.contains_key(t) && v.execution.tasks[t].result is Some
}

/// An edge with a condition leads from `from` to `to`.
pub open spec fn on_condition(edges: Seq<DagEdge>, from: Seq<char>, to: Seq<char>) -> bool {
    progress::is_conditional(dag::conditional_from(edges, from), to)
}

/// Some task that `id` waits for has produced a result, besides the one that a refused edge
/// into `id` leaves. The refused edge has a condition, so a task without a condition on its
/// way to `id` is not the one, and of two tasks with results one is not.
pub open spec fn has_other_result(v: SlotView, id: Seq<char>) -> bool {
    let ids = graph::sources(slot::pairs(v.dag), id);
    exists|i: int|
        0 <= i < ids.len() && delivered(v, #[trigger] ids[i]) && (!on_condition(
            v.dag.edges,
            ids[i],
            id,
        ) || exists|j: int|
            0 <= j < ids.len() && ids[j] != ids[i] && delivered(v, #[trigger] ids[j]))
}

/// Where a wave of skipping stands: the workflow, the tasks that can run now, and the
/// tasks that were skipped.
#[verifier::ext_equal]
pub struct Wave {
    pub slot: SlotView,
    pub ready: Seq<Seq<char>>,
    pub skipped: Seq<Seq<char>>,
}

/// `k` waits for one task less. When that was the last one, it can run if any of the
/// tasks that it waited for has a result; otherwise it is skipped too.
pub open spec fn wave_reaches(w: Wave, k: Seq<char>) -> Wave {
    let p = w.slot.pending;
    if !p.contains_key(k) || p[k] == 0 {
        w
    } else {
        let slot = SlotView { pending: p.insert(k, (p[k] - 1) as usize), ..w.slot };
        if p[k] > 1 {
            Wave { slot, ..w }
        } else if has_result(slot, k) {
            Wave { slot, ready: w.ready.push(k), ..w }
        } else {
            Wave {
                slot: SlotView {
                    execution: execution::task_skipped(slot.execution, k),
                    ..slot
                },
                skipped: w.skipped.push(k),
                ..w
            }
        }
    }
}

/// The wave after it has gone over `succs`, leaving out the targets of conditional edges.
pub open spec fn wave_over(
    v: SlotView,
    succs: Seq<Seq<char>>,
    cond: Seq<(TaskId, String)>,
) -> Wave
    decreases succs.len(),
{
    if succs.len() == 0 {
        Wave { slot: v, ready: Seq::empty(), skipped: Seq::empty() }
    } else {
        let w = wave_over(v, succs.drop_last(), cond);
        if progress::is_conditional(cond, succs.last()) {
            w
        } else {
            wave_reaches(w, succs.last())
        }
    }
}

/// The wave over the successors of `id`.
pub open spec fn wave_from(v: SlotView, id: Seq<char>) -> Wave {
    wave_over(
        v,
        graph::targets(slot::pairs(v.dag), id),
        dag::conditional_from(v.dag.edges, id),
    )
}

/// The tasks that still wait for something.
pub open spec fn waiting(pending: Map<Seq<char>, usize>) -> Set<Seq<char>> {
    pending.dom().filter(|k: Seq<char>| pending[k] > 0)
}

/// The workflow once every task in `worklist` has passed its skipping on, last one first,
/// and the tasks that can run after it.
pub open spec fn cascaded(
    v: SlotView,
    worklist: Seq<Seq<char>>,
    ready: Seq<Seq<char>>,
) -> (SlotView, Seq<Seq<char>>)
    decreases waiting(v.pending).len(), worklist.len(),
    when v.pending.dom().finite()
    via cascaded_decreases
{
    if worklist.len() == 0 {
        (v, ready)
    } else {
        let w = wave_from(v, worklist.last());
        cascaded(w.slot, worklist.drop_last() + w.skipped, ready + w.ready)
    }
}

#[via_fn]
proof fn cascaded_decreases(v: SlotView, worklist: Seq<Seq<char>>, ready: Seq<Seq<char>>) {
    if worklist.len() > 0 {
        lemma_wave(
            v,
            graph::targets(slot::pairs(v.dag), worklist.last()),
            dag::conditional_from(v.dag.edges, worklist.last()),
        );
    }
}

/// A wave takes at least one waiting task away for each task that it makes ready or
/// skips, and touches neither the graph nor the set of counted tasks.
pub proof fn lemma_wave(v: SlotView, succs: Seq<Seq<char>>, cond: Seq<(TaskId, String)>)
    requires
        v.pending.dom().finite(),
    ensures
        ({
            let w = wave_over(v, succs, cond);
            &&& w.slot.pending.dom() == v.pending.dom()
            &&& w.slot.dag == v.dag
            &&& w.slot.state == v.state
            &&& waiting(w.slot.pending).finite()
            &&& waiting(w.slot.pending).len() + w.skipped.len() + w.ready.len() <= waiting(
                v.pending,
            ).len()
        }),
    decreases succs.len(),
{
    if succs.len() == 0 {
        assert(waiting(v.pending).finite());
    } else {
        lemma_wave(v, succs.drop_last(), cond);
        let w = wave_over(v, succs.drop_last(), cond);
        let k = succs.last();
        let p = w.slot.pending;
        if !progress::is_conditional(cond, k) && p.contains_key(k) && p[k] > 0 {
            let q = p.insert(k, (p[k] - 1) as usize);
            assert(q.dom() =~= p.dom());
            if p[k] > 1 {
                assert(waiting(q) =~= waiting(p));
            } else {
                assert(waiting(q) =~= waiting(p).remove(k));
                assert(waiting(p).contains(k));
            }
        }
    }
}

/// A wave keeps the counters of the execution in agreement with its tasks.
pub proof fn lemma_wave_counted(v: SlotView, succs: Seq<Seq<char>>, cond: Seq<(TaskId, String)>)
    requires
        execution_laws::counted(v.execution),
    ensures
        execution_laws::counted(wave_over(v, succs, cond).slot.execution),
    decreases succs.len(),
{
    if succs.len() > 0 {
        lemma_wave_counted(v, succs.drop_last(), cond);
        let w = wave_over(v, succs.drop_last(), cond);
        execution_laws::lemma_skipped_counted(w.slot.execution, succs.last());
    }
}

/// What skipping a branch came to.
#[derive(Debug)]
pub enum BranchSkip {
    /// The task still waits for other predecessors.
    Waiting,
    /// Another predecessor has a result: the task can run.
    Ready,
    /// The workflow has ended.
    Ended,
    /// The task was skipped, and these tasks can run now.
    Skipped(Vec<TaskId>),
}

/// What skipping the branch that starts with `id` returns and leaves behind.
pub open spec fn skip_outcome(
    before: SlotView,
    after: SlotView,
    id: Seq<char>,
    r: Result<BranchSkip, ActantError>,
) -> bool {
    let left = if before.pending[id] > 0 {
        (before.pending[id] - 1) as usize
    } else {
        0
    };
    let counted_down = SlotView { pending: before.pending.insert(id, left), ..before };
    let skipped = SlotView {
        execution: execution::task_skipped(before.execution, id),
        ..counted_down
    };
    let end = cascaded(skipped, seq![id], Seq::empty());
    if !before.pending.contains_key(id) {
        &&& after == before
        &&& r matches Err(ActantError::Internal(m))
        &&& m@ == progress::no_pending_count(id)
    } else if left > 0 {
        after == counted_down && r matches Ok(BranchSkip::Waiting)
    } else if has_other_result(before, id) {
        after == counted_down && r matches Ok(BranchSkip::Ready)
    } else if skipped.execution.state.ended() {
        after == skipped && r matches Ok(BranchSkip::Ended)
    } else {
        &&& after == end.0
        &&& if end.0.execution.state.ended() {
            r matches Ok(BranchSkip::Ended)
        } else {
            r matches Ok(BranchSkip::Skipped(ready)) && common::task_texts(ready@) == end.1
        }
    }
}

impl WorkflowSlot {
    /// Whether some task that `task_id` waits for has produced a result.
    fn any_predecessor_result(&self, task_id: &TaskId) -> (b: bool)
        requires
            self.wf(),
        ensures
            b == has_result(self@, task_id@),
    {
        let ghost sources = graph::sources(slot::pairs(self@.dag), task_id@);
        assert(slot::pairs(self@.dag) == self.dag.pairs());
        let predecessors = self.dag.predecessors_of(task_id);
        proof {
            if !self.dag.node_map().contains_key(task_id@) {
                self.dag.lemma_absent(task_id@);
            }
        }
        let mut i: usize = 0;
        while i < predecessors.len()
            invariant
                i <= predecessors@.len(),
                self.wf(),
                sources == graph::sources(slot::pairs(self@.dag), task_id@),
                predecessors@.len() == sources.len(),
                dag::names_nodes(predecessors@, self.dag.node_map(), sources),
                forall|j: int|
                    0 <= j < i ==> !(self@.execution.tasks.contains_key(#[trigger] sources[j])
                        && self@.execution.tasks[sources[j]].result is Some),
            decreases predecessors@.len() - i,
        {
            let id = &predecessors[i].task_id;
            proof {
                assert(self.dag.node_map().contains_key(sources[i as int]));
                assert(id@ == sources[i as int]);
            }
            if let Some(t) = self.execution.tasks.get(&id.0) {
                if t.result.is_some() {
                    return true;
                }
            }
            i += 1;
        }
        false
    }

    /// Whether some task that `task_id` waits for has produced a result, besides the one
    /// that a refused edge into `task_id` leaves.
    fn any_other_result(&self, task_id: &TaskId) -> (b: bool)
        requires
            self.wf(),
        ensures
            b == has_other_result(self@, task_id@),
    {
        let ghost v = self@;
        let ghost sources = graph::sources(slot::pairs(self@.dag), task_id@);
        assert(slot::pairs(self@.dag) == self.dag.pairs());
        let predecessors = self.dag.predecessors_of(task_id);
        proof {
            if !self.dag.node_map().contains_key(task_id@) {
                self.dag.lemma_absent(task_id@);
            }
        }
        let mut first: Option<usize> = None;
        let mut i: usize = 0;
        while i < predecessors.len()
            invariant
                i <= predecessors@.len(),
                self.wf(),
                v == self@,
                sources == graph::sources(slot::pairs(self@.dag), task_id@),
                predecessors@.len() == sources.len(),
                dag::names_nodes(predecessors@, self.dag.node_map(), sources),
                match first {
                    Some(f) => {
                        &&& f < i
                        &&& delivered(v, sources[f as int])
                        &&& on_condition(v.dag.edges, sources[f as int], task_id@)
                        &&& forall|j: int|
                            0 <= j < i && delivered(v, #[trigger] sources[j]) ==> sources[j]
                                == sources[f as int]
                    },
                    None => forall|j: int| 0 <= j < i ==> !delivered(v, #[trigger] sources[j]),
                },
            decreases predecessors@.len() - i,
        {
            let id = &predecessors[i].task_id;
            proof {
                assert(self.dag.node_map().contains_key(sources[i as int]));
                assert(id@ == sources[i as int]);
            }
            let has_result = match self.execution.tasks.get(&id.0) {
                Some(t) => t.result.is_some(),
                None => false,
            };
            if has_result {
                assert(delivered(v, sources[i as int]));
                let conditional = self.dag.conditional_edges_from(id);
                if !targets_task(&conditional, task_id) {
                    return true;
                }
                match first {
                    Some(f) => {
                        let other = &predecessors[f].task_id;
                        proof {
                            assert(self.dag.node_map().contains_key(sources[f as int]));
                            assert(other@ == sources[f as int]);
                        }
                        if !same_text(other.0.as_str(), id.0.as_str()) {
                            assert(delivered(v, sources[f as int]));
                            return true;
                        }
                    },
                    None => {
                        first = Some(i);
                    },
                }
            }
            i += 1;
        }
        false
    }

    /// Passes the skipping of `task_id` on to its successors. Returns the tasks that can
    /// run now and those that were skipped.
    fn pass_skip(&mut self, task_id: &TaskId) -> (r: (Vec<TaskId>, Vec<TaskId>))
        requires
            old(self).wf(),
        ensures
            final(self).wf(),
            ({
                let w = wave_from(old(self)@, task_id@);
                &&& final(self)@ == w.slot
                &&& common::task_texts(r.0@) == w.ready
                &&& common::task_texts(r.1@) == w.skipped
            }),
    {
        let ghost before = self@;
        let successors = self.dag.successor_ids(task_id);
        let conditional = self.dag.conditional_edges_from(task_id);
        let ghost succs = common::task_texts(successors@);
        let ghost cond = conditional@;
        assert(slot::pairs(before.dag) == self.dag.pairs());
        let mut ready: Vec<TaskId> = Vec::new();
        let mut skipped: Vec<TaskId> = Vec::new();
        let mut i: usize = 0;
        assert(common::task_texts(ready@) =~= wave_over(before, succs.take(0), cond).ready);
        assert(common::task_texts(skipped@) =~= wave_over(before, succs.take(0), cond).skipped);
        while i < successors.len()
            invariant
                i <= successors@.len(),
                succs == common::task_texts(successors@),
                cond == conditional@,
                self.wf(),
                self.dag == old(self).dag,
                self@ == wave_over(before, succs.take(i as int), cond).slot,
                common::task_texts(ready@) == wave_over(before, succs.take(i as int), cond).ready,
                common::task_texts(skipped@) == wave_over(
                    before,
                    succs.take(i as int),
                    cond,
                ).skipped,
            decreases successors@.len() - i,
        {
            let succ = &successors[i];
            let ghost w = wave_over(before, succs.take(i as int), cond);
            let ghost ready_before = ready@;
            let ghost skipped_before = skipped@;
            proof {
                assert(succs.take(i + 1).drop_last() =~= succs.take(i as int));
                assert(succs.take(i + 1).last() == succ@);
            }
            if !targets_task(&conditional, succ) {
                let mut freed = false;
                let ghost pending = self.pending@;
                if let Some(count) = self.pending.get_mut(&succ.0) {
                    if *count > 0 {
                        *count -= 1;
                        freed = *count == 0;
                    }
                }
                proof {
                    if pending.contains_key(succ@) && pending[succ@] == 0 {
                        assert(self.pending@ =~= pending);
                    }
                }
                if freed {
                    if self.any_predecessor_result(succ) {
                        ready.push(succ.clone());
                        assert(common::task_texts(ready@) =~= common::task_texts(
                            ready_before,
                        ).push(succ@));
                    } else {
                        proof {
                            execution_laws::lemma_counted_room(self.execution@, succ@);
                            execution_laws::lemma_skipped_counted(self.execution@, succ@);
                        }
                        self.execution.mark_task_skipped(succ);
                        skipped.push(succ.clone());
                        assert(common::task_texts(skipped@) =~= common::task_texts(
                            skipped_before,
                        ).push(succ@));
                    }
                }
            }
            i += 1;
        }
        assert(succs.take(i as int) =~= succs);
        (ready, skipped)
    }

    /// Passes the skipping of `task_id` on until nothing more is skipped. Returns the
    /// tasks that can run now.
    pub fn cascade_skip(&mut self, task_id: &TaskId) -> (ready: Vec<TaskId>)
        requires
            old(self).wf(),
        ensures
            final(self).wf(),
            (final(self)@, common::task_texts(ready@)) == cascaded(
                old(self)@,
                seq![task_id@],
                Seq::empty(),
            ),
    {
        let mut worklist: Vec<TaskId> = Vec::new();
        worklist.push(task_id.clone());
        let mut ready: Vec<TaskId> = Vec::new();
        let ghost end = cascaded(self@, seq![task_id@], Seq::empty());
        assert(common::task_texts(worklist@) =~= seq![task_id@]);
        assert(common::task_texts(ready@) =~= Seq::empty());
        let _n: usize = self.pending.len();
        while worklist.len() > 0
            invariant
                self.wf(),
                self@.pending.dom().finite(),
                end == cascaded(
                    self@,
                    common::task_texts(worklist@),
                    common::task_texts(ready@),
                ),
            decreases waiting(self@.pending).len(), worklist@.len(),
        {
            let ghost v = self@;
            let ghost list = common::task_texts(worklist@);
            let ghost ready_before = common::task_texts(ready@);
            let n: usize = worklist.len() - 1;
            let id = worklist[n].clone();
            worklist.truncate(n);
            proof {
                assert(list.last() == id@);
                lemma_wave(
                    v,
                    graph::targets(slot::pairs(v.dag), id@),
                    dag::conditional_from(v.dag.edges, id@),
                );
            }
            let ghost kept = worklist@;
            let (mut more, mut skipped) = self.pass_skip(&id);
            let ghost w = wave_from(v, id@);
            let ghost more0 = more@;
            let ghost skipped0 = skipped@;
            let ghost ready0 = ready@;
            ready.append(&mut more);
            worklist.append(&mut skipped);
            proof {
                assert(common::task_texts(ready@) =~= ready_before + w.ready) by {
                    assert(ready@ =~= ready0 + more0);
                    assert forall|i: int| 0 <= i < ready@.len() implies common::task_texts(
                        ready@,
                    )[i] == (ready_before + w.ready)[i] by {
                        if i >= ready0.len() {
                            assert(common::task_texts(more0)[i - ready0.len()] == more0[i
                                - ready0.len()]@);
                        }
                    }
                }
                assert(common::task_texts(worklist@) =~= list.drop_last() + w.skipped) by {
                    assert(worklist@ =~= kept + skipped0);
                    assert forall|i: int| 0 <= i < worklist@.len() implies common::task_texts(
                        worklist@,
                    )[i] == (list.drop_last() + w.skipped)[i] by {
                        if i >= kept.len() {
                            assert(common::task_texts(skipped0)[i - kept.len()] == skipped0[i
                                - kept.len()]@);
                        }
                    }
                }
                assert(common::task_texts(skipped0).len() == skipped0.len());
            }
        }
        ready
    }

    /// The condition of an edge into `task_id` does not hold: the task waits for one
    /// predecessor less, and is skipped when no other predecessor is left that could feed it.
    pub fn skip_branch(&mut self, task_id: &TaskId) -> (r: Result<BranchSkip, ActantError>)
        requires
            old(self).wf(),
        ensures
            final(self).wf(),
            skip_outcome(old(self)@, final(self)@, task_id@, r),
    {
        let ghost before = self@;
        let mut left: usize = 0;
        match self.pending.get_mut(&task_id.0) {
            Some(count) => {
                if *count > 0 {
                    *count -= 1;
                }
                left = *count;
            },
            None => {
                return Err(no_pending_count_error(task_id));
            },
        }
        if left > 0 {
            return Ok(BranchSkip::Waiting);
        }
        let fed = self.any_other_result(task_id);
        assert(fed == has_other_result(before, task_id@)) by {
            assert forall|t: Seq<char>| #[trigger] delivered(self@, t) == delivered(before, t) by {}
        }
        if fed {
            return Ok(BranchSkip::Ready);
        }
        proof {
            execution_laws::lemma_counted_room(self.execution@, task_id@);
            execution_laws::lemma_skipped_counted(self.execution@, task_id@);
        }
        self.execution.mark_task_skipped(task_id);
        if self.execution.is_terminal() {
            return Ok(BranchSkip::Ended);
        }
        let ready = self.cascade_skip(task_id);
        if self.execution.is_terminal() {
            return Ok(BranchSkip::Ended);
        }
        Ok(BranchSkip::Skipped(ready))
    }
}

/// A condition that does not hold skips its branch: a task that nothing but `from` leads to,
/// under a condition, is skipped when that condition is refused.
pub proof fn law_refused_condition_skips(
    before: SlotView,
    after: SlotView,
    id: Seq<char>,
    from: Seq<char>,
    r: Result<BranchSkip, ActantError>,
)
    requires
        skip_outcome(before, after, id, r),
        before.pending.dom().finite(),
        before.pending.contains_key(id),
        before.pending[id] <= 1,
        forall|i: int|
            0 <= i < graph::sources(slot::pairs(before.dag), id).len()
                ==> #[trigger] graph::sources(slot::pairs(before.dag), id)[i] == from,
        on_condition(before.dag.edges, from, id),
        before.execution.tasks.contains_key(id),
        !before.execution.tasks[id].ended(),
    ensures
        r matches Ok(s) && (s is Skipped || s is Ended),
        after.execution.tasks.contains_key(id),
        after.execution.tasks[id] == (TaskState {
            state: Phase::Skipped,
            ..before.execution.tasks[id]
        }),
{
    assert(!has_other_result(before, id));
    let counted_down = SlotView { pending: before.pending.insert(id, 0), ..before };
    let skipped = SlotView {
        execution: execution::task_skipped(before.execution, id),
        ..counted_down
    };
    assert(skipped.pending.dom() =~= before.pending.dom());
    law_cascade_keeps_ended(skipped, seq![id], Seq::empty(), id);
}

/// Results are never taken back by skipping: every task that has ended keeps its state.
pub proof fn law_wave_keeps_ended(
    v: SlotView,
    succs: Seq<Seq<char>>,
    cond: Seq<(TaskId, String)>,
    k: Seq<char>,
)
    requires
        v.execution.tasks.contains_key(k),
        v.execution.tasks[k].ended(),
    ensures
        wave_over(v, succs, cond).slot.execution.tasks.contains_key(k),
        wave_over(v, succs, cond).slot.execution.tasks[k] == v.execution.tasks[k],
    decreases succs.len(),
{
    if succs.len() > 0 {
        law_wave_keeps_ended(v, succs.drop_last(), cond, k);
    }
}

/// The same holds of skipping passed on until nothing more is skipped.
pub proof fn law_cascade_keeps_ended(
    v: SlotView,
    worklist: Seq<Seq<char>>,
    ready: Seq<Seq<char>>,
    k: Seq<char>,
)
    requires
        v.pending.dom().finite(),
        v.execution.tasks.contains_key(k),
        v.execution.tasks[k].ended(),
    ensures
        cascaded(v, worklist, ready).0.execution.tasks.contains_key(k),
        cascaded(v, worklist, ready).0.execution.tasks[k] == v.execution.tasks[k],
    decreases waiting(v.pending).len(), worklist.len(),
{
    if worklist.len() > 0 {
        let id = worklist.last();
        let succs = graph::targets(slot::pairs(v.dag), id);
        let cond = dag::conditional_from(v.dag.edges, id);
        lemma_wave(v, succs, cond);
        law_wave_keeps_ended(v, succs, cond, k);
        let w = wave_from(v, id);
        law_cascade_keeps_ended(w.slot, worklist.drop_last() + w.skipped, ready + w.ready, k);
    }
}

} // verus!
