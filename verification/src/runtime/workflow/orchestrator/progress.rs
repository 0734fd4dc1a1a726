//! How the completion of a task moves its workflow on.
use vstd::prelude::*;
use vstd::string::*;

use crate::common;
use crate::common::{ActantError, TaskId, WorkflowId};
use crate::runtime::workflow::dag;
use crate::runtime::workflow::execution;
use crate::runtime::workflow::execution_laws;
use crate::runtime::workflow::graph;
use crate::runtime::workflow::orchestrator::slot;
use crate::runtime::workflow::orchestrator::slot::{SlotState, SlotView, WorkflowSlot};
use crate::runtime::workflow::orchestrator::submit;
use crate::runtime::workflow::orchestrator::submit::workflow_message;
use crate::runtime::workflow::phase::Terminal;

verus! {

/// `k` is the target of one of the conditional edges `cond`.
pub open spec fn is_conditional(cond: Seq<(TaskId, String)>, k: Seq<char>) -> bool {
    exists|i: int| 0 <= i < cond.len() && (#[trigger] cond[i]).0@ == k
}

/// What releasing successors leads to: the pending counts afterwards, the tasks that wait
/// for nothing more, and the first task without a count.
#[verifier::ext_equal]
pub struct Release {
    pub pending: Map<Seq<char>, usize>,
    pub ready: Seq<Seq<char>>,
    pub missing: Option<Seq<char>>,
}

/// Each successor in `succs` waits for one task less, except the targets of conditional
/// edges, whose turn comes when their condition is known. It stops at a successor that
/// has no count.
pub open spec fn released(
    pending: Map<Seq<char>, usize>,
    succs: Seq<Seq<char>>,
    cond: Seq<(TaskId, String)>,
) -> Release
    decreases succs.len(),
{
    if succs.len() == 0 {
        Release { pending, ready: Seq::empty(), missing: None }
    } else {
        let f = released(pending, succs.drop_last(), cond);
        let k = succs.last();
        if f.missing is Some || is_conditional(cond, k) {
            f
        } else if !f.pending.contains_key(k) {
            Release { missing: Some(k), ..f }
        } else if f.pending[k] == 0 {
            f
        } else {
            Release {
                pending: f.pending.insert(k, (f.pending[k] - 1) as usize),
                ready: if f.pending[k] == 1 {
                    f.ready.push(k)
                } else {
                    f.ready
                },
                ..f
            }
        }
    }
}

/// The message for a task without a pending count.
pub open spec fn no_pending_count(id: Seq<char>) -> Seq<char> {
    "pending count not found for task "@ + id
}

/// The error for a task without a pending count.
pub fn no_pending_count_error(id: &TaskId) -> (e: ActantError)
    ensures
        e matches ActantError::Internal(m) && m@ == no_pending_count(id@),
{
    let mut m = "pending count not found for task ".to_owned();
    m.append(id.0.as_str());
    ActantError::Internal(m)
}

/// Whether `id` is the target of one of the conditional edges `cond`.
pub fn targets_task(cond: &Vec<(TaskId, String)>, id: &TaskId) -> (b: bool)
    ensures
        b == is_conditional(cond@, id@),
{
    let mut i: usize = 0;
    while i < cond.len()
        invariant
            i <= cond@.len(),
            forall|j: int| 0 <= j < i ==> (#[trigger] cond@[j]).0@ != id@,
        decreases cond@.len() - i,
    {
        if cond[i].0.0 == id.0 {
            return true;
        }
        i += 1;
    }
    false
}

/// Tasks that can run now, and conditional edges whose conditions are to be evaluated.
#[derive(Debug)]
pub struct ReadyResult {
    pub ready: Vec<TaskId>,
    pub conditional: Vec<(TaskId, String)>,
}

/// What reporting a task complete came to.
#[derive(Debug)]
pub enum Completion {
    /// The report was late, repeated or of an older attempt.
    Ignored,
    /// The workflow has ended with it.
    Ended,
    /// The workflow goes on.
    Progress(ReadyResult),
}

/// What completing `id` in `before` returns and leaves behind.
pub open spec fn completion_outcome(
    before: SlotView,
    after: SlotView,
    workflow_id: Seq<char>,
    id: Seq<char>,
    result: Vec<u8>,
    attempt: Option<u32>,
    r: Result<Completion, ActantError>,
) -> bool {
    let accepted = execution::transition_allowed(before.execution, id)
        && execution::fencing_passes(before.execution, id, attempt);
    let execution = execution::task_completed(before.execution, id, result, attempt);
    let cond = dag::conditional_from(before.dag.edges, id);
    let release = released(
        before.pending,
        graph::targets(slot::pairs(before.dag), id),
        cond,
    );
    if before.state == SlotState::Loading {
        &&& r matches Err(ActantError::InvalidState(m))
        &&& m@ == submit::about_workflow(
            workflow_id,
            " is still loading (placeholder), cannot complete task"@,
        )
        &&& after == before
    } else if !accepted {
        r matches Ok(Completion::Ignored) && after == before
    } else if execution.state.ended() {
        &&& r matches Ok(Completion::Ended)
        &&& after == SlotView { execution, ..before }
    } else {
        &&& after == SlotView { execution, pending: release.pending, ..before }
        &&& match release.missing {
            Some(k) => r matches Err(ActantError::Internal(m)) && m@ == no_pending_count(k),
            None => {
                &&& r matches Ok(Completion::Progress(p))
                &&& common::task_texts(p.ready@) == release.ready
                &&& p.conditional@ == cond
            },
        }
    }
}

impl WorkflowSlot {
    /// Takes the completed task `task_id` off the counts of its successors.
    pub fn compute_ready_successors(&mut self, task_id: &TaskId) -> (r: Result<
        ReadyResult,
        ActantError,
    >)
        requires
            old(self).wf(),
        ensures
            final(self).wf(),
            ({
                let cond = dag::conditional_from(old(self)@.dag.edges, task_id@);
                let release = released(
                    old(self)@.pending,
                    graph::targets(slot::pairs(old(self)@.dag), task_id@),
                    cond,
                );
                &&& final(self)@ == SlotView { pending: release.pending, ..old(self)@ }
                &&& match release.missing {
                    Some(k) => r matches Err(ActantError::Internal(m)) && m@ == no_pending_count(k),
                    None => {
                        &&& r matches Ok(p)
                        &&& common::task_texts(p.ready@) == release.ready
                        &&& p.conditional@ == cond
                    },
                }
            }),
    {
        let ghost before = self@;
        let successors = self.dag.successor_ids(task_id);
        let conditional = self.dag.conditional_edges_from(task_id);
        let ghost succs = common::task_texts(successors@);
        let ghost cond = conditional@;
        assert(slot::pairs(before.dag) == self.dag.pairs());
        let mut ready: Vec<TaskId> = Vec::new();
        let mut i: usize = 0;
        assert(common::task_texts(ready@) =~= released(before.pending, succs.take(0), cond).ready);
        while i < successors.len()
            invariant
                i <= successors@.len(),
                old(self).wf(),
                before == old(self)@,
                succs == common::task_texts(successors@),
                succs == graph::targets(slot::pairs(before.dag), task_id@),
                cond == conditional@,
                cond == dag::conditional_from(before.dag.edges, task_id@),
                self.dag == old(self).dag,
                self.execution == old(self).execution,
                self.state == old(self).state,
                self.pending@ == released(before.pending, succs.take(i as int), cond).pending,
                common::task_texts(ready@) == released(
                    before.pending,
                    succs.take(i as int),
                    cond,
                ).ready,
                released(before.pending, succs.take(i as int), cond).missing is None,
            decreases successors@.len() - i,
        {
            let succ = &successors[i];
            let ghost f = released(before.pending, succs.take(i as int), cond);
            let ghost ready_before = ready@;
            proof {
                assert(succs.take(i + 1).drop_last() =~= succs.take(i as int));
                assert(succs.take(i + 1).last() == succ@);
            }
            if !targets_task(&conditional, succ) {
                let mut freed = false;
                let mut known = false;
                if let Some(count) = self.pending.get_mut(&succ.0) {
                    known = true;
                    if *count > 0 {
                        *count -= 1;
                        freed = *count == 0;
                    }
                }
                if !known {
                    proof {
                        lemma_release_stops(before.pending, succs, cond, i + 1);
                        assert(succs.take(succs.len() as int) =~= succs);
                    }
                    return Err(no_pending_count_error(succ));
                }
                assert(f.pending[succ@] == 0 ==> self.pending@ =~= f.pending);
                if freed {
                    ready.push(succ.clone());
                    assert(common::task_texts(ready@) =~= common::task_texts(ready_before).push(
                        succ@,
                    ));
                }
            }
            i += 1;
        }
        assert(succs.take(i as int) =~= succs);
        Ok(ReadyResult { ready, conditional })
    }

    /// Completes a task with `result`, reported by attempt `result_attempt` where that is
    /// known.
    pub fn complete_task(
        &mut self,
        workflow_id: &WorkflowId,
        task_id: &TaskId,
        result: Vec<u8>,
        result_attempt: Option<u32>,
    ) -> (r: Result<Completion, ActantError>)
        requires
            old(self).wf(),
        ensures
            final(self).wf(),
            completion_outcome(
                old(self)@,
                final(self)@,
                workflow_id@,
                task_id@,
                result,
                result_attempt,
                r,
            ),
    {
        if self.state == SlotState::Loading {
            return Err(
                ActantError::InvalidState(
                    workflow_message(
                        workflow_id,
                        " is still loading (placeholder), cannot complete task",
                    ),
                ),
            );
        }
        if !self.execution.can_transition_task(task_id) || !self.execution.attempt_fencing_passes(
            task_id,
            result_attempt,
        ) {
            return Ok(Completion::Ignored);
        }
        proof {
            execution_laws::lemma_counted_room(self.execution@, task_id@);
            execution_laws::lemma_completed_counted(
                self.execution@,
                task_id@,
                result,
                result_attempt,
            );
        }
        self.execution.mark_task_completed(task_id, result, result_attempt);
        if self.execution.is_terminal() {
            return Ok(Completion::Ended);
        }
        match self.compute_ready_successors(task_id) {
            Ok(p) => Ok(Completion::Progress(p)),
            Err(e) => Err(e),
        }
    }

    /// The condition of an edge into `task_id` holds: the task waits for one predecessor
    /// less. Returns whether it can run now.
    pub fn activate_conditional(&mut self, task_id: &TaskId) -> (r: Result<bool, ActantError>)
        requires
            old(self).wf(),
        ensures
            final(self).wf(),
            activation_outcome(old(self)@, final(self)@, task_id@, r),
    {
        let ghost before = self.pending@;
        match self.pending.get_mut(&task_id.0) {
            Some(count) => {
                if *count == 0 {
                    assert(before.insert(task_id@, 0) =~= before);
                    return Ok(false);
                }
                *count -= 1;
                Ok(*count == 0)
            },
            None => Err(no_pending_count_error(task_id)),
        }
    }
}

/// What activating the edge into `id` in `before` returns and leaves behind.
pub open spec fn activation_outcome(
    before: SlotView,
    after: SlotView,
    id: Seq<char>,
    r: Result<bool, ActantError>,
) -> bool {
    if !before.pending.contains_key(id) {
        &&& after == before
        &&& r matches Err(ActantError::Internal(m))
        &&& m@ == no_pending_count(id)
    } else if before.pending[id] == 0 {
        after == before && r == Ok::<bool, ActantError>(false)
    } else {
        &&& after == SlotView {
            pending: before.pending.insert(id, (before.pending[id] - 1) as usize),
            ..before
        }
        &&& r == Ok::<bool, ActantError>(before.pending[id] == 1)
    }
}

/// Once a count is missing, the rest of the successors is not looked at.
proof fn lemma_release_stops(
    pending: Map<Seq<char>, usize>,
    succs: Seq<Seq<char>>,
    cond: Seq<(TaskId, String)>,
    n: int,
)
    requires
        0 <= n <= succs.len(),
        released(pending, succs.take(n), cond).missing is Some,
    ensures
        released(pending, succs, cond) == released(pending, succs.take(n), cond),
    decreases succs.len(),
{
    if n < succs.len() {
        assert(succs.drop_last().take(n) =~= succs.take(n));
        lemma_release_stops(pending, succs.drop_last(), cond, n);
    } else {
        assert(succs.take(n) =~= succs);
    }
}

/// A task becomes ready only when its count has just come down to nothing.
pub proof fn law_ready_means_nothing_pending(
    pending: Map<Seq<char>, usize>,
    succs: Seq<Seq<char>>,
    cond: Seq<(TaskId, String)>,
    k: Seq<char>,
)
    requires
        released(pending, succs, cond).ready.contains(k),
    ensures
        succs.contains(k),
        !is_conditional(cond, k),
        pending.contains_key(k),
        pending[k] > 0,
        released(pending, succs, cond).pending[k] == 0,
    decreases succs.len(),
{
    let f = released(pending, succs.drop_last(), cond);
    lemma_release_counts(pending, succs.drop_last(), cond);
    if f.ready.contains(k) {
        law_ready_means_nothing_pending(pending, succs.drop_last(), cond, k);
        let p = succs.drop_last().index_of(k);
        assert(succs[p] == k);
    } else {
        let g = released(pending, succs, cond).ready;
        let p = g.index_of(k);
        assert(g[p] == k);
        if p < f.ready.len() {
            assert(f.ready[p] == k);
        }
        assert(succs[succs.len() - 1] == k);
    }
}

/// Releasing never raises a count, and adds or drops none.
pub proof fn lemma_release_counts(
    pending: Map<Seq<char>, usize>,
    succs: Seq<Seq<char>>,
    cond: Seq<(TaskId, String)>,
)
    ensures
        released(pending, succs, cond).pending.dom() == pending.dom(),
        forall|k: Seq<char>| #[trigger]
            pending.contains_key(k) ==> released(pending, succs, cond).pending[k] <= pending[k],
    decreases succs.len(),
{
    if succs.len() > 0 {
        lemma_release_counts(pending, succs.drop_last(), cond);
        assert(released(pending, succs, cond).pending.dom() =~= pending.dom());
    }
}

} // verus!
