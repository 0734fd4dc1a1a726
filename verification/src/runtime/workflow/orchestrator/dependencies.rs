//! Tasks run after the tasks that they wait for.
//!
//! A workflow counts for each task what it still waits for. The laws here say that these
//! counts never fall below the number of predecessors that hold the task up, whatever happens
//! to the workflow, so that a task is handed out only once all of them are done.
use vstd::prelude::*;

use crate::common;
use crate::common::{ActantError, TaskId};
use crate::runtime::workflow::dag;
use crate::runtime::workflow::dag::{DagEdge, DagNode, DagView};
use crate::runtime::workflow::execution;
use crate::runtime::workflow::execution::TaskState;
use crate::runtime::workflow::graph;
use crate::runtime::workflow::orchestrator::lifecycle;
use crate::runtime::workflow::orchestrator::progress;
use crate::runtime::workflow::orchestrator::progress::Completion;
use crate::runtime::workflow::orchestrator::replay;
use crate::runtime::workflow::orchestrator::skip;
use crate::runtime::workflow::orchestrator::skip::BranchSkip;
use crate::runtime::workflow::orchestrator::slot;
use crate::runtime::workflow::orchestrator::slot::SlotView;
use crate::runtime::workflow::orchestrator::submit;
use crate::runtime::workflow::phase::{Phase, Terminal};
use crate::runtime::workflow::task::PayloadView;

verus! {

/// A task in this state holds its successors up no longer: it has completed or was skipped,
/// or, where `any_end` will do, has ended in any way.
pub open spec fn lets_pass(t: TaskState, any_end: bool) -> bool {
    t.state == Phase::Completed || t.state == Phase::Skipped || any_end && t.ended()
}

/// The tasks that hold their successors up no longer.
pub open spec fn passed(v: SlotView, any_end: bool) -> Set<Seq<char>> {
    Set::new(
        |k: Seq<char>|
            v.execution.tasks.contains_key(k) && lets_pass(v.execution.tasks[k], any_end),
    )
}

/// The number of edges into `k` from tasks that hold it up.
pub open spec fn held_up(v: SlotView, k: Seq<char>, any_end: bool) -> nat {
    graph::open_degree(slot::pairs(v.dag), k, passed(v, any_end))
}

/// No count is below the number of edges from tasks that hold the task up.
pub open spec fn covered(v: SlotView, any_end: bool) -> bool {
    forall|k: Seq<char>| #[trigger]
        v.pending.contains_key(k) ==> v.pending[k] >= held_up(v, k, any_end)
}

/// Nothing holds `k` up: every task that it waits for lets it pass.
pub open spec fn free_to_run(v: SlotView, k: Seq<char>, any_end: bool) -> bool {
    forall|i: int|
        0 <= i < v.dag.edges.len() && (#[trigger] v.dag.edges[i]).to@ == k ==> passed(
            v,
            any_end,
        ).contains(v.dag.edges[i].from@)
}

/// `k` waits for a condition: some edge into it counts although its task lets `k` pass.
pub open spec fn awaits_condition(v: SlotView, k: Seq<char>, any_end: bool) -> bool {
    v.pending.contains_key(k) && v.pending[k] > held_up(v, k, any_end)
}

/// Every task that is counted is on record, and none has ended before its turn.
pub open spec fn in_turn(v: SlotView) -> bool {
    forall|k: Seq<char>| #[trigger]
        v.pending.contains_key(k) ==> {
            &&& v.execution.tasks.contains_key(k)
            &&& v.pending[k] > 0 ==> !v.execution.tasks[k].ended()
        }
}

/// The more tasks are done, the fewer edges count.
proof fn lemma_open_degree_shrinks(
    edges: Seq<graph::Edge>,
    k: Seq<char>,
    some: Set<Seq<char>>,
    more: Set<Seq<char>>,
)
    requires
        forall|i: int|
            0 <= i < edges.len() && some.contains((#[trigger] edges[i]).0) ==> more.contains(
                edges[i].0,
            ),
    ensures
        graph::open_degree(edges, k, more) <= graph::open_degree(edges, k, some),
    decreases edges.len(),
{
    if edges.len() > 0 {
        assert forall|i: int|
            0 <= i < edges.drop_last().len() && some.contains(
                (#[trigger] edges.drop_last()[i]).0,
            ) implies more.contains(edges.drop_last()[i].0) by {
            assert(edges.drop_last()[i] == edges[i]);
        }
        lemma_open_degree_shrinks(edges.drop_last(), k, some, more);
        assert(edges[edges.len() - 1] == edges.last());
    }
}

/// A task whose count has come down to nothing is held up by nothing.
pub proof fn law_nothing_pending_means_free(v: SlotView, k: Seq<char>, any_end: bool)
    requires
        covered(v, any_end),
        v.pending.contains_key(k),
        v.pending[k] == 0,
    ensures
        free_to_run(v, k, any_end),
{
    let edges = slot::pairs(v.dag);
    graph::lemma_open_degree_zero(edges, k, passed(v, any_end));
    assert forall|i: int|
        0 <= i < v.dag.edges.len() && (#[trigger] v.dag.edges[i]).to@ == k implies passed(
        v,
        any_end,
    ).contains(v.dag.edges[i].from@) by {
        assert(edges[i] == (v.dag.edges[i].from@, v.dag.edges[i].to@));
    }
}

/// A task waits as long as one that it depends on has neither completed nor been skipped, be
/// it that the task still runs, has failed or was cancelled.
pub proof fn law_failed_task_holds_successors_up(v: SlotView, i: int)
    requires
        covered(v, false),
        0 <= i < v.dag.edges.len(),
        v.pending.contains_key(v.dag.edges[i].to@),
        !passed(v, false).contains(v.dag.edges[i].from@),
    ensures
        v.pending[v.dag.edges[i].to@] > 0,
{
    if v.pending[v.dag.edges[i].to@] == 0 {
        law_nothing_pending_means_free(v, v.dag.edges[i].to@, false);
    }
}

/// The counts of a workflow that has just been submitted cover what its tasks wait for.
pub proof fn law_submitted_counts_cover(workflow_id: Seq<char>, d: DagView, any_end: bool)
    requires
        d.edges.len() <= usize::MAX,
    ensures
        covered(submit::submitted(workflow_id, d), any_end),
{
    let v = submit::submitted(workflow_id, d);
    let edges = slot::pairs(d);
    assert forall|k: Seq<char>| #[trigger] v.pending.contains_key(k) implies v.pending[k]
        >= held_up(v, k, any_end) by {
        graph::lemma_open_degree_start(edges, k);
        lemma_open_degree_shrinks(edges, k, Set::empty(), passed(v, any_end));
        lemma_sources_len(edges, k);
    }
}

proof fn lemma_sources_len(edges: Seq<graph::Edge>, k: Seq<char>)
    ensures
        graph::sources(edges, k).len() <= edges.len(),
    decreases edges.len(),
{
    if edges.len() > 0 {
        lemma_sources_len(edges.drop_last(), k);
    }
}

proof fn lemma_all_results(ids: Seq<Seq<char>>, tasks: Map<Seq<char>, TaskState>)
    requires
        forall|i: int|
            0 <= i < ids.len() ==> tasks.contains_key(#[trigger] ids[i])
                && tasks[ids[i]].result is Some,
    ensures
        slot::results_of(ids, tasks).len() == ids.len(),
        forall|i: int|
            0 <= i < ids.len() ==> slot::results_of(ids, tasks)[i]
                == tasks[#[trigger] ids[i]].result->0@,
    decreases ids.len(),
{
    if ids.len() > 0 {
        let init = ids.drop_last();
        assert forall|i: int| 0 <= i < init.len() implies tasks.contains_key(#[trigger] init[i])
            && tasks[init[i]].result is Some by {
            assert(ids[i] == init[i]);
        }
        lemma_all_results(init, tasks);
        assert(ids[ids.len() - 1] == ids.last());
        assert forall|i: int| 0 <= i < ids.len() implies slot::results_of(ids, tasks)[i]
            == tasks[#[trigger] ids[i]].result->0@ by {
            if i < init.len() {
                assert(init[i] == ids[i]);
            }
        }
    }
}

/// A task is run with the results of all the tasks that it depends on, in the order of their
/// edges, once each of them has one.
pub proof fn law_results_are_handed_on(
    v: SlotView,
    workflow_id: Seq<char>,
    origin: Option<Seq<char>>,
    id: Seq<char>,
)
    requires
        graph::sources(slot::pairs(v.dag), id).len() > 0,
        forall|i: int|
            0 <= i < graph::sources(slot::pairs(v.dag), id).len() ==> {
                let s = #[trigger] graph::sources(slot::pairs(v.dag), id)[i];
                v.execution.tasks.contains_key(s) && v.execution.tasks[s].result is Some
            },
    ensures
        ({
            let sources = graph::sources(slot::pairs(v.dag), id);
            &&& slot::task_for(v, workflow_id, origin, id).payload matches PayloadView::Upstream {
                results,
                submitted,
            }
            &&& submitted == v.dag.nodes[id].payload@
            &&& results.len() == sources.len()
            &&& forall|i: int|
                0 <= i < sources.len() ==> results[i]
                    == v.execution.tasks[#[trigger] sources[i]].result->0@
        }),
{
    lemma_all_results(graph::sources(slot::pairs(v.dag), id), v.execution.tasks);
}

/// The tasks that a workflow starts with are held up by nothing.
pub proof fn law_roots_are_free(v: SlotView, k: Seq<char>, any_end: bool)
    requires
        lifecycle::root_ids(v).contains(k),
    ensures
        free_to_run(v, k, any_end),
{
    let edges = slot::pairs(v.dag);
    let root = |k: Seq<char>| graph::sources(edges, k).len() == 0;
    v.dag.order.lemma_filter_contains_rev(root, k);
    graph::lemma_open_degree_start(edges, k);
    graph::lemma_open_degree_zero(edges, k, Set::empty());
    assert forall|i: int|
        0 <= i < v.dag.edges.len() && (#[trigger] v.dag.edges[i]).to@ == k implies passed(
        v,
        any_end,
    ).contains(v.dag.edges[i].from@) by {
        assert(edges[i] == (v.dag.edges[i].from@, v.dag.edges[i].to@));
    }
}

/// Releasing takes no more off a count than there are successors of that name.
proof fn lemma_release_amount(
    pending: Map<Seq<char>, usize>,
    succs: Seq<Seq<char>>,
    cond: Seq<(TaskId, String)>,
    k: Seq<char>,
)
    requires
        pending.contains_key(k),
    ensures
        progress::released(pending, succs, cond).pending.contains_key(k),
        progress::released(pending, succs, cond).pending[k] + graph::occurrences(succs, k)
            >= pending[k],
        progress::is_conditional(cond, k) ==> progress::released(pending, succs, cond).pending[k]
            == pending[k],
    decreases succs.len(),
{
    if succs.len() > 0 {
        lemma_release_amount(pending, succs.drop_last(), cond, k);
    }
}

proof fn lemma_lowered_amount(
    pending: Map<Seq<char>, usize>,
    succs: Seq<Seq<char>>,
    cond: Seq<(TaskId, String)>,
    k: Seq<char>,
)
    ensures
        replay::lowered(pending, succs, cond).contains_key(k) == pending.contains_key(k),
        pending.contains_key(k) ==> replay::lowered(pending, succs, cond)[k] + graph::occurrences(
            succs,
            k,
        ) >= pending[k],
    decreases succs.len(),
{
    if succs.len() > 0 {
        lemma_lowered_amount(pending, succs.drop_last(), cond, k);
    }
}

/// A task that completes joins those that let their successors pass.
proof fn lemma_completed_passes(
    v: SlotView,
    id: Seq<char>,
    result: Vec<u8>,
    attempt: Option<u32>,
    any_end: bool,
)
    requires
        execution::transition_allowed(v.execution, id),
        execution::fencing_passes(v.execution, id, attempt),
    ensures
        ({
            let after = SlotView {
                execution: execution::task_completed(v.execution, id, result, attempt),
                ..v
            };
            &&& !passed(v, any_end).contains(id)
            &&& passed(after, any_end) == passed(v, any_end).insert(id)
        }),
{
    let after = SlotView {
        execution: execution::task_completed(v.execution, id, result, attempt),
        ..v
    };
    assert(passed(after, any_end) =~= passed(v, any_end).insert(id));
}

/// Completing a task keeps the counts above what holds the tasks up.
pub proof fn law_completion_keeps_counts(
    before: SlotView,
    after: SlotView,
    workflow_id: Seq<char>,
    id: Seq<char>,
    result: Vec<u8>,
    attempt: Option<u32>,
    r: Result<Completion, ActantError>,
    any_end: bool,
)
    requires
        covered(before, any_end),
        progress::completion_outcome(before, after, workflow_id, id, result, attempt, r),
    ensures
        covered(after, any_end),
{
    if after != before {
        lemma_completed_passes(before, id, result, attempt, any_end);
        let edges = slot::pairs(before.dag);
        let succs = graph::targets(edges, id);
        let cond = dag::conditional_from(before.dag.edges, id);
        let done = passed(before, any_end);
        assert(passed(after, any_end) =~= done.insert(id));
        progress::lemma_release_counts(before.pending, succs, cond);
        assert forall|k: Seq<char>| #[trigger] after.pending.contains_key(k) implies after.pending[k]
            >= held_up(after, k, any_end) by {
            assert(before.pending.contains_key(k));
            graph::lemma_open_degree_step(edges, k, done, id);
            lemma_release_amount(before.pending, succs, cond, k);
        }
    }
}

/// A task that the completion of another makes ready waits for nothing: every task that it
/// depends on lets it pass.
pub proof fn law_ready_after_predecessors(
    before: SlotView,
    after: SlotView,
    workflow_id: Seq<char>,
    id: Seq<char>,
    result: Vec<u8>,
    attempt: Option<u32>,
    r: Result<Completion, ActantError>,
    k: Seq<char>,
    any_end: bool,
)
    requires
        covered(before, any_end),
        progress::completion_outcome(before, after, workflow_id, id, result, attempt, r),
        r matches Ok(Completion::Progress(p)) && common::task_texts(p.ready@).contains(k),
    ensures
        free_to_run(after, k, any_end),
{
    law_completion_keeps_counts(
        before,
        after,
        workflow_id,
        id,
        result,
        attempt,
        r,
        any_end,
    );
    let succs = graph::targets(slot::pairs(before.dag), id);
    let cond = dag::conditional_from(before.dag.edges, id);
    progress::law_ready_means_nothing_pending(before.pending, succs, cond, k);
    progress::lemma_release_counts(before.pending, succs, cond);
    law_nothing_pending_means_free(after, k, any_end);
}

/// Tasks that are completed in their turn leave the others in theirs.
pub proof fn law_completion_keeps_turns(
    before: SlotView,
    after: SlotView,
    workflow_id: Seq<char>,
    id: Seq<char>,
    result: Vec<u8>,
    attempt: Option<u32>,
    r: Result<Completion, ActantError>,
)
    requires
        in_turn(before),
        before.pending.contains_key(id) ==> before.pending[id] == 0,
        progress::completion_outcome(before, after, workflow_id, id, result, attempt, r),
    ensures
        in_turn(after),
{
    let succs = graph::targets(slot::pairs(before.dag), id);
    let cond = dag::conditional_from(before.dag.edges, id);
    progress::lemma_release_counts(before.pending, succs, cond);
    assert forall|k: Seq<char>| #[trigger] after.pending.contains_key(k) implies {
        &&& after.execution.tasks.contains_key(k)
        &&& after.pending[k] > 0 ==> !after.execution.tasks[k].ended()
    } by {
        assert(before.pending.contains_key(k));
    }
}

/// An edge with a condition counts among the edges out of its task.
proof fn lemma_conditional_counts(edges: Seq<DagEdge>, id: Seq<char>, k: Seq<char>)
    requires
        progress::is_conditional(dag::conditional_from(edges, id), k),
    ensures
        graph::occurrences(graph::targets(dag::edge_pairs(edges), id), k) >= 1,
    decreases edges.len(),
{
    let cond = dag::conditional_from(edges, id);
    let i = choose|i: int| 0 <= i < cond.len() && (#[trigger] cond[i]).0@ == k;
    assert(edges.len() > 0);
    let init = edges.drop_last();
    let before = dag::conditional_from(init, id);
    let pairs = dag::edge_pairs(edges);
    assert(pairs.drop_last() =~= dag::edge_pairs(init));
    assert(pairs.last() == (edges.last().from@, edges.last().to@));
    let targets = graph::targets(pairs, id);
    if i < before.len() {
        assert(before[i] == cond[i]);
        lemma_conditional_counts(init, id, k);
    }
    if edges.last().from@ == id {
        assert(targets.drop_last() =~= graph::targets(dag::edge_pairs(init), id));
        assert(targets.last() == edges.last().to@);
    }
}

/// After a task completes, the targets of its conditional edges wait for their conditions.
pub proof fn law_completion_leaves_conditions_open(
    before: SlotView,
    after: SlotView,
    workflow_id: Seq<char>,
    id: Seq<char>,
    result: Vec<u8>,
    attempt: Option<u32>,
    r: Result<Completion, ActantError>,
    k: Seq<char>,
    any_end: bool,
)
    requires
        covered(before, any_end),
        progress::completion_outcome(before, after, workflow_id, id, result, attempt, r),
        r matches Ok(Completion::Progress(p)) && progress::is_conditional(p.conditional@, k),
        before.pending.contains_key(k),
    ensures
        awaits_condition(after, k, any_end),
{
    lemma_completed_passes(before, id, result, attempt, any_end);
    let edges = slot::pairs(before.dag);
    let succs = graph::targets(edges, id);
    let cond = dag::conditional_from(before.dag.edges, id);
    let done = passed(before, any_end);
    assert(passed(after, any_end) =~= done.insert(id));
    progress::lemma_release_counts(before.pending, succs, cond);
    graph::lemma_open_degree_step(edges, k, done, id);
    lemma_release_amount(before.pending, succs, cond, k);
    lemma_conditional_counts(before.dag.edges, id, k);
}

/// Settling a condition that a task waits for keeps the counts above what holds the tasks up,
/// and a task that runs on it is held up by nothing.
pub proof fn law_activation_keeps_counts(
    before: SlotView,
    after: SlotView,
    id: Seq<char>,
    r: Result<bool, ActantError>,
    any_end: bool,
)
    requires
        covered(before, any_end),
        awaits_condition(before, id, any_end),
        progress::activation_outcome(before, after, id, r),
    ensures
        covered(after, any_end),
        r == Ok::<bool, ActantError>(true) ==> free_to_run(after, id, any_end),
{
    assert(passed(after, any_end) =~= passed(before, any_end));
    assert forall|k: Seq<char>| #[trigger] after.pending.contains_key(k) implies after.pending[k]
        >= held_up(after, k, any_end) by {
        assert(before.pending.contains_key(k));
    }
    if r == Ok::<bool, ActantError>(true) {
        law_nothing_pending_means_free(after, id, any_end);
    }
}

/// The edges into `k` from the tasks in `list`.
pub open spec fn owed(edges: Seq<graph::Edge>, list: Seq<Seq<char>>, k: Seq<char>) -> nat
    decreases list.len(),
{
    if list.len() == 0 {
        0
    } else {
        owed(edges, list.drop_last(), k) + graph::occurrences(
            graph::targets(edges, list.last()),
            k,
        )
    }
}

proof fn lemma_owed_concat(
    edges: Seq<graph::Edge>,
    a: Seq<Seq<char>>,
    b: Seq<Seq<char>>,
    k: Seq<char>,
)
    ensures
        owed(edges, a + b, k) == owed(edges, a, k) + owed(edges, b, k),
    decreases b.len(),
{
    if b.len() == 0 {
        assert(a + b =~= a);
    } else {
        assert((a + b).drop_last() =~= a + b.drop_last());
        lemma_owed_concat(edges, a, b.drop_last(), k);
    }
}

/// A task that is skipped in its turn joins those that let their successors pass.
proof fn lemma_skipped_passes(v: SlotView, id: Seq<char>, any_end: bool)
    requires
        v.execution.tasks.contains_key(id),
        !v.execution.tasks[id].ended(),
    ensures
        ({
            let after = SlotView { execution: execution::task_skipped(v.execution, id), ..v };
            &&& !passed(v, any_end).contains(id)
            &&& passed(after, any_end) == passed(v, any_end).insert(id)
        }),
{
    let after = SlotView { execution: execution::task_skipped(v.execution, id), ..v };
    assert(passed(after, any_end) =~= passed(v, any_end).insert(id));
}

/// The counts exceed what holds the tasks up by the edges out of `list`, and by `extra`.
pub open spec fn covered_beyond(
    v: SlotView,
    list: Seq<Seq<char>>,
    extra: spec_fn(Seq<char>) -> int,
    any_end: bool,
) -> bool {
    forall|k: Seq<char>| #[trigger]
        v.pending.contains_key(k) ==> v.pending[k] >= held_up(v, k, any_end) + owed(
            slot::pairs(v.dag),
            list,
            k,
        ) + extra(k)
}

/// What a wave over `succs` leaves of the counts.
proof fn lemma_wave_covered(
    v: SlotView,
    succs: Seq<Seq<char>>,
    cond: Seq<(TaskId, String)>,
    extra: spec_fn(Seq<char>) -> int,
    any_end: bool,
)
    requires
        in_turn(v),
        covered_beyond(v, Seq::empty(), extra, any_end),
    ensures
        ({
            let w = skip::wave_over(v, succs, cond);
            &&& in_turn(w.slot)
            &&& w.slot.dag == v.dag
            &&& w.slot.pending.dom() == v.pending.dom()
            &&& covered_beyond(
                w.slot,
                w.skipped,
                |k: Seq<char>| extra(k) - graph::occurrences(succs, k),
                any_end,
            )
            &&& forall|k: Seq<char>| #[trigger]
                v.pending.contains_key(k) ==> w.slot.pending[k] <= v.pending[k]
            &&& forall|k: Seq<char>| #[trigger]
                w.ready.contains(k) ==> w.slot.pending.contains_key(k) && w.slot.pending[k] == 0
        }),
    decreases succs.len(),
{
    let edges = slot::pairs(v.dag);
    let w = skip::wave_over(v, succs, cond);
    let left = |k: Seq<char>| extra(k) - graph::occurrences(succs, k);
    if succs.len() == 0 {
        assert forall|k: Seq<char>| #[trigger] w.slot.pending.contains_key(k) implies
            w.slot.pending[k] >= held_up(w.slot, k, any_end) + owed(edges, w.skipped, k) + left(
            k,
        ) by {
            assert(owed(edges, Seq::<Seq<char>>::empty(), k) == 0);
        }
    } else {
        let init = succs.drop_last();
        let s = succs.last();
        lemma_wave_covered(v, init, cond, extra, any_end);
        let u = skip::wave_over(v, init, cond);
        let p = u.slot.pending;
        let idle = progress::is_conditional(cond, s) || !p.contains_key(s) || p[s] == 0;
        if idle {
            assert(w == u);
        } else {
            let counted = SlotView { pending: p.insert(s, (p[s] - 1) as usize), ..u.slot };
            assert(counted.pending.dom() =~= p.dom());
            assert(passed(counted, any_end) =~= passed(u.slot, any_end));
            if p[s] == 1 && !skip::has_result(counted, s) {
                lemma_skipped_passes(counted, s, any_end);
                assert(w.skipped.drop_last() =~= u.skipped);
            }
            if p[s] == 1 && skip::has_result(counted, s) {
                assert forall|k: Seq<char>| #[trigger] w.ready.contains(k) implies
                    w.slot.pending.contains_key(k) && w.slot.pending[k] == 0 by {
                    if k != s {
                        let i = w.ready.index_of(k);
                        assert(u.ready[i] == k);
                        assert(u.ready.contains(k));
                    }
                }
            } else {
                assert forall|k: Seq<char>| #[trigger] w.ready.contains(k) implies
                    w.slot.pending.contains_key(k) && w.slot.pending[k] == 0 by {
                    assert(u.ready.contains(k));
                }
            }
        }
        assert forall|k: Seq<char>| #[trigger] w.slot.pending.contains_key(k) implies
            w.slot.pending[k] >= held_up(w.slot, k, any_end) + owed(edges, w.skipped, k) + left(
            k,
        ) by {
            assert(p.contains_key(k));
            let before = |k: Seq<char>| extra(k) - graph::occurrences(init, k);
            assert(p[k] >= held_up(u.slot, k, any_end) + owed(edges, u.skipped, k) + before(k));
            if !idle && p[s] == 1 && w.skipped.len() > u.skipped.len() {
                graph::lemma_open_degree_step(edges, k, passed(u.slot, any_end), s);
            }
        }
        assert forall|k: Seq<char>| #[trigger] w.slot.pending.contains_key(k) implies {
            &&& w.slot.execution.tasks.contains_key(k)
            &&& w.slot.pending[k] > 0 ==> !w.slot.execution.tasks[k].ended()
        } by {
            assert(p.contains_key(k));
        }
    }
}

/// Skipping passed on until nothing more is skipped keeps the counts above what holds the
/// tasks up, and what it makes ready is held up by nothing.
pub proof fn law_cascade_keeps_counts(
    v: SlotView,
    worklist: Seq<Seq<char>>,
    ready: Seq<Seq<char>>,
    any_end: bool,
)
    requires
        v.pending.dom().finite(),
        in_turn(v),
        covered_beyond(v, worklist, |k: Seq<char>| 0, any_end),
        forall|k: Seq<char>| #[trigger]
            ready.contains(k) ==> v.pending.contains_key(k) && v.pending[k] == 0,
    ensures
        ({
            let end = skip::cascaded(v, worklist, ready);
            &&& covered(end.0, any_end)
            &&& in_turn(end.0)
            &&& forall|k: Seq<char>| #[trigger]
                end.1.contains(k) ==> free_to_run(end.0, k, any_end)
        }),
    decreases skip::waiting(v.pending).len(), worklist.len(),
{
    let edges = slot::pairs(v.dag);
    let none = |k: Seq<char>| 0int;
    if worklist.len() == 0 {
        assert forall|k: Seq<char>| #[trigger] v.pending.contains_key(k) implies v.pending[k]
            >= held_up(v, k, any_end) by {
            assert(owed(edges, worklist, k) == 0);
        }
        assert forall|k: Seq<char>| #[trigger] ready.contains(k) implies free_to_run(
            v,
            k,
            any_end,
        ) by {
            law_nothing_pending_means_free(v, k, any_end);
        }
    } else {
        let id = worklist.last();
        let rest = worklist.drop_last();
        let succs = graph::targets(edges, id);
        let cond = dag::conditional_from(v.dag.edges, id);
        let extra = |k: Seq<char>|
            owed(edges, rest, k) + graph::occurrences(succs, k) as int;
        assert forall|k: Seq<char>| #[trigger] v.pending.contains_key(k) implies v.pending[k]
            >= held_up(v, k, any_end) + owed(edges, Seq::empty(), k) + extra(k) by {
            assert(owed(edges, Seq::<Seq<char>>::empty(), k) == 0);
            assert(owed(edges, worklist, k) == owed(edges, rest, k) + graph::occurrences(
                succs,
                k,
            ));
        }
        lemma_wave_covered(v, succs, cond, extra, any_end);
        skip::lemma_wave(v, succs, cond);
        let w = skip::wave_from(v, id);
        let next = rest + w.skipped;
        assert forall|k: Seq<char>| #[trigger] w.slot.pending.contains_key(k) implies
            w.slot.pending[k] >= held_up(w.slot, k, any_end) + owed(edges, next, k) + none(k) by {
            lemma_owed_concat(edges, rest, w.skipped, k);
            let left = |k: Seq<char>| extra(k) - graph::occurrences(succs, k);
            assert(w.slot.pending[k] >= held_up(w.slot, k, any_end) + owed(edges, w.skipped, k)
                + left(k));
        }
        assert forall|k: Seq<char>| #[trigger] (ready + w.ready).contains(k) implies
            w.slot.pending.contains_key(k) && w.slot.pending[k] == 0 by {
            let i = (ready + w.ready).index_of(k);
            if i < ready.len() {
                assert(ready[i] == k);
                assert(ready.contains(k));
            } else {
                assert(w.ready[i - ready.len()] == k);
                assert(w.ready.contains(k));
            }
        }
        law_cascade_keeps_counts(w.slot, next, ready + w.ready, any_end);
    }
}

/// Not taking a conditional branch keeps the counts above what holds the tasks up, and the
/// tasks that can run after it are held up by nothing.
pub proof fn law_skip_keeps_counts(
    before: SlotView,
    after: SlotView,
    id: Seq<char>,
    r: Result<BranchSkip, ActantError>,
    any_end: bool,
)
    requires
        before.pending.dom().finite(),
        in_turn(before),
        covered(before, any_end),
        awaits_condition(before, id, any_end),
        skip::skip_outcome(before, after, id, r),
    ensures
        covered(after, any_end),
        in_turn(after),
        match r {
            Ok(BranchSkip::Ready) => free_to_run(after, id, any_end),
            Ok(BranchSkip::Skipped(ready)) => forall|k: Seq<char>| #[trigger]
                common::task_texts(ready@).contains(k) ==> free_to_run(after, k, any_end),
            _ => true,
        },
{
    let edges = slot::pairs(before.dag);
    let done = passed(before, any_end);
    let left = (before.pending[id] - 1) as usize;
    let counted = SlotView { pending: before.pending.insert(id, left), ..before };
    assert(counted.pending.dom() =~= before.pending.dom());
    assert(passed(counted, any_end) =~= done);
    assert forall|k: Seq<char>| #[trigger] counted.pending.contains_key(k) implies
        counted.pending[k] >= held_up(counted, k, any_end) by {
        assert(before.pending.contains_key(k));
    }
    assert forall|k: Seq<char>| #[trigger] counted.pending.contains_key(k) implies {
        &&& counted.execution.tasks.contains_key(k)
        &&& counted.pending[k] > 0 ==> !counted.execution.tasks[k].ended()
    } by {
        assert(before.pending.contains_key(k));
    }
    if left == 0 && skip::has_other_result(before, id) {
        law_nothing_pending_means_free(counted, id, any_end);
    }
    if left == 0 && !skip::has_other_result(before, id) {
        let skipped = SlotView {
            execution: execution::task_skipped(before.execution, id),
            ..counted
        };
        lemma_skipped_passes(counted, id, any_end);
        let none = |k: Seq<char>| 0int;
        let list = seq![id];
        assert(list.drop_last() =~= Seq::empty());
        reveal_with_fuel(owed, 2);
        assert forall|k: Seq<char>| #[trigger] skipped.pending.contains_key(k) implies
            skipped.pending[k] >= held_up(skipped, k, any_end) + owed(edges, list, k) + none(
            k,
        ) by {
            assert(counted.pending.contains_key(k));
            graph::lemma_open_degree_step(edges, k, done, id);
            assert(owed(edges, list, k) == graph::occurrences(graph::targets(edges, id), k));
        }
        assert forall|k: Seq<char>| #[trigger] skipped.pending.contains_key(k) implies {
            &&& skipped.execution.tasks.contains_key(k)
            &&& skipped.pending[k] > 0 ==> !skipped.execution.tasks[k].ended()
        } by {
            assert(counted.pending.contains_key(k));
        }
        law_cascade_keeps_counts(skipped, list, Seq::empty(), any_end);
    }
}

/// Whatever leaves the graph and the counts alone, and takes no completion or skip back, keeps
/// the counts above what holds the tasks up: failing, cancelling, starting, running and
/// retrying are of that kind.
pub proof fn law_other_changes_keep_counts(before: SlotView, after: SlotView, any_end: bool)
    requires
        covered(before, any_end),
        after.dag.edges == before.dag.edges,
        after.pending == before.pending,
        passed(before, any_end).subset_of(passed(after, any_end)),
    ensures
        covered(after, any_end),
{
    assert forall|k: Seq<char>| #[trigger] after.pending.contains_key(k) implies after.pending[k]
        >= held_up(after, k, any_end) by {
        assert(before.pending.contains_key(k));
        lemma_open_degree_shrinks(
            slot::pairs(before.dag),
            k,
            passed(before, any_end),
            passed(after, any_end),
        );
    }
}

/// Replaying the completion of a task keeps the counts above what holds the tasks up.
pub proof fn law_replayed_completion_keeps_counts(
    before: SlotView,
    id: Seq<char>,
    result: Vec<u8>,
    any_end: bool,
)
    requires
        covered(before, any_end),
        execution::transition_allowed(before.execution, id),
    ensures
        covered(replay::completion_replayed(before, id, result), any_end),
{
    let after = replay::completion_replayed(before, id, result);
    lemma_completed_passes(before, id, result, None, any_end);
    let edges = slot::pairs(before.dag);
    let succs = graph::targets(edges, id);
    let cond = dag::conditional_from(before.dag.edges, id);
    let done = passed(before, any_end);
    assert(passed(after, any_end) =~= done.insert(id));
    assert forall|k: Seq<char>| #[trigger] after.pending.contains_key(k) implies after.pending[k]
        >= held_up(after, k, any_end) by {
        lemma_lowered_amount(before.pending, succs, cond, k);
        assert(before.pending.contains_key(k));
        graph::lemma_open_degree_step(edges, k, done, id);
    }
}

/// Edges into another task do not count.
proof fn lemma_open_degree_append(
    edges: Seq<graph::Edge>,
    more: Seq<graph::Edge>,
    k: Seq<char>,
    done: Set<Seq<char>>,
)
    ensures
        graph::open_degree(edges + more, k, done) == graph::open_degree(edges, k, done)
            + graph::open_degree(more, k, done),
    decreases more.len(),
{
    if more.len() == 0 {
        assert(edges + more =~= edges);
    } else {
        assert((edges + more).drop_last() =~= edges + more.drop_last());
        lemma_open_degree_append(edges, more.drop_last(), k, done);
    }
}

/// The count that a new task starts with covers its edges.
proof fn lemma_new_edges(
    deps: Seq<TaskId>,
    id: TaskId,
    k: Seq<char>,
    tasks: Map<Seq<char>, TaskState>,
    done: Set<Seq<char>>,
)
    requires
        forall|j: int|
            0 <= j < deps.len() && tasks.contains_key((#[trigger] deps[j])@)
                && tasks[deps[j]@].ended() ==> done.contains(deps[j]@),
    ensures
        graph::open_degree(dag::edge_pairs(submit::edges_into(deps, id)), k, done) <= (if k
            == id@ {
            submit::open_deps(deps, tasks)
        } else {
            0
        }),
        submit::open_deps(deps, tasks) <= deps.len(),
    decreases deps.len(),
{
    if deps.len() > 0 {
        let init = deps.drop_last();
        assert forall|j: int|
            0 <= j < init.len() && tasks.contains_key((#[trigger] init[j])@)
                && tasks[init[j]@].ended() implies done.contains(init[j]@) by {
            assert(deps[j] == init[j]);
        }
        lemma_new_edges(init, id, k, tasks, done);
        let pairs = dag::edge_pairs(submit::edges_into(deps, id));
        assert(pairs.drop_last() =~= dag::edge_pairs(submit::edges_into(init, id)));
        assert(deps[deps.len() - 1] == deps.last());
        assert(pairs.last() == (deps.last()@, id@));
    }
}

/// The tasks among `deps` that are in the graph are no more than `deps`, and are among them.
proof fn lemma_inner_deps(deps: Seq<TaskId>, nodes: Map<Seq<char>, DagNode>, id: Seq<char>)
    ensures
        submit::inner_deps(deps, nodes, id).len() <= deps.len(),
        forall|j: int|
            0 <= j < submit::inner_deps(deps, nodes, id).len() ==> (#[trigger] submit::inner_deps(
                deps,
                nodes,
                id,
            )[j])@ != id,
    decreases deps.len(),
{
    if deps.len() > 0 {
        lemma_inner_deps(deps.drop_last(), nodes, id);
    }
}

/// Adding a task to a workflow keeps the counts above what holds the tasks up, where a
/// predecessor that has ended in any way lets it pass.
pub proof fn law_added_node_keeps_counts(
    v: SlotView,
    node: DagNode,
    deps: Seq<TaskId>,
    now: u64,
)
    requires
        covered(v, true),
        deps.len() <= usize::MAX,
        !v.dag.nodes.contains_key(node.task_id@),
        forall|i: int|
            0 <= i < v.dag.edges.len() ==> v.dag.nodes.contains_key(
                (#[trigger] v.dag.edges[i]).from@,
            ) && v.dag.nodes.contains_key(v.dag.edges[i].to@),
    ensures
        covered(submit::node_added(v, node, deps, now), true),
{
    let after = submit::node_added(v, node, deps, now);
    let id = node.task_id;
    let inner = submit::inner_deps(deps, v.dag.nodes.insert(id@, node), id@);
    let edges = slot::pairs(v.dag);
    let more = dag::edge_pairs(submit::edges_into(inner, id));
    let done = passed(v, true);
    let done_after = passed(after, true);
    lemma_inner_deps(deps, v.dag.nodes.insert(id@, node), id@);
    assert(slot::pairs(after.dag) =~= edges + more);
    assert forall|k: Seq<char>| k != id@ implies done.contains(k) == #[trigger] done_after.contains(
        k,
    ) by {}
    assert forall|k: Seq<char>| #[trigger] after.pending.contains_key(k) implies after.pending[k]
        >= held_up(after, k, true) by {
        lemma_open_degree_append(edges, more, k, done_after);
        assert forall|i: int|
            0 <= i < edges.len() && done.contains((#[trigger] edges[i]).0) implies done_after.contains(
            edges[i].0) by {
            assert(edges[i] == (v.dag.edges[i].from@, v.dag.edges[i].to@));
        }
        lemma_open_degree_shrinks(edges, k, done, done_after);
        assert forall|j: int|
            0 <= j < inner.len() && v.execution.tasks.contains_key((#[trigger] inner[j])@)
                && v.execution.tasks[inner[j]@].ended() implies done_after.contains(inner[j]@) by {
            assert(done.contains(inner[j]@));
        }
        lemma_new_edges(inner, id, k, v.execution.tasks, done_after);
        if k == id@ {
            graph::lemma_open_degree_zero(edges, k, done);
            assert forall|i: int|
                0 <= i < edges.len() && (#[trigger] edges[i]).1 == k implies done.contains(
                edges[i].0,
            ) by {
                assert(edges[i] == (v.dag.edges[i].from@, v.dag.edges[i].to@));
            }
        } else {
            assert(v.pending.contains_key(k));
        }
    }
}

} // verus!
