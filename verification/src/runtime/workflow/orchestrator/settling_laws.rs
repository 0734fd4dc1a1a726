//! What holds of conditions that are decided one after another, and of what is told of a
//! recovery and a replay.
use vstd::prelude::*;

use crate::common::{ActantError, TaskId};
use crate::runtime::workflow::execution_laws;
use crate::runtime::workflow::orchestrator::branches;
use crate::runtime::workflow::orchestrator::branches::Settling;
use crate::runtime::workflow::orchestrator::events;
use crate::runtime::workflow::orchestrator::events::{
    EffectView, EventKind, WorkflowEventPayload,
};
use crate::runtime::workflow::orchestrator::recovery;
use crate::runtime::workflow::orchestrator::replay;
use crate::runtime::workflow::orchestrator::state::StateView;
use crate::runtime::workflow::phase::Phase;
use crate::runtime::workflow::task::TaskDefinition;

verus! {

/// Where nobody can decide a condition, nothing happens: every edge is put off, in order.
pub proof fn law_undecided_conditions_are_put_off(
    before: StateView,
    after: StateView,
    wf: Seq<char>,
    origin: Option<Seq<char>>,
    retention: usize,
    edges: Seq<(TaskId, String)>,
    verdicts: Seq<Option<bool>>,
    r: Result<(Vec<TaskDefinition>, Vec<(TaskId, String)>), ActantError>,
    effects: Seq<EffectView>,
)
    requires
        branches::conditions_settled(
            before,
            after,
            wf,
            origin,
            retention,
            edges,
            verdicts,
            r,
            effects,
        ),
        verdicts.len() == edges.len(),
        forall|i: int| 0 <= i < verdicts.len() ==> (#[trigger] verdicts[i]) is None,
    ensures
        after == before,
        effects.len() == 0,
        r matches Ok(done) && {
            &&& done.0@.len() == 0
            &&& done.1@.len() == edges.len()
            &&& forall|i: int|
                0 <= i < edges.len() ==> (#[trigger] done.1@[i]).0@ == edges[i].0@ && done.1@[i].1@
                    == edges[i].1@
        },
{
    let trace = chosen(before, after, wf, origin, retention, edges, verdicts, r, effects);
    lemma_all_put_off(before, wf, origin, retention, edges, verdicts, trace, trace.len() - 1);
    if r is Err {
        assert(verdicts[trace.len() - 1] is None);
    }
    if let Ok(done) = r {
        let texts = branches::edge_texts(done.1@);
        assert(texts.len() == done.1@.len());
        assert forall|i: int| 0 <= i < edges.len() implies (#[trigger] done.1@[i]).0@ == edges[i].0@
            && done.1@[i].1@ == edges[i].1@ by {
            assert(texts[i] == (edges[i].0@, edges[i].1@));
        }
    }
}

spec fn chosen(
    before: StateView,
    after: StateView,
    wf: Seq<char>,
    origin: Option<Seq<char>>,
    retention: usize,
    edges: Seq<(TaskId, String)>,
    verdicts: Seq<Option<bool>>,
    r: Result<(Vec<TaskDefinition>, Vec<(TaskId, String)>), ActantError>,
    effects: Seq<EffectView>,
) -> Seq<Settling> {
    choose|trace: Seq<Settling>|
        {
            &&& #[trigger] branches::settling_trace(
                before,
                wf,
                origin,
                retention,
                edges,
                verdicts,
                trace,
            )
            &&& match r {
                Ok(done) => {
                    &&& trace.len() == edges.len() + 1
                    &&& after == trace.last().state
                    &&& done.0@ == trace.last().ready
                    &&& branches::edge_texts(done.1@) == trace.last().deferred
                    &&& effects == trace.last().effects
                },
                Err(e) => branches::settling_failed(
                    trace.last(),
                    after,
                    wf,
                    origin,
                    retention,
                    edges[trace.len() - 1],
                    verdicts[trace.len() - 1],
                    e,
                    effects,
                ) && trace.len() <= edges.len(),
            }
        }
}

proof fn lemma_all_put_off(
    before: StateView,
    wf: Seq<char>,
    origin: Option<Seq<char>>,
    retention: usize,
    edges: Seq<(TaskId, String)>,
    verdicts: Seq<Option<bool>>,
    trace: Seq<Settling>,
    n: int,
)
    requires
        branches::settling_trace(before, wf, origin, retention, edges, verdicts, trace),
        verdicts.len() == edges.len(),
        forall|i: int| 0 <= i < verdicts.len() ==> (#[trigger] verdicts[i]) is None,
        0 <= n < trace.len(),
    ensures
        trace[n].state == before,
        trace[n].ready.len() == 0,
        trace[n].effects.len() == 0,
        trace[n].deferred.len() == n,
        forall|i: int|
            0 <= i < n ==> (#[trigger] trace[n].deferred[i]) == (edges[i].0@, edges[i].1@),
    decreases n,
{
    if n > 0 {
        lemma_all_put_off(before, wf, origin, retention, edges, verdicts, trace, n - 1);
        let a = trace[n - 1];
        assert(branches::settles_next(
            trace[n - 1],
            trace[n],
            wf,
            origin,
            retention,
            edges[n - 1],
            verdicts[n - 1],
        ));
        assert(verdicts[n - 1] is None);
        assert forall|i: int| 0 <= i < n implies (#[trigger] trace[n].deferred[i]) == (
            edges[i].0@,
            edges[i].1@,
        ) by {
            if i < n - 1 {
                assert(trace[n].deferred[i] == a.deferred[i]);
            }
        }
    }
}

/// One condition that was decided is dealt with, and nothing besides: what is returned, left
/// behind and done is what dealing with it gives.
pub proof fn law_one_condition_is_dealt_with(
    before: StateView,
    after: StateView,
    wf: Seq<char>,
    origin: Option<Seq<char>>,
    retention: usize,
    edge: (TaskId, String),
    holds: bool,
    r: Result<(Vec<TaskDefinition>, Vec<(TaskId, String)>), ActantError>,
    effects: Seq<EffectView>,
)
    requires
        branches::conditions_settled(
            before,
            after,
            wf,
            origin,
            retention,
            seq![edge],
            seq![Some(holds)],
            r,
            effects,
        ),
    ensures
        r matches Ok(done) ==> {
            &&& done.1@.len() == 0
            &&& exists|tasks: Vec<TaskDefinition>|
                done.0@ == tasks@ && #[trigger] branches::condition_settled(
                    before,
                    after,
                    wf,
                    origin,
                    edge.0@,
                    holds,
                    retention,
                    Ok(tasks),
                    effects,
                )
        },
        r matches Err(e) ==> branches::condition_settled(
            before,
            after,
            wf,
            origin,
            edge.0@,
            holds,
            retention,
            Err(e),
            effects,
        ),
{
    let edges = seq![edge];
    let verdicts = seq![Some(holds)];
    let trace = chosen(before, after, wf, origin, retention, edges, verdicts, r, effects);
    let a = trace[0];
    match r {
        Ok(done) => {
            let b = trace[1];
            assert(branches::settles_next(
                trace[0],
                trace[1],
                wf,
                origin,
                retention,
                edges[0],
                verdicts[0],
            ));
            let (step, more) = choose|
                step: Result<Vec<TaskDefinition>, ActantError>,
                more: Seq<EffectView>,
            | #[trigger]
                branches::step_taken(a, b, wf, origin, retention, edge, holds, step, more);
            assert(a.effects + more =~= more);
            if let Ok(tasks) = step {
                assert(a.ready + tasks@ =~= tasks@);
                assert(branches::condition_settled(
                    before,
                    after,
                    wf,
                    origin,
                    edge.0@,
                    holds,
                    retention,
                    Ok(tasks),
                    effects,
                ));
            }
            assert(branches::edge_texts(done.1@).len() == done.1@.len());
        },
        Err(e) => {
            assert(trace.len() == 1);
            let more = choose|more: Seq<EffectView>| #[trigger]
                branches::step_refused(
                    a,
                    after,
                    wf,
                    origin,
                    retention,
                    edge,
                    holds,
                    e,
                    more,
                    effects,
                );
            assert(a.effects + more =~= more);
        },
    }
}

/// Conditions are decided in turn: deciding one more comes to deciding the others first and then
/// this one, from where they have left things, with the tasks of both to run, in that order.
pub proof fn law_conditions_are_decided_in_turn(
    before: StateView,
    after: StateView,
    wf: Seq<char>,
    origin: Option<Seq<char>>,
    retention: usize,
    edges: Seq<(TaskId, String)>,
    verdicts: Seq<Option<bool>>,
    edge: (TaskId, String),
    holds: bool,
    r: Result<(Vec<TaskDefinition>, Vec<(TaskId, String)>), ActantError>,
    effects: Seq<EffectView>,
)
    requires
        branches::conditions_settled(
            before,
            after,
            wf,
            origin,
            retention,
            edges.push(edge),
            verdicts.push(Some(holds)),
            r,
            effects,
        ),
        verdicts.len() == edges.len(),
        r is Ok,
    ensures
        exists|
            mid: StateView,
            first: Seq<TaskDefinition>,
            done_first: Seq<EffectView>,
            tasks: Vec<TaskDefinition>,
            done: Seq<EffectView>,
        |
            {
                &&& #[trigger] reaches(
                    before,
                    wf,
                    origin,
                    retention,
                    edges,
                    verdicts,
                    mid,
                    first,
                    done_first,
                )
                &&& #[trigger] branches::condition_settled(
                    mid,
                    after,
                    wf,
                    origin,
                    edge.0@,
                    holds,
                    retention,
                    Ok(tasks),
                    done,
                )
                &&& (r->Ok_0).0@ == first + tasks@
                &&& effects == done_first + done
            },
{
    let all = edges.push(edge);
    let says = verdicts.push(Some(holds));
    let trace = chosen(before, after, wf, origin, retention, all, says, r, effects);
    let n = edges.len() as int;
    let a = trace[n];
    let b = trace[n + 1];
    assert(branches::settles_next(trace[n], trace[n + 1], wf, origin, retention, all[n], says[n]));
    let (step, more) = choose|step: Result<Vec<TaskDefinition>, ActantError>, more: Seq<EffectView>|
        #[trigger]
        branches::step_taken(a, b, wf, origin, retention, edge, holds, step, more);
    let part = trace.take(n + 1);
    assert(branches::settling_trace(before, wf, origin, retention, edges, verdicts, part)) by {
        assert forall|i: int| 0 <= i < part.len() - 1 implies branches::settles_next(
            #[trigger] part[i],
            part[i + 1],
            wf,
            origin,
            retention,
            edges[i],
            verdicts[i],
        ) by {
            assert(branches::settles_next(
                trace[i],
                trace[i + 1],
                wf,
                origin,
                retention,
                all[i],
                says[i],
            ));
            assert(all[i] == edges[i] && says[i] == verdicts[i]);
        }
    }
    assert(part.last() == a);
    assert(reaches(
        before,
        wf,
        origin,
        retention,
        edges,
        verdicts,
        a.state,
        a.ready,
        a.effects,
    ));
    if let Ok(tasks) = step {
        assert(branches::condition_settled(
            a.state,
            after,
            wf,
            origin,
            edge.0@,
            holds,
            retention,
            Ok(tasks),
            more,
        ));
    }
}

/// Deciding all of `edges` as `verdicts` has it leads to `mid`, with `first` to run and
/// `effects` to be done.
pub open spec fn reaches(
    before: StateView,
    wf: Seq<char>,
    origin: Option<Seq<char>>,
    retention: usize,
    edges: Seq<(TaskId, String)>,
    verdicts: Seq<Option<bool>>,
    mid: StateView,
    first: Seq<TaskDefinition>,
    effects: Seq<EffectView>,
) -> bool {
    exists|trace: Seq<Settling>|
        {
            &&& #[trigger] branches::settling_trace(
                before,
                wf,
                origin,
                retention,
                edges,
                verdicts,
                trace,
            )
            &&& trace.len() == edges.len() + 1
            &&& trace.last().state == mid
            &&& trace.last().ready == first
            &&& trace.last().effects == effects
        }
}

/// A completion that leaves no condition open leaves nothing more to be done: what it returns is
/// what is returned.
pub proof fn law_no_conditions_nothing_more(
    mid: StateView,
    after: StateView,
    wf: Seq<char>,
    origin: Option<Seq<char>>,
    retention: usize,
    done: (Vec<TaskDefinition>, Vec<(TaskId, String)>, bool),
    verdicts: Seq<Option<bool>>,
    settled: Result<(Vec<TaskDefinition>, Vec<(TaskId, String)>), ActantError>,
    r: Result<(Vec<TaskDefinition>, Vec<(TaskId, String)>, bool), ActantError>,
    more: Seq<EffectView>,
)
    requires
        branches::edges_settled(
            mid,
            after,
            wf,
            origin,
            retention,
            done,
            verdicts,
            settled,
            r,
            more,
        ),
    ensures
        done.1@.len() == 0 ==> {
            &&& after == mid
            &&& more.len() == 0
            &&& r matches Ok(t) && t.0@ == done.0@ && t.1@.len() == 0 && t.2 == done.2
        },
        r matches Ok(t) ==> {
            &&& t.2 == done.2
            &&& done.0@.len() <= t.0@.len()
            &&& forall|i: int| 0 <= i < done.0@.len() ==> t.0@[i] == #[trigger] done.0@[i]
        },
{
    if done.1@.len() == 0 {
        let trace = chosen(
            mid,
            after,
            wf,
            origin,
            retention,
            done.1@,
            verdicts,
            settled,
            more,
        );
        assert(trace.len() == 1);
        if let Ok(s) = settled {
            assert(branches::edge_texts(s.1@).len() == s.1@.len());
            assert(done.0@ + s.0@ =~= done.0@);
        }
    }
}

/// Each workflow that is dropped as corrupt is erased and told of as corrupt, and no other is.
pub proof fn law_corrupt_workflows_are_told_of(ids: Seq<Seq<char>>, k: Seq<char>)
    ensures
        recovery::drop_effects(ids).len() == 2 * ids.len(),
        recovery::drop_effects(ids).contains(EffectView::EraseState(k)) <==> ids.contains(k),
        recovery::drop_effects(ids).contains(
            events::appended(k, EventKind::Recovered { task_count: 0, corrupt: true }),
        ) <==> ids.contains(k),
    decreases ids.len(),
{
    if ids.len() > 0 {
        let init = ids.drop_last();
        law_corrupt_workflows_are_told_of(init, k);
        let before = recovery::drop_effects(init);
        let all = recovery::drop_effects(ids);
        let erase = EffectView::EraseState(k);
        let told = events::appended(k, EventKind::Recovered { task_count: 0, corrupt: true });
        assert(ids[ids.len() - 1] == ids.last());
        assert(all[before.len() as int] == EffectView::EraseState(ids.last()));
        assert(all[before.len() as int + 1] == events::appended(
            ids.last(),
            EventKind::Recovered { task_count: 0, corrupt: true },
        ));
        if init.contains(k) {
            assert(ids[init.index_of(k)] == k);
            assert(all[before.index_of(erase)] == erase);
            assert(all[before.index_of(told)] == told);
        }
        if ids.contains(k) && k != ids.last() {
            assert(init[ids.index_of(k)] == k);
        }
        if all.contains(erase) && k != ids.last() {
            let i = all.index_of(erase);
            assert(i < before.len());
            assert(before[i] == erase);
        }
        if all.contains(told) && k != ids.last() {
            let i = all.index_of(told);
            assert(i < before.len());
            assert(before[i] == told);
        }
    }
}

/// Each workflow that is recovered is told of, with the number of its tasks, as sound.
pub proof fn law_recovered_workflows_are_told_of(v: StateView, ids: Seq<Seq<char>>, i: int)
    requires
        0 <= i < ids.len(),
        v.slots[ids[i]].execution.order.len() <= usize::MAX,
    ensures
        recovery::recovery_events(v, ids).len() == ids.len(),
        recovery::recovery_events(v, ids)[i] matches EffectView::Append(e) && {
            &&& e.workflow_id == ids[i]
            &&& e.kind matches EventKind::Recovered { task_count, corrupt }
            &&& task_count == v.slots[ids[i]].execution.order.len()
            &&& !corrupt
        },
{
}

/// A workflow that ends while its history is replayed is stored at once, with its results where
/// it completed and has any; nothing is stored at once otherwise.
pub proof fn law_replayed_end_is_stored(
    before: StateView,
    after: StateView,
    wf: Seq<char>,
    effects: Seq<EffectView>,
)
    requires
        replay::replay_stores(before, after, wf, effects),
    ensures
        ({
            let ends = before.slots.contains_key(wf) && after.slots.contains_key(wf)
                && execution_laws::live(before.slots[wf].execution.state)
                && !execution_laws::live(after.slots[wf].execution.state);
            let x = after.slots[wf].execution;
            &&& !ends ==> effects.len() == 0
            &&& ends ==> effects.len() == 1
            &&& ends && x.state != Phase::Completed ==> effects[0] == EffectView::PersistExecution(
                wf,
            )
            &&& ends && x.state == Phase::Completed && (exists|k: Seq<char>| #[trigger]
                x.tasks.contains_key(k) && x.tasks[k].result is Some) ==> (effects[0]
                matches EffectView::PersistResults(w, _) && w == wf)
            &&& ends && !(effects[0] is PersistResults) ==> effects[0]
                == EffectView::PersistExecution(wf)
        }),
{
}

/// A history is replayed event by event: replaying more of it goes on from where the first part
/// has led, and an empty one changes nothing.
pub proof fn law_history_is_replayed_in_turn(
    v: StateView,
    first: Seq<WorkflowEventPayload>,
    second: Seq<WorkflowEventPayload>,
    e: WorkflowEventPayload,
    now: u64,
)
    ensures
        replay::all_replayed(v, Seq::empty(), now) == v,
        replay::all_replayed(v, seq![e], now) == replay::replayed(v, e, now),
        replay::all_replayed(v, first + second, now) == replay::all_replayed(
            replay::all_replayed(v, first, now),
            second,
            now,
        ),
    decreases second.len(),
{
    assert(seq![e].drop_last() =~= Seq::empty());
    assert(seq![e].last() == e);
    assert(replay::all_replayed(v, Seq::empty(), now) == v);
    if second.len() == 0 {
        assert(first + second =~= first);
    } else {
        law_history_is_replayed_in_turn(v, first, second.drop_last(), e, now);
        assert((first + second).drop_last() =~= first + second.drop_last());
        assert((first + second).last() == second.last());
    }
}

} // verus!
