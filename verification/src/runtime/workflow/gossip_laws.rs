//! What holds of the exchange of task states between nodes.
use vstd::prelude::*;

use crate::common::ActantError;
use crate::runtime::state::hlc;
use crate::runtime::state::hlc::{HlcTimestamp, HybridLogicalClock};
use crate::runtime::workflow::actor::workflow_actor::{WorkflowCommand, WorkflowReply};
use crate::runtime::workflow::gossip;
use crate::runtime::workflow::gossip::{GossipConfig, HeadAction, SeenEntry};
use crate::runtime::workflow::orchestrator::state::StateView;
use crate::runtime::workflow::wire;
use crate::runtime::workflow::wire::{OutcomeView, WireDagStateUpdate, WireTaskState, WorkflowHead};

verus! {

/// Of two states of a task under one timestamp, a completion outranks everything else, a failure
/// everything but that, a cancellation what is left, and a skip the mere running.
pub proof fn law_rank_of_states(a: WireTaskState, b: WireTaskState)
    ensures
        a is Completed && !(b is Completed) ==> gossip::priority_of(a) > gossip::priority_of(b),
        a is Failed && (b is Cancelled || b is Skipped || b is Running) ==> gossip::priority_of(a)
            > gossip::priority_of(b),
        a is Cancelled && (b is Skipped || b is Running) ==> gossip::priority_of(a)
            > gossip::priority_of(b),
        a is Skipped && b is Running ==> gossip::priority_of(a) > gossip::priority_of(b),
        (a is Completed && b is Completed) || (a is Failed && b is Failed) ==> gossip::priority_of(a)
            == gossip::priority_of(b),
        a.ends() <==> !(a is Running),
{
}

/// News is behind what is known exactly where the known news of the task carries a later time, or
/// the same time and a higher rank. By its time, the wall clock decides, and the counter where
/// that is the same.
pub proof fn law_stale_news(seen: Map<Seq<char>, SeenEntry>, u: WireDagStateUpdate)
    ensures
        ({
            let k = gossip::seen_key(u.workflow_id@, u.task_id@);
            let e = seen[k];
            let t = u.hlc_timestamp;
            gossip::stale(seen, u) <==> seen.contains_key(k) && {
                ||| e.hlc_timestamp.wall_time > t.wall_time
                ||| e.hlc_timestamp.wall_time == t.wall_time && e.hlc_timestamp.logical > t.logical
                ||| e.hlc_timestamp == t && e.state_priority > gossip::priority_of(u.task_state)
            }
        }),
{
}

/// What is kept of a task is never older than what was kept before, nor, under the same time, of
/// a lower rank. News that counts is kept, as it came; other tasks are left alone.
pub proof fn law_news_only_moves_on(
    before: Map<Seq<char>, SeenEntry>,
    key: Seq<char>,
    ts: HlcTimestamp,
    s: WireTaskState,
    now: u64,
    k: Seq<char>,
)
    ensures
        ({
            let e = gossip::entry_of(ts, s, now);
            let after = gossip::noted(before, key, e);
            let x = after[key].hlc_timestamp;
            let w = before[key].hlc_timestamp;
            &&& e.hlc_timestamp == ts && e.inserted_at == now
            &&& after.contains_key(key)
            &&& !before.contains_key(key) ==> after[key] == e
            &&& before.contains_key(key) ==> {
                &&& x.wall_time > w.wall_time || (x.wall_time == w.wall_time && x.logical
                    >= w.logical)
                &&& x == w ==> after[key].state_priority >= before[key].state_priority
                &&& ts.wall_time > w.wall_time || (ts.wall_time == w.wall_time && ts.logical
                    > w.logical) ==> after[key] == e
                &&& ts == w && e.state_priority >= before[key].state_priority ==> after[key] == e
            }
            &&& k != key ==> (after.contains_key(k) <==> before.contains_key(k))
            &&& k != key && before.contains_key(k) ==> after[k] == before[k]
        }),
{
}

/// The news that is kept is bounded and nothing is dropped early: as long as there is no more of
/// it than twice the window, all of it stays; once there is more, at most a window of it stays,
/// nothing that is too old does, and nothing stays that came before something young that goes.
pub proof fn law_news_is_bounded(
    before: Map<Seq<char>, SeenEntry>,
    after: Map<Seq<char>, SeenEntry>,
    config: GossipConfig,
    now: u64,
    k: Seq<char>,
    q: Seq<char>,
)
    requires
        gossip::evicted(before, after, config, now),
        before.dom().finite(),
    ensures
        before.len() <= 2 * config.dedup_window_size ==> after == before,
        after.len() <= 2 * config.dedup_window_size,
        after.contains_key(k) ==> before.contains_key(k) && after[k] == before[k],
        before.len() > 2 * config.dedup_window_size ==> {
            &&& after.len() <= config.dedup_window_size
            &&& after.contains_key(k) ==> now < before[k].inserted_at + config.dedup_ttl_secs
                * 1_000_000_000
            &&& after.contains_key(k) && before.contains_key(q) && !after.contains_key(q) && now
                < before[q].inserted_at + config.dedup_ttl_secs * 1_000_000_000
                && config.dedup_ttl_secs > 0 ==> before[q].inserted_at <= before[k].inserted_at
        },
{
    if before.len() > config.dedup_window_size * 2 {
        let young = gossip::fresh(before, config.dedup_ttl_secs, now);
        assert(after.contains_key(k) ==> young.contains_key(k) && after[k] == young[k]);
        lemma_age(before[k].inserted_at, now, config.dedup_ttl_secs);
        lemma_age(before[q].inserted_at, now, config.dedup_ttl_secs);
        if after.contains_key(k) && before.contains_key(q) && !after.contains_key(q) {
            if young.contains_key(q) {
                assert(young[q].inserted_at <= young[k].inserted_at);
            }
        }
    }
}

proof fn lemma_age(since: u64, now: u64, ttl: u64)
    ensures
        gossip::age_secs(since, now) < ttl ==> now < since + ttl * 1_000_000_000,
        ttl > 0 && now < since + ttl * 1_000_000_000 ==> gossip::age_secs(since, now) < ttl,
{
    if now >= since {
        let d = now - since;
        let q = d / 1_000_000_000;
        assert(d == q * 1_000_000_000 + d % 1_000_000_000);
    }
}

/// News is acted on as what it is: that a task runs marks it running, that it was skipped skips
/// it, and an end is reported as a result of the task, with the bytes or the error that came,
/// and without a generation.
pub proof fn law_news_is_acted_on(u: WireDagStateUpdate, c: WorkflowCommand)
    requires
        gossip::command_for(u, c),
    ensures
        u.task_state is Running <==> c is MarkTaskRunning,
        u.task_state is Skipped <==> c is SkipConditionalBranch,
        c is MarkTaskRunning ==> c->MarkTaskRunning_workflow_id == u.workflow_id
            && c->MarkTaskRunning_task_id == u.task_id,
        c is SkipConditionalBranch ==> c->SkipConditionalBranch_workflow_id == u.workflow_id
            && c->SkipConditionalBranch_task_id == u.task_id,
        !(u.task_state is Running) && !(u.task_state is Skipped) ==> {
            &&& c is OnTaskResult
            &&& c->OnTaskResult_workflow_id == u.workflow_id
            &&& c->OnTaskResult_task_id == u.task_id
            &&& c->OnTaskResult_attempt is None
            &&& u.task_state matches WireTaskState::Completed { result }
                ==> c->OnTaskResult_outcome is Completed && c->OnTaskResult_outcome->Completed_0
                == result
            &&& u.task_state matches WireTaskState::Failed { error } ==> c->OnTaskResult_outcome
                is Failed && c->OnTaskResult_outcome->Failed_0 == error
            &&& u.task_state is Cancelled ==> c->OnTaskResult_outcome is Cancelled
        },
{
}

/// The end of a task is told to other nodes as it was.
pub proof fn law_end_is_spread_as_it_was(outcome: OutcomeView, s: WireTaskState)
    requires
        wire::tells(outcome, s),
    ensures
        s.ends(),
        outcome matches OutcomeView::Completed(b) ==> s is Completed && s->result@ == b,
        outcome matches OutcomeView::Failed(e) ==> s is Failed && s->error@ == e,
        outcome is Cancelled <==> s is Cancelled,
        outcome is Skipped <==> s is Skipped,
{
}

/// That a workflow is not known here is no error; every other error of acting on news is one.
pub proof fn law_unknown_workflow_is_no_error(
    reply: Result<WorkflowReply, ActantError>,
    r: Result<(), ActantError>,
)
    requires
        gossip::settled(reply, r),
    ensures
        r is Err <==> (reply is Err && !(reply->Err_0 is NotFound)),
        r is Err ==> r->Err_0 == reply->Err_0,
{
}

/// A node asks for a workflow exactly where another has come further with it: where it does not
/// know it at all, or where fewer of its tasks have succeeded here.
pub proof fn law_behind_asks_for_more(v: StateView, h: WorkflowHead)
    ensures
        gossip::reviewed(v, h) is AdoptAndRequest <==> !v.slots.contains_key(h.workflow_id@),
        gossip::reviewed(v, h) is Ignore <==> v.slots.contains_key(h.workflow_id@)
            && v.slots[h.workflow_id@].execution.succeeded >= h.succeeded_count,
        gossip::reviewed(v, h) is Request <==> v.slots.contains_key(h.workflow_id@)
            && v.slots[h.workflow_id@].execution.succeeded < h.succeeded_count,
        gossip::head_told(v, h) ==> gossip::reviewed(v, h) != HeadAction::Request,
{
}

/// Timestamps that are taken one after another grow, by the wall clock or by the counter, and
/// never fall behind the physical time.
pub proof fn law_ticks_grow(last: HlcTimestamp, physical: u64, n: nat)
    requires
        last.logical + n < u32::MAX,
    ensures
        ({
            let a = gossip::ticks(last, physical, n);
            let b = gossip::ticks(last, physical, n + 1);
            &&& a.logical <= last.logical + n
            &&& b.wall_time > a.wall_time || (b.wall_time == a.wall_time && b.logical > a.logical)
            &&& b.wall_time >= physical
            &&& b.wall_time == last.wall_time || b.wall_time == physical
        }),
    decreases n,
{
    if n > 0 {
        law_ticks_grow(last, physical, (n - 1) as nat);
    }
}

/// A clock that ticks shows a later time: the physical time where that has moved on, and the next
/// count of its wall time where it has not.
pub proof fn law_tick(last: HlcTimestamp, physical: u64)
    requires
        last.logical < u32::MAX,
    ensures
        ({
            let t = hlc::ticked(last, physical);
            &&& physical > last.wall_time ==> t.wall_time == physical && t.logical == 0
            &&& physical <= last.wall_time ==> t.wall_time == last.wall_time && t.logical
                == last.logical + 1
            &&& hlc::earlier(last, t)
        }),
{
}

/// A clock that hears of a remote time within the drift that is allowed shows the greatest of the
/// three wall times, and a count above each party that has that wall time. A remote time beyond
/// the drift is followed no further than that.
pub proof fn law_merge(last: HlcTimestamp, remote: HlcTimestamp, physical: u64, drift: u64)
    requires
        last.logical < u32::MAX,
        remote.logical < u32::MAX,
    ensures
        ({
            let t = hlc::merged(last, remote, physical, drift);
            let near = remote.wall_time <= physical + drift;
            &&& t.wall_time >= last.wall_time && t.wall_time >= physical
            &&& near ==> t.wall_time >= remote.wall_time
            &&& near ==> t.wall_time == last.wall_time || t.wall_time == physical || t.wall_time
                == remote.wall_time
            &&& !near && t.wall_time != last.wall_time ==> t.wall_time == physical + drift
                || t.wall_time == physical
            &&& t.wall_time == last.wall_time ==> t.logical > last.logical
            &&& near && t.wall_time == remote.wall_time ==> t.logical > remote.logical
            &&& near && t.wall_time != last.wall_time && t.wall_time != remote.wall_time
                ==> t.logical == 0
            &&& near && t.wall_time == last.wall_time && t.wall_time != remote.wall_time
                ==> t.logical == last.logical + 1
            &&& near && t.wall_time == remote.wall_time && t.wall_time != last.wall_time
                ==> t.logical == remote.logical + 1
        }),
{
}

/// News is taken in exactly where no news of the task is known that carries a later time, or the
/// same time and a higher rank. It is then kept with its time and rank, and what is known of
/// other tasks stays, as long as there is room. What is not taken in changes nothing.
pub proof fn law_received_news_is_kept(
    before: Map<Seq<char>, SeenEntry>,
    after: Map<Seq<char>, SeenEntry>,
    clock: HybridLogicalClock,
    moved: HybridLogicalClock,
    config: GossipConfig,
    u: WireDagStateUpdate,
    physical: u64,
    now: u64,
    r: Option<WorkflowCommand>,
    k: Seq<char>,
)
    requires
        gossip::news_received(before, after, clock, moved, config, u, physical, now, r),
        before.dom().finite(),
        before.len() < config.dedup_window_size * 2,
        k != gossip::seen_key(u.workflow_id@, u.task_id@),
    ensures
        ({
            let key = gossip::seen_key(u.workflow_id@, u.task_id@);
            let e = before[key];
            let t = u.hlc_timestamp;
            r is None <==> before.contains_key(key) && {
                ||| e.hlc_timestamp.wall_time > t.wall_time
                ||| e.hlc_timestamp.wall_time == t.wall_time && e.hlc_timestamp.logical > t.logical
                ||| e.hlc_timestamp == t && e.state_priority > gossip::priority_of(u.task_state)
            }
        }),
        r is None ==> after == before && moved == clock,
        r is Some ==> {
            let key = gossip::seen_key(u.workflow_id@, u.task_id@);
            &&& after.contains_key(key)
            &&& after[key].hlc_timestamp == u.hlc_timestamp
            &&& after[key].state_priority == gossip::priority_of(u.task_state)
            &&& after[key].inserted_at == now
            &&& after.contains_key(k) <==> before.contains_key(k)
            &&& before.contains_key(k) ==> after[k] == before[k]
        },
{
    law_stale_news(before, u);
}

/// After news of a task was taken in, older news of it is not, and has no effect, as long as
/// there was room for what was taken in.
pub proof fn law_older_news_comes_too_late(
    before: Map<Seq<char>, SeenEntry>,
    mid: Map<Seq<char>, SeenEntry>,
    after: Map<Seq<char>, SeenEntry>,
    clock: HybridLogicalClock,
    moved: HybridLogicalClock,
    last: HybridLogicalClock,
    config: GossipConfig,
    first: WireDagStateUpdate,
    second: WireDagStateUpdate,
    times: (u64, u64),
    later: (u64, u64),
    r: Option<WorkflowCommand>,
    q: Option<WorkflowCommand>,
)
    requires
        gossip::news_received(before, mid, clock, moved, config, first, times.0, times.1, r),
        gossip::news_received(mid, after, moved, last, config, second, later.0, later.1, q),
        before.dom().finite(),
        before.len() < config.dedup_window_size * 2,
        r is Some,
        second.workflow_id@ == first.workflow_id@,
        second.task_id@ == first.task_id@,
        second.hlc_timestamp.wall_time < first.hlc_timestamp.wall_time || (
        second.hlc_timestamp.wall_time == first.hlc_timestamp.wall_time
            && second.hlc_timestamp.logical < first.hlc_timestamp.logical),
    ensures
        q is None,
        after == mid,
        last == moved,
{
    law_stale_news(mid, second);
}

} // verus!
