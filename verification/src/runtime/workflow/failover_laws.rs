//! What holds of failure detection and of leases as a whole.
use vstd::prelude::*;

use crate::common::NodeId;
use crate::keymap;
use crate::runtime::state::hlc::HlcTimestamp;
use crate::runtime::workflow::actor::workflow_actor::{TaskResultOutcome, WorkflowCommand};
use crate::runtime::workflow::execution_laws;
use crate::runtime::workflow::failover;
use crate::runtime::workflow::failover::{LeaseEntry, LeaseSweep, LeaseView, PeerInfo, PeerView};
use crate::runtime::workflow::gossip;
use crate::runtime::workflow::orchestrator::state;
use crate::runtime::workflow::phase::Phase;
use crate::runtime::workflow::wire::{NodeHeartbeat, OrchestratorClaim, WireDagStateUpdate};

verus! {

/// Every node whose last sign of life came longer ago than the timeout is forgotten and handed
/// back as it was known, whatever its slots or its address are; every other one stays as it is.
pub proof fn law_silent_node_is_forgotten(
    before: Map<Seq<char>, PeerView>,
    after: Map<Seq<char>, PeerView>,
    now_ms: u64,
    timeout: u64,
    removed: Seq<(NodeId, PeerInfo)>,
    k: Seq<char>,
)
    requires
        failover::stale_removed(before, after, now_ms, timeout, removed),
        before.contains_key(k),
    ensures
        before[k].last_heartbeat_ms > 0 && now_ms > before[k].last_heartbeat_ms + timeout ==> {
            &&& !after.contains_key(k)
            &&& exists|i: int|
                0 <= i < removed.len() && (#[trigger] removed[i]).0@ == k && removed[i].1@
                    == before[k]
        },
        before[k].last_heartbeat_ms == 0 || now_ms <= before[k].last_heartbeat_ms + timeout ==> {
            &&& after.contains_key(k)
            &&& after[k] == before[k]
            &&& forall|i: int| 0 <= i < removed.len() ==> (#[trigger] removed[i]).0@ != k
        },
{
    let names = failover::named(removed);
    if before[k].last_heartbeat_ms > 0 && now_ms > before[k].last_heartbeat_ms + timeout {
        assert(names.contains(k));
        let i = names.index_of(k);
        assert(removed[i].0@ == k);
    } else {
        assert(!names.contains(k));
        assert forall|i: int| 0 <= i < removed.len() implies (#[trigger] removed[i]).0@ != k by {
            assert(names[i] == removed[i].0@);
        }
    }
}

/// Nobody is forgotten who was not known, and nobody new is known.
pub proof fn law_forgetting_invents_nobody(
    before: Map<Seq<char>, PeerView>,
    after: Map<Seq<char>, PeerView>,
    now_ms: u64,
    timeout: u64,
    removed: Seq<(NodeId, PeerInfo)>,
    k: Seq<char>,
)
    requires
        failover::stale_removed(before, after, now_ms, timeout, removed),
        !before.contains_key(k),
    ensures
        !after.contains_key(k),
        forall|i: int| 0 <= i < removed.len() ==> (#[trigger] removed[i]).0@ != k,
{
    let names = failover::named(removed);
    assert(!names.contains(k));
    assert forall|i: int| 0 <= i < removed.len() implies (#[trigger] removed[i]).0@ != k by {
        assert(names[i] == removed[i].0@);
    }
}

/// A node is reported as failed exactly where it was heard of, has been silent for longer than
/// the timeout and still had workflows, and is reported with these. Exactly the nodes that have
/// not been silent for too long, and this one, are to take workflows over.
pub proof fn law_failed_node_is_reported(
    before: Map<Seq<char>, PeerView>,
    after: Map<Seq<char>, PeerView>,
    me: Seq<char>,
    now_expire: u64,
    now_check: u64,
    timeout: u64,
    failed: Seq<(NodeId, PeerInfo)>,
    candidates: Seq<Seq<char>>,
    k: Seq<char>,
)
    requires
        failover::failures_detected(
            before,
            after,
            me,
            now_expire,
            now_check,
            timeout,
            failed,
            candidates,
        ),
    ensures
        (exists|i: int|
            0 <= i < failed.len() && (#[trigger] failed[i]).0@ == k && failed[i].1@ == before[k])
            <==> {
            &&& before.contains_key(k)
            &&& before[k].last_heartbeat_ms > 0
            &&& now_check > before[k].last_heartbeat_ms + timeout
            &&& before[k].active.len() > 0
        },
        candidates.contains(k) <==> {
            ||| k == me
            ||| before.contains_key(k) && (before[k].last_heartbeat_ms == 0 || now_expire
                <= before[k].last_heartbeat_ms + timeout)
        },
        after.contains_key(k) <==> before.contains_key(k) && (before[k].last_heartbeat_ms == 0
            || now_expire <= before[k].last_heartbeat_ms + timeout),
        after.contains_key(k) ==> after[k] == before[k],
{
    let names = failover::named(failed);
    assert(names.contains(k) <==> failover::orphaned(before, k, now_check, timeout));
    if names.contains(k) {
        let i = names.index_of(k);
        assert(failed[i].0@ == k);
        assert(failed[i].1@ == before[k]);
    }
    if exists|i: int|
        0 <= i < failed.len() && (#[trigger] failed[i]).0@ == k && failed[i].1@ == before[k] {
        let i = choose|i: int|
            0 <= i < failed.len() && (#[trigger] failed[i]).0@ == k && failed[i].1@ == before[k];
        assert(names[i] == k);
        assert(names.contains(k));
    }
}

/// A heartbeat of another node keeps it from being taken for failed until the timeout is over,
/// and no longer: whatever was known of it before, whatever its load. It tells which workflows
/// the node has, and touches no other node. A node's own heartbeat changes nothing.
pub proof fn law_heartbeat_keeps_alive(
    before: Map<Seq<char>, PeerView>,
    after: Map<Seq<char>, PeerView>,
    me: Seq<char>,
    hb: &NodeHeartbeat,
    received_at_ms: u64,
    is_new: bool,
    now_ms: u64,
    timeout: u64,
    later: Map<Seq<char>, PeerView>,
    removed: Seq<(NodeId, PeerInfo)>,
    w: Seq<char>,
    k: Seq<char>,
)
    requires
        failover::heartbeat_taken(before, after, me, hb, received_at_ms, is_new),
        failover::stale_removed(after, later, now_ms, timeout, removed),
    ensures
        hb.node_id@ == me ==> after == before && !is_new,
        hb.node_id@ != me ==> {
            let p = after[hb.node_id@];
            &&& after.contains_key(hb.node_id@)
            &&& is_new <==> !before.contains_key(hb.node_id@)
            &&& p.last_heartbeat_ms == received_at_ms
            &&& p.available_slots == hb.available_slots
            &&& p.max_slots == hb.max_slots
            &&& p.endpoint_addr is Some <==> hb.endpoint_addr is Some
            &&& hb.endpoint_addr is Some ==> p.endpoint_addr->0 == hb.endpoint_addr->0@
            &&& p.active.contains(w) <==> exists|i: int|
                0 <= i < hb.active_workflows@.len() && (#[trigger] hb.active_workflows@[i])@ == w
            &&& k != hb.node_id@ ==> (after.contains_key(k) <==> before.contains_key(k))
            &&& k != hb.node_id@ && before.contains_key(k) ==> after[k] == before[k]
            &&& received_at_ms > 0 ==> (later.contains_key(hb.node_id@) <==> now_ms
                <= received_at_ms + timeout)
        },
{
    if hb.node_id@ != me {
        let p = after[hb.node_id@];
        let texts = state::workflow_texts(hb.active_workflows@);
        assert(before.insert(hb.node_id@, p).contains_key(hb.node_id@));
        assert(p.active.contains(w) <==> texts.contains(w));
        if texts.contains(w) {
            let i = texts.index_of(w);
            assert(hb.active_workflows@[i]@ == w);
        }
        if exists|i: int|
            0 <= i < hb.active_workflows@.len() && (#[trigger] hb.active_workflows@[i])@ == w {
            let i = choose|i: int|
                0 <= i < hb.active_workflows@.len() && (#[trigger] hb.active_workflows@[i])@ == w;
            assert(texts[i] == w);
        }
    }
}

/// A lease that is given out holds for its whole duration and not a moment longer, by the clock
/// that only moves forward; by the wall clock where that clock would run over. It names the node
/// and the time of the claim.
pub proof fn law_lease_term(
    node: Seq<char>,
    claimed_at_ms: u64,
    duration: u64,
    given_at: u64,
    now_ms: u64,
    now_monotonic: u64,
)
    requires
        claimed_at_ms + duration <= u64::MAX,
    ensures
        ({
            let l = failover::lease_given(node, claimed_at_ms, duration, given_at);
            let holds = failover::lease_holds(l, now_ms, now_monotonic);
            &&& l.node_id == node
            &&& l.claimed_at_ms == claimed_at_ms
            &&& l.expires_at_ms == claimed_at_ms + duration
            &&& given_at + duration <= u64::MAX ==> (holds <==> now_monotonic < given_at + duration)
            &&& given_at + duration > u64::MAX ==> (holds <==> now_ms < claimed_at_ms + duration)
        }),
{
}

/// The lease has ended.
pub open spec fn over(l: LeaseView, now_ms: u64, now_monotonic: u64) -> bool {
    match l.deadline {
        Some(d) => now_monotonic >= d,
        None => now_ms >= l.expires_at_ms,
    }
}

/// A workflow is claimed exactly where no lease of it, of whatever node, has not yet ended. The
/// claim is for this node, from now on and for the whole duration of a lease.
pub proof fn law_claim_waits_for_the_lease(
    leases: Map<Seq<char>, LeaseView>,
    me: Seq<char>,
    duration: u64,
    wf: Seq<char>,
    now_ms: u64,
    now_monotonic: u64,
    r: Option<LeaseEntry>,
)
    requires
        failover::claim_begun(leases, me, duration, wf, now_ms, now_monotonic, r),
        now_ms + duration <= u64::MAX,
    ensures
        r is None <==> leases.contains_key(wf) && !over(leases[wf], now_ms, now_monotonic),
        r matches Some(l) ==> {
            &&& l@.node_id == me
            &&& l@.claimed_at_ms == now_ms
            &&& l@.expires_at_ms == now_ms + duration
            &&& duration > 0 ==> !over(l@, now_ms, now_monotonic)
        },
{
}

/// A lease that has not ended stays as it is. One that has ended is renewed where it is this
/// node's and the node still drives the workflow, and is forgotten otherwise, in the store too.
pub proof fn law_lease_sweep(
    before: Map<Seq<char>, LeaseView>,
    after: Map<Seq<char>, LeaseView>,
    me: Seq<char>,
    duration: u64,
    has_store: bool,
    active: Seq<Seq<char>>,
    now_ms: u64,
    now_monotonic: u64,
    s: LeaseSweep,
    k: Seq<char>,
)
    requires
        failover::leases_swept(
            before,
            after,
            me,
            duration,
            has_store,
            active,
            now_ms,
            now_monotonic,
            s,
        ),
        now_ms + duration <= u64::MAX,
    ensures
        ({
            let renewed = exists|i: int|
                0 <= i < s.renewed@.len() && (#[trigger] s.renewed@[i]).0@ == k;
            let ended = before.contains_key(k) && over(before[k], now_ms, now_monotonic);
            let own = before[k].node_id == me && active.contains(k);
            &&& !before.contains_key(k) ==> !after.contains_key(k) && !renewed
            &&& before.contains_key(k) && !ended ==> after.contains_key(k) && after[k]
                == before[k] && !renewed
            &&& ended && own ==> after.contains_key(k) && renewed
            &&& ended && !own ==> !after.contains_key(k) && !renewed
            &&& ended && !own && has_store ==> keymap::texts(s.deleted@).contains(
                failover::STORE_KEY_LEASE@ + k,
            )
            &&& !has_store ==> s.deleted@.len() == 0
        }),
        forall|i: int|
            0 <= i < s.renewed@.len() ==> {
                let l = (#[trigger] s.renewed@[i]).1@;
                l.node_id == me && l.claimed_at_ms == now_ms && l.expires_at_ms == now_ms + duration
            },
{
    let names = failover::renewed_texts(s.renewed@);
    assert(names.contains(k) <==> failover::lapsed_own(
        before,
        me,
        active,
        k,
        now_ms,
        now_monotonic,
    ));
    if names.contains(k) {
        let i = names.index_of(k);
        assert(s.renewed@[i].0@ == k);
    }
    if exists|i: int| 0 <= i < s.renewed@.len() && (#[trigger] s.renewed@[i]).0@ == k {
        let i = choose|i: int| 0 <= i < s.renewed@.len() && (#[trigger] s.renewed@[i]).0@ == k;
        assert(names[i] == k);
        assert(names.contains(k));
    }
    if !has_store && s.deleted@.len() > 0 {
        let texts = keymap::texts(s.deleted@);
        assert(texts.contains(texts[0]));
    }
    assert(after.contains_key(k) <==> failover::swept(
        before,
        me,
        active,
        now_ms,
        now_monotonic,
    ).contains_key(k));
}

/// A stored lease that can be read and has not ended by the wall clock is known again after a
/// restart, unless a later entry is for the same workflow; one that cannot be read or has ended
/// is to be deleted.
pub proof fn law_stored_leases_are_recovered(
    leases: Map<Seq<char>, LeaseView>,
    entries: Seq<(String, Vec<u8>)>,
    now_ms: u64,
    i: int,
)
    requires
        0 <= i < entries.len(),
    ensures
        ({
            let value = failover::rkyv_lease_value(entries[i].1@);
            let usable = value is Some && now_ms < (value->0).2;
            let wf = failover::leased_workflow(entries[i].0@);
            &&& usable && (forall|j: int|
                i < j < entries.len() ==> failover::leased_workflow((#[trigger] entries[j]).0@)
                    != wf) ==> {
                let l = failover::recovered(leases, entries, now_ms);
                &&& l.contains_key(wf)
                &&& l[wf].node_id == (value->0).0
                &&& l[wf].claimed_at_ms == (value->0).1
                &&& l[wf].expires_at_ms == (value->0).2
                &&& l[wf].deadline is None
            }
            &&& !usable ==> failover::unusable(entries, now_ms).contains(entries[i].0@)
            &&& usable && (forall|j: int|
                0 <= j < entries.len() && j != i ==> (#[trigger] entries[j]).0@ != entries[i].0@)
                ==> !failover::unusable(entries, now_ms).contains(entries[i].0@)
        }),
    decreases entries.len(),
{
    let init = entries.drop_last();
    let value = failover::rkyv_lease_value(entries[i].1@);
    let wf = failover::leased_workflow(entries[i].0@);
    let rest = failover::unusable(init, now_ms);
    let all = failover::unusable(entries, now_ms);
    assert(entries[entries.len() - 1] == entries.last());
    if i < init.len() {
        law_stored_leases_are_recovered(leases, init, now_ms, i);
        assert(init[i] == entries[i]);
        if forall|j: int|
            i < j < entries.len() ==> failover::leased_workflow((#[trigger] entries[j]).0@) != wf {
            assert forall|j: int| i < j < init.len() implies failover::leased_workflow(
                (#[trigger] init[j]).0@,
            ) != wf by {
                assert(init[j] == entries[j]);
            }
            assert(failover::leased_workflow(entries[entries.len() - 1].0@) != wf);
        }
        if forall|j: int|
            0 <= j < entries.len() && j != i ==> (#[trigger] entries[j]).0@ != entries[i].0@ {
            assert forall|j: int| 0 <= j < init.len() && j != i implies (#[trigger] init[j]).0@
                != init[i].0@ by {
                assert(init[j] == entries[j]);
            }
            assert(entries[entries.len() - 1].0@ != entries[i].0@);
        }
        if rest.contains(entries[i].0@) {
            let n = rest.index_of(entries[i].0@);
            assert(all[n] == rest[n]);
        }
    } else {
        lemma_unusable_are_entries(init, now_ms);
        if value is Some && now_ms < (value->0).2 {
            assert(all == rest);
        } else {
            assert(all == rest.push(entries[i].0@));
            assert(all[all.len() - 1] == entries[i].0@);
        }
        if forall|j: int|
            0 <= j < entries.len() && j != i ==> (#[trigger] entries[j]).0@ != entries[i].0@ {
            if rest.contains(entries[i].0@) {
                let n = rest.index_of(entries[i].0@);
                let m = choose|m: int| 0 <= m < init.len() && (#[trigger] init[m]).0@ == rest[n];
                assert(entries[m] == init[m]);
            }
        }
    }
}

proof fn lemma_unusable_are_entries(entries: Seq<(String, Vec<u8>)>, now_ms: u64)
    ensures
        forall|n: int|
            0 <= n < failover::unusable(entries, now_ms).len() ==> exists|m: int|
                0 <= m < entries.len() && (#[trigger] entries[m]).0@ == #[trigger] failover::unusable(
                    entries,
                    now_ms,
                )[n],
    decreases entries.len(),
{
    if entries.len() > 0 {
        let init = entries.drop_last();
        lemma_unusable_are_entries(init, now_ms);
        let rest = failover::unusable(init, now_ms);
        let all = failover::unusable(entries, now_ms);
        assert forall|n: int| 0 <= n < all.len() implies exists|m: int|
            0 <= m < entries.len() && (#[trigger] entries[m]).0@ == #[trigger] all[n] by {
            if n < rest.len() {
                assert(all[n] == rest[n]);
                let m = choose|m: int| 0 <= m < init.len() && (#[trigger] init[m]).0@ == rest[n];
                assert(entries[m] == init[m]);
                assert(entries[m].0@ == all[n]);
            } else {
                assert(entries[entries.len() - 1].0@ == all[n]);
            }
        }
    }
}

/// A node that yields a workflow to another forgets everything about this workflow, and nothing
/// about any other.
pub proof fn law_yielded_workflow_is_forgotten(v: state::StateView, wf: Seq<char>, k: Seq<char>)
    ensures
        ({
            let w = state::without(v, wf);
            &&& !w.slots.contains_key(wf) && !w.waits.contains_key(wf) && !w.signals.contains_key(
                wf,
            ) && !w.dirty.contains(wf) && !w.seqs.contains_key(wf)
            &&& k != wf ==> {
                &&& w.slots.contains_key(k) <==> v.slots.contains_key(k)
                &&& v.slots.contains_key(k) ==> w.slots[k] == v.slots[k]
                &&& w.waits.contains_key(k) <==> v.waits.contains_key(k)
                &&& v.waits.contains_key(k) ==> w.waits[k] == v.waits[k]
                &&& w.signals.contains_key(k) <==> v.signals.contains_key(k)
                &&& v.signals.contains_key(k) ==> w.signals[k] == v.signals[k]
                &&& w.dirty.contains(k) <==> v.dirty.contains(k)
                &&& w.seqs.contains_key(k) <==> v.seqs.contains_key(k)
            }
        }),
{
}

/// The workflows that a node tells others of are those that it drives and that are pending or
/// running, each of them once.
pub proof fn law_active_workflows_are_told(
    v: state::StateView,
    active: Seq<Seq<char>>,
    k: Seq<char>,
    i: int,
    j: int,
)
    requires
        failover::active_told(v, active),
    ensures
        v.slots.contains_key(k) && (v.slots[k].execution.state == Phase::Pending
            || v.slots[k].execution.state == Phase::Running) ==> exists|n: int|
            0 <= n < active.len() && #[trigger] active[n] == k,
        0 <= i < active.len() ==> v.slots.contains_key(active[i]) && (
        v.slots[active[i]].execution.state == Phase::Pending || v.slots[active[i]].execution.state
            == Phase::Running),
        0 <= i < j < active.len() ==> active[i] != active[j],
{
    if v.slots.contains_key(k) {
        execution_laws::law_ends_are_ends(v.slots[k].execution.state);
        if v.slots[k].execution.state == Phase::Pending || v.slots[k].execution.state
            == Phase::Running {
            assert(active.contains(k));
        }
    }
    if 0 <= i < active.len() {
        assert(active.contains(active[i]));
        execution_laws::law_ends_are_ends(v.slots[active[i]].execution.state);
    }
}

/// A claim reaches the other node as it was made: there, too, the workflow is leased to the node
/// that claimed it, from the time of the claim and for the whole duration. A node that hears of
/// another's claim forgets the workflow, one that hears of its own keeps it; all other leases and
/// workflows stay as they are.
pub proof fn law_claim_is_taken_as_made(
    here: Map<Seq<char>, LeaseView>,
    kept: Map<Seq<char>, LeaseView>,
    claimant: Seq<char>,
    wf: Seq<char>,
    lease: LeaseView,
    claim: OrchestratorClaim,
    there: Map<Seq<char>, LeaseView>,
    taken: Map<Seq<char>, LeaseView>,
    v: state::StateView,
    w: state::StateView,
    other: Seq<char>,
    duration: u64,
    now_monotonic: u64,
    k: Seq<char>,
)
    requires
        failover::claim_told(here, kept, claimant, wf, lease, claim),
        failover::claim_taken(there, taken, v, w, other, duration, claim, now_monotonic),
        claim.timestamp_ms + duration <= u64::MAX,
        k != wf,
    ensures
        kept.contains_key(wf) && kept[wf] == lease,
        kept.remove(wf) == here.remove(wf),
        taken.contains_key(wf),
        taken[wf].node_id == claimant,
        taken[wf].claimed_at_ms == lease.claimed_at_ms,
        taken[wf].expires_at_ms == lease.claimed_at_ms + duration,
        now_monotonic + duration <= u64::MAX ==> taken[wf].deadline == Some(
            (now_monotonic + duration) as u64,
        ),
        now_monotonic + duration > u64::MAX ==> taken[wf].deadline is None,
        taken.remove(wf) == there.remove(wf),
        claimant == other ==> w == v,
        claimant != other ==> !w.slots.contains_key(wf) && !w.waits.contains_key(wf)
            && !w.signals.contains_key(wf) && !w.dirty.contains(wf) && !w.seqs.contains_key(wf),
        w.slots.contains_key(k) <==> v.slots.contains_key(k),
        v.slots.contains_key(k) ==> w.slots[k] == v.slots[k],
        w.dirty.contains(k) <==> v.dirty.contains(k),
{
    assert(kept.remove(wf) =~= here.remove(wf));
    assert(taken.remove(wf) =~= there.remove(wf));
}

/// What is told of a node's capacity is what the node's last heartbeat said.
pub proof fn law_capacity_is_as_told(
    hb: &NodeHeartbeat,
    received_at_ms: u64,
    p: PeerView,
    c: (u32, u32, Option<String>),
)
    requires
        failover::heard(hb, received_at_ms, p),
        failover::capacity_of(p, c),
    ensures
        c.0 == hb.available_slots,
        c.1 == hb.max_slots,
        c.2 is Some <==> hb.endpoint_addr is Some,
        hb.endpoint_addr matches Some(a) ==> c.2->0@ == a@,
        p.last_heartbeat_ms == received_at_ms,
{
}

/// Whoever hears that a task is dispatched anew takes its last run for failed, of whatever
/// generation, and of no other task.
pub proof fn law_notice_reports_a_failure(
    u: WireDagStateUpdate,
    wf: Seq<char>,
    id: Seq<char>,
    node: NodeId,
    ts: HlcTimestamp,
    c: WorkflowCommand,
)
    requires
        failover::reschedule_notice(u, wf, id, node, ts),
        gossip::command_for(u, c),
    ensures
        u.origin_node == node,
        u.hlc_timestamp == ts,
        c matches WorkflowCommand::OnTaskResult { workflow_id, task_id, outcome, attempt, source }
            && workflow_id@ == wf && task_id@ == id && attempt is None && source
            is Gossip && (outcome matches TaskResultOutcome::Failed(e) && e@
            == "original orchestrator failed, rescheduling"@),
{
}

} // verus!
