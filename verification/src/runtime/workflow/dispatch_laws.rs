//! What holds of tasks on their way: queued, placed, forwarded, run and reported.
use vstd::arithmetic::power2::{lemma_pow2_unfold, pow2};
use vstd::prelude::*;

use crate::common::{ActantError, NodeId};
use crate::runtime::workflow::actor::scheduler_actor;
use crate::runtime::workflow::actor::scheduler_actor::{SchedulerCommand, SchedulerReply};
use crate::runtime::workflow::failover::PeerInfo;
use crate::runtime::workflow::orchestrator::laws;
use crate::runtime::workflow::orchestrator::slot::SlotView;
use crate::runtime::workflow::runtime;
use crate::runtime::workflow::runtime::cancel;
use crate::runtime::workflow::runtime::network_router;
use crate::runtime::workflow::runtime::network_router::{Dispatch, Handlers, ResultRoute};
use crate::runtime::workflow::runtime::result_delivery;
use crate::runtime::workflow::runtime::result_delivery::{DirectRequest, PendingResult, PendingStep};
use crate::runtime::workflow::runtime::{
    Delivery, DirectReply, DispatchOutcome, LoopAction, LoopEvent, TaskStep, WorkerState,
};
use crate::runtime::workflow::scheduler;
use crate::runtime::workflow::scheduler::{InnerScheduler, Scheduler};
use crate::runtime::workflow::task;
use crate::runtime::workflow::task::{TaskDefinition, TaskView};
use crate::runtime::workflow::wire::{
    CancelBroadcast, OutcomeView, TaskCompletion, TaskRef, TopicRoute, WireMessage,
    WireTaskOutcome,
};
use crate::text;

verus! {

/// `after` is `before` with `t` at `p`; by priority, everything before `p` is at least as urgent
/// as `t` and everything behind it is less urgent.
pub open spec fn queued_at(
    before: Seq<TaskView>,
    after: Seq<TaskView>,
    t: TaskView,
    p: int,
    ranked: bool,
) -> bool {
    &&& 0 <= p <= before.len()
    &&& after == before.take(p) + seq![t] + before.skip(p)
    &&& !ranked ==> p == before.len()
    &&& ranked ==> forall|i: int|
        0 <= i < p ==> (#[trigger] before[i]).priority >= t.priority
    &&& ranked ==> forall|i: int|
        p <= i < before.len() ==> (#[trigger] before[i]).priority < t.priority
}

/// A task that is queued is queued as it is, with the time at which it was, at its place: last,
/// or, by priority, behind what is at least as urgent and before what is less urgent. A closed
/// queue refuses it and stays as it is.
pub proof fn law_queued_task(
    before: InnerScheduler,
    after: InnerScheduler,
    t: TaskDefinition,
    now: u64,
    r: Result<SchedulerReply, ActantError>,
    wake: bool,
)
    requires
        scheduler_actor::command_outcome(
            before,
            after,
            SchedulerCommand::Enqueue(t),
            now,
            r,
            wake,
        ),
        before.sound(),
    ensures
        r is Ok <==> !before.closed,
        wake <==> !before.closed,
        after.closed == before.closed,
        before.closed ==> after.queued() == before.queued(),
        !before.closed ==> ({
            let x = TaskView { enqueued_at_ms: now, ..t@ };
            exists|p: int| #[trigger]
                queued_at(before.queued(), after.queued(), x, p, before.ranked)
        }),
{
    if !before.closed {
        lemma_joined(before.queued(), before.ranked, TaskView { enqueued_at_ms: now, ..t@ });
    }
}

proof fn lemma_joined(queue: Seq<TaskView>, ranked: bool, t: TaskView)
    requires
        ranked ==> scheduler::descending(queue),
    ensures
        exists|p: int| #[trigger]
            queued_at(queue, scheduler::joined(queue, ranked, t), t, p, ranked),
{
    let p = scheduler::place(queue, ranked, t.priority);
    if ranked {
        scheduler::law_priority_order(queue, t);
    }
    let after = scheduler::joined(queue, ranked, t);
    assert(after =~= queue.take(p) + seq![t] + queue.skip(p));
    assert forall|i: int| ranked && 0 <= i < p implies (#[trigger] queue[i]).priority
        >= t.priority by {
        assert(after[i] == queue[i]);
        assert(after[i].priority >= after[p].priority);
    }
    assert(queued_at(queue, after, t, p, ranked));
}

/// A batch that is queued is queued whole: without priorities behind everything that waits, in
/// its order; by priority, with every task at its place, and nothing that waits lost.
pub proof fn law_queued_batch(
    before: InnerScheduler,
    after: InnerScheduler,
    tasks: Vec<TaskDefinition>,
    now: u64,
    r: Result<SchedulerReply, ActantError>,
    wake: bool,
    x: TaskView,
)
    requires
        scheduler_actor::command_outcome(
            before,
            after,
            SchedulerCommand::EnqueueBatch(tasks),
            now,
            r,
            wake,
        ),
        before.sound(),
    ensures
        r is Ok <==> !before.closed,
        before.closed ==> after.queued() == before.queued(),
        !before.closed ==> {
            let new = Seq::new(
                tasks@.len(),
                |i: int| TaskView { enqueued_at_ms: now, ..tasks@[i]@ },
            );
            &&& !before.ranked ==> after.queued() == before.queued() + new
            &&& before.ranked ==> forall|i: int, j: int|
                0 <= i < j < after.queued().len() ==> (#[trigger] after.queued()[i]).priority >= (
                #[trigger] after.queued()[j]).priority
            &&& after.queued().len() == before.queued().len() + tasks@.len()
            &&& after.queued().contains(x) <==> before.queued().contains(x) || new.contains(x)
        },
{
    if !before.closed {
        lemma_all_joined(before.queued(), before.ranked, task::task_views(tasks@), now, x);
        let new = Seq::new(tasks@.len(), |i: int| TaskView { enqueued_at_ms: now, ..tasks@[i]@ });
        assert(new =~= stamps(task::task_views(tasks@), now));
        if before.ranked {
            scheduler::lemma_all_joined_descending(
                before.queued(),
                task::task_views(tasks@),
                now,
            );
        }
    }
}

spec fn stamps(tasks: Seq<TaskView>, now: u64) -> Seq<TaskView> {
    Seq::new(tasks.len(), |i: int| TaskView { enqueued_at_ms: now, ..tasks[i] })
}

proof fn lemma_all_joined(
    queue: Seq<TaskView>,
    ranked: bool,
    tasks: Seq<TaskView>,
    now: u64,
    x: TaskView,
)
    requires
        ranked ==> scheduler::descending(queue),
    ensures
        ({
            let all = scheduler::all_joined(queue, ranked, tasks, now);
            &&& !ranked ==> all == queue + stamps(tasks, now)
            &&& all.len() == queue.len() + tasks.len()
            &&& all.contains(x) <==> queue.contains(x) || stamps(tasks, now).contains(x)
        }),
    decreases tasks.len(),
{
    let all = scheduler::all_joined(queue, ranked, tasks, now);
    if tasks.len() == 0 {
        assert(queue + stamps(tasks, now) =~= queue);
    } else {
        let init = tasks.drop_last();
        let t = TaskView { enqueued_at_ms: now, ..tasks.last() };
        let old_stamps = stamps(init, now);
        let new_stamps = stamps(tasks, now);
        lemma_all_joined(queue, ranked, init, now, x);
        if ranked {
            scheduler::lemma_all_joined_descending(queue, init, now);
        }
        let q = scheduler::all_joined(queue, ranked, init, now);
        lemma_joined(q, ranked, t);
        let p = choose|p: int| #[trigger] queued_at(q, all, t, p, ranked);
        assert(new_stamps =~= old_stamps.push(t));
        if !ranked {
            assert(all =~= queue + new_stamps);
        }
        assert(all[p] == t);
        assert(new_stamps[init.len() as int] == t);
        if q.contains(x) {
            let i = q.index_of(x);
            if i < p {
                assert(all[i] == x);
            } else {
                assert(all[i + 1] == x);
            }
        }
        if all.contains(x) && x != t {
            let i = all.index_of(x);
            if i < p {
                assert(q[i] == x);
            } else {
                assert(q[i - 1] == x);
            }
        }
        if old_stamps.contains(x) {
            assert(new_stamps[old_stamps.index_of(x)] == x);
        }
        if new_stamps.contains(x) && x != t {
            assert(old_stamps[new_stamps.index_of(x)] == x);
        }
    }
}

/// A task of a workflow goes before another where its node is the more urgent: of two tasks that
/// wait in a queue by priority, handed out for their nodes, the one whose node has the higher
/// priority comes first.
pub proof fn law_urgent_nodes_go_first(
    queue: InnerScheduler,
    s: SlotView,
    wf: Seq<char>,
    origin: Option<Seq<char>>,
    a: TaskView,
    b: TaskView,
    i: int,
    j: int,
)
    requires
        queue.sound(),
        queue.ranked,
        laws::handed_out(s, wf, origin, a),
        laws::handed_out(s, wf, origin, b),
        s.dag.nodes[a.id].priority > s.dag.nodes[b.id].priority,
        0 <= i < queue.queued().len(),
        0 <= j < queue.queued().len(),
        queue.queued()[i] == (TaskView { enqueued_at_ms: queue.queued()[i].enqueued_at_ms, ..a }),
        queue.queued()[j] == (TaskView { enqueued_at_ms: queue.queued()[j].enqueued_at_ms, ..b }),
    ensures
        i < j,
{
    if j < i {
        assert(queue.queued()[j].priority >= queue.queued()[i].priority);
    }
}

/// What is handed out leaves the queue, from its head, and nothing else does: what is handed out
/// and what stays make up what waited, in its order. As much is handed out as is asked for, as
/// far as there is so much.
pub proof fn law_tasks_leave_from_the_head(
    before: InnerScheduler,
    after: InnerScheduler,
    limit: usize,
    now: u64,
    batch: Result<SchedulerReply, ActantError>,
    one: Result<SchedulerReply, ActantError>,
    after_one: InnerScheduler,
    wake: bool,
)
    requires
        scheduler_actor::command_outcome(
            before,
            after,
            SchedulerCommand::DequeueBatch(limit),
            now,
            batch,
            wake,
        ),
        scheduler_actor::command_outcome(
            before,
            after_one,
            SchedulerCommand::TryDequeue,
            now,
            one,
            wake,
        ),
    ensures
        batch matches Ok(SchedulerReply::Tasks(tasks)) && {
            let views = Seq::new(tasks@.len(), |i: int| tasks@[i]@);
            &&& before.queued() == views + after.queued()
            &&& views.len() <= limit
            &&& views.len() == limit || after.queued().len() == 0
        },
        one matches Ok(SchedulerReply::Task(t)) && {
            &&& t is Some <==> before.queued().len() > 0
            &&& t matches Some(x) ==> before.queued() == seq![x@] + after_one.queued()
            &&& t is None ==> after_one.queued() == before.queued()
        },
        after.closed == before.closed,
        after_one.closed == before.closed,
{
    let q = before.queued();
    if let Ok(SchedulerReply::Tasks(tasks)) = batch {
        let views = Seq::new(tasks@.len(), |i: int| tasks@[i]@);
        assert(views =~= task::task_views(tasks@));
        assert(q =~= views + after.queued());
    }
    if let Ok(SchedulerReply::Task(Some(x))) = one {
        assert(q =~= seq![x@] + after_one.queued());
    }
}

/// A worker runs what it is to run: a task that was cancelled is told to be so; one that is
/// bound to another node, by its sender or by choice, goes there, to the address that is known
/// for it; one that is bound to this node runs here; and one that is bound to none runs where
/// there are slots at all, and is put back where there are none. The task is not changed.
pub proof fn law_task_is_placed(
    node: Seq<char>,
    slots: nat,
    cancelled: Map<Seq<char>, u64>,
    task: TaskDefinition,
    choice: Option<(NodeId, String)>,
    a: LoopAction,
)
    requires
        runtime::loop_stepped(
            node,
            slots,
            cancelled,
            LoopEvent::Taken { task: Some(task), choice },
            a,
        ),
    ensures
        ({
            let t = task@;
            let free = t.target_node is None && choice is None;
            let aim = if t.target_node is None && choice is Some {
                Some((choice->0).0@)
            } else {
                t.target_node
            };
            &&& a matches LoopAction::Place(s)
            &&& s is Skip <==> cancelled.contains_key(t.id)
            &&& s is Forward <==> !cancelled.contains_key(t.id) && aim is Some && aim->0 != node
            &&& s is Requeue <==> !cancelled.contains_key(t.id) && free && slots == 0
            &&& s is Run <==> !cancelled.contains_key(t.id) && ((free && slots > 0) || (aim is Some
                && aim->0 == node))
            &&& s matches TaskStep::Skip(c) ==> c@.outcome is Cancelled && c@.task.task_id == t.id
                && (t.workflow_id is Some ==> c@.task.workflow_id == t.workflow_id->0)
            &&& s matches TaskStep::Forward { task: sent, address } ==> {
                &&& sent@.id == t.id
                &&& sent@.payload == t.payload
                &&& sent@.workflow_id == t.workflow_id
                &&& sent@.priority == t.priority
                &&& sent@.attempt == t.attempt
                &&& sent@.origin_node == t.origin_node
                &&& sent@.target_node == aim
                &&& t.target_node is Some && t.target_endpoint_addr is Some ==> address@
                    == t.target_endpoint_addr->0
                &&& t.target_node is Some && t.target_endpoint_addr is None ==> address@
                    == t.target_node->0
                &&& t.target_node is None ==> address@ == (choice->0).1@
            }
            &&& s matches TaskStep::Run(x) ==> x@.id == t.id && x@.payload == t.payload && (free
                ==> x@ == t)
            &&& s matches TaskStep::Requeue(x) ==> x@ == t
        }),
{
}

/// The loop goes on while the worker does: a task that the other node took is done with here,
/// and one that it did not take is put back, bound to no node, so that any node may run it. A
/// worker that is told to end waits for what runs, and ends.
pub proof fn law_loop_goes_on(
    node: Seq<char>,
    slots: nat,
    cancelled: Map<Seq<char>, u64>,
    task: TaskDefinition,
    address: String,
    reply: DirectReply,
    answered: LoopAction,
    told: LoopAction,
    waited: LoopAction,
    state: WorkerState,
)
    requires
        runtime::loop_stepped(
            node,
            slots,
            cancelled,
            LoopEvent::Answered { task, address, reply },
            answered,
        ),
        runtime::loop_stepped(node, slots, cancelled, LoopEvent::Cancelled, told),
        runtime::loop_stepped(node, slots, cancelled, LoopEvent::Waited, waited),
    ensures
        ({
            let taken = reply matches DirectReply::DispatchAck { accepted } && accepted;
            &&& taken ==> answered is Next
            &&& !taken ==> (answered matches LoopAction::Place(TaskStep::Requeue(x)) && x@ == (
            TaskView { target_node: None, ..task@ }))
        }),
        told is Await,
        waited is End,
        runtime::state_after(state, LoopEvent::Cancelled) is Draining,
        runtime::state_after(state, LoopEvent::Waited) is Stopped,
        runtime::state_after(state, LoopEvent::Answered { task, address, reply }) == state,
        runtime::cancelled_after(cancelled, LoopEvent::Answered { task, address, reply })
            == cancelled,
        runtime::cancelled_after(cancelled, LoopEvent::Taken { task: Some(task), choice: None })
            == cancelled.remove(task@.id),
{
}

/// A task goes to another node only where that node has more free slots than this one and was
/// heard of within the time allowed, and to no node with fewer free slots than another such
/// one, nor fewer slots at all among those. Where no such node is, it stays.
pub proof fn law_load_is_shared(
    peers: Seq<(NodeId, PeerInfo)>,
    local_available: u32,
    now_ms: u64,
    ttl: u64,
    r: Option<(NodeId, String)>,
)
    requires
        runtime::target_chosen(peers, local_available, now_ms, ttl, r),
    ensures
        r matches Some(p) ==> exists|i: int|
            {
                let q = (#[trigger] peers[i]).1@;
                &&& 0 <= i < peers.len()
                &&& p.0@ == peers[i].0@
                &&& q.endpoint_addr is Some ==> p.1@ == q.endpoint_addr->0
                &&& q.endpoint_addr is None ==> p.1@ == peers[i].0@
                &&& q.available_slots > local_available
                &&& q.last_heartbeat_ms > 0
                &&& now_ms - q.last_heartbeat_ms <= ttl
                &&& forall|j: int|
                    {
                        let o = (#[trigger] peers[j]).1@;
                        0 <= j < peers.len() && o.max_slots > 0 && o.last_heartbeat_ms > 0 && now_ms
                            - o.last_heartbeat_ms <= ttl ==> o.available_slots
                            < q.available_slots || (o.available_slots == q.available_slots
                            && o.max_slots <= q.max_slots)
                    }
            },
        r is None ==> forall|j: int|
            {
                let o = (#[trigger] peers[j]).1@;
                0 <= j < peers.len() && o.max_slots > 0 && o.last_heartbeat_ms > 0 && now_ms
                    - o.last_heartbeat_ms <= ttl ==> o.available_slots <= local_available
            },
{
    if let Some(p) = r {
        let i = choose|i: int|
            {
                &&& #[trigger] runtime::best(peers, i, now_ms, ttl)
                &&& peers[i].1@.available_slots > local_available
                &&& p.0@ == peers[i].0@
                &&& p.1@ == match peers[i].1@.endpoint_addr {
                    Some(a) => a,
                    None => peers[i].0@,
                }
            };
        let q = peers[i].1@;
        assert forall|j: int|
            {
                let o = (#[trigger] peers[j]).1@;
                0 <= j < peers.len() && o.max_slots > 0 && o.last_heartbeat_ms > 0 && now_ms
                    - o.last_heartbeat_ms <= ttl ==> o.available_slots < q.available_slots || (
                o.available_slots == q.available_slots && o.max_slots <= q.max_slots)
            } by {
            let o = peers[j].1@;
            if 0 <= j < peers.len() && o.available_slots > 0 {
                assert(runtime::eligible(peers[j].1@, now_ms, ttl) ==> !runtime::preferred(
                    peers[j].0@,
                    peers[j].1@,
                    peers[i].0@,
                    peers[i].1@,
                ));
            }
        }
        assert(peers[i].1@ == q);
    } else {
        assert forall|j: int|
            {
                let o = (#[trigger] peers[j]).1@;
                0 <= j < peers.len() && o.max_slots > 0 && o.last_heartbeat_ms > 0 && now_ms
                    - o.last_heartbeat_ms <= ttl ==> o.available_slots <= local_available
            } by {
            let o = peers[j].1@;
            if 0 <= j < peers.len() && o.available_slots > 0 {
                assert(runtime::eligible(peers[j].1@, now_ms, ttl) ==> peers[j].1@.available_slots
                    <= local_available);
            }
        }
    }
}

/// How a task ended is told as it was: a result with its bytes, and anything else as a failure,
/// with the error that there was.
pub proof fn law_end_is_told_as_it_was(o: DispatchOutcome, timeout_ms: u64, t: TaskView)
    ensures
        o matches DispatchOutcome::Completed(b) ==> runtime::ended_as(o, timeout_ms)
            == OutcomeView::Completed(b@),
        o matches DispatchOutcome::Failed(e) ==> runtime::ended_as(o, timeout_ms)
            == OutcomeView::Failed(e@),
        !(o is Completed) ==> runtime::ended_as(o, timeout_ms) is Failed,
        runtime::ref_of(t).task_id == t.id,
        runtime::ref_of(t).task_name == t.name,
        runtime::ref_of(t).target_node == t.target_node,
        t.workflow_id is Some ==> runtime::ref_of(t).workflow_id == t.workflow_id->0,
        t.workflow_id is None ==> runtime::ref_of(t).workflow_id.len() == 0,
{
}

/// The end of a task goes where the task came from: over to the node that sent it, to the
/// address that came with it or else to its name, as it ended; and is published here where the
/// task is this node's own.
pub proof fn law_end_goes_to_the_origin(
    t: TaskView,
    node: NodeId,
    c: TaskCompletion,
    d: Delivery,
)
    requires
        runtime::delivered(t, node, c, d),
    ensures
        t.origin_node is None || t.origin_node->0 == node@ ==> d == Delivery::Publish(c),
        t.origin_node is Some && t.origin_node->0 != node@ ==> {
            &&& d matches Delivery::Send { address, request }
            &&& t.origin_endpoint_addr is Some ==> address@ == t.origin_endpoint_addr->0
            &&& t.origin_endpoint_addr is None ==> address@ == t.origin_node->0
            &&& request matches DirectRequest::TaskResult { task, outcome, worker_node }
            &&& task@.task_id == c@.task.task_id
            &&& t.workflow_id is Some ==> task@.workflow_id == t.workflow_id->0
            &&& outcome@ == c@.outcome
            &&& worker_node == node
        },
{
}

/// A result that was taken is done with. One that was not is kept for another attempt, untried,
/// where there is room, and told to be a failure of its task where there is none. What is kept
/// already stays.
pub proof fn law_result_is_delivered_or_kept(
    before: Seq<PendingResult>,
    after: Seq<PendingResult>,
    capacity: usize,
    reply: DirectReply,
    address: String,
    request: DirectRequest,
    t: TaskView,
    failed: Option<TaskCompletion>,
)
    requires
        runtime::delivery_settled(
            before,
            after,
            capacity,
            reply,
            address,
            request,
            t,
            failed,
        ),
    ensures
        ({
            let taken = reply matches DirectReply::TaskResultAck { accepted } && accepted;
            let room = before.len() < capacity;
            &&& taken ==> after == before && failed is None
            &&& !taken && room ==> {
                &&& failed is None
                &&& after.len() == before.len() + 1
                &&& after.last().target == address
                &&& after.last().request == request
                &&& after.last().attempts == 0
            }
            &&& !taken && !room ==> {
                &&& after == before
                &&& failed matches Some(c)
                &&& c@.outcome is Failed
                &&& c@.task.task_id == t.id
                &&& t.workflow_id is Some ==> c@.task.workflow_id == t.workflow_id->0
            }
            &&& forall|i: int| 0 <= i < before.len() ==> after[i] == before[i]
        }),
{
}

/// Another attempt that fails is counted, and the result kept; where there is no room, its task
/// is told to have failed.
pub proof fn law_retried_result_is_counted(
    before: Seq<PendingResult>,
    after: Seq<PendingResult>,
    capacity: usize,
    pending: PendingResult,
    reply: DirectReply,
    failed: Option<TaskCompletion>,
)
    requires
        result_delivery::retry_settled(before, after, capacity, pending, reply, failed),
        pending.attempts < usize::MAX,
    ensures
        ({
            let taken = reply matches DirectReply::TaskResultAck { accepted } && accepted;
            let room = before.len() < capacity;
            &&& taken ==> after == before && failed is None
            &&& !taken && room ==> {
                &&& failed is None
                &&& after.len() == before.len() + 1
                &&& after.last().target == pending.target
                &&& after.last().request == pending.request
                &&& after.last().attempts == pending.attempts + 1
            }
            &&& !taken && !room ==> after == before && (pending.request
                matches DirectRequest::TaskResult { task, .. } ==> failed is Some
                && failed->0@.outcome is Failed && failed->0@.task.task_id == task@.task_id
                && failed->0@.task.workflow_id == task@.workflow_id)
        }),
{
}

/// A result is tried exactly as often as allowed, the first time after the base where the cap
/// allows it. One that is given up ends its task as failed, for the node that waits for it and no
/// longer for one to run it, with a text that names the node that was not reached.
pub proof fn law_result_is_tried_as_often_as_allowed(
    p: PendingResult,
    max_attempts: usize,
    base_ms: u64,
    cap_ms: u64,
    s: PendingStep,
)
    requires
        result_delivery::step_due(p, max_attempts, base_ms, cap_ms, s),
    ensures
        s is RetryAfter <==> p.attempts < max_attempts,
        s matches PendingStep::RetryAfter(ms) ==> ms <= cap_ms,
        s matches PendingStep::RetryAfter(ms) ==> p.attempts == 0 && base_ms <= cap_ms ==> ms
            == base_ms,
        s matches PendingStep::GiveUp(c) ==> {
            &&& c is Some <==> p.request is TaskResult
            &&& p.request matches DirectRequest::TaskResult { task, .. } ==> {
                &&& c->0@.task.workflow_id == task@.workflow_id
                &&& c->0@.task.task_id == task@.task_id
                &&& c->0@.task.task_name == task@.task_name
                &&& c->0@.task.target_node is None
                &&& c->0@.outcome == OutcomeView::Failed(
                    "network: task result could not be delivered to orchestrator "@ + p.target@
                        + " after "@ + text::decimal(max_attempts as nat) + " retry attempts"@,
                )
            }
        },
{
    law_backoff_doubles(base_ms as int, p.attempts as nat, cap_ms as int);
    vstd::arithmetic::power2::lemma2_to64();
    if p.attempts == 0 {
        assert(base_ms * pow2(0) == base_ms) by (nonlinear_arith)
            requires
                pow2(0) == 1,
        ;
    }
}

/// The wait doubles with every attempt until it comes to the cap: after `attempts` of them it is
/// the base times two to that power, where that is within the cap, and the cap where it is not.
pub proof fn law_backoff_doubles(base_ms: int, attempts: nat, cap_ms: int)
    requires
        0 <= base_ms,
        0 <= cap_ms,
    ensures
        base_ms * pow2(attempts) <= cap_ms ==> result_delivery::backoff(base_ms, attempts, cap_ms)
            == base_ms * pow2(attempts),
        base_ms * pow2(attempts) > cap_ms ==> result_delivery::backoff(base_ms, attempts, cap_ms)
            == cap_ms,
    decreases attempts,
{
    if attempts == 0 {
        vstd::arithmetic::power2::lemma2_to64();
    } else {
        let n = (attempts - 1) as nat;
        law_backoff_doubles(base_ms, n, cap_ms);
        lemma_pow2_unfold(attempts);
        let x = pow2(n) as int;
        assert(base_ms * (2 * x) == 2 * (base_ms * x)) by (nonlinear_arith);
        assert(base_ms * x >= 0) by (nonlinear_arith)
            requires
                base_ms >= 0,
                x >= 0,
        ;
    }
}

/// A cancellation is kept for the time allowed and no longer; nothing is made up. What comes
/// from the future is kept.
pub proof fn law_cancellations_fade(m: Map<Seq<char>, u64>, now: u64, ttl: u64, k: Seq<char>)
    requires
        ttl > 0,
    ensures
        cancel::unexpired(m, now, ttl).contains_key(k) <==> m.contains_key(k) && m[k] + ttl > now,
        cancel::unexpired(m, now, ttl).contains_key(k) ==> cancel::unexpired(m, now, ttl)[k]
            == m[k],
{
}

/// A result that comes in goes to the workflow it belongs to, as it is and without a generation,
/// where this node has the actor for it; else it is published, as run by its worker. A skipped
/// task is no result of a workflow.
pub proof fn law_result_finds_its_workflow(
    task: TaskRef,
    outcome: WireTaskOutcome,
    worker: NodeId,
    has_actor: bool,
    r: ResultRoute,
)
    requires
        network_router::routed(task, outcome, worker, has_actor, r),
    ensures
        ({
            let owned = task.workflow_id@.len() > 0 && has_actor;
            &&& r is Publish <==> !owned
            &&& r is Reject <==> owned && outcome is Skipped
            &&& r is Ask <==> owned && !(outcome is Skipped)
            &&& r matches ResultRoute::Publish(c) ==> c@.outcome == outcome@ && c@.task.task_id
                == task@.task_id && c@.task.workflow_id == task@.workflow_id
                && c@.task.target_node == Some(worker@)
            &&& r matches ResultRoute::Ask(c) ==> {
                &&& c is OnTaskResult
                &&& c->OnTaskResult_workflow_id == task.workflow_id
                &&& c->OnTaskResult_task_id == task.task_id
                &&& c->OnTaskResult_attempt is None
                &&& outcome matches WireTaskOutcome::Completed(b)
                    ==> c->OnTaskResult_outcome is Completed && c->OnTaskResult_outcome->Completed_0
                    == b
                &&& outcome matches WireTaskOutcome::Failed(e) ==> c->OnTaskResult_outcome is Failed
                    && c->OnTaskResult_outcome->Failed_0 == e
                &&& outcome is Cancelled ==> c->OnTaskResult_outcome is Cancelled
            }
        }),
{
}

/// A cancellation that another node spreads is told once: under its topic, as the cancellation
/// of that task, and as news only where it was not known. Without it nothing is cancelled.
pub proof fn law_spread_cancellation_is_told(
    route: TopicRoute,
    cancel: Option<CancelBroadcast>,
    handlers: Handlers,
    cancelled: Map<Seq<char>, u64>,
    d: Dispatch,
)
    requires
        network_router::dispatched(route, None, cancel, handlers, cancelled, d),
    ensures
        d is Cancelled <==> route is Cancel && cancel is Some,
        d matches Dispatch::Cancelled { completion, is_new } ==> {
            &&& completion@.task.task_id == cancel->0.task_id@
            &&& completion@.task.workflow_id == cancel->0.workflow_id@
            &&& completion@.outcome is Cancelled
            &&& is_new <==> !cancelled.contains_key(cancel->0.task_id@)
        },
        d is Cancelled || d is TakeCapabilities || d is Drop,
{
}

/// A task that is sent on counts as sent exactly where the other node says that it took it;
/// every other answer, and none, is an error of the network.
pub proof fn law_sent_task_was_taken(
    reply: DirectReply,
    addr: Seq<char>,
    r: Result<(), ActantError>,
)
    requires
        runtime::forwarded(reply, addr, r),
    ensures
        r is Ok <==> (reply matches DirectReply::DispatchAck { accepted } && accepted),
        r is Err ==> r->Err_0 is Network,
{
}

/// The end of a task is published under the event of its kind.
pub proof fn law_end_has_its_event(a: OutcomeView, b: OutcomeView)
    ensures
        network_router::event_for(a) is TaskCompleted <==> a is Completed,
        network_router::event_for(a) is TaskFailed <==> a is Failed,
        network_router::event_for(a) is TaskCancelled <==> a is Cancelled,
        network_router::event_for(a) is TaskSkipped <==> a is Skipped,
        a is Completed && !(b is Completed) ==> network_router::event_for(a)
            != network_router::event_for(b),
{
}

/// Draining hands out the tasks that are bound to no node and leaves those that are, each in its
/// order: every task that waited is in one of the two, and in no other.
pub proof fn law_unbound_tasks_are_drained(
    before: InnerScheduler,
    after: InnerScheduler,
    now: u64,
    r: Result<SchedulerReply, ActantError>,
    wake: bool,
    x: TaskView,
)
    requires
        scheduler_actor::command_outcome(
            before,
            after,
            SchedulerCommand::DrainUnrouted,
            now,
            r,
            wake,
        ),
    ensures
        r matches Ok(SchedulerReply::Tasks(tasks)) && {
            let views = Seq::new(tasks@.len(), |i: int| tasks@[i]@);
            &&& views.contains(x) <==> before.queued().contains(x) && x.target_node is None
            &&& after.queued().contains(x) <==> before.queued().contains(x) && x.target_node is Some
            &&& views.len() + after.queued().len() == before.queued().len()
        },
        after.closed == before.closed,
{
    let q = before.queued();
    let f = |t: TaskView| t.target_node is None;
    let g = |t: TaskView| t.target_node is Some;
    lemma_filters(q, x);
    if let Ok(SchedulerReply::Tasks(tasks)) = r {
        let views = Seq::new(tasks@.len(), |i: int| tasks@[i]@);
        assert(views =~= task::task_views(tasks@));
        assert(q.filter(f) == task::task_views(tasks@));
        assert(q.filter(g) == after.queued());
    }
}

proof fn lemma_filters(q: Seq<TaskView>, x: TaskView)
    ensures
        q.filter(|t: TaskView| t.target_node is None).contains(x) <==> q.contains(x)
            && x.target_node is None,
        q.filter(|t: TaskView| t.target_node is Some).contains(x) <==> q.contains(x)
            && x.target_node is Some,
        q.filter(|t: TaskView| t.target_node is None).len() + q.filter(
            |t: TaskView| t.target_node is Some,
        ).len() == q.len(),
    decreases q.len(),
{
    reveal(Seq::filter);
    if q.len() > 0 {
        let init = q.drop_last();
        let f = |t: TaskView| t.target_node is None;
        let g = |t: TaskView| t.target_node is Some;
        lemma_filters(init, x);
        assert(q[q.len() - 1] == q.last());
        if init.contains(x) {
            assert(q[init.index_of(x)] == x);
        }
        if q.contains(x) && x != q.last() {
            assert(init[q.index_of(x)] == x);
        }
        lemma_grown(init.filter(f), q.last(), x);
        lemma_grown(init.filter(g), q.last(), x);
    }
}

proof fn lemma_grown(list: Seq<TaskView>, t: TaskView, x: TaskView)
    ensures
        list.push(t).contains(x) <==> list.contains(x) || x == t,
{
    let longer = list.push(t);
    assert(longer[list.len() as int] == t);
    if list.contains(x) {
        assert(longer[list.index_of(x)] == x);
    }
    if longer.contains(x) && x != t {
        assert(list[longer.index_of(x)] == x);
    }
}

/// A message goes to whoever it is for: a task is queued on every node, and what concerns the
/// exchange of states, failover or capabilities goes to the part of the node that handles it,
/// unchanged, and to nobody where the node has no such part.
pub proof fn law_message_goes_to_its_handler(
    route: TopicRoute,
    m: WireMessage,
    cancel: Option<CancelBroadcast>,
    handlers: Handlers,
    cancelled: Map<Seq<char>, u64>,
    d: Dispatch,
)
    requires
        network_router::dispatched(route, Some(m), cancel, handlers, cancelled, d),
    ensures
        d is Enqueue <==> route is Task && m is TaskDispatch,
        d is Enqueue ==> m == WireMessage::TaskDispatch(d->Enqueue_0),
        d is ApplyUpdate <==> route is DagState && m is DagStateUpdate && handlers.gossip,
        d is ApplyUpdate ==> m == WireMessage::DagStateUpdate(d->ApplyUpdate_0),
        d is ReviewHeads <==> route is Heads && m is HeadsExchange && handlers.gossip,
        d is ReviewHeads ==> m == WireMessage::HeadsExchange(d->ReviewHeads_0),
        d is AnswerStateRequest <==> route is WorkflowStateReq && m is WorkflowStateRequest
            && handlers.gossip,
        d is TakeStateResponse <==> route is WorkflowStateResp && m is WorkflowStateResponse
            && handlers.gossip,
        d is TakeHeartbeat <==> route is Heartbeat && m is NodeHeartbeat && handlers.failover,
        d is TakeHeartbeat ==> m == WireMessage::NodeHeartbeat(d->TakeHeartbeat_0),
        d is TakeClaim <==> route is Failover && m is OrchestratorClaim && handlers.failover,
        d is TakeClaim ==> m == WireMessage::OrchestratorClaim(d->TakeClaim_0),
        d is TakeCapabilities <==> route is CapabilityGossip && handlers.capabilities,
        d is Cancelled <==> route is Cancel && cancel is Some,
{
}

} // verus!
