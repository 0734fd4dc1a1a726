//! The worker of a node: which tasks it runs, forwards or drops, and what it makes of how
//! they end.
use vstd::prelude::*;
use vstd::string::*;

use crate::common::{ActantError, NodeId, TaskId, WorkflowId};
use crate::keymap::KeyMap;
use crate::runtime::workflow::failover;
use crate::runtime::workflow::failover::{PeerInfo, PeerView};
use crate::runtime::workflow::runtime::result_delivery::{
    DirectRequest, PendingQueue, PendingResult,
};
use crate::runtime::workflow::scheduler;
use crate::runtime::workflow::scheduler::{InnerScheduler, Scheduler};
use crate::runtime::workflow::task;
use crate::runtime::workflow::task::{copy_node, TaskDefinition, TaskView};
use crate::runtime::workflow::wire::{
    CompletionView, OutcomeView, TaskCompletion, TaskRef, TaskRefView, WireTaskOutcome,
};
use crate::text;
use crate::text::{push_decimal, same_text, text_before};

pub mod cancel;
pub mod network_router;
pub mod result_delivery;

verus! {

/// How a worker stands.
#[derive(Debug, Clone, Copy, PartialEq, Eq, Structural)]
#[non_exhaustive]
pub enum WorkerState {
    Running,
    Draining,
    Stopped,
}

/// The name of a worker's state.
pub open spec fn state_name(s: WorkerState) -> Seq<char> {
    match s {
        WorkerState::Running => "healthy"@,
        WorkerState::Draining => "draining"@,
        WorkerState::Stopped => "stopped"@,
    }
}

impl WorkerState {
    /// A name that does not change between versions.
    pub fn as_str(&self) -> (s: &'static str)
        ensures
            s@ == state_name(*self),
    {
        match self {
            WorkerState::Running => "healthy",
            WorkerState::Draining => "draining",
            WorkerState::Stopped => "stopped",
        }
    }
}

/// The task that ends, as the end is told: without a workflow its identifier is empty.
pub open spec fn ref_of(t: TaskView) -> TaskRefView {
    TaskRefView {
        workflow_id: match t.workflow_id {
            Some(w) => w,
            None => Seq::empty(),
        },
        task_id: t.id,
        task_name: t.name,
        target_node: t.target_node,
    }
}

fn task_ref(task: &TaskDefinition) -> (r: TaskRef)
    ensures
        r@ == ref_of(task@),
{
    TaskRef {
        workflow_id: match &task.workflow_id {
            Some(w) => w.clone(),
            None => WorkflowId(String::new()),
        },
        task_id: task.id.clone(),
        task_name: task.name.clone(),
        target_node: copy_node(&task.target_node),
    }
}

/// What came of running a task.
#[derive(Debug)]
pub enum DispatchOutcome {
    /// It returned.
    Completed(Vec<u8>),
    /// It failed.
    Failed(String),
    /// It panicked, with this message where the message is a text.
    Panicked(Option<String>),
    /// It took too long.
    TimedOut,
}

/// The end of a task that was run.
pub open spec fn ended_as(o: DispatchOutcome, timeout_ms: u64) -> OutcomeView {
    match o {
        DispatchOutcome::Completed(result) => OutcomeView::Completed(result@),
        DispatchOutcome::Failed(error) => OutcomeView::Failed(error@),
        DispatchOutcome::Panicked(m) => OutcomeView::Failed(
            "dispatcher panicked: "@ + match m {
                Some(x) => x@,
                None => "<non-string panic>"@,
            },
        ),
        DispatchOutcome::TimedOut => OutcomeView::Failed(
            "task timed out after "@ + text::decimal(timeout_ms as nat) + "ms"@,
        ),
    }
}

/// The end of a task that was run with a limit of `effective_timeout_ms`.
pub fn build_completion_from_dispatch_result(
    dispatch_result: DispatchOutcome,
    task: &TaskDefinition,
    effective_timeout_ms: u64,
) -> (c: TaskCompletion)
    ensures
        c@ == (CompletionView {
            task: ref_of(task@),
            outcome: ended_as(dispatch_result, effective_timeout_ms),
        }),
{
    let outcome = match dispatch_result {
        DispatchOutcome::Completed(result) => WireTaskOutcome::Completed(result),
        DispatchOutcome::Failed(error) => WireTaskOutcome::Failed(error),
        DispatchOutcome::Panicked(message) => {
            let mut error = "dispatcher panicked: ".to_owned();
            match message {
                Some(m) => {
                    error.append(m.as_str());
                },
                None => {
                    error.append("<non-string panic>");
                },
            }
            WireTaskOutcome::Failed(error)
        },
        DispatchOutcome::TimedOut => {
            let mut error = "task timed out after ".to_owned();
            push_decimal(&mut error, effective_timeout_ms);
            error.append("ms");
            WireTaskOutcome::Failed(error)
        },
    };
    TaskCompletion { task: task_ref(task), outcome }
}

/// What another node answered.
#[derive(Debug)]
pub enum DirectReply {
    DispatchAck { accepted: bool },
    TaskResultAck { accepted: bool },
    /// Something that does not answer the request.
    Other,
    /// Nothing: the request failed.
    Failed(String),
}

/// What an answer to a forwarded task comes to.
pub open spec fn forwarded(reply: DirectReply, addr: Seq<char>, r: Result<(), ActantError>) -> bool {
    match reply {
        DirectReply::DispatchAck { accepted: true } => r is Ok,
        DirectReply::DispatchAck { accepted: false } => r matches Err(ActantError::Network(m))
            && m@ == "worker "@ + addr + " rejected task dispatch"@,
        DirectReply::Failed(e) => r matches Err(ActantError::Network(m)) && m@
            == "forward to node "@ + addr + " failed: "@ + e@,
        _ => r matches Err(ActantError::Network(m)) && m@ == "unexpected response from worker "@
            + addr,
    }
}

/// What an answer to a forwarded task comes to.
pub fn forward_remote_task(reply: &DirectReply, target_addr: &str) -> (r: Result<(), ActantError>)
    ensures
        forwarded(*reply, target_addr@, r),
{
    match reply {
        DirectReply::DispatchAck { accepted } => {
            if *accepted {
                Ok(())
            } else {
                let mut m = "worker ".to_owned();
                m.append(target_addr);
                m.append(" rejected task dispatch");
                Err(ActantError::Network(m))
            }
        },
        DirectReply::Failed(e) => {
            let mut m = "forward to node ".to_owned();
            m.append(target_addr);
            m.append(" failed: ");
            m.append(e.as_str());
            Err(ActantError::Network(m))
        },
        _ => {
            let mut m = "unexpected response from worker ".to_owned();
            m.append(target_addr);
            Err(ActantError::Network(m))
        },
    }
}

/// What to do with the end of a task.
#[derive(Debug)]
pub enum Delivery {
    /// Publish it on this node.
    Publish(TaskCompletion),
    /// Send it to the node that the task came from, at this address.
    Send { address: String, request: DirectRequest },
}

/// Where results of a task go: to the address that came with it, or else to the node's name.
pub open spec fn origin_address(t: TaskView) -> Seq<char>
    recommends
        t.origin_node is Some,
{
    match t.origin_endpoint_addr {
        Some(a) => a,
        None => t.origin_node->0,
    }
}

/// Where a task is sent: to the address that came with it, or else to the node's name.
pub open spec fn target_address(t: TaskView) -> Seq<char>
    recommends
        t.target_node is Some,
{
    match t.target_endpoint_addr {
        Some(a) => a,
        None => t.target_node->0,
    }
}

/// The task came from another node.
pub open spec fn is_remote(t: TaskView, node: Seq<char>) -> bool {
    t.origin_node is Some && t.origin_node->0 != node
}

/// What is done with the end of a task.
pub open spec fn delivered(
    t: TaskView,
    node: NodeId,
    c: TaskCompletion,
    d: Delivery,
) -> bool {
    if is_remote(t, node@) {
        match d {
            Delivery::Send { address, request } => {
                &&& address@ == origin_address(t)
                &&& request matches DirectRequest::TaskResult { task, outcome, worker_node }
                &&& task@ == (TaskRefView {
                    workflow_id: ref_of(t).workflow_id,
                    target_node: None,
                    ..c@.task
                })
                &&& outcome@ == c@.outcome
                &&& worker_node == node
            },
            _ => false,
        }
    } else {
        d == Delivery::Publish(c)
    }
}

/// What to do with the end of a task on `node_id`: it goes back to the node that the task
/// came from, or is published here.
pub fn publish_task_completion(
    completion: TaskCompletion,
    task: &TaskDefinition,
    node_id: &NodeId,
) -> (d: Delivery)
    ensures
        delivered(task@, *node_id, completion, d),
{
    match &task.origin_node {
        Some(origin) => {
            if same_text(origin.0.as_str(), node_id.0.as_str()) {
                Delivery::Publish(completion)
            } else {
                let address = match &task.origin_endpoint_addr {
                    Some(a) => a.clone(),
                    None => origin.0.clone(),
                };
                let sender = task_ref(task);
                Delivery::Send {
                    address,
                    request: DirectRequest::TaskResult {
                        task: TaskRef {
                            workflow_id: sender.workflow_id,
                            task_id: completion.task.task_id,
                            task_name: completion.task.task_name,
                            target_node: None,
                        },
                        outcome: completion.outcome,
                        worker_node: node_id.clone(),
                    },
                }
            }
        },
        None => Delivery::Publish(completion),
    }
}

/// Why a result is told to be a failure where it was not taken and there is no room to keep
/// it.
pub open spec fn no_room_error(reply: DirectReply, addr: Seq<char>) -> Seq<char> {
    match reply {
        DirectReply::TaskResultAck { accepted: false } => "result delivery to orchestrator "@ + addr
            + " rejected and retry queue full"@,
        DirectReply::Failed(e) => "delivery to "@ + addr + " failed: "@ + e@
            + " and retry queue full"@,
        _ => "unexpected response from "@ + addr + " and retry queue full"@,
    }
}

/// The failure to publish where a result was not taken and there is no room to keep it, or
/// nothing where it was taken.
pub fn undelivered_completion(reply: &DirectReply, address: &str, task: &TaskDefinition) -> (r:
    Option<TaskCompletion>)
    ensures
        match *reply {
            DirectReply::TaskResultAck { accepted: true } => r is None,
            _ => r matches Some(c) && c@ == (CompletionView {
                task: ref_of(task@),
                outcome: OutcomeView::Failed(no_room_error(*reply, address@)),
            }),
        },
{
    let mut error = String::new();
    match reply {
        DirectReply::TaskResultAck { accepted } => {
            if *accepted {
                return None;
            }
            error = "result delivery to orchestrator ".to_owned();
            error.append(address);
            error.append(" rejected and retry queue full");
        },
        DirectReply::Failed(e) => {
            error = "delivery to ".to_owned();
            error.append(address);
            error.append(" failed: ");
            error.append(e.as_str());
            error.append(" and retry queue full");
        },
        _ => {
            error = "unexpected response from ".to_owned();
            error.append(address);
            error.append(" and retry queue full");
        },
    }
    Some(TaskCompletion { task: task_ref(task), outcome: WireTaskOutcome::Failed(error) })
}

/// What is done with the answer to a result: nothing where it was taken; else it is kept for
/// another attempt where there is room, and told to be a failure where there is none.
pub open spec fn delivery_settled(
    before: Seq<PendingResult>,
    after: Seq<PendingResult>,
    capacity: usize,
    reply: DirectReply,
    address: String,
    request: DirectRequest,
    t: TaskView,
    failed: Option<TaskCompletion>,
) -> bool {
    if reply == (DirectReply::TaskResultAck { accepted: true }) {
        after == before && failed is None
    } else if before.len() < capacity {
        &&& after == before.push(PendingResult { target: address, request, attempts: 0 })
        &&& failed is None
    } else {
        &&& after == before
        &&& failed matches Some(c)
        &&& c@ == (CompletionView {
            task: ref_of(t),
            outcome: OutcomeView::Failed(no_room_error(reply, address@)),
        })
    }
}

/// Takes in the answer to a result that was sent back. Returns the failure to publish.
pub fn settle_delivery(
    pending: &mut PendingQueue,
    reply: &DirectReply,
    address: String,
    request: DirectRequest,
    task: &TaskDefinition,
) -> (failed: Option<TaskCompletion>)
    ensures
        final(pending).capacity == old(pending).capacity,
        delivery_settled(
            old(pending).entries@,
            final(pending).entries@,
            old(pending).capacity,
            *reply,
            address,
            request,
            task@,
            failed,
        ),
{
    let failed = undelivered_completion(reply, address.as_str(), task);
    if failed.is_none() {
        return None;
    }
    match pending.try_enqueue_pending_result(PendingResult { target: address, request, attempts: 0 })
    {
        Ok(()) => None,
        Err(_) => failed,
    }
}

/// The node can be given tasks: it has free slots and was heard of within `ttl`.
pub open spec fn eligible(p: PeerView, now_ms: u64, ttl: u64) -> bool {
    &&& p.available_slots > 0
    &&& p.max_slots > 0
    &&& p.last_heartbeat_ms > 0
    &&& now_ms - p.last_heartbeat_ms <= ttl
}

/// The first node is to be preferred: more free slots, then more slots, then the lesser name.
pub open spec fn preferred(a: Seq<char>, p: PeerView, b: Seq<char>, q: PeerView) -> bool {
    ||| p.available_slots > q.available_slots
    ||| p.available_slots == q.available_slots && p.max_slots > q.max_slots
    ||| p.available_slots == q.available_slots && p.max_slots == q.max_slots && text::text_lt(a, b)
}

/// No node that can be given tasks is to be preferred to the one at `i`.
pub open spec fn best(peers: Seq<(NodeId, PeerInfo)>, i: int, now_ms: u64, ttl: u64) -> bool {
    &&& 0 <= i < peers.len()
    &&& eligible(peers[i].1@, now_ms, ttl)
    &&& forall|j: int|
        0 <= j < peers.len() && eligible(#[trigger] peers[j].1@, now_ms, ttl) ==> !preferred(
            peers[j].0@,
            peers[j].1@,
            peers[i].0@,
            peers[i].1@,
        )
}

fn is_eligible(p: &PeerInfo, now_ms: u64, ttl: u64) -> (b: bool)
    ensures
        b == eligible(p@, now_ms, ttl),
{
    p.available_slots > 0 && p.max_slots > 0 && p.last_heartbeat_ms > 0 && (now_ms
        <= p.last_heartbeat_ms || now_ms - p.last_heartbeat_ms <= ttl)
}

fn is_preferred(a: &NodeId, p: &PeerInfo, b: &NodeId, q: &PeerInfo) -> (r: bool)
    ensures
        r == preferred(a@, p@, b@, q@),
{
    if p.available_slots != q.available_slots {
        p.available_slots > q.available_slots
    } else if p.max_slots != q.max_slots {
        p.max_slots > q.max_slots
    } else {
        text_before(&a.0, &b.0)
    }
}

proof fn lemma_preferred(a: Seq<char>, p: PeerView, b: Seq<char>, q: PeerView, c: Seq<char>, r: PeerView)
    ensures
        !preferred(a, p, a, p),
        preferred(a, p, b, q) && preferred(b, q, c, r) ==> preferred(a, p, c, r),
{
    text::lemma_text_irreflexive(a);
    if text::text_lt(a, b) && text::text_lt(b, c) {
        text::lemma_text_transitive(a, b, c);
    }
}

/// The node that is chosen among `peers` for a task that is bound to none, and where it is
/// reached.
pub open spec fn target_chosen(
    peers: Seq<(NodeId, PeerInfo)>,
    local_available: u32,
    now_ms: u64,
    ttl: u64,
    r: Option<(NodeId, String)>,
) -> bool {
    match r {
        Some(p) => exists|i: int|
            {
                &&& #[trigger] best(peers, i, now_ms, ttl)
                &&& peers[i].1@.available_slots > local_available
                &&& p.0@ == peers[i].0@
                &&& p.1@ == match peers[i].1@.endpoint_addr {
                    Some(a) => a,
                    None => peers[i].0@,
                }
            },
        None => forall|i: int|
            0 <= i < peers.len() && eligible(#[trigger] peers[i].1@, now_ms, ttl)
                ==> peers[i].1@.available_slots <= local_available,
    }
}

/// The node to give a task to that is bound to none, and where it is reached: the best one,
/// where it has more free slots than this node.
pub fn select_remote_target(
    peers: &Vec<(NodeId, PeerInfo)>,
    local_available: u32,
    now_ms: u64,
    heartbeat_ttl_ms: u64,
) -> (r: Option<(NodeId, String)>)
    ensures
        target_chosen(peers@, local_available, now_ms, heartbeat_ttl_ms, r),
{
    let ttl: u64 = heartbeat_ttl_ms;
    let mut chosen: Option<usize> = None;
    let mut i: usize = 0;
    while i < peers.len()
        invariant
            i <= peers@.len(),
            match chosen {
                None => forall|j: int|
                    0 <= j < i ==> !eligible(#[trigger] peers@[j].1@, now_ms, ttl),
                Some(b) => {
                    &&& b < i
                    &&& eligible(peers@[b as int].1@, now_ms, ttl)
                    &&& forall|j: int|
                        0 <= j < i && eligible(#[trigger] peers@[j].1@, now_ms, ttl) ==> !preferred(
                            peers@[j].0@,
                            peers@[j].1@,
                            peers@[b as int].0@,
                            peers@[b as int].1@,
                        )
                },
            },
        decreases peers@.len() - i,
    {
        if is_eligible(&peers[i].1, now_ms, ttl) {
            let better = match chosen {
                None => true,
                Some(b) => is_preferred(&peers[i].0, &peers[i].1, &peers[b].0, &peers[b].1),
            };
            let ghost last = chosen;
            if better {
                chosen = Some(i);
                proof {
                    assert forall|j: int|
                        0 <= j < i + 1 && eligible(
                            #[trigger] peers@[j].1@,
                            now_ms,
                            ttl,
                        ) implies !preferred(
                        peers@[j].0@,
                        peers@[j].1@,
                        peers@[i as int].0@,
                        peers@[i as int].1@,
                    ) by {
                        match last {
                            Some(b) => {
                                lemma_preferred(
                                    peers@[j].0@,
                                    peers@[j].1@,
                                    peers@[i as int].0@,
                                    peers@[i as int].1@,
                                    peers@[b as int].0@,
                                    peers@[b as int].1@,
                                );
                            },
                            None => {
                                lemma_preferred(
                                    peers@[i as int].0@,
                                    peers@[i as int].1@,
                                    peers@[i as int].0@,
                                    peers@[i as int].1@,
                                    peers@[i as int].0@,
                                    peers@[i as int].1@,
                                );
                            },
                        }
                    }
                }
            }
        }
        i += 1;
    }
    match chosen {
        None => None,
        Some(b) => {
            let info = &peers[b].1;
            if info.available_slots <= local_available {
                return None;
            }
            let addr = match &info.endpoint_addr {
                Some(a) => a.clone(),
                None => peers[b].0.0.clone(),
            };
            assert(best(peers@, b as int, now_ms, ttl));
            Some((peers[b].0.clone(), addr))
        },
    }
}

/// What to do with a task that was taken from the queue.
#[derive(Debug)]
pub enum TaskStep {
    /// It was cancelled meanwhile: tell its end.
    Skip(TaskCompletion),
    /// Another node is to run it.
    Forward { task: TaskDefinition, address: String },
    /// No node can run it yet: queue it again, after a pause.
    Requeue(TaskDefinition),
    /// Run it.
    Run(TaskDefinition),
}

/// The task, bound to the chosen node where it was bound to none.
pub open spec fn aimed(t: TaskView, choice: Option<(Seq<char>, Seq<char>)>) -> TaskView {
    match choice {
        Some(c) => if t.target_node is None {
            TaskView { target_node: Some(c.0), target_endpoint_addr: Some(c.1), ..t }
        } else {
            t
        },
        None => t,
    }
}

/// The texts of a choice.
pub open spec fn choice_text(choice: Option<(NodeId, String)>) -> Option<(Seq<char>, Seq<char>)> {
    match choice {
        Some(c) => Some((c.0@, c.1@)),
        None => None,
    }
}

/// What is done with a task that was taken from the queue of `node`, which has `slots`.
pub open spec fn placed(
    node: Seq<char>,
    slots: nat,
    cancelled: Map<Seq<char>, u64>,
    t: TaskView,
    s: TaskStep,
) -> bool {
    match s {
        TaskStep::Skip(c) => cancelled.contains_key(t.id) && c@ == (CompletionView {
            task: ref_of(t),
            outcome: OutcomeView::Cancelled,
        }),
        TaskStep::Forward { task, address } => {
            &&& !cancelled.contains_key(t.id)
            &&& t.target_node is Some
            &&& t.target_node->0 != node
            &&& task@ == t
            &&& address@ == target_address(t)
        },
        TaskStep::Requeue(task) => {
            &&& !cancelled.contains_key(t.id)
            &&& t.target_node is None
            &&& slots == 0
            &&& task@ == t
        },
        TaskStep::Run(task) => {
            &&& !cancelled.contains_key(t.id)
            &&& t.target_node is None || t.target_node->0 == node
            &&& t.target_node is None ==> slots > 0
            &&& task@ == t
        },
    }
}

/// What the loop that runs tasks has come upon.
#[allow(inconsistent_fields)]
#[derive(Debug)]
pub enum LoopEvent {
    /// The worker was told to end.
    Cancelled,
    /// The tasks that ran have ended, or were waited for long enough.
    Waited,
    /// The queue gave a task, or nothing; a node may have been chosen for it.
    Taken { task: Option<TaskDefinition>, choice: Option<(NodeId, String)> },
    /// The node at this address answered to a task that was forwarded to it.
    Answered { task: TaskDefinition, address: String, reply: DirectReply },
}

/// What the loop that runs tasks does next.
#[derive(Debug)]
pub enum LoopAction {
    /// Take the next task.
    Next,
    /// Wait until no task runs, for some time at most.
    Await,
    /// End, and tell that the worker has drained.
    End,
    /// Do this with the task that was taken.
    Place(TaskStep),
}

/// What the loop does upon an event.
pub open spec fn loop_stepped(
    node: Seq<char>,
    slots: nat,
    cancelled: Map<Seq<char>, u64>,
    event: LoopEvent,
    a: LoopAction,
) -> bool {
    match event {
        LoopEvent::Cancelled => a is Await,
        LoopEvent::Waited => a is End,
        LoopEvent::Taken { task: None, .. } => a is Next,
        LoopEvent::Taken { task: Some(t), choice } => a matches LoopAction::Place(s) && placed(
            node,
            slots,
            cancelled,
            aimed(t@, choice_text(choice)),
            s,
        ),
        LoopEvent::Answered { task, reply, .. } => if reply == (DirectReply::DispatchAck {
            accepted: true,
        }) {
            a is Next
        } else {
            &&& a matches LoopAction::Place(TaskStep::Requeue(t))
            &&& t@ == (TaskView { target_node: None, ..task@ })
        },
    }
}

/// How the worker stands after an event.
pub open spec fn state_after(state: WorkerState, event: LoopEvent) -> WorkerState {
    match event {
        LoopEvent::Cancelled => WorkerState::Draining,
        LoopEvent::Waited => WorkerState::Stopped,
        _ => state,
    }
}

/// The cancellations that are still to be acted upon after an event.
pub open spec fn cancelled_after(cancelled: Map<Seq<char>, u64>, event: LoopEvent) -> Map<
    Seq<char>,
    u64,
> {
    match event {
        LoopEvent::Taken { task: Some(t), .. } => cancelled.remove(t@.id),
        _ => cancelled,
    }
}

/// A node's worker.
#[derive(Debug)]
pub struct Worker {
    pub node_id: NodeId,
    pub max_concurrent_tasks: usize,
    /// The slots that no task occupies.
    pub available_permits: usize,
    pub task_timeout_ms: u64,
    pub state: WorkerState,
    /// The tasks that run, each with whether it is to stop.
    pub cancel_flags: KeyMap<bool>,
    /// Cancellations that came from other nodes, each with when it came.
    pub cancelled_tasks: KeyMap<u64>,
}

impl Worker {
    /// No more slots are free than there are.
    pub open spec fn wf(&self) -> bool {
        self.available_permits <= self.max_concurrent_tasks
    }

    /// A worker that runs nothing yet.
    pub fn new(node_id: NodeId, max_concurrent_tasks: usize, task_timeout_ms: u64) -> (w: Self)
        ensures
            w.wf(),
            w.node_id == node_id,
            w.max_concurrent_tasks == max_concurrent_tasks,
            w.available_permits == max_concurrent_tasks,
            w.task_timeout_ms == task_timeout_ms,
            w.state == WorkerState::Running,
            w.cancel_flags@ == Map::<Seq<char>, bool>::empty(),
            w.cancelled_tasks@ == Map::<Seq<char>, u64>::empty(),
    {
        Worker {
            node_id,
            max_concurrent_tasks,
            available_permits: max_concurrent_tasks,
            task_timeout_ms,
            state: WorkerState::Running,
            cancel_flags: KeyMap::new(),
            cancelled_tasks: KeyMap::new(),
        }
    }

    /// The worker with so many slots, all free.
    pub fn with_max_concurrent_tasks(self, max: usize) -> (w: Self)
        ensures
            w == (Worker { max_concurrent_tasks: max, available_permits: max, ..self }),
    {
        let mut w = self;
        w.max_concurrent_tasks = max;
        w.available_permits = max;
        w
    }

    /// The worker with another limit on how long a task may take.
    pub fn with_task_timeout(self, timeout_ms: u64) -> (w: Self)
        ensures
            w == (Worker { task_timeout_ms: timeout_ms, ..self }),
    {
        let mut w = self;
        w.task_timeout_ms = timeout_ms;
        w
    }

    /// Adds slots until there are `new_max`. Slots are never taken away. Returns how many were
    /// added.
    pub fn set_max_concurrent_tasks(&mut self, new_max: usize) -> (added: usize)
        requires
            old(self).wf(),
        ensures
            final(self).wf(),
            if new_max <= old(self).max_concurrent_tasks {
                added == 0 && *final(self) == *old(self)
            } else {
                &&& added == new_max - old(self).max_concurrent_tasks
                &&& *final(self) == (Worker {
                    max_concurrent_tasks: new_max,
                    available_permits: (old(self).available_permits + added) as usize,
                    ..*old(self)
                })
            },
    {
        if new_max <= self.max_concurrent_tasks {
            return 0;
        }
        let added: usize = new_max - self.max_concurrent_tasks;
        self.available_permits = self.available_permits + added;
        self.max_concurrent_tasks = new_max;
        added
    }

    /// The number of slots.
    pub fn max_concurrent_tasks(&self) -> (n: usize)
        ensures
            n == self.max_concurrent_tasks,
    {
        self.max_concurrent_tasks
    }

    /// The number of tasks that run.
    pub fn running_task_count(&self) -> (n: usize)
        requires
            self.wf(),
        ensures
            n == self.max_concurrent_tasks - self.available_permits,
    {
        self.max_concurrent_tasks - self.available_permits
    }

    /// The free slots and all slots, as other nodes are told of them.
    pub fn capacity(&self) -> (c: (u32, u32))
        ensures
            c.0 == self.available_permits as u32,
            c.1 == self.max_concurrent_tasks as u32,
    {
        (
            #[verifier::truncate]
            (self.available_permits as u32),
            #[verifier::truncate]
            (self.max_concurrent_tasks as u32),
        )
    }

    /// The node.
    pub fn node_id(&self) -> (n: &NodeId)
        ensures
            *n == self.node_id,
    {
        &self.node_id
    }

    /// How the worker stands.
    pub fn state(&self) -> (s: WorkerState)
        ensures
            s == self.state,
    {
        self.state
    }

    /// How long a task may take: what it asks for, or else what the worker allows.
    pub fn effective_timeout_ms(&self, task: &TaskDefinition) -> (ms: u64)
        ensures
            ms == match task@.timeout_ms {
                Some(t) => t,
                None => self.task_timeout_ms,
            },
    {
        match task.timeout_ms {
            Some(t) => t,
            None => self.task_timeout_ms,
        }
    }

    /// Tells a running task to stop. Returns whether it runs.
    pub fn cancel_task(&mut self, task_id: &String) -> (found: bool)
        ensures
            found == old(self).cancel_flags@.contains_key(task_id@),
            final(self).cancel_flags@ == (if found {
                old(self).cancel_flags@.insert(task_id@, true)
            } else {
                old(self).cancel_flags@
            }),
            final(self).node_id == old(self).node_id,
            final(self).max_concurrent_tasks == old(self).max_concurrent_tasks,
            final(self).available_permits == old(self).available_permits,
            final(self).task_timeout_ms == old(self).task_timeout_ms,
            final(self).state == old(self).state,
            final(self).cancelled_tasks == old(self).cancelled_tasks,
    {
        if self.cancel_flags.contains_key(task_id) {
            self.cancel_flags.insert(task_id.clone(), true);
            true
        } else {
            false
        }
    }

    /// Takes in that another node cancels a task, at time `now`. A task that runs is told to
    /// stop; one that is still to come will not be run. Returns whether the cancellation is
    /// news.
    pub fn note_remote_cancel(&mut self, task_id: &String, now: u64) -> (is_new: bool)
        ensures
            is_new == !old(self).cancelled_tasks@.contains_key(task_id@),
            final(self).cancelled_tasks@ == old(self).cancelled_tasks@.insert(task_id@, now),
            final(self).cancel_flags@ == (if old(self).cancel_flags@.contains_key(task_id@) {
                old(self).cancel_flags@.insert(task_id@, true)
            } else {
                old(self).cancel_flags@
            }),
            final(self).node_id == old(self).node_id,
            final(self).max_concurrent_tasks == old(self).max_concurrent_tasks,
            final(self).available_permits == old(self).available_permits,
            final(self).task_timeout_ms == old(self).task_timeout_ms,
            final(self).state == old(self).state,
    {
        self.cancel_task(task_id);
        self.cancelled_tasks.insert(task_id.clone(), now).is_none()
    }

    /// What to do with a task that was taken from the queue. A task that is bound to no node
    /// goes to the chosen one, where one was chosen.
    pub fn place(&mut self, task: TaskDefinition, choice: Option<(NodeId, String)>) -> (s: TaskStep)
        ensures
            ({
                let t = aimed(task@, choice_text(choice));
                &&& placed(
                    old(self).node_id@,
                    old(self).max_concurrent_tasks as nat,
                    old(self).cancelled_tasks@,
                    t,
                    s,
                )
                &&& final(self).cancelled_tasks@ == old(self).cancelled_tasks@.remove(t.id)
                &&& final(self).cancel_flags == old(self).cancel_flags
                &&& final(self).node_id == old(self).node_id
                &&& final(self).max_concurrent_tasks == old(self).max_concurrent_tasks
                &&& final(self).available_permits == old(self).available_permits
                &&& final(self).task_timeout_ms == old(self).task_timeout_ms
                &&& final(self).state == old(self).state
            }),
    {
        let ghost t = aimed(task@, choice_text(choice));
        let mut task = task;
        if task.target_node.is_none() {
            if let Some((node, address)) = choice {
                task.target_node = Some(node);
                task.target_endpoint_addr = Some(address);
            }
        }
        assert(task@ =~= t);
        if self.cancelled_tasks.contains_key(&task.id.0) {
            self.cancelled_tasks.remove(&task.id.0);
            return TaskStep::Skip(
                TaskCompletion { task: task_ref(&task), outcome: WireTaskOutcome::Cancelled },
            );
        }
        assert(self.cancelled_tasks@ =~= self.cancelled_tasks@.remove(t.id));
        place_task(task, &self.node_id, self.max_concurrent_tasks)
    }

    /// Takes the next step of the loop that runs tasks.
    pub fn run_task_execution_loop(&mut self, event: LoopEvent) -> (a: LoopAction)
        ensures
            loop_stepped(
                old(self).node_id@,
                old(self).max_concurrent_tasks as nat,
                old(self).cancelled_tasks@,
                event,
                a,
            ),
            final(self).state == state_after(old(self).state, event),
            final(self).cancelled_tasks@ == cancelled_after(old(self).cancelled_tasks@, event),
            final(self).cancel_flags == old(self).cancel_flags,
            final(self).node_id == old(self).node_id,
            final(self).max_concurrent_tasks == old(self).max_concurrent_tasks,
            final(self).available_permits == old(self).available_permits,
            final(self).task_timeout_ms == old(self).task_timeout_ms,
    {
        match event {
            LoopEvent::Cancelled => {
                self.state = WorkerState::Draining;
                LoopAction::Await
            },
            LoopEvent::Waited => {
                self.state = WorkerState::Stopped;
                LoopAction::End
            },
            LoopEvent::Taken { task, choice } => match task {
                Some(t) => LoopAction::Place(self.place(t, choice)),
                None => LoopAction::Next,
            },
            LoopEvent::Answered { task, address, reply } => match forward_remote_task(
                &reply,
                address.as_str(),
            ) {
                Ok(()) => LoopAction::Next,
                Err(_) => LoopAction::Place(TaskStep::Requeue(unbound(task))),
            },
        }
    }

    /// Begins a turn of the loop that runs tasks: a worker that drains drops what is queued and
    /// stops. Returns whether it has.
    pub fn begin_turn(&mut self, queue: &mut InnerScheduler) -> (stopped: bool)
        requires
            old(queue).sound(),
        ensures
            stopped == (old(self).state == WorkerState::Draining),
            final(queue).sound(),
            if stopped {
                &&& *final(self) == (Worker { state: WorkerState::Stopped, ..*old(self) })
                &&& final(queue).closed
                &&& final(queue).ranked == old(queue).ranked
                &&& final(queue).queued().len() == 0
            } else {
                *final(self) == *old(self) && *final(queue) == *old(queue)
            },
    {
        if self.state == WorkerState::Draining {
            self.stop(queue);
            true
        } else {
            false
        }
    }

    /// Gives a task a slot. It can be told to stop from now on.
    pub fn begin_task(&mut self, task_id: &TaskId)
        requires
            old(self).wf(),
            old(self).available_permits > 0,
        ensures
            final(self).wf(),
            final(self).available_permits == old(self).available_permits - 1,
            final(self).cancel_flags@ == old(self).cancel_flags@.insert(task_id@, false),
            final(self).cancelled_tasks == old(self).cancelled_tasks,
            final(self).node_id == old(self).node_id,
            final(self).max_concurrent_tasks == old(self).max_concurrent_tasks,
            final(self).task_timeout_ms == old(self).task_timeout_ms,
            final(self).state == old(self).state,
    {
        self.available_permits = self.available_permits - 1;
        self.cancel_flags.insert(task_id.0.clone(), false);
    }

    /// Frees the slot of a task that has ended, and forgets what was kept about stopping it.
    pub fn finish_task(&mut self, task_id: &TaskId)
        requires
            old(self).wf(),
            old(self).available_permits < old(self).max_concurrent_tasks,
        ensures
            final(self).wf(),
            final(self).available_permits == old(self).available_permits + 1,
            final(self).cancel_flags@ == old(self).cancel_flags@.remove(task_id@),
            final(self).cancelled_tasks@ == old(self).cancelled_tasks@.remove(task_id@),
            final(self).node_id == old(self).node_id,
            final(self).max_concurrent_tasks == old(self).max_concurrent_tasks,
            final(self).task_timeout_ms == old(self).task_timeout_ms,
            final(self).state == old(self).state,
    {
        self.available_permits = self.available_permits + 1;
        self.cancel_flags.remove(&task_id.0);
        self.cancelled_tasks.remove(&task_id.0);
    }

    /// Stops taking tasks: nothing more is queued, and what runs is left to end.
    pub fn drain(&mut self, queue: &mut InnerScheduler)
        requires
            old(queue).sound(),
        ensures
            *final(self) == (Worker { state: WorkerState::Draining, ..*old(self) }),
            final(queue).sound(),
            final(queue).closed,
            final(queue).ranked == old(queue).ranked,
            final(queue).queued() == old(queue).queued(),
    {
        self.state = WorkerState::Draining;
        queue.close();
    }

    /// Tells the worker to end; what runs is left to end.
    pub fn shutdown(&mut self)
        ensures
            *final(self) == (Worker { state: WorkerState::Draining, ..*old(self) }),
    {
        self.state = WorkerState::Draining;
    }

    /// Ends a worker that drains: what is still queued is dropped.
    pub fn stop(&mut self, queue: &mut InnerScheduler)
        requires
            old(queue).sound(),
        ensures
            *final(self) == (Worker { state: WorkerState::Stopped, ..*old(self) }),
            final(queue).sound(),
            final(queue).closed,
            final(queue).ranked == old(queue).ranked,
            final(queue).queued().len() == 0,
    {
        close_and_empty(queue);
        self.state = WorkerState::Stopped;
    }

    /// Tells that the worker has stopped.
    pub fn notify_stopped(&mut self)
        ensures
            *final(self) == (Worker { state: WorkerState::Stopped, ..*old(self) }),
    {
        self.state = WorkerState::Stopped;
    }
}

/// Closes a queue and drops what it holds.
pub(crate) fn close_and_empty(queue: &mut InnerScheduler)
    requires
        old(queue).sound(),
    ensures
        final(queue).sound(),
        final(queue).closed,
        final(queue).ranked == old(queue).ranked,
        final(queue).queued().len() == 0,
{
    queue.close();
    while !queue.is_empty()
        invariant
            queue.sound(),
            queue.closed,
            queue.ranked == old(queue).ranked,
        decreases queue.queued().len(),
    {
        let _dropped = queue.try_dequeue();
    }
}

/// What to do with a task that nobody has cancelled, on a node with so many slots.
pub(crate) fn place_task(task: TaskDefinition, node_id: &NodeId, slots: usize) -> (s: TaskStep)
    ensures
        placed(node_id@, slots as nat, Map::empty(), task@, s),
        !(s is Skip),
{
    let mut forward_to: Option<String> = None;
    if let Some(target) = &task.target_node {
        if !same_text(target.0.as_str(), node_id.0.as_str()) {
            forward_to = Some(
                match &task.target_endpoint_addr {
                    Some(a) => a.clone(),
                    None => target.0.clone(),
                },
            );
        }
    }
    match forward_to {
        Some(address) => TaskStep::Forward { task, address },
        None => {
            if slots == 0 && task.target_node.is_none() {
                TaskStep::Requeue(task)
            } else {
                TaskStep::Run(task)
            }
        },
    }
}

/// A task that could not be forwarded, bound to no node again.
pub fn unbound(task: TaskDefinition) -> (t: TaskDefinition)
    ensures
        t@ == (TaskView { target_node: None, ..task@ }),
{
    let mut t = task;
    t.target_node = None;
    assert(t@ =~= (TaskView { target_node: None, ..task@ }));
    t
}

/// Queues a task for a node at time `now`.
pub fn schedule_task(
    queue: &mut InnerScheduler,
    task: TaskDefinition,
    target_node: NodeId,
    now: u64,
) -> (r: Result<(), ActantError>)
    requires
        old(queue).sound(),
    ensures
        final(queue).sound(),
        final(queue).closed == old(queue).closed,
        final(queue).ranked == old(queue).ranked,
        match r {
            Ok(()) => !old(queue).closed && final(queue).queued() == scheduler::joined(
                old(queue).queued(),
                old(queue).ranked,
                scheduler::stamped(
                    TaskView { target_node: Some(target_node@), ..task@ },
                    now,
                ),
            ),
            Err(e) => old(queue).closed && scheduler::closed_error(e) && final(queue).queued()
                == old(queue).queued(),
        },
{
    let ghost v = TaskView { target_node: Some(target_node@), ..task@ };
    let mut task = task;
    task.target_node = Some(target_node);
    assert(task@ =~= v);
    queue.enqueue_at(task, now)
}

/// A task that another node has cancelled is not run: whatever is chosen for it, it is
/// skipped when its turn comes.
pub proof fn law_cancelled_task_is_not_run(
    node: Seq<char>,
    slots: nat,
    cancelled: Map<Seq<char>, u64>,
    t: TaskView,
    choice: Option<(Seq<char>, Seq<char>)>,
    now: u64,
    s: TaskStep,
)
    requires
        placed(node, slots, cancelled.insert(t.id, now), aimed(t, choice), s),
    ensures
        s is Skip,
{
}

/// A cancellation counts once: after its task was skipped, the same task is not skipped again.
pub proof fn law_cancellation_counts_once(
    node: Seq<char>,
    slots: nat,
    cancelled: Map<Seq<char>, u64>,
    task: TaskDefinition,
    choice: Option<(NodeId, String)>,
    s: TaskStep,
)
    requires
        placed(
            node,
            slots,
            cancelled_after(cancelled, LoopEvent::Taken { task: Some(task), choice }),
            aimed(task@, choice_text(choice)),
            s,
        ),
    ensures
        !(s is Skip),
{
}

/// The node that is chosen is determined: two nodes that nothing is to be preferred to have
/// the same name, slots and free slots.
pub proof fn law_best_is_determined(
    peers: Seq<(NodeId, PeerInfo)>,
    i: int,
    j: int,
    now_ms: u64,
    ttl: u64,
)
    requires
        best(peers, i, now_ms, ttl),
        best(peers, j, now_ms, ttl),
    ensures
        peers[i].0@ == peers[j].0@,
        peers[i].1@.available_slots == peers[j].1@.available_slots,
        peers[i].1@.max_slots == peers[j].1@.max_slots,
{
    text::lemma_text_total(peers[i].0@, peers[j].0@);
}

/// A node that failover takes for failed is never chosen.
pub proof fn law_failed_node_is_not_chosen(p: PeerView, now_ms: u64, timeout: u64)
    requires
        failover::silent(p, now_ms, timeout),
    ensures
        !eligible(p, now_ms, timeout),
{
}

} // verus!
