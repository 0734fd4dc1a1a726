//! What holds of a worker that runs the tasks of workflows only.
use vstd::arithmetic::power2::{lemma_pow2_unfold, pow2};
use vstd::prelude::*;

use crate::runtime::workflow::runtime::result_delivery::PendingResult;
use crate::runtime::workflow::runtime::{DirectReply, LoopAction, LoopEvent, TaskStep};
use crate::runtime::workflow::task::TaskDefinition;
use crate::runtime::workflow::wire::{TopicRoute, WireMessage};
use crate::worker::router;
use crate::worker::runtime;

verus! {

/// The wait doubles with every attempt, as long as that fits 32 bits.
pub proof fn law_wait_doubles(n: nat)
    ensures
        pow2(n) <= u32::MAX ==> runtime::doubled(n) == pow2(n),
        pow2(n) > u32::MAX ==> runtime::doubled(n) == u32::MAX,
    decreases n,
{
    if n == 0 {
        vstd::arithmetic::power2::lemma2_to64();
    } else {
        law_wait_doubles((n - 1) as nat);
        lemma_pow2_unfold(n);
        vstd::arithmetic::power2::lemma2_to64();
        if pow2((n - 1) as nat) > u32::MAX {
            assert(runtime::doubled((n - 1) as nat) == u32::MAX);
        }
    }
}

/// A result that was taken is done with; one that was not is kept where there is room, behind
/// what is kept already, and dropped where there is none.
pub proof fn law_untaken_result_is_kept(
    before: Seq<PendingResult>,
    after: Seq<PendingResult>,
    capacity: usize,
    reply: DirectReply,
    next: PendingResult,
)
    requires
        runtime::answer_settled(before, after, capacity, reply, next),
    ensures
        ({
            let taken = reply matches DirectReply::TaskResultAck { accepted } && accepted;
            &&& taken || before.len() >= capacity ==> after == before
            &&& !taken && before.len() < capacity ==> after.len() == before.len() + 1
                && after.last() == next
            &&& forall|i: int| 0 <= i < before.len() ==> after[i] == before[i]
        }),
{
}

/// A task goes where it is bound to: to its node's address where that is another node, and else
/// it runs here, unchanged. One that is bound to none runs here where there are slots at all.
pub proof fn law_bound_task_goes_to_its_node(
    node: Seq<char>,
    slots: nat,
    task: TaskDefinition,
    a: LoopAction,
)
    requires
        runtime::run_stepped(
            node,
            slots,
            LoopEvent::Taken { task: Some(task), choice: None },
            a,
        ),
    ensures
        ({
            let t = task@;
            let away = t.target_node is Some && t.target_node->0 != node;
            &&& a matches LoopAction::Place(s)
            &&& s is Forward <==> away
            &&& s is Requeue <==> t.target_node is None && slots == 0
            &&& s is Run <==> !away && (t.target_node is Some || slots > 0)
            &&& !(s is Skip)
            &&& s matches TaskStep::Forward { task: sent, address } ==> sent@ == t && (
            t.target_endpoint_addr is Some ==> address@ == t.target_endpoint_addr->0) && (
            t.target_endpoint_addr is None ==> address@ == t.target_node->0)
            &&& s matches TaskStep::Run(x) ==> x@ == t
            &&& s matches TaskStep::Requeue(x) ==> x@ == t
        }),
{
}

/// A message is taken as what it is: a task under the topic of tasks is queued, a request to an
/// actor is served and an answer of one handed on where there are actors, and the news of the
/// other nodes is published unchanged. Nothing is made of a message that its topic is not about.
pub proof fn law_message_is_taken_as_it_is(
    route: TopicRoute,
    message: Option<WireMessage>,
    has_actors: bool,
)
    ensures
        ({
            let f = router::forwarding(route, message, has_actors);
            &&& f is Enqueue <==> route is Task && message is Some && message->0 is TaskDispatch
            &&& f is Enqueue ==> f->Enqueue_0 == message->0->TaskDispatch_0
            &&& f is CallActor <==> route is Actor && has_actors
            &&& f is DeliverReply <==> route is ActorReply && has_actors && message is Some
                && message->0 is RemoteActorReply
            &&& f is Publish ==> message == Some(f->Publish_0)
            &&& message is Some && route is DagState && message->0 is DagStateUpdate ==> f is Publish
            &&& message is Some && route is Heartbeat && message->0 is NodeHeartbeat ==> f
                is Publish
            &&& message is Some && route is Failover && message->0 is OrchestratorClaim ==> f
                is Publish
            &&& message is Some && route is Heads && message->0 is HeadsExchange ==> f is Publish
            &&& f is Publish ==> route is DagState || route is Heartbeat || route is Failover
                || route is Heads
        }),
{
}

} // verus!
