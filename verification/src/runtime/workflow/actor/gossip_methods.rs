//! The methods of the gossip actor.
use vstd::prelude::*;
use vstd::string::*;

use crate::common::ActantError;
use crate::text::same_text;

verus! {

pub const BROADCAST_STATE_UPDATE: &'static str = "broadcast_state_update";

pub const BROADCAST_TASK_RUNNING: &'static str = "broadcast_task_running";

pub const APPLY_REMOTE_UPDATE: &'static str = "apply_remote_update";

pub const BROADCAST_HEADS: &'static str = "broadcast_heads";

pub const HANDLE_HEADS_EXCHANGE: &'static str = "handle_heads_exchange";

pub const REQUEST_WORKFLOW_STATE: &'static str = "request_workflow_state";

pub const HANDLE_WORKFLOW_STATE_REQUEST: &'static str = "handle_workflow_state_request";

pub const HANDLE_WORKFLOW_STATE_RESPONSE: &'static str = "handle_workflow_state_response";

/// The methods of the gossip actor.
#[derive(Debug, Clone, Copy, PartialEq, Eq, Structural)]
pub enum GossipMethod {
    BroadcastStateUpdate,
    BroadcastTaskRunning,
    ApplyRemoteUpdate,
    BroadcastHeads,
    HandleHeadsExchange,
    RequestWorkflowState,
    HandleWorkflowStateRequest,
    HandleWorkflowStateResponse,
}

/// The name of a method.
pub open spec fn name_of(m: GossipMethod) -> Seq<char> {
    match m {
        GossipMethod::BroadcastStateUpdate => BROADCAST_STATE_UPDATE@,
        GossipMethod::BroadcastTaskRunning => BROADCAST_TASK_RUNNING@,
        GossipMethod::ApplyRemoteUpdate => APPLY_REMOTE_UPDATE@,
        GossipMethod::BroadcastHeads => BROADCAST_HEADS@,
        GossipMethod::HandleHeadsExchange => HANDLE_HEADS_EXCHANGE@,
        GossipMethod::RequestWorkflowState => REQUEST_WORKFLOW_STATE@,
        GossipMethod::HandleWorkflowStateRequest => HANDLE_WORKFLOW_STATE_REQUEST@,
        GossipMethod::HandleWorkflowStateResponse => HANDLE_WORKFLOW_STATE_RESPONSE@,
    }
}

/// The message for a method that there is not.
pub open spec fn unknown_method(name: Seq<char>) -> Seq<char> {
    "DagGossipActor: unknown method "@ + name
}

/// No two methods have the same name.
pub proof fn law_names_distinct(a: GossipMethod, b: GossipMethod)
    requires
        name_of(a) == name_of(b),
    ensures
        a == b,
{
    reveal_strlit("broadcast_state_update");
    reveal_strlit("broadcast_task_running");
    reveal_strlit("apply_remote_update");
    reveal_strlit("broadcast_heads");
    reveal_strlit("handle_heads_exchange");
    reveal_strlit("request_workflow_state");
    reveal_strlit("handle_workflow_state_request");
    reveal_strlit("handle_workflow_state_response");
    let (x, y) = (name_of(a), name_of(b));
    assert(x.len() == y.len());
    assert(BROADCAST_STATE_UPDATE@[10] != BROADCAST_TASK_RUNNING@[10]);
    assert(BROADCAST_STATE_UPDATE@[0] != REQUEST_WORKFLOW_STATE@[0]);
    assert(BROADCAST_TASK_RUNNING@[0] != REQUEST_WORKFLOW_STATE@[0]);
}

impl GossipMethod {
    /// The method with the given name.
    pub fn parse(name: &str) -> (r: Result<Self, ActantError>)
        ensures
            match r {
                Ok(m) => name_of(m) == name@,
                Err(e) => {
                    &&& forall|m: GossipMethod| #[trigger] name_of(m) != name@
                    &&& e matches ActantError::Actor(t)
                    &&& t@ == unknown_method(name@)
                },
            },
    {
        if same_text(name, BROADCAST_STATE_UPDATE) {
            return Ok(GossipMethod::BroadcastStateUpdate);
        }
        if same_text(name, BROADCAST_TASK_RUNNING) {
            return Ok(GossipMethod::BroadcastTaskRunning);
        }
        if same_text(name, APPLY_REMOTE_UPDATE) {
            return Ok(GossipMethod::ApplyRemoteUpdate);
        }
        if same_text(name, BROADCAST_HEADS) {
            return Ok(GossipMethod::BroadcastHeads);
        }
        if same_text(name, HANDLE_HEADS_EXCHANGE) {
            return Ok(GossipMethod::HandleHeadsExchange);
        }
        if same_text(name, REQUEST_WORKFLOW_STATE) {
            return Ok(GossipMethod::RequestWorkflowState);
        }
        if same_text(name, HANDLE_WORKFLOW_STATE_REQUEST) {
            return Ok(GossipMethod::HandleWorkflowStateRequest);
        }
        if same_text(name, HANDLE_WORKFLOW_STATE_RESPONSE) {
            return Ok(GossipMethod::HandleWorkflowStateResponse);
        }
        let mut t = "DagGossipActor: unknown method ".to_owned();
        t.append(name);
        Err(ActantError::Actor(t))
    }
}

} // verus!
