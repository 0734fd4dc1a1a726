//! The methods of the failover actor.
use vstd::prelude::*;
use vstd::string::*;

use crate::common::ActantError;
use crate::text::same_text;

verus! {

pub const SEND_HEARTBEAT: &'static str = "send_heartbeat";

pub const GET_PEER_INFOS: &'static str = "get_peer_infos";

pub const CLAIM_WORKFLOW: &'static str = "claim_workflow";

pub const HANDLE_CLAIM: &'static str = "handle_claim";

pub const EXPIRE_STALE_PEERS: &'static str = "expire_stale_peers";

pub const UPDATE_LOCAL_CAPACITY: &'static str = "update_local_capacity";

/// The methods of the failover actor.
#[derive(Debug, Clone, Copy, PartialEq, Eq, Structural)]
pub enum FailoverMethod {
    SendHeartbeat,
    GetPeerInfos,
    ClaimWorkflow,
    HandleClaim,
    ExpireStalePeers,
    UpdateLocalCapacity,
}

/// The name of a method.
pub open spec fn name_of(m: FailoverMethod) -> Seq<char> {
    match m {
        FailoverMethod::SendHeartbeat => SEND_HEARTBEAT@,
        FailoverMethod::GetPeerInfos => GET_PEER_INFOS@,
        FailoverMethod::ClaimWorkflow => CLAIM_WORKFLOW@,
        FailoverMethod::HandleClaim => HANDLE_CLAIM@,
        FailoverMethod::ExpireStalePeers => EXPIRE_STALE_PEERS@,
        FailoverMethod::UpdateLocalCapacity => UPDATE_LOCAL_CAPACITY@,
    }
}

/// The message for a method that there is not.
pub open spec fn unknown_method(name: Seq<char>) -> Seq<char> {
    "FailoverActor: unknown method "@ + name
}

/// No two methods have the same name.
pub proof fn law_names_distinct(a: FailoverMethod, b: FailoverMethod)
    requires
        name_of(a) == name_of(b),
    ensures
        a == b,
{
    reveal_strlit("send_heartbeat");
    reveal_strlit("get_peer_infos");
    reveal_strlit("claim_workflow");
    reveal_strlit("handle_claim");
    reveal_strlit("expire_stale_peers");
    reveal_strlit("update_local_capacity");
    let (x, y) = (name_of(a), name_of(b));
    assert(x.len() == y.len());
    assert(SEND_HEARTBEAT@[0] != GET_PEER_INFOS@[0]);
    assert(SEND_HEARTBEAT@[0] != CLAIM_WORKFLOW@[0]);
    assert(GET_PEER_INFOS@[0] != CLAIM_WORKFLOW@[0]);
}

impl FailoverMethod {
    /// The method with the given name.
    pub fn parse(name: &str) -> (r: Result<Self, ActantError>)
        ensures
            match r {
                Ok(m) => name_of(m) == name@,
                Err(e) => {
                    &&& forall|m: FailoverMethod| #[trigger] name_of(m) != name@
                    &&& e matches ActantError::Actor(t)
                    &&& t@ == unknown_method(name@)
                },
            },
    {
        if same_text(name, SEND_HEARTBEAT) {
            return Ok(FailoverMethod::SendHeartbeat);
        }
        if same_text(name, GET_PEER_INFOS) {
            return Ok(FailoverMethod::GetPeerInfos);
        }
        if same_text(name, CLAIM_WORKFLOW) {
            return Ok(FailoverMethod::ClaimWorkflow);
        }
        if same_text(name, HANDLE_CLAIM) {
            return Ok(FailoverMethod::HandleClaim);
        }
        if same_text(name, EXPIRE_STALE_PEERS) {
            return Ok(FailoverMethod::ExpireStalePeers);
        }
        if same_text(name, UPDATE_LOCAL_CAPACITY) {
            return Ok(FailoverMethod::UpdateLocalCapacity);
        }
        let mut t = "FailoverActor: unknown method ".to_owned();
        t.append(name);
        Err(ActantError::Actor(t))
    }
}

} // verus!
