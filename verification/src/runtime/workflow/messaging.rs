//! Answers of actors.
use vstd::prelude::*;

use crate::common::ActantError;

verus! {

/// Identifies a message to an actor.
#[derive(Debug)]
pub struct MessageId(pub String);

/// What an actor answers a message with.
#[derive(Debug)]
pub struct ActorMessageResult {
    pub message_id: MessageId,
    pub payload: Vec<u8>,
    pub error: Option<String>,
}

/// The answer that tells only that the message was taken.
pub fn ok_result(msg_id: MessageId) -> (r: ActorMessageResult)
    ensures
        r.message_id == msg_id,
        r.payload@.len() == 0,
        r.error is None,
{
    ActorMessageResult { message_id: msg_id, payload: Vec::new(), error: None }
}

/// The answer with a payload.
pub fn payload_result(msg_id: MessageId, payload: Vec<u8>) -> (r: ActorMessageResult)
    ensures
        r.message_id == msg_id,
        r.payload == payload,
        r.error is None,
{
    ActorMessageResult { message_id: msg_id, payload, error: None }
}

/// The payload of an answer, or the actor's error.
pub fn payload_or_error(result: ActorMessageResult) -> (r: Result<Vec<u8>, ActantError>)
    ensures
        match result.error {
            Some(m) => r == Err::<Vec<u8>, ActantError>(ActantError::Actor(m)),
            None => r == Ok::<Vec<u8>, ActantError>(result.payload),
        },
{
    match result.error {
        Some(m) => Err(ActantError::Actor(m)),
        None => Ok(result.payload),
    }
}

/// That the message was taken, or the actor's error.
pub fn ok_or_error(result: ActorMessageResult) -> (r: Result<(), ActantError>)
    ensures
        match result.error {
            Some(m) => r == Err::<(), ActantError>(ActantError::Actor(m)),
            None => r is Ok,
        },
{
    match result.error {
        Some(m) => Err(ActantError::Actor(m)),
        None => Ok(()),
    }
}

} // verus!
