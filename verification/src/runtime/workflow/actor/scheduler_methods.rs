//! The methods of the scheduler actor.
use vstd::prelude::*;
use vstd::string::*;

use crate::common::ActantError;
use crate::text::same_text;

verus! {

pub const ENQUEUE: &'static str = "enqueue";

pub const ENQUEUE_BATCH: &'static str = "enqueue_batch";

pub const DEQUEUE: &'static str = "dequeue";

pub const DEQUEUE_BATCH: &'static str = "dequeue_batch";

pub const TRY_DEQUEUE: &'static str = "try_dequeue";

pub const DRAIN_UNROUTED: &'static str = "drain_unrouted";

pub const LEN: &'static str = "len";

pub const IS_EMPTY: &'static str = "is_empty";

pub const CLOSE: &'static str = "close";

pub const IS_CLOSED: &'static str = "is_closed";

/// The methods of the scheduler actor.
#[derive(Debug, Clone, Copy, PartialEq, Eq, Structural)]
pub enum SchedulerMethod {
    Enqueue,
    EnqueueBatch,
    Dequeue,
    DequeueBatch,
    TryDequeue,
    DrainUnrouted,
    Len,
    IsEmpty,
    Close,
    IsClosed,
}

/// The name of a method.
pub open spec fn name_of(m: SchedulerMethod) -> Seq<char> {
    match m {
        SchedulerMethod::Enqueue => ENQUEUE@,
        SchedulerMethod::EnqueueBatch => ENQUEUE_BATCH@,
        SchedulerMethod::Dequeue => DEQUEUE@,
        SchedulerMethod::DequeueBatch => DEQUEUE_BATCH@,
        SchedulerMethod::TryDequeue => TRY_DEQUEUE@,
        SchedulerMethod::DrainUnrouted => DRAIN_UNROUTED@,
        SchedulerMethod::Len => LEN@,
        SchedulerMethod::IsEmpty => IS_EMPTY@,
        SchedulerMethod::Close => CLOSE@,
        SchedulerMethod::IsClosed => IS_CLOSED@,
    }
}

/// The message for a method that there is not.
pub open spec fn unknown_method(name: Seq<char>) -> Seq<char> {
    "SchedulerActor: unknown method "@ + name
}

/// No two methods have the same name.
pub proof fn law_names_distinct(a: SchedulerMethod, b: SchedulerMethod)
    requires
        name_of(a) == name_of(b),
    ensures
        a == b,
{
    reveal_strlit("enqueue");
    reveal_strlit("enqueue_batch");
    reveal_strlit("dequeue");
    reveal_strlit("dequeue_batch");
    reveal_strlit("try_dequeue");
    reveal_strlit("drain_unrouted");
    reveal_strlit("len");
    reveal_strlit("is_empty");
    reveal_strlit("close");
    reveal_strlit("is_closed");
    let (x, y) = (name_of(a), name_of(b));
    assert(x.len() == y.len());
    assert(ENQUEUE@[0] != DEQUEUE@[0]);
    assert(ENQUEUE_BATCH@[0] != DEQUEUE_BATCH@[0]);
}

impl SchedulerMethod {
    /// The method with the given name.
    pub fn parse(name: &str) -> (r: Result<Self, ActantError>)
        ensures
            match r {
                Ok(m) => name_of(m) == name@,
                Err(e) => {
                    &&& forall|m: SchedulerMethod| #[trigger] name_of(m) != name@
                    &&& e matches ActantError::Actor(t)
                    &&& t@ == unknown_method(name@)
                },
            },
    {
        if same_text(name, ENQUEUE) {
            return Ok(SchedulerMethod::Enqueue);
        }
        if same_text(name, ENQUEUE_BATCH) {
            return Ok(SchedulerMethod::EnqueueBatch);
        }
        if same_text(name, DEQUEUE) {
            return Ok(SchedulerMethod::Dequeue);
        }
        if same_text(name, DEQUEUE_BATCH) {
            return Ok(SchedulerMethod::DequeueBatch);
        }
        if same_text(name, TRY_DEQUEUE) {
            return Ok(SchedulerMethod::TryDequeue);
        }
        if same_text(name, DRAIN_UNROUTED) {
            return Ok(SchedulerMethod::DrainUnrouted);
        }
        if same_text(name, LEN) {
            return Ok(SchedulerMethod::Len);
        }
        if same_text(name, IS_EMPTY) {
            return Ok(SchedulerMethod::IsEmpty);
        }
        if same_text(name, CLOSE) {
            return Ok(SchedulerMethod::Close);
        }
        if same_text(name, IS_CLOSED) {
            return Ok(SchedulerMethod::IsClosed);
        }
        let mut t = "SchedulerActor: unknown method ".to_owned();
        t.append(name);
        Err(ActantError::Actor(t))
    }
}

} // verus!
