//! Wait points: places where a workflow stops until something happens.
use vstd::prelude::*;

use crate::common::copy_bytes;

verus! {

/// What a wait point waits for.
#[derive(Debug)]
pub enum WaitCondition {
    /// A signal from outside.
    Signal { name: String },
    /// A point in time, in milliseconds since the Unix epoch.
    Timer { deadline_ms: u64 },
    /// An operator's order to go on.
    Suspend,
}

impl Clone for WaitCondition {
    fn clone(&self) -> (r: Self)
        ensures
            r == *self,
    {
        match self {
            WaitCondition::Signal { name } => WaitCondition::Signal { name: name.clone() },
            WaitCondition::Timer { deadline_ms } => WaitCondition::Timer {
                deadline_ms: *deadline_ms,
            },
            WaitCondition::Suspend => WaitCondition::Suspend,
        }
    }
}

/// Whether a wait point is still waiting.
#[derive(Debug)]
pub enum WaitPointState {
    Waiting,
    /// What it waited for has happened, and brought `payload`.
    Signaled { payload: Vec<u8> },
}

/// One wait point.
#[derive(Debug)]
pub struct WaitPoint {
    pub condition: WaitCondition,
    pub state: WaitPointState,
}

/// The mathematical value of a [`WaitPoint`]: what it waits for, and what it was woken
/// with.
#[verifier::ext_equal]
pub struct WaitView {
    pub condition: WaitCondition,
    pub woken: Option<Seq<u8>>,
}

impl View for WaitPoint {
    type V = WaitView;

    open spec fn view(&self) -> WaitView {
        WaitView {
            condition: self.condition,
            woken: match self.state {
                WaitPointState::Waiting => None,
                WaitPointState::Signaled { payload } => Some(payload@),
            },
        }
    }
}

impl WaitPoint {
    /// A wait point that waits for `condition`.
    pub fn waiting(condition: WaitCondition) -> (w: Self)
        ensures
            w@ == (WaitView { condition, woken: None }),
    {
        WaitPoint { condition, state: WaitPointState::Waiting }
    }

    /// A wait point that has been woken with `payload`.
    pub fn woken(condition: WaitCondition, payload: Vec<u8>) -> (w: Self)
        ensures
            w@ == (WaitView { condition, woken: Some(payload@) }),
    {
        WaitPoint { condition, state: WaitPointState::Signaled { payload } }
    }

    /// Whether it still waits.
    pub fn is_waiting(&self) -> (b: bool)
        ensures
            b == (self@.woken is None),
    {
        match self.state {
            WaitPointState::Waiting => true,
            WaitPointState::Signaled { .. } => false,
        }
    }

    /// What it was woken with.
    pub fn payload(&self) -> (p: Option<Vec<u8>>)
        ensures
            match p {
                Some(bytes) => self@.woken == Some(bytes@),
                None => self@.woken is None,
            },
    {
        match &self.state {
            WaitPointState::Waiting => None,
            WaitPointState::Signaled { payload } => Some(copy_bytes(payload)),
        }
    }

    /// Wakes it with `payload`, unless it has been woken.
    pub fn wake(&mut self, payload: Vec<u8>) -> (woken: bool)
        ensures
            woken == (old(self)@.woken is None),
            final(self)@ == (if woken {
                WaitView { woken: Some(payload@), ..old(self)@ }
            } else {
                old(self)@
            }),
    {
        if self.is_waiting() {
            self.state = WaitPointState::Signaled { payload };
            true
        } else {
            false
        }
    }

    /// Whether it is a timer that is due at `now`, and still waits.
    pub fn is_due(&self, now: u64) -> (b: bool)
        ensures
            b == due(self@, now),
    {
        match (&self.state, &self.condition) {
            (WaitPointState::Waiting, WaitCondition::Timer { deadline_ms }) => now >= *deadline_ms,
            _ => false,
        }
    }

    /// Whether it waits for an operator's order to go on.
    pub fn is_suspended(&self) -> (b: bool)
        ensures
            b == suspended(self@),
    {
        match (&self.state, &self.condition) {
            (WaitPointState::Waiting, WaitCondition::Suspend) => true,
            _ => false,
        }
    }
}

/// A timer that is due at `now`, and still waits.
pub open spec fn due(w: WaitView, now: u64) -> bool {
    w.woken is None && w.condition is Timer && now >= w.condition->deadline_ms
}

/// A suspension that still waits.
pub open spec fn suspended(w: WaitView) -> bool {
    w.woken is None && w.condition is Suspend
}

} // verus!
