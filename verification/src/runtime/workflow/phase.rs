//! Lifecycle phases of workflows and tasks, and failure strategies.
use vstd::prelude::*;

use crate::text;
use crate::text::same_text_any_case;

verus! {

pub const PENDING: &'static str = "Pending";

pub const RUNNING: &'static str = "Running";

pub const COMPLETED: &'static str = "Completed";

pub const FAILED: &'static str = "Failed";

pub const CANCELLED: &'static str = "Cancelled";

pub const SKIPPED: &'static str = "Skipped";

/// Where a workflow or a task stands.
#[derive(Debug, Clone, Copy, PartialEq, Eq, Hash, Structural)]
pub enum Phase {
    Pending,
    Running,
    Completed,
    Failed,
    Cancelled,
    /// The branch that leads to the task was not taken.
    Skipped,
}

impl Default for Phase {
    fn default() -> (p: Self)
        ensures
            p == Phase::Pending,
    {
        Phase::Pending
    }
}

/// The name of each phase.
pub open spec fn phase_name(p: Phase) -> Seq<char> {
    match p {
        Phase::Pending => PENDING@,
        Phase::Running => RUNNING@,
        Phase::Completed => COMPLETED@,
        Phase::Failed => FAILED@,
        Phase::Cancelled => CANCELLED@,
        Phase::Skipped => SKIPPED@,
    }
}

impl Phase {
    /// The phase's stable name.
    pub fn as_str(&self) -> (s: &'static str)
        ensures
            s@ == phase_name(*self),
    {
        match self {
            Phase::Pending => PENDING,
            Phase::Running => RUNNING,
            Phase::Completed => COMPLETED,
            Phase::Failed => FAILED,
            Phase::Cancelled => CANCELLED,
            Phase::Skipped => SKIPPED,
        }
    }

    /// The phase whose name is `s` up to ASCII case.
    pub fn parse(s: &str) -> (r: Option<Self>)
        ensures
            match r {
                Some(p) => text::lower(phase_name(p)) == text::lower(s@),
                None => forall|p: Phase| text::lower(#[trigger] phase_name(p)) != text::lower(s@),
            },
            forall|p: Phase| text::lower(#[trigger] phase_name(p)) == text::lower(s@) ==> r == Some(p),
    {
        proof {
            lemma_phase_names_distinct();
            assert(phase_name(Phase::Pending) == PENDING@);
            assert(phase_name(Phase::Running) == RUNNING@);
            assert(phase_name(Phase::Completed) == COMPLETED@);
            assert(phase_name(Phase::Failed) == FAILED@);
            assert(phase_name(Phase::Cancelled) == CANCELLED@);
            assert(phase_name(Phase::Skipped) == SKIPPED@);
        }
        if same_text_any_case(s, PENDING) {
            Some(Phase::Pending)
        } else if same_text_any_case(s, RUNNING) {
            Some(Phase::Running)
        } else if same_text_any_case(s, COMPLETED) {
            Some(Phase::Completed)
        } else if same_text_any_case(s, FAILED) {
            Some(Phase::Failed)
        } else if same_text_any_case(s, CANCELLED) {
            Some(Phase::Cancelled)
        } else if same_text_any_case(s, SKIPPED) {
            Some(Phase::Skipped)
        } else {
            None
        }
    }
}

/// No two phases share a name, even up to ASCII case.
pub proof fn lemma_phase_names_distinct()
    ensures
        forall|p: Phase, q: Phase|
            text::lower(#[trigger] phase_name(p)) == text::lower(#[trigger] phase_name(q)) ==> p == q,
{
    reveal_strlit("Pending");
    reveal_strlit("Running");
    reveal_strlit("Completed");
    reveal_strlit("Failed");
    reveal_strlit("Cancelled");
    reveal_strlit("Skipped");
    assert forall|p: Phase, q: Phase|
        text::lower(#[trigger] phase_name(p)) == text::lower(#[trigger] phase_name(q)) implies p == q by {
        assert(text::lower(phase_name(p)).len() == text::lower(phase_name(q)).len());
        assert(text::lower(phase_name(p))[0] == text::lower(phase_name(q))[0]);
        assert(text::lower(phase_name(p))[1] == text::lower(phase_name(q))[1]);
    }
}

/// States with no way onward.
pub trait Terminal {
    spec fn ended(&self) -> bool;

    /// Whether no further transition is possible.
    fn is_terminal(&self) -> (b: bool)
        ensures
            b == self.ended(),
    ;
}

impl Terminal for Phase {
    open spec fn ended(&self) -> bool {
        *self is Completed || *self is Failed || *self is Cancelled || *self is Skipped
    }

    fn is_terminal(&self) -> (b: bool) {
        match self {
            Phase::Completed | Phase::Failed | Phase::Cancelled | Phase::Skipped => true,
            _ => false,
        }
    }
}

/// What a workflow does when one of its tasks fails.
#[derive(Debug, Clone, Copy, PartialEq, Eq, Hash, Structural)]
pub enum FailureStrategy {
    /// The first failure fails the workflow.
    FailFast,
    /// The workflow runs on until every task has ended, and then fails.
    Continue,
}

impl Default for FailureStrategy {
    fn default() -> (s: Self)
        ensures
            s == FailureStrategy::FailFast,
    {
        FailureStrategy::FailFast
    }
}

/// The name that each strategy is shown under.
pub open spec fn strategy_name(s: FailureStrategy) -> Seq<char> {
    match s {
        FailureStrategy::FailFast => "fail_fast"@,
        FailureStrategy::Continue => "continue"@,
    }
}

/// The names that each strategy is recognised by, in small letters.
pub open spec fn strategy_accepts(s: FailureStrategy, name: Seq<char>) -> bool {
    match s {
        FailureStrategy::FailFast => name == text::lower("fail_fast"@) || name == text::lower("failfast"@),
        FailureStrategy::Continue => name == text::lower("continue"@) || name == text::lower(
            "continue_on_failure"@,
        ) || name == text::lower("best_effort"@),
    }
}

impl FailureStrategy {
    /// The strategy's stable name.
    pub fn as_str(&self) -> (s: &'static str)
        ensures
            s@ == strategy_name(*self),
    {
        match self {
            FailureStrategy::FailFast => "fail_fast",
            FailureStrategy::Continue => "continue",
        }
    }

    /// The strategy known by the name `s`, up to ASCII case.
    pub fn parse(s: &str) -> (r: Option<Self>)
        ensures
            forall|f: FailureStrategy| #[trigger]
                strategy_accepts(f, text::lower(s@)) <==> r == Some(f),
    {
        proof {
            lemma_strategy_names_distinct();
            let n = text::lower(s@);
            let f = strategy_accepts(FailureStrategy::FailFast, n);
            let c = strategy_accepts(FailureStrategy::Continue, n);
            assert(!(f && c));
        }
        if same_text_any_case(s, "fail_fast") || same_text_any_case(s, "failfast") {
            Some(FailureStrategy::FailFast)
        } else if same_text_any_case(s, "continue") || same_text_any_case(s, "continue_on_failure")
            || same_text_any_case(s, "best_effort") {
            Some(FailureStrategy::Continue)
        } else {
            None
        }
    }
}

/// No name is recognised as two strategies.
pub proof fn lemma_strategy_names_distinct()
    ensures
        forall|f: FailureStrategy, g: FailureStrategy, n: Seq<char>| #[trigger]
            strategy_accepts(f, n) && #[trigger] strategy_accepts(g, n) ==> f == g,
{
    reveal_strlit("fail_fast");
    reveal_strlit("failfast");
    reveal_strlit("continue");
    reveal_strlit("continue_on_failure");
    reveal_strlit("best_effort");
    assert(text::lower("fail_fast"@)[0] == 'f');
    assert(text::lower("failfast"@)[0] == 'f');
    assert(text::lower("continue"@)[0] == 'c');
    assert(text::lower("continue_on_failure"@)[0] == 'c');
    assert(text::lower("best_effort"@)[0] == 'b');
}

/// A strategy's own name is one that it is recognised by.
pub proof fn law_strategy_name_parses(s: FailureStrategy)
    ensures
        strategy_accepts(s, text::lower(strategy_name(s))),
{
}

/// How far a task failure reaches.
#[derive(Debug, Clone, Copy, PartialEq, Eq, Structural)]
pub enum FailureScope {
    /// Only the task fails; the workflow stays open so that the task can be retried.
    TaskOnly,
    /// The failure strategy decides what becomes of the workflow.
    WorkflowLevel,
}

} // verus!
