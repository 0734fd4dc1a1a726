//! The methods of the workflow actor.
use vstd::prelude::*;
use vstd::string::*;

use crate::common::ActantError;
use crate::text::same_text;

verus! {

pub const SUBMIT: &'static str = "submit";

pub const SUBMIT_WITH_TIMEOUT: &'static str = "submit_with_timeout";

pub const START: &'static str = "start";

pub const COMPLETE_TASK: &'static str = "complete_task";

pub const ACTIVATE_CONDITIONAL: &'static str = "activate_conditional";

pub const SKIP_CONDITIONAL_BRANCH: &'static str = "skip_conditional_branch";

pub const FAIL_TASK: &'static str = "fail_task";

pub const CANCEL_TASK: &'static str = "cancel_task";

pub const ON_TASK_RESULT: &'static str = "on_task_result";

pub const MARK_TASK_RUNNING: &'static str = "mark_task_running";

pub const TASK_DISPATCHED: &'static str = "task_dispatched";

pub const GET_STATE: &'static str = "get_state";

pub const ACTIVE_WORKFLOW_IDS: &'static str = "active_workflow_ids";

pub const ADOPT_WORKFLOW: &'static str = "adopt_workflow";

pub const DELETE_WORKFLOW: &'static str = "delete_workflow";

pub const REMOVE_ACTIVE_WORKFLOW: &'static str = "remove_active_workflow";

pub const GET_WORKFLOW_STATE_BYTES: &'static str = "get_workflow_state_bytes";

pub const APPLY_FULL_STATE: &'static str = "apply_full_state";

pub const RESCHEDULE_RUNNING_TASKS: &'static str = "reschedule_running_tasks";

/// The methods of the workflow actor.
#[derive(Debug, Clone, Copy, PartialEq, Eq, Structural)]
pub enum WorkflowMethod {
    Submit,
    SubmitWithTimeout,
    Start,
    CompleteTask,
    ActivateConditional,
    SkipConditionalBranch,
    FailTask,
    CancelTask,
    OnTaskResult,
    MarkTaskRunning,
    TaskDispatched,
    GetState,
    ActiveWorkflowIds,
    AdoptWorkflow,
    DeleteWorkflow,
    RemoveActiveWorkflow,
    GetWorkflowStateBytes,
    ApplyFullState,
    RescheduleRunningTasks,
}

/// The name of a method.
pub open spec fn name_of(m: WorkflowMethod) -> Seq<char> {
    match m {
        WorkflowMethod::Submit => SUBMIT@,
        WorkflowMethod::SubmitWithTimeout => SUBMIT_WITH_TIMEOUT@,
        WorkflowMethod::Start => START@,
        WorkflowMethod::CompleteTask => COMPLETE_TASK@,
        WorkflowMethod::ActivateConditional => ACTIVATE_CONDITIONAL@,
        WorkflowMethod::SkipConditionalBranch => SKIP_CONDITIONAL_BRANCH@,
        WorkflowMethod::FailTask => FAIL_TASK@,
        WorkflowMethod::CancelTask => CANCEL_TASK@,
        WorkflowMethod::OnTaskResult => ON_TASK_RESULT@,
        WorkflowMethod::MarkTaskRunning => MARK_TASK_RUNNING@,
        WorkflowMethod::TaskDispatched => TASK_DISPATCHED@,
        WorkflowMethod::GetState => GET_STATE@,
        WorkflowMethod::ActiveWorkflowIds => ACTIVE_WORKFLOW_IDS@,
        WorkflowMethod::AdoptWorkflow => ADOPT_WORKFLOW@,
        WorkflowMethod::DeleteWorkflow => DELETE_WORKFLOW@,
        WorkflowMethod::RemoveActiveWorkflow => REMOVE_ACTIVE_WORKFLOW@,
        WorkflowMethod::GetWorkflowStateBytes => GET_WORKFLOW_STATE_BYTES@,
        WorkflowMethod::ApplyFullState => APPLY_FULL_STATE@,
        WorkflowMethod::RescheduleRunningTasks => RESCHEDULE_RUNNING_TASKS@,
    }
}

/// The message for a method that there is not.
pub open spec fn unknown_method(name: Seq<char>) -> Seq<char> {
    "WorkflowActor: unknown method "@ + name
}

/// No two methods have the same name.
pub proof fn law_names_distinct(a: WorkflowMethod, b: WorkflowMethod)
    requires
        name_of(a) == name_of(b),
    ensures
        a == b,
{
    reveal_strlit("submit");
    reveal_strlit("submit_with_timeout");
    reveal_strlit("start");
    reveal_strlit("complete_task");
    reveal_strlit("activate_conditional");
    reveal_strlit("skip_conditional_branch");
    reveal_strlit("fail_task");
    reveal_strlit("cancel_task");
    reveal_strlit("on_task_result");
    reveal_strlit("mark_task_running");
    reveal_strlit("task_dispatched");
    reveal_strlit("get_state");
    reveal_strlit("active_workflow_ids");
    reveal_strlit("adopt_workflow");
    reveal_strlit("delete_workflow");
    reveal_strlit("remove_active_workflow");
    reveal_strlit("get_workflow_state_bytes");
    reveal_strlit("apply_full_state");
    reveal_strlit("reschedule_running_tasks");
    let (x, y) = (name_of(a), name_of(b));
    assert(x.len() == y.len());
    assert(SUBMIT_WITH_TIMEOUT@[0] != ACTIVE_WORKFLOW_IDS@[0]);
    assert(FAIL_TASK@[0] != GET_STATE@[0]);
    assert(ON_TASK_RESULT@[0] != ADOPT_WORKFLOW@[0]);
    assert(TASK_DISPATCHED@[0] != DELETE_WORKFLOW@[0]);
    assert(GET_WORKFLOW_STATE_BYTES@[0] != RESCHEDULE_RUNNING_TASKS@[0]);
}

impl WorkflowMethod {
    /// The method with the given name.
    pub fn parse(name: &str) -> (r: Result<Self, ActantError>)
        ensures
            match r {
                Ok(m) => name_of(m) == name@,
                Err(e) => {
                    &&& forall|m: WorkflowMethod| #[trigger] name_of(m) != name@
                    &&& e matches ActantError::Actor(t)
                    &&& t@ == unknown_method(name@)
                },
            },
    {
        if same_text(name, SUBMIT) {
            return Ok(WorkflowMethod::Submit);
        }
        if same_text(name, SUBMIT_WITH_TIMEOUT) {
            return Ok(WorkflowMethod::SubmitWithTimeout);
        }
        if same_text(name, START) {
            return Ok(WorkflowMethod::Start);
        }
        if same_text(name, COMPLETE_TASK) {
            return Ok(WorkflowMethod::CompleteTask);
        }
        if same_text(name, ACTIVATE_CONDITIONAL) {
            return Ok(WorkflowMethod::ActivateConditional);
        }
        if same_text(name, SKIP_CONDITIONAL_BRANCH) {
            return Ok(WorkflowMethod::SkipConditionalBranch);
        }
        if same_text(name, FAIL_TASK) {
            return Ok(WorkflowMethod::FailTask);
        }
        if same_text(name, CANCEL_TASK) {
            return Ok(WorkflowMethod::CancelTask);
        }
        if same_text(name, ON_TASK_RESULT) {
            return Ok(WorkflowMethod::OnTaskResult);
        }
        if same_text(name, MARK_TASK_RUNNING) {
            return Ok(WorkflowMethod::MarkTaskRunning);
        }
        if same_text(name, TASK_DISPATCHED) {
            return Ok(WorkflowMethod::TaskDispatched);
        }
        if same_text(name, GET_STATE) {
            return Ok(WorkflowMethod::GetState);
        }
        if same_text(name, ACTIVE_WORKFLOW_IDS) {
            return Ok(WorkflowMethod::ActiveWorkflowIds);
        }
        if same_text(name, ADOPT_WORKFLOW) {
            return Ok(WorkflowMethod::AdoptWorkflow);
        }
        if same_text(name, DELETE_WORKFLOW) {
            return Ok(WorkflowMethod::DeleteWorkflow);
        }
        if same_text(name, REMOVE_ACTIVE_WORKFLOW) {
            return Ok(WorkflowMethod::RemoveActiveWorkflow);
        }
        if same_text(name, GET_WORKFLOW_STATE_BYTES) {
            return Ok(WorkflowMethod::GetWorkflowStateBytes);
        }
        if same_text(name, APPLY_FULL_STATE) {
            return Ok(WorkflowMethod::ApplyFullState);
        }
        if same_text(name, RESCHEDULE_RUNNING_TASKS) {
            return Ok(WorkflowMethod::RescheduleRunningTasks);
        }
        let mut t = "WorkflowActor: unknown method ".to_owned();
        t.append(name);
        Err(ActantError::Actor(t))
    }
}

} // verus!
