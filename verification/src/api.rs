//! What the transport needs to know of the library's rules: defaults of
//! requests, how a state is named in a query, and how a refusal is reported.

use crate::tasks::{TaskAction, TaskError};
use crate::text::same_text;
use crate::types::TaskStatus;
use vstd::prelude::*;
use vstd::string::*;

verus! {

/// Who an invalidation is ascribed to when the request names nobody.
pub fn default_api() -> (s: String)
    ensures
        s@ == "api"@,
{
    String::from_str("api")
}

/// How many hops a traversal goes when the request names no depth.
pub fn default_depth() -> (d: usize)
    ensures
        d == 2,
{
    2
}

/// The name of a task state.
pub open spec fn status_name(status: TaskStatus) -> Seq<char> {
    match status {
        TaskStatus::Pending => "pending"@,
        TaskStatus::Claimed => "claimed"@,
        TaskStatus::InProgress => "in_progress"@,
        TaskStatus::Completed => "completed"@,
        TaskStatus::Failed => "failed"@,
        TaskStatus::Cancelled => "cancelled"@,
    }
}

/// The task state that a name stands for, if it stands for one.
pub open spec fn status_named(name: Seq<char>) -> Option<TaskStatus> {
    if name == "pending"@ {
        Some(TaskStatus::Pending)
    } else if name == "claimed"@ {
        Some(TaskStatus::Claimed)
    } else if name == "in_progress"@ {
        Some(TaskStatus::InProgress)
    } else if name == "completed"@ {
        Some(TaskStatus::Completed)
    } else if name == "failed"@ {
        Some(TaskStatus::Failed)
    } else if name == "cancelled"@ {
        Some(TaskStatus::Cancelled)
    } else {
        None
    }
}

/// The task state that a name stands for.
pub fn parse_task_status(name: &str) -> (r: Option<TaskStatus>)
    ensures
        r == status_named(name@),
{
    if same_text(name, "pending") {
        Some(TaskStatus::Pending)
    } else if same_text(name, "claimed") {
        Some(TaskStatus::Claimed)
    } else if same_text(name, "in_progress") {
        Some(TaskStatus::InProgress)
    } else if same_text(name, "completed") {
        Some(TaskStatus::Completed)
    } else if same_text(name, "failed") {
        Some(TaskStatus::Failed)
    } else if same_text(name, "cancelled") {
        Some(TaskStatus::Cancelled)
    } else {
        None
    }
}

/// The name of a task state.
pub fn task_status_name(status: TaskStatus) -> (s: String)
    ensures
        s@ == status_name(status),
{
    match status {
        TaskStatus::Pending => String::from_str("pending"),
        TaskStatus::Claimed => String::from_str("claimed"),
        TaskStatus::InProgress => String::from_str("in_progress"),
        TaskStatus::Completed => String::from_str("completed"),
        TaskStatus::Failed => String::from_str("failed"),
        TaskStatus::Cancelled => String::from_str("cancelled"),
    }
}

/// The HTTP status that reports a refusal: 404 for a task that does not
/// exist, 409 for a task that refuses.
pub open spec fn refusal_status(e: TaskError) -> u16 {
    match e {
        TaskError::NotFound => 404,
        _ => 409,
    }
}

/// The HTTP status that reports a refusal.
pub fn status_code_for(e: TaskError) -> (code: u16)
    ensures
        code == refusal_status(e),
{
    match e {
        TaskError::NotFound => 404,
        _ => 409,
    }
}

/// What an action is called.
pub open spec fn action_name(action: TaskAction) -> Seq<char> {
    match action {
        TaskAction::Claim => "claim"@,
        TaskAction::Start => "start"@,
        TaskAction::Complete => "complete"@,
        TaskAction::Fail => "fail"@,
        TaskAction::Cancel => "cancel"@,
    }
}

/// The states that an action requires, in words.
pub open spec fn required_states(action: TaskAction) -> Seq<char> {
    match action {
        TaskAction::Claim => "pending"@,
        TaskAction::Start => "claimed"@,
        TaskAction::Complete => "in_progress"@,
        TaskAction::Fail => "claimed or in_progress"@,
        TaskAction::Cancel => "pending, claimed or in_progress"@,
    }
}

/// The words that report a refusal. A wrong state is reported with the state
/// the task is in and the states the action requires.
pub open spec fn refusal_words(e: TaskError) -> Seq<char> {
    match e {
        TaskError::NotFound => "task not found"@,
        TaskError::NotOwner => "task is assigned to another agent"@,
        TaskError::WrongState { current, action } => "task is "@ + status_name(current) + ", "@
            + action_name(action) + " requires "@ + required_states(action),
    }
}

/// The words that report a refusal.
pub fn refusal_message(e: TaskError) -> (s: String)
    ensures
        s@ == refusal_words(e),
{
    match e {
        TaskError::NotFound => String::from_str("task not found"),
        TaskError::NotOwner => String::from_str("task is assigned to another agent"),
        TaskError::WrongState { current, action } => {
            let verb = match action {
                TaskAction::Claim => "claim",
                TaskAction::Start => "start",
                TaskAction::Complete => "complete",
                TaskAction::Fail => "fail",
                TaskAction::Cancel => "cancel",
            };
            let needs = match action {
                TaskAction::Claim => "pending",
                TaskAction::Start => "claimed",
                TaskAction::Complete => "in_progress",
                TaskAction::Fail => "claimed or in_progress",
                TaskAction::Cancel => "pending, claimed or in_progress",
            };
            let state = task_status_name(current);
            String::from_str("task is ").concat(state.as_str()).concat(", ").concat(verb).concat(
                " requires ",
            ).concat(needs)
        },
    }
}

} // verus!
