//! The task state machine: which actions a task in a given state accepts, and
//! what the task and its event log look like afterwards.
//!
//! ```text
//! pending --claim--> claimed --start--> in_progress --complete--> completed
//!                       |                    |
//!                       +-------fail---------+--> failed
//! ```
//!
//! A task that is not finished can be cancelled. Completed, failed and
//! cancelled tasks accept no action.

use crate::clock::Timestamp;
use crate::text::{copy_opt_text, copy_texts, same_text};
use crate::types::{
    copy_ids, CreateTaskRequest, CreateTaskRequestView, Task, TaskEvent, TaskEventType,
    TaskEventView, TaskStatus, TaskView,
};
use vstd::prelude::*;
use vstd::string::*;

verus! {

/// What an agent asks to do with a task.
#[derive(Debug, Clone, Copy, PartialEq, Eq, Structural)]
pub enum TaskAction {
    Claim,
    Start,
    Complete,
    Fail,
    Cancel,
}

/// Why a task action was refused.
#[derive(Debug, Clone, Copy, PartialEq, Eq, Structural)]
pub enum TaskError {
    /// No task has the id.
    NotFound,
    /// The task is in a state that does not accept the action.
    WrongState { current: TaskStatus, action: TaskAction },
    /// The task is assigned to another agent.
    NotOwner,
}

/// The task is completed, failed or cancelled.
pub open spec fn is_terminal(status: TaskStatus) -> bool {
    status == TaskStatus::Completed || status == TaskStatus::Failed || status
        == TaskStatus::Cancelled
}

/// A task in the state `status` accepts the action.
pub open spec fn accepts(status: TaskStatus, action: TaskAction) -> bool {
    match action {
        TaskAction::Claim => status == TaskStatus::Pending,
        TaskAction::Start => status == TaskStatus::Claimed,
        TaskAction::Complete => status == TaskStatus::InProgress,
        TaskAction::Fail => status == TaskStatus::Claimed || status == TaskStatus::InProgress,
        TaskAction::Cancel => !is_terminal(status),
    }
}

/// Only the agent that the task is assigned to may take the action.
pub open spec fn owner_only(action: TaskAction) -> bool {
    action == TaskAction::Start || action == TaskAction::Complete
}

/// Why the task refuses the action of `agent`, if it does: its state is
/// looked at first, its owner second.
pub open spec fn refusal(t: TaskView, action: TaskAction, agent: Seq<char>) -> Option<TaskError> {
    if !accepts(t.status, action) {
        Some(TaskError::WrongState { current: t.status, action })
    } else if owner_only(action) && t.assigned_agent != Some(agent) {
        Some(TaskError::NotOwner)
    } else {
        None
    }
}

/// The state a task is in after the action.
pub open spec fn status_after(action: TaskAction) -> TaskStatus {
    match action {
        TaskAction::Claim => TaskStatus::Claimed,
        TaskAction::Start => TaskStatus::InProgress,
        TaskAction::Complete => TaskStatus::Completed,
        TaskAction::Fail => TaskStatus::Failed,
        TaskAction::Cancel => TaskStatus::Cancelled,
    }
}

/// The task after `agent` took the action at `now`. `text` is the result of a
/// completion or the reason of a failure.
pub open spec fn advanced(
    t: TaskView,
    action: TaskAction,
    agent: Seq<char>,
    text: Seq<char>,
    now: Timestamp,
) -> TaskView {
    TaskView {
        status: status_after(action),
        assigned_agent: if action == TaskAction::Claim {
            Some(agent)
        } else {
            t.assigned_agent
        },
        result: if action == TaskAction::Complete || action == TaskAction::Fail {
            Some(text)
        } else {
            t.result
        },
        updated_at: now,
        ..t
    }
}

/// The kind of event that records the action.
pub open spec fn event_kind(action: TaskAction) -> TaskEventType {
    match action {
        TaskAction::Claim => TaskEventType::Claimed,
        TaskAction::Start => TaskEventType::Started,
        TaskAction::Complete => TaskEventType::Completed,
        TaskAction::Fail => TaskEventType::Failed,
        TaskAction::Cancel => TaskEventType::Cancelled,
    }
}

/// The first `n` characters of a text, or all of it if it is shorter.
pub open spec fn head(s: Seq<char>, n: nat) -> Seq<char> {
    if s.len() > n {
        s.take(n as int)
    } else {
        s
    }
}

/// The short text that an event carries about the action.
pub open spec fn event_details(action: TaskAction, agent: Seq<char>, text: Seq<char>) -> Seq<char> {
    match action {
        TaskAction::Claim => "Task claimed by agent "@ + agent,
        TaskAction::Start => "Task started by agent "@ + agent,
        TaskAction::Complete => "Task completed: "@ + head(text, 100),
        TaskAction::Fail => "Task failed: "@ + head(text, 100),
        TaskAction::Cancel => "Task cancelled by agent "@ + agent,
    }
}

/// The event that records the action of `agent` on the task `task_id`.
pub open spec fn action_event(
    id: u64,
    task_id: u64,
    action: TaskAction,
    agent: Seq<char>,
    text: Seq<char>,
    now: Timestamp,
) -> TaskEventView {
    TaskEventView {
        id,
        task_id,
        event_type: event_kind(action),
        agent_id: Some(agent),
        details: Some(event_details(action, agent, text)),
        timestamp: now,
    }
}

/// The task that a request creates under `id` at time `now`.
pub open spec fn new_task(id: u64, req: CreateTaskRequestView, now: Timestamp) -> TaskView {
    TaskView {
        id,
        title: req.title,
        description: req.description,
        status: TaskStatus::Pending,
        priority: req.priority,
        required_capabilities: req.required_capabilities,
        assigned_agent: None,
        created_by: req.created_by,
        dependencies: req.dependencies,
        result: None,
        created_at: now,
        updated_at: now,
        deadline: req.deadline,
        metadata: req.metadata,
    }
}

/// The event that records the creation of a task.
pub open spec fn created_event(id: u64, t: TaskView, now: Timestamp) -> TaskEventView {
    TaskEventView {
        id,
        task_id: t.id,
        event_type: TaskEventType::Created,
        agent_id: Some(t.created_by),
        details: Some("Task created: "@ + t.title),
        timestamp: now,
    }
}

/// A finished task accepts no action: whatever is asked, by whomever, it is
/// refused.
pub proof fn lemma_terminal_refuses(t: TaskView, action: TaskAction, agent: Seq<char>)
    requires
        is_terminal(t.status),
    ensures
        refusal(t, action, agent) == Some(
            TaskError::WrongState { current: t.status, action },
        ),
{
}

/// An accepted action leads along an edge of the state machine, and keeps
/// the task's id, title, creator and creation time.
pub proof fn lemma_advanced_follows_machine(
    t: TaskView,
    action: TaskAction,
    agent: Seq<char>,
    text: Seq<char>,
    now: Timestamp,
)
    requires
        refusal(t, action, agent) is None,
    ensures
        !is_terminal(t.status),
        advanced(t, action, agent, text, now).status == status_after(action),
        advanced(t, action, agent, text, now).id == t.id,
        advanced(t, action, agent, text, now).created_at == t.created_at,
        advanced(t, action, agent, text, now).created_by == t.created_by,
        action != TaskAction::Claim ==> advanced(t, action, agent, text, now).assigned_agent
            == t.assigned_agent,
{
}

/// Whether a task in the state `status` accepts the action.
pub fn status_accepts(status: TaskStatus, action: TaskAction) -> (r: bool)
    ensures
        r == accepts(status, action),
{
    match action {
        TaskAction::Claim => status == TaskStatus::Pending,
        TaskAction::Start => status == TaskStatus::Claimed,
        TaskAction::Complete => status == TaskStatus::InProgress,
        TaskAction::Fail => status == TaskStatus::Claimed || status == TaskStatus::InProgress,
        TaskAction::Cancel => !(status == TaskStatus::Completed || status == TaskStatus::Failed
            || status == TaskStatus::Cancelled),
    }
}

/// The task after `agent` took the action at `now`, or why it is refused.
pub fn advance(task: &Task, action: TaskAction, agent_id: &str, text: &str, now: Timestamp) -> (r:
    Result<Task, TaskError>)
    ensures
        match r {
            Ok(t) => refusal(task@, action, agent_id@) is None && t@ == advanced(
                task@,
                action,
                agent_id@,
                text@,
                now,
            ),
            Err(e) => refusal(task@, action, agent_id@) == Some(e),
        },
{
    if !status_accepts(task.status, action) {
        return Err(TaskError::WrongState { current: task.status, action });
    }
    let by_owner = match &task.assigned_agent {
        Some(owner) => same_text(owner.as_str(), agent_id),
        None => false,
    };
    if (action == TaskAction::Start || action == TaskAction::Complete) && !by_owner {
        return Err(TaskError::NotOwner);
    }
    let new_status = match action {
        TaskAction::Claim => TaskStatus::Claimed,
        TaskAction::Start => TaskStatus::InProgress,
        TaskAction::Complete => TaskStatus::Completed,
        TaskAction::Fail => TaskStatus::Failed,
        TaskAction::Cancel => TaskStatus::Cancelled,
    };
    Ok(
        Task {
            id: task.id,
            title: task.title.clone(),
            description: task.description.clone(),
            status: new_status,
            priority: task.priority,
            required_capabilities: copy_texts(&task.required_capabilities),
            assigned_agent: if action == TaskAction::Claim {
                Some(agent_id.to_owned())
            } else {
                copy_opt_text(&task.assigned_agent)
            },
            created_by: task.created_by.clone(),
            dependencies: copy_ids(&task.dependencies),
            result: if action == TaskAction::Complete || action == TaskAction::Fail {
                Some(text.to_owned())
            } else {
                copy_opt_text(&task.result)
            },
            created_at: task.created_at,
            updated_at: now,
            deadline: copy_opt_text(&task.deadline),
            metadata: task.metadata.clone(),
        },
    )
}

/// The first `n` characters of a text, or all of it if it is shorter.
pub fn head_of(s: &str, n: usize) -> (r: &str)
    ensures
        r@ == head(s@, n as nat),
{
    let len = s.unicode_len();
    if len > n {
        let r = s.substring_char(0, n);
        assert(s@.subrange(0, n as int) =~= s@.take(n as int));
        r
    } else {
        s
    }
}

/// The event that records the action of `agent` on the task `task_id`.
pub fn event_for(
    id: u64,
    task_id: u64,
    action: TaskAction,
    agent_id: &str,
    text: &str,
    now: Timestamp,
) -> (e: TaskEvent)
    ensures
        e@ == action_event(id, task_id, action, agent_id@, text@, now),
{
    let details = match action {
        TaskAction::Claim => String::from_str("Task claimed by agent ").concat(agent_id),
        TaskAction::Start => String::from_str("Task started by agent ").concat(agent_id),
        TaskAction::Complete => String::from_str("Task completed: ").concat(head_of(text, 100)),
        TaskAction::Fail => String::from_str("Task failed: ").concat(head_of(text, 100)),
        TaskAction::Cancel => String::from_str("Task cancelled by agent ").concat(agent_id),
    };
    let kind = match action {
        TaskAction::Claim => TaskEventType::Claimed,
        TaskAction::Start => TaskEventType::Started,
        TaskAction::Complete => TaskEventType::Completed,
        TaskAction::Fail => TaskEventType::Failed,
        TaskAction::Cancel => TaskEventType::Cancelled,
    };
    TaskEvent {
        id,
        task_id,
        event_type: kind,
        agent_id: Some(agent_id.to_owned()),
        details: Some(details),
        timestamp: now,
    }
}

/// A pending task made from a request.
pub fn create_task(id: u64, req: CreateTaskRequest, now: Timestamp) -> (t: Task)
    ensures
        t@ == new_task(id, req@, now),
{
    Task {
        id,
        title: req.title,
        description: req.description,
        status: TaskStatus::Pending,
        priority: req.priority,
        required_capabilities: req.required_capabilities,
        assigned_agent: None,
        created_by: req.created_by,
        dependencies: req.dependencies,
        result: None,
        created_at: now,
        updated_at: now,
        deadline: req.deadline,
        metadata: req.metadata,
    }
}

/// The event that records the creation of `task`.
pub fn creation_event(id: u64, task: &Task, now: Timestamp) -> (e: TaskEvent)
    ensures
        e@ == created_event(id, task@, now),
{
    TaskEvent {
        id,
        task_id: task.id,
        event_type: TaskEventType::Created,
        agent_id: Some(task.created_by.clone()),
        details: Some(String::from_str("Task created: ").concat(task.title.as_str())),
        timestamp: now,
    }
}

/// A pending task is claimed by `agent_id`; any other task refuses.
pub fn claim_task(task: &Task, agent_id: &str, now: Timestamp) -> (r: Result<Task, TaskError>)
    ensures
        match r {
            Ok(t) => task@.status == TaskStatus::Pending && t@ == advanced(
                task@,
                TaskAction::Claim,
                agent_id@,
                Seq::empty(),
                now,
            ),
            Err(e) => task@.status != TaskStatus::Pending && e == (TaskError::WrongState {
                current: task@.status,
                action: TaskAction::Claim,
            }),
        },
{
    advance(task, TaskAction::Claim, agent_id, "", now)
}

/// A claimed task is started by the agent it is assigned to.
pub fn start_task(task: &Task, agent_id: &str, now: Timestamp) -> (r: Result<Task, TaskError>)
    ensures
        match r {
            Ok(t) => refusal(task@, TaskAction::Start, agent_id@) is None && t@ == advanced(
                task@,
                TaskAction::Start,
                agent_id@,
                Seq::empty(),
                now,
            ),
            Err(e) => refusal(task@, TaskAction::Start, agent_id@) == Some(e),
        },
{
    advance(task, TaskAction::Start, agent_id, "", now)
}

/// A task in progress is completed, with a result, by the agent it is
/// assigned to.
pub fn complete_task(task: &Task, agent_id: &str, result: &str, now: Timestamp) -> (r: Result<
    Task,
    TaskError,
>)
    ensures
        match r {
            Ok(t) => refusal(task@, TaskAction::Complete, agent_id@) is None && t@ == advanced(
                task@,
                TaskAction::Complete,
                agent_id@,
                result@,
                now,
            ),
            Err(e) => refusal(task@, TaskAction::Complete, agent_id@) == Some(e),
        },
{
    advance(task, TaskAction::Complete, agent_id, result, now)
}

/// A claimed task or one in progress fails, with a reason, whoever says so.
pub fn fail_task(task: &Task, agent_id: &str, reason: &str, now: Timestamp) -> (r: Result<
    Task,
    TaskError,
>)
    ensures
        match r {
            Ok(t) => refusal(task@, TaskAction::Fail, agent_id@) is None && t@ == advanced(
                task@,
                TaskAction::Fail,
                agent_id@,
                reason@,
                now,
            ),
            Err(e) => refusal(task@, TaskAction::Fail, agent_id@) == Some(e),
        },
{
    advance(task, TaskAction::Fail, agent_id, reason, now)
}

} // verus!
