use hiveminddb::clock::Timestamp;
use hiveminddb::config::HiveMindConfig;
use hiveminddb::memory_engine::MemoryEngine;
use hiveminddb::persistence::ReplicationEvent;
use hiveminddb::tasks::{
    advance, claim_task, complete_task, create_task, event_for, fail_task, head_of, start_task,
    status_accepts, TaskAction, TaskError,
};
use hiveminddb::types::{CreateTaskRequest, Task, TaskEventType, TaskStatus};

fn engine() -> MemoryEngine {
    MemoryEngine::new(HiveMindConfig {
        listen_addr: "".into(),
        rtdb_url: "".into(),
        llm_provider: "test".into(),
        llm_api_key: None,
        llm_model: "test".into(),
        embedding_model: "none:disabled".into(),
        embedding_api_key: None,
        data_dir: "".into(),
    })
}

fn request(title: &str) -> CreateTaskRequest {
    CreateTaskRequest {
        title: title.into(),
        description: "desc".into(),
        priority: 3,
        required_capabilities: vec!["coding".into()],
        created_by: "boss".into(),
        dependencies: vec![4, 5],
        deadline: Some("tomorrow".into()),
        metadata: "null".into(),
    }
}

fn at(secs: i64) -> Timestamp {
    Timestamp { secs, nanos: 0 }
}

fn task_in(status: TaskStatus, owner: Option<&str>) -> Task {
    let mut t = create_task(1, request("t"), at(1));
    t.status = status;
    t.assigned_agent = owner.map(|o| o.to_string());
    t
}

#[test]
fn scenario_task_machine() {
    let mut e = engine();
    let t = e.create_task(request("t"));
    assert_eq!(t.id, 1);
    assert_eq!(t.status, TaskStatus::Pending);
    assert_eq!(e.claim_task(1, "ag").unwrap().status, TaskStatus::Claimed);
    assert_eq!(e.start_task(1, "ag").unwrap().status, TaskStatus::InProgress);
    let done = e.complete_task(1, "ag", "done".into()).unwrap();
    assert_eq!(done.status, TaskStatus::Completed);
    assert_eq!(done.result.as_deref(), Some("done"));
    let kinds: Vec<TaskEventType> = e.get_task_events(1).iter().map(|ev| ev.event_type).collect();
    assert_eq!(
        kinds,
        vec![TaskEventType::Created, TaskEventType::Claimed, TaskEventType::Started, TaskEventType::Completed]
    );
    let again = e.complete_task(1, "ag", "again".into());
    assert_eq!(
        again.unwrap_err(),
        TaskError::WrongState { current: TaskStatus::Completed, action: TaskAction::Complete }
    );
    assert_eq!(e.get_task_events(1).len(), 4);
    assert_eq!(e.get_task(1).unwrap().result.as_deref(), Some("done"));
}

#[test]
fn task_fields_and_events_at_creation() {
    let mut e = engine();
    let t = e.create_task_at(request("Write docs"), at(7));
    assert_eq!(t.title, "Write docs");
    assert_eq!(t.priority, 3);
    assert_eq!(t.assigned_agent, None);
    assert_eq!(t.result, None);
    assert_eq!(t.dependencies, vec![4, 5]);
    assert_eq!(t.deadline.as_deref(), Some("tomorrow"));
    assert_eq!(t.created_at, at(7));
    let events = e.get_task_events(1);
    assert_eq!(events.len(), 1);
    assert_eq!(events[0].id, 1);
    assert_eq!(events[0].task_id, 1);
    assert_eq!(events[0].agent_id.as_deref(), Some("boss"));
    assert_eq!(events[0].details.as_deref(), Some("Task created: Write docs"));
    assert_eq!(events[0].timestamp, at(7));
    assert_eq!(e.create_task(request("second")).id, 2);
    assert_eq!(e.get_task_events(2)[0].id, 2);
    assert!(e.get_task(3).is_none());
    assert!(e.get_task_events(3).is_empty());
}

#[test]
fn every_refusal_has_its_reason() {
    let mut e = engine();
    e.create_task(request("t"));
    assert_eq!(e.claim_task(9, "ag").unwrap_err(), TaskError::NotFound);
    assert_eq!(e.start_task(9, "ag").unwrap_err(), TaskError::NotFound);
    assert_eq!(e.complete_task(9, "ag", "r".into()).unwrap_err(), TaskError::NotFound);
    assert_eq!(e.fail_task(9, "ag", "r".into()).unwrap_err(), TaskError::NotFound);
    assert_eq!(e.cancel_task(9, "ag").unwrap_err(), TaskError::NotFound);
    assert_eq!(
        e.start_task(1, "ag").unwrap_err(),
        TaskError::WrongState { current: TaskStatus::Pending, action: TaskAction::Start }
    );
    assert_eq!(
        e.fail_task(1, "ag", "r".into()).unwrap_err(),
        TaskError::WrongState { current: TaskStatus::Pending, action: TaskAction::Fail }
    );
    e.claim_task(1, "ag").unwrap();
    assert_eq!(
        e.claim_task(1, "other").unwrap_err(),
        TaskError::WrongState { current: TaskStatus::Claimed, action: TaskAction::Claim }
    );
    assert_eq!(e.start_task(1, "other").unwrap_err(), TaskError::NotOwner);
    assert_eq!(
        e.complete_task(1, "ag", "r".into()).unwrap_err(),
        TaskError::WrongState { current: TaskStatus::Claimed, action: TaskAction::Complete }
    );
    e.start_task(1, "ag").unwrap();
    assert_eq!(e.complete_task(1, "other", "r".into()).unwrap_err(), TaskError::NotOwner);
    // the refused calls left the task and its log as they were
    assert_eq!(e.get_task(1).unwrap().status, TaskStatus::InProgress);
    assert_eq!(e.get_task(1).unwrap().assigned_agent.as_deref(), Some("ag"));
    assert_eq!(e.get_task_events(1).len(), 3);
}

#[test]
fn failing_needs_no_owner_and_keeps_the_reason() {
    let mut e = engine();
    e.create_task(request("a"));
    e.create_task(request("b"));
    e.claim_task(1, "ag").unwrap();
    let failed = e.fail_task(1, "someone-else", "broke".into()).unwrap();
    assert_eq!(failed.status, TaskStatus::Failed);
    assert_eq!(failed.result.as_deref(), Some("broke"));
    assert_eq!(failed.assigned_agent.as_deref(), Some("ag"));
    e.claim_task(2, "ag").unwrap();
    e.start_task(2, "ag").unwrap();
    assert_eq!(e.fail_task(2, "ag", "late".into()).unwrap().status, TaskStatus::Failed);
    let last = e.get_task_events(2).pop().unwrap();
    assert_eq!(last.event_type, TaskEventType::Failed);
    assert_eq!(last.details.as_deref(), Some("Task failed: late"));
}

#[test]
fn finished_tasks_accept_nothing() {
    for end in [TaskAction::Complete, TaskAction::Fail, TaskAction::Cancel] {
        let mut e = engine();
        e.create_task(request("t"));
        e.claim_task(1, "ag").unwrap();
        e.start_task(1, "ag").unwrap();
        let ended = e.act_on_task_at(1, end, "ag", "text", at(5)).unwrap();
        let log = e.get_task_events(1).len();
        for action in [TaskAction::Claim, TaskAction::Start, TaskAction::Complete, TaskAction::Fail, TaskAction::Cancel] {
            let r = e.act_on_task_at(1, action, "ag", "x", at(6));
            assert_eq!(r.unwrap_err(), TaskError::WrongState { current: ended.status, action });
        }
        let now = e.get_task(1).unwrap();
        assert_eq!(now.status, ended.status);
        assert_eq!(now.result, ended.result);
        assert_eq!(now.updated_at, at(5));
        assert_eq!(e.get_task_events(1).len(), log);
    }
}

#[test]
fn cancelling_is_for_unfinished_tasks() {
    let mut e = engine();
    e.create_task(request("t"));
    let c = e.cancel_task(1, "boss").unwrap();
    assert_eq!(c.status, TaskStatus::Cancelled);
    assert_eq!(e.get_task_events(1)[1].event_type, TaskEventType::Cancelled);
    assert_eq!(e.get_task_events(1)[1].details.as_deref(), Some("Task cancelled by agent boss"));
    assert_eq!(
        e.cancel_task(1, "boss").unwrap_err(),
        TaskError::WrongState { current: TaskStatus::Cancelled, action: TaskAction::Cancel }
    );
}

#[test]
fn listing_tasks_by_state_and_agent() {
    let mut e = engine();
    for t in ["a", "b", "c"] {
        e.create_task(request(t));
    }
    e.claim_task(1, "x").unwrap();
    e.claim_task(2, "y").unwrap();
    e.start_task(2, "y").unwrap();
    let ids = |v: Vec<Task>| v.iter().map(|t| t.id).collect::<Vec<u64>>();
    assert_eq!(ids(e.list_tasks(None, None)), vec![1, 2, 3]);
    assert_eq!(ids(e.list_tasks(Some(TaskStatus::Pending), None)), vec![3]);
    assert_eq!(ids(e.list_tasks(None, Some("y"))), vec![2]);
    assert_eq!(ids(e.list_tasks(Some(TaskStatus::Claimed), Some("y"))), Vec::<u64>::new());
    assert_eq!(ids(e.list_tasks(Some(TaskStatus::InProgress), Some("y"))), vec![2]);
}

#[test]
fn task_changes_are_told_to_replicas() {
    let mut e = engine();
    e.set_replication(true);
    e.create_task(request("t"));
    e.claim_task(1, "ag").unwrap();
    e.start_task(1, "ag").unwrap();
    e.complete_task(1, "ag", "r".into()).unwrap();
    e.create_task(request("u"));
    e.claim_task(2, "ag").unwrap();
    e.fail_task(2, "ag", "r".into()).unwrap();
    let _ = e.claim_task(2, "ag");
    let events = e.take_replication_events();
    assert_eq!(events.len(), 6);
    assert!(matches!(&events[0], ReplicationEvent::TaskCreated { task } if task.id == 1));
    assert!(matches!(&events[1], ReplicationEvent::TaskClaimed { task } if task.status == TaskStatus::Claimed));
    assert!(matches!(&events[2], ReplicationEvent::TaskCompleted { task } if task.result.as_deref() == Some("r")));
    assert!(matches!(&events[3], ReplicationEvent::TaskCreated { task } if task.id == 2));
    assert!(matches!(&events[4], ReplicationEvent::TaskClaimed { .. }));
    assert!(matches!(&events[5], ReplicationEvent::TaskFailed { task } if task.status == TaskStatus::Failed));
}

#[test]
fn the_machine_as_plain_functions() {
    let pending = task_in(TaskStatus::Pending, None);
    let claimed = claim_task(&pending, "ag", at(2)).unwrap();
    assert_eq!(claimed.status, TaskStatus::Claimed);
    assert_eq!(claimed.assigned_agent.as_deref(), Some("ag"));
    assert_eq!(claimed.updated_at, at(2));
    assert_eq!(claimed.created_at, at(1));
    assert_eq!(claimed.title, "t");
    assert_eq!(
        claim_task(&claimed, "ag", at(3)).unwrap_err(),
        TaskError::WrongState { current: TaskStatus::Claimed, action: TaskAction::Claim }
    );
    assert_eq!(start_task(&claimed, "other", at(3)).unwrap_err(), TaskError::NotOwner);
    let started = start_task(&claimed, "ag", at(3)).unwrap();
    assert_eq!(started.status, TaskStatus::InProgress);
    assert_eq!(complete_task(&started, "other", "r", at(4)).unwrap_err(), TaskError::NotOwner);
    let completed = complete_task(&started, "ag", "r", at(4)).unwrap();
    assert_eq!(completed.status, TaskStatus::Completed);
    assert_eq!(completed.result.as_deref(), Some("r"));
    let failed = fail_task(&started, "anyone", "why", at(4)).unwrap();
    assert_eq!(failed.status, TaskStatus::Failed);
    assert_eq!(failed.result.as_deref(), Some("why"));
    assert!(fail_task(&pending, "ag", "why", at(4)).is_err());
    assert!(fail_task(&completed, "ag", "why", at(4)).is_err());
    assert!(advance(&task_in(TaskStatus::InProgress, None), TaskAction::Start, "ag", "", at(1)).is_err());
    assert_eq!(
        advance(&task_in(TaskStatus::Claimed, None), TaskAction::Start, "ag", "", at(1)).unwrap_err(),
        TaskError::NotOwner
    );
    assert!(status_accepts(TaskStatus::Pending, TaskAction::Cancel));
    assert!(status_accepts(TaskStatus::InProgress, TaskAction::Fail));
    assert!(!status_accepts(TaskStatus::Failed, TaskAction::Fail));
    assert!(!status_accepts(TaskStatus::Cancelled, TaskAction::Cancel));
}

#[test]
fn event_details_are_short() {
    let long: String = "é".repeat(150);
    let e = event_for(5, 1, TaskAction::Complete, "ag", &long, at(1));
    assert_eq!(e.id, 5);
    assert_eq!(e.event_type, TaskEventType::Completed);
    assert_eq!(e.details.unwrap(), format!("Task completed: {}", "é".repeat(100)));
    let f = event_for(6, 1, TaskAction::Fail, "ag", "short", at(1));
    assert_eq!(f.details.unwrap(), "Task failed: short");
    let c = event_for(7, 1, TaskAction::Claim, "ag", "", at(1));
    assert_eq!(c.details.unwrap(), "Task claimed by agent ag");
    assert_eq!(c.agent_id.as_deref(), Some("ag"));
    let s = event_for(8, 1, TaskAction::Start, "ag", "", at(1));
    assert_eq!(s.details.unwrap(), "Task started by agent ag");
    assert_eq!(head_of("abc", 2), "ab");
    assert_eq!(head_of("abc", 3), "abc");
    assert_eq!(head_of("abc", 0), "");
    assert_eq!(head_of("", 4), "");
}
