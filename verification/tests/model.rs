use orchestrator::error::OrchError;
use orchestrator::node::{Node, NodeStatus};
use orchestrator::store::TaskStore;
use orchestrator::task::{Task, TaskStatus};

#[test]
fn test_new_node() {
    let node = Node::new("worker-1".to_string(), 4096, 4000);
    assert_eq!(node.name, "worker-1");
    assert_eq!(node.total_memory, 4096);
    assert_eq!(node.available_memory, 4096);
    assert!(matches!(node.status, NodeStatus::NotReady));
}

#[test]
fn test_new_task_defaults() {
    let task = Task::new("test-task".to_string(), "alpine:latest".to_string());
    assert_eq!(task.name, "test-task");
    assert_eq!(task.image, "alpine:latest");
    assert_eq!(task.status, TaskStatus::Pending);
    assert!(task.node_id.is_none());
    assert!(task.container_id.is_none());
}

#[test]
fn test_unique_ids() {
    let task1 = Task::new("t1".to_string(), "img".to_string());
    let task2 = Task::new("t2".to_string(), "img".to_string());
    assert_ne!(task1.id, task2.id);
}

#[test]
fn task_defaults_are_conservative() {
    let task = Task::new("t".to_string(), "img".to_string());
    assert_eq!(task.memory, 256);
    assert_eq!(task.cpu_milli, 500);
    assert!(task.env.is_empty());
    assert!(task.started_at.is_none());
}

#[test]
fn task_id_is_canonical_uuid_text() {
    let task = Task::new("t".to_string(), "img".to_string());
    let id: Vec<char> = task.id.chars().collect();
    assert_eq!(id.len(), 36);
    for (i, c) in id.iter().enumerate() {
        if i == 8 || i == 13 || i == 18 || i == 23 {
            assert_eq!(*c, '-');
        } else {
            assert!(c.is_ascii_hexdigit() && !c.is_ascii_uppercase());
        }
    }
    // the identifier the uuid crate would print for itself
    let parsed = uuid::Uuid::parse_str(&task.id).unwrap();
    assert_eq!(parsed.to_string(), task.id);
}

#[test]
fn store_get_missing_is_none() {
    let store = TaskStore::new();
    let found = store.get_task("no-such-id").unwrap();
    assert!(found.is_none());
}

#[test]
fn store_add_then_get() {
    let mut store = TaskStore::new();
    let task = Task::new("t".to_string(), "img".to_string());
    let id = task.id.clone();
    store.add_task(task).unwrap();
    let found = store.get_task(&id).unwrap().unwrap();
    assert_eq!(found.id, id);
    assert_eq!(found.name, "t");
    assert_eq!(found.status, TaskStatus::Pending);
}

#[test]
fn store_rejects_duplicate_identifier() {
    let mut store = TaskStore::new();
    let task = Task::new("t".to_string(), "img".to_string());
    let mut twin = Task::new("t2".to_string(), "img".to_string());
    twin.id = task.id.clone();
    store.add_task(task).unwrap();
    let refused = store.add_task(twin);
    assert!(matches!(refused, Err(OrchError::TaskStoreError(_))));
    assert_eq!(store.list_tasks().unwrap().len(), 1);
}

#[test]
fn update_status_missing_id_changes_nothing() {
    let mut store = TaskStore::new();
    let task = Task::new("t".to_string(), "img".to_string());
    store.add_task(task).unwrap();
    let before = orchestrator::json::tasks_to_json(&store.list_tasks().unwrap());
    let updated = store
        .update_status("aaaaaaaa-bbbb-cccc-dddd-eeeeeeeeeeee", TaskStatus::Running, None, 7)
        .unwrap();
    assert!(!updated);
    let after = orchestrator::json::tasks_to_json(&store.list_tasks().unwrap());
    assert_eq!(before, after);
}

#[test]
fn update_to_running_is_observed_by_get() {
    let mut store = TaskStore::new();
    let task = Task::new("t".to_string(), "img".to_string());
    let id = task.id.clone();
    store.add_task(task).unwrap();
    let updated = store
        .update_status(&id, TaskStatus::Running, Some("abc123".to_string()), 42)
        .unwrap();
    assert!(updated);
    let found = store.get_task(&id).unwrap().unwrap();
    assert_eq!(found.status, TaskStatus::Running);
    assert_eq!(found.container_id.as_deref(), Some("abc123"));
    assert_eq!(found.started_at, Some(42));
}

#[test]
fn update_with_empty_container_id_keeps_old_one() {
    let mut store = TaskStore::new();
    let task = Task::new("t".to_string(), "img".to_string());
    let id = task.id.clone();
    store.add_task(task).unwrap();
    store
        .update_status(&id, TaskStatus::Running, Some("abc123".to_string()), 1)
        .unwrap();
    store
        .update_status(&id, TaskStatus::Failed, Some(String::new()), 2)
        .unwrap();
    let found = store.get_task(&id).unwrap().unwrap();
    assert_eq!(found.status, TaskStatus::Failed);
    assert_eq!(found.container_id.as_deref(), Some("abc123"));
}

#[test]
fn list_twice_with_no_writes_is_equal() {
    let mut store = TaskStore::new();
    for i in 0..4 {
        let task = Task::new(format!("t{}", i), "img".to_string());
        store.add_task(task).unwrap();
    }
    let first = orchestrator::json::tasks_to_json(&store.list_tasks().unwrap());
    let second = orchestrator::json::tasks_to_json(&store.list_tasks().unwrap());
    assert_eq!(first, second);
}

#[test]
fn n_adds_with_distinct_ids_all_land() {
    let mut store = TaskStore::new();
    let n = 25;
    for i in 0..n {
        let task = Task::new(format!("t{}", i), "img".to_string());
        store.add_task(task).unwrap();
    }
    let listed = store.list_tasks().unwrap();
    assert_eq!(listed.len(), n);
    for i in 0..n {
        for j in 0..i {
            assert_ne!(listed[i].id, listed[j].id);
        }
    }
}

#[test]
fn error_messages_name_their_kind() {
    assert_eq!(
        OrchError::DockerError("boom".to_string()).message(),
        "Docker operation failed: boom"
    );
    assert_eq!(OrchError::TaskNotFound("x".to_string()).message(), "Task not found: x");
    assert_eq!(OrchError::NodeNotFound("n".to_string()).message(), "Node not found: n");
    assert_eq!(OrchError::SchedulerError("s".to_string()).message(), "Scheduler error: s");
    assert_eq!(OrchError::NetworkError("net".to_string()).message(), "Network error: net");
    assert_eq!(OrchError::TaskStoreError("t".to_string()).message(), "Task store error: t");
}
