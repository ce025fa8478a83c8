use orchestrator::error::OrchError;
use orchestrator::node::{Node, NodeStatus};
use orchestrator::scheduler::{schedule_sweep, select_node};
use orchestrator::store::TaskStore;
use orchestrator::task::{Task, TaskStatus};
use orchestrator::worker::{report_for_outcome, tasks_for_node, tasks_to_start};

fn node(name: &str, status: NodeStatus, memory: i32, cpu_milli: u32) -> Node {
    let mut n = Node::new(name.to_string(), memory, cpu_milli);
    n.status = status;
    n
}

#[test]
fn select_node_takes_first_ready_node_with_capacity() {
    let task = Task::new("t".to_string(), "img".to_string());
    let nodes = vec![
        node("asleep", NodeStatus::NotReady, 4096, 4000),
        node("tiny", NodeStatus::Ready, 128, 4000),
        node("slow", NodeStatus::Ready, 4096, 250),
        node("fits", NodeStatus::Ready, 4096, 4000),
        node("also-fits", NodeStatus::Ready, 4096, 4000),
    ];
    assert_eq!(select_node(&nodes, &task), Some(3));
}

#[test]
fn select_node_with_no_fit_is_none() {
    let task = Task::new("t".to_string(), "img".to_string());
    let nodes = vec![node("asleep", NodeStatus::NotReady, 4096, 4000)];
    assert_eq!(select_node(&nodes, &task), None);
}

#[test]
fn sweep_schedules_every_pending_task_with_a_fit() {
    let mut store = TaskStore::new();
    for i in 0..3 {
        store.add_task(Task::new(format!("t{}", i), "img".to_string())).unwrap();
    }
    let mut big = Task::new("big".to_string(), "img".to_string());
    big.memory = 100000;
    let big_id = big.id.clone();
    store.add_task(big).unwrap();

    let nodes = vec![node("worker-1", NodeStatus::Ready, 4096, 4000)];
    schedule_sweep(&mut store, &nodes).unwrap();

    for task in store.list_tasks().unwrap() {
        if task.id == big_id {
            assert_eq!(task.status, TaskStatus::Pending);
            assert!(task.node_id.is_none());
        } else {
            assert_eq!(task.status, TaskStatus::Scheduled);
            assert_eq!(task.node_id.as_deref(), Some("worker-1"));
        }
    }
}

#[test]
fn sweep_leaves_non_pending_tasks_alone() {
    let mut store = TaskStore::new();
    let task = Task::new("t".to_string(), "img".to_string());
    let id = task.id.clone();
    store.add_task(task).unwrap();
    store
        .update_status(&id, TaskStatus::Running, Some("c".to_string()), 5)
        .unwrap();
    let nodes = vec![node("worker-1", NodeStatus::Ready, 4096, 4000)];
    schedule_sweep(&mut store, &nodes).unwrap();
    let found = store.get_task(&id).unwrap().unwrap();
    assert_eq!(found.status, TaskStatus::Running);
    assert!(found.node_id.is_none());
}

#[test]
fn assign_node_marks_scheduled() {
    let mut store = TaskStore::new();
    let task = Task::new("t".to_string(), "img".to_string());
    let id = task.id.clone();
    store.add_task(task).unwrap();
    let assigned = store.assign_node(&id, "worker-9".to_string()).unwrap();
    assert!(assigned);
    let found = store.get_task(&id).unwrap().unwrap();
    assert_eq!(found.status, TaskStatus::Scheduled);
    assert_eq!(found.node_id.as_deref(), Some("worker-9"));
    assert!(!store.assign_node("missing", "worker-9".to_string()).unwrap());
}

fn assigned_task(name: &str, node: Option<&str>) -> Task {
    let mut t = Task::new(name.to_string(), "img".to_string());
    t.node_id = node.map(|n| n.to_string());
    t
}

#[test]
fn tasks_for_node_keeps_only_this_nodes_tasks() {
    let tasks = vec![
        assigned_task("mine", Some("worker-1")),
        assigned_task("other", Some("worker-2")),
        assigned_task("unassigned", None),
        assigned_task("mine-too", Some("worker-1")),
    ];
    let mine = tasks_for_node(&tasks, "worker-1");
    let names: Vec<&str> = mine.iter().map(|t| t.name.as_str()).collect();
    assert_eq!(names, vec!["mine", "mine-too"]);
}

#[test]
fn tasks_to_start_skips_already_started_ids() {
    let first = assigned_task("first", Some("worker-1"));
    let second = assigned_task("second", Some("worker-1"));
    let started = vec![first.id.clone()];
    let tasks = vec![first, second];
    let fresh = tasks_to_start(&tasks, "worker-1", &started);
    assert_eq!(fresh.len(), 1);
    assert_eq!(fresh[0].name, "second");
}

#[test]
fn outcome_reports_running_or_failed() {
    let (status, cid) = report_for_outcome(Ok("abc".to_string()));
    assert_eq!(status, TaskStatus::Running);
    assert_eq!(cid.as_deref(), Some("abc"));
    let (status, cid) = report_for_outcome(Err(OrchError::DockerError("no image".to_string())));
    assert_eq!(status, TaskStatus::Failed);
    assert!(cid.is_none());
}
