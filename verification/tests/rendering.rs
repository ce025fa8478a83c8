use orchestrator::json::{status_report_body, task_to_json, tasks_to_json};
use orchestrator::task::{Task, TaskStatus};
use orchestrator::worker::{container_name_for, env_strings};

fn sample_task() -> Task {
    Task {
        id: "aaaaaaaa-bbbb-cccc-dddd-eeeeeeeeeeee".to_string(),
        name: "sample".to_string(),
        image: "alpine:3".to_string(),
        memory: 512,
        cpu_milli: 1250,
        env: vec![("A".to_string(), "1".to_string()), ("B".to_string(), "2".to_string())],
        status: TaskStatus::Scheduled,
        created_at: 1700000000000,
        started_at: None,
        node_id: Some("worker-1".to_string()),
        container_id: None,
    }
}

#[test]
fn task_json_has_every_field() {
    let rendered = task_to_json(&sample_task());
    let v: serde_json::Value = serde_json::from_str(&rendered).unwrap();
    assert_eq!(v["id"].as_str(), Some("aaaaaaaa-bbbb-cccc-dddd-eeeeeeeeeeee"));
    assert_eq!(v["name"].as_str(), Some("sample"));
    assert_eq!(v["image"].as_str(), Some("alpine:3"));
    assert_eq!(v["memory"].as_i64(), Some(512));
    assert_eq!(v["cpu"].as_f64(), Some(1.25));
    assert_eq!(v["env"]["A"].as_str(), Some("1"));
    assert_eq!(v["env"]["B"].as_str(), Some("2"));
    assert_eq!(v["status"].as_str(), Some("Scheduled"));
    assert_eq!(v["created_at"].as_i64(), Some(1700000000000));
    assert!(v["started_at"].is_null());
    assert_eq!(v["node_id"].as_str(), Some("worker-1"));
    assert!(v["container_id"].is_null());
}

#[test]
fn task_json_escapes_what_json_requires() {
    let mut task = sample_task();
    task.name = "a\"b\\c\nd\te".to_string();
    task.image = "\u{1}control".to_string();
    let rendered = task_to_json(&task);
    let v: serde_json::Value = serde_json::from_str(&rendered).unwrap();
    assert_eq!(v["name"].as_str(), Some("a\"b\\c\nd\te"));
    assert_eq!(v["image"].as_str(), Some("\u{1}control"));
}

#[test]
fn task_json_keeps_unicode_text() {
    let mut task = sample_task();
    task.name = "caf\u{e9} \u{1f680}".to_string();
    let rendered = task_to_json(&task);
    let v: serde_json::Value = serde_json::from_str(&rendered).unwrap();
    assert_eq!(v["name"].as_str(), Some("caf\u{e9} \u{1f680}"));
}

#[test]
fn cpu_fraction_renders_exactly() {
    let mut task = sample_task();
    for (milli, expect) in [(500u32, 0.5f64), (1000, 1.0), (250, 0.25), (1375, 1.375), (2, 0.002)]
    {
        task.cpu_milli = milli;
        let v: serde_json::Value = serde_json::from_str(&task_to_json(&task)).unwrap();
        assert_eq!(v["cpu"].as_f64(), Some(expect), "milli-cores: {}", milli);
    }
}

#[test]
fn empty_task_list_renders_as_empty_array() {
    let rendered = tasks_to_json(&Vec::new());
    assert_eq!(rendered, "[]");
}

#[test]
fn task_list_renders_each_element() {
    let mut second = sample_task();
    second.id = "11111111-2222-3333-4444-555555555555".to_string();
    let rendered = tasks_to_json(&vec![sample_task(), second]);
    let v: serde_json::Value = serde_json::from_str(&rendered).unwrap();
    let arr = v.as_array().unwrap();
    assert_eq!(arr.len(), 2);
    assert_eq!(arr[0]["id"].as_str(), Some("aaaaaaaa-bbbb-cccc-dddd-eeeeeeeeeeee"));
    assert_eq!(arr[1]["id"].as_str(), Some("11111111-2222-3333-4444-555555555555"));
}

#[test]
fn status_report_body_is_the_exact_wire_shape() {
    let body = status_report_body(TaskStatus::Running, &Some("abc123".to_string()));
    assert_eq!(body, "{\"status\":\"Running\",\"container_id\":\"abc123\"}");
    let body = status_report_body(TaskStatus::Failed, &None);
    assert_eq!(body, "{\"status\":\"Failed\",\"container_id\":null}");
}

#[test]
fn container_names_carry_the_task_id() {
    assert_eq!(container_name_for("abc"), "rust-orch-abc");
}

#[test]
fn env_strings_render_key_value_pairs() {
    let env = vec![("PATH".to_string(), "/bin".to_string()), ("X".to_string(), "".to_string())];
    let rendered = env_strings(&env);
    assert_eq!(rendered, vec!["PATH=/bin".to_string(), "X=".to_string()]);
}
