use orchestrator::node::{Node, NodeStatus};
use orchestrator::protocol::handle_request;
use orchestrator::scheduler::schedule_sweep;
use orchestrator::store::TaskStore;
use orchestrator::task::TaskStatus;

fn body_of_response(resp: &str) -> &str {
    match resp.find("\r\n\r\n") {
        Some(i) => &resp[i + 4..],
        None => resp,
    }
}

fn ready_worker() -> Node {
    let mut node = Node::new("worker-1".to_string(), 4096, 4000);
    node.status = NodeStatus::Ready;
    node
}

#[test]
fn submit_schedule_and_report_running() {
    let mut store = TaskStore::new();

    // submit
    let req = "POST /tasks HTTP/1.1\r\nContent-Type: application/json\r\n\r\n{\"name\":\"web\",\"image\":\"nginx:latest\"}";
    let resp = handle_request(&mut store, req).unwrap();
    assert!(resp.starts_with("HTTP/1.1 201 CREATED\r\n"));
    let created: serde_json::Value = serde_json::from_str(body_of_response(&resp)).unwrap();
    assert_eq!(created["name"].as_str(), Some("web"));
    assert_eq!(created["image"].as_str(), Some("nginx:latest"));
    assert_eq!(created["memory"].as_i64(), Some(256));
    assert_eq!(created["cpu"].as_f64(), Some(0.5));
    assert_eq!(created["status"].as_str(), Some("Pending"));
    assert!(created["node_id"].is_null());
    assert!(created["container_id"].is_null());
    let id = created["id"].as_str().unwrap().to_string();

    // scheduler sweep
    let nodes = vec![ready_worker()];
    schedule_sweep(&mut store, &nodes).unwrap();

    // the feed now carries the task, scheduled on the node
    let resp = handle_request(&mut store, "GET /tasks HTTP/1.1\r\n\r\n").unwrap();
    assert!(resp.starts_with("HTTP/1.1 200 OK\r\n"));
    let feed: serde_json::Value = serde_json::from_str(body_of_response(&resp)).unwrap();
    let feed = feed.as_array().unwrap();
    assert_eq!(feed.len(), 1);
    assert_eq!(feed[0]["id"].as_str(), Some(id.as_str()));
    assert_eq!(feed[0]["status"].as_str(), Some("Scheduled"));
    assert_eq!(feed[0]["node_id"].as_str(), Some("worker-1"));

    // the worker reports the container running
    let put = format!(
        "PUT /tasks/{}/status HTTP/1.1\r\nContent-Type: application/json\r\n\r\n{{\"status\":\"Running\",\"container_id\":\"abc123\"}}",
        id
    );
    let resp = handle_request(&mut store, &put).unwrap();
    assert!(resp.starts_with("HTTP/1.1 200 OK\r\n"));
    let found = store.get_task(&id).unwrap().unwrap();
    assert_eq!(found.status, TaskStatus::Running);
    assert_eq!(found.container_id.as_deref(), Some("abc123"));

    // a running task leaves the feed
    let resp = handle_request(&mut store, "GET /tasks HTTP/1.1\r\n\r\n").unwrap();
    let feed: serde_json::Value = serde_json::from_str(body_of_response(&resp)).unwrap();
    assert_eq!(feed.as_array().unwrap().len(), 0);
}

#[test]
fn put_with_malformed_id_is_not_found_and_changes_nothing() {
    let mut store = TaskStore::new();
    let resp = handle_request(
        &mut store,
        "POST /tasks HTTP/1.1\r\n\r\n{\"name\":\"web\",\"image\":\"img\"}",
    )
    .unwrap();
    assert!(resp.starts_with("HTTP/1.1 201"));
    let before = orchestrator::json::tasks_to_json(&store.list_tasks().unwrap());

    let resp = handle_request(
        &mut store,
        "PUT /tasks/not-a-uuid/status HTTP/1.1\r\n\r\n{\"status\":\"Running\",\"container_id\":null}",
    )
    .unwrap();
    assert!(resp.starts_with("HTTP/1.1 404 NOT FOUND\r\n"));
    let after = orchestrator::json::tasks_to_json(&store.list_tasks().unwrap());
    assert_eq!(before, after);
}

#[test]
fn post_with_unparseable_body_is_bad_request() {
    let mut store = TaskStore::new();
    let resp = handle_request(&mut store, "POST /tasks HTTP/1.1\r\n\r\nthis is not json").unwrap();
    assert!(resp.starts_with("HTTP/1.1 400 BAD REQUEST\r\n"));
    assert_eq!(store.list_tasks().unwrap().len(), 0);
}

#[test]
fn post_with_missing_name_is_bad_request() {
    let mut store = TaskStore::new();
    let resp = handle_request(&mut store, "POST /tasks HTTP/1.1\r\n\r\n{\"image\":\"img\"}").unwrap();
    assert!(resp.starts_with("HTTP/1.1 400 BAD REQUEST\r\n"));
    assert_eq!(store.list_tasks().unwrap().len(), 0);
}

#[test]
fn post_with_missing_image_is_bad_request() {
    let mut store = TaskStore::new();
    let resp = handle_request(&mut store, "POST /tasks HTTP/1.1\r\n\r\n{\"name\":\"web\"}").unwrap();
    assert!(resp.starts_with("HTTP/1.1 400 BAD REQUEST\r\n"));
    assert_eq!(store.list_tasks().unwrap().len(), 0);
}

#[test]
fn post_with_non_string_field_is_bad_request() {
    let mut store = TaskStore::new();
    let resp = handle_request(
        &mut store,
        "POST /tasks HTTP/1.1\r\n\r\n{\"name\":7,\"image\":\"img\"}",
    )
    .unwrap();
    assert!(resp.starts_with("HTTP/1.1 400 BAD REQUEST\r\n"));
    assert_eq!(store.list_tasks().unwrap().len(), 0);
}

#[test]
fn put_unknown_uuid_is_not_found() {
    let mut store = TaskStore::new();
    let resp = handle_request(
        &mut store,
        "PUT /tasks/aaaaaaaa-bbbb-cccc-dddd-eeeeeeeeeeee/status HTTP/1.1\r\n\r\n{\"status\":\"Failed\",\"container_id\":null}",
    )
    .unwrap();
    assert!(resp.starts_with("HTTP/1.1 404 NOT FOUND\r\n"));
}

#[test]
fn put_with_unknown_status_name_is_not_found() {
    let mut store = TaskStore::new();
    let resp = handle_request(
        &mut store,
        "PUT /tasks/aaaaaaaa-bbbb-cccc-dddd-eeeeeeeeeeee/status HTTP/1.1\r\n\r\n{\"status\":\"Sleeping\",\"container_id\":null}",
    )
    .unwrap();
    assert!(resp.starts_with("HTTP/1.1 404 NOT FOUND\r\n"));
}

#[test]
fn unknown_route_is_not_found() {
    let mut store = TaskStore::new();
    let resp = handle_request(&mut store, "DELETE /tasks HTTP/1.1\r\n\r\n").unwrap();
    assert!(resp.starts_with("HTTP/1.1 404 NOT FOUND\r\n"));
}

#[test]
fn feed_of_empty_store_is_empty_array() {
    let mut store = TaskStore::new();
    let resp = handle_request(&mut store, "GET /tasks HTTP/1.1\r\n\r\n").unwrap();
    assert!(resp.starts_with("HTTP/1.1 200 OK\r\n"));
    assert_eq!(body_of_response(&resp), "[]");
}

#[test]
fn content_length_counts_body_bytes() {
    let mut store = TaskStore::new();
    let resp = handle_request(
        &mut store,
        "POST /tasks HTTP/1.1\r\n\r\n{\"name\":\"w\u{00e9}b\",\"image\":\"img\"}",
    )
    .unwrap();
    let head_end = resp.find("\r\n\r\n").unwrap();
    let body = &resp[head_end + 4..];
    let declared: usize = resp
        .lines()
        .find(|l| l.starts_with("Content-Length: "))
        .unwrap()
        .trim_start_matches("Content-Length: ")
        .parse()
        .unwrap();
    assert_eq!(declared, body.as_bytes().len());
    let created: serde_json::Value = serde_json::from_str(body).unwrap();
    assert_eq!(created["name"].as_str(), Some("w\u{00e9}b"));
}

#[test]
fn body_padding_from_a_read_buffer_is_tolerated() {
    let mut store = TaskStore::new();
    let req = "POST /tasks HTTP/1.1\r\n\r\n{\"name\":\"web\",\"image\":\"img\"}\u{0}\u{0}\u{0}";
    let resp = handle_request(&mut store, req).unwrap();
    assert!(resp.starts_with("HTTP/1.1 201"));
}

#[test]
fn a_second_sweep_changes_nothing() {
    let mut store = TaskStore::new();
    handle_request(&mut store, "POST /tasks HTTP/1.1\r\n\r\n{\"name\":\"a\",\"image\":\"i\"}").unwrap();
    let nodes = vec![ready_worker()];
    schedule_sweep(&mut store, &nodes).unwrap();
    let once = orchestrator::json::tasks_to_json(&store.list_tasks().unwrap());
    schedule_sweep(&mut store, &nodes).unwrap();
    let twice = orchestrator::json::tasks_to_json(&store.list_tasks().unwrap());
    assert_eq!(once, twice);
}
