//! Worker-side reconciliation decisions: which tasks of the polled feed
//! belong to this node, which of them still need starting, and what to
//! report back for each outcome of the container runtime. The loop around
//! them — polling, driving the runtime, reporting — performs no decisions
//! of its own.

use vstd::prelude::*;

use crate::error::OrchError;
use crate::task::{opt_view, task_models, Task, TaskModel, TaskStatus};
use crate::text::{push_char, str_eq};
use vstd::string::StringExecFns;

verus! {

/// Whether `l` holds the string `s`.
pub open spec fn seq_contains_str(l: Seq<Seq<char>>, s: Seq<char>) -> bool {
    exists|i: int| 0 <= i < l.len() && l[i] == s
}

/// The views of a vector of strings.
pub open spec fn str_models(v: Seq<String>) -> Seq<Seq<char>> {
    Seq::new(v.len(), |i: int| v[i]@)
}

/// The tasks of `s` assigned to `node`, in feed order.
pub open spec fn assigned_to(s: Seq<TaskModel>, node: Seq<char>) -> Seq<TaskModel>
    decreases s.len(),
{
    if s.len() == 0 {
        Seq::empty()
    } else if s[0].node_id == Some(node) {
        seq![s[0]] + assigned_to(s.drop_first(), node)
    } else {
        assigned_to(s.drop_first(), node)
    }
}

/// Filtering one more task keeps it exactly when it is assigned to `node`.
pub proof fn lemma_assigned_to_push(s: Seq<TaskModel>, node: Seq<char>, t: TaskModel)
    ensures
        assigned_to(s.push(t), node) == if t.node_id == Some(node) {
            assigned_to(s, node).push(t)
        } else {
            assigned_to(s, node)
        },
    decreases s.len(),
{
    if s.len() == 0 {
        assert(s.push(t).drop_first() =~= s);
        if t.node_id == Some(node) {
            assert(seq![t] + assigned_to(s, node) =~= assigned_to(s, node).push(t));
        }
    } else {
        assert(s.push(t).drop_first() =~= s.drop_first().push(t));
        lemma_assigned_to_push(s.drop_first(), node, t);
        if s[0].node_id == Some(node) && t.node_id == Some(node) {
            assert(seq![s[0]] + assigned_to(s.drop_first(), node).push(t) =~= (seq![s[0]]
                + assigned_to(s.drop_first(), node)).push(t));
        }
    }
}

/// The tasks of `s` assigned to `node` whose identifier is not yet in
/// `started`, in feed order.
pub open spec fn to_start(s: Seq<TaskModel>, node: Seq<char>, started: Seq<Seq<char>>) -> Seq<
    TaskModel,
>
    decreases s.len(),
{
    if s.len() == 0 {
        Seq::empty()
    } else if s[0].node_id == Some(node) && !seq_contains_str(started, s[0].id) {
        seq![s[0]] + to_start(s.drop_first(), node, started)
    } else {
        to_start(s.drop_first(), node, started)
    }
}

/// Filtering one more task keeps it exactly when it is assigned to `node`
/// and not yet started.
pub proof fn lemma_to_start_push(
    s: Seq<TaskModel>,
    node: Seq<char>,
    started: Seq<Seq<char>>,
    t: TaskModel,
)
    ensures
        to_start(s.push(t), node, started) == if t.node_id == Some(node) && !seq_contains_str(
            started,
            t.id,
        ) {
            to_start(s, node, started).push(t)
        } else {
            to_start(s, node, started)
        },
    decreases s.len(),
{
    if s.len() == 0 {
        assert(s.push(t).drop_first() =~= s);
        if t.node_id == Some(node) && !seq_contains_str(started, t.id) {
            assert(seq![t] + to_start(s, node, started) =~= to_start(s, node, started).push(t));
        }
    } else {
        assert(s.push(t).drop_first() =~= s.drop_first().push(t));
        lemma_to_start_push(s.drop_first(), node, started, t);
        if s[0].node_id == Some(node) && !seq_contains_str(started, s[0].id) && t.node_id == Some(
            node,
        ) && !seq_contains_str(started, t.id) {
            assert(seq![s[0]] + to_start(s.drop_first(), node, started).push(t) =~= (seq![s[0]]
                + to_start(s.drop_first(), node, started)).push(t));
        }
    }
}

/// Whether one of the strings in `list` is `s`.
pub fn contains_str(list: &Vec<String>, s: &str) -> (r: bool)
    ensures
        r == seq_contains_str(str_models(list@), s@),
{
    let mut i: usize = 0;
    while i < list.len()
        invariant
            i <= list@.len(),
            forall|j: int| 0 <= j < i ==> (#[trigger] list@[j])@ != s@,
        decreases list@.len() - i,
    {
        if str_eq(list[i].as_str(), s) {
            assert(str_models(list@)[i as int] == s@);
            return true;
        }
        i = i + 1;
    }
    assert forall|j: int| 0 <= j < str_models(list@).len() implies str_models(list@)[j] != s@ by {
        assert(str_models(list@)[j] == list@[j]@);
    }
    false
}

/// Whether `t` is assigned to the node named `node_id`.
fn is_for_node(t: &Task, node_id: &str) -> (r: bool)
    ensures
        r == (t@.node_id == Some(node_id@)),
{
    match &t.node_id {
        Some(n) => str_eq(n.as_str(), node_id),
        None => false,
    }
}

/// The tasks of the feed assigned to this node, as copies, in feed order.
pub fn tasks_for_node(tasks: &Vec<Task>, node_id: &str) -> (r: Vec<Task>)
    ensures
        task_models(r@) == assigned_to(task_models(tasks@), node_id@),
{
    let ghost m = task_models(tasks@);
    let mut out: Vec<Task> = Vec::new();
    let mut i: usize = 0;
    while i < tasks.len()
        invariant
            m == task_models(tasks@),
            i <= tasks@.len(),
            task_models(out@) == assigned_to(m.take(i as int), node_id@),
        decreases tasks@.len() - i,
    {
        proof {
            assert(m.take(i as int + 1) =~= m.take(i as int).push(m[i as int]));
            lemma_assigned_to_push(m.take(i as int), node_id@, m[i as int]);
        }
        if is_for_node(&tasks[i], node_id) {
            let t = tasks[i].clone();
            out.push(t);
            proof {
                assert(task_models(out@) =~= assigned_to(m.take(i as int), node_id@).push(
                    m[i as int],
                ));
            }
        }
        i = i + 1;
    }
    proof {
        assert(m.take(m.len() as int) =~= m);
    }
    out
}

/// The tasks of the feed this worker should start now: assigned to this
/// node and not among the identifiers it has already started. Guards
/// against re-attempting a task whose start was reported but not yet
/// recorded by the manager.
pub fn tasks_to_start(tasks: &Vec<Task>, node_id: &str, started: &Vec<String>) -> (r: Vec<Task>)
    ensures
        task_models(r@) == to_start(task_models(tasks@), node_id@, str_models(started@)),
{
    let ghost m = task_models(tasks@);
    let ghost st = str_models(started@);
    let mut out: Vec<Task> = Vec::new();
    let mut i: usize = 0;
    while i < tasks.len()
        invariant
            m == task_models(tasks@),
            st == str_models(started@),
            i <= tasks@.len(),
            task_models(out@) == to_start(m.take(i as int), node_id@, st),
        decreases tasks@.len() - i,
    {
        proof {
            assert(m.take(i as int + 1) =~= m.take(i as int).push(m[i as int]));
            lemma_to_start_push(m.take(i as int), node_id@, st, m[i as int]);
        }
        if is_for_node(&tasks[i], node_id) && !contains_str(started, tasks[i].id.as_str()) {
            let t = tasks[i].clone();
            out.push(t);
            proof {
                assert(task_models(out@) =~= to_start(m.take(i as int), node_id@, st).push(
                    m[i as int],
                ));
            }
        }
        i = i + 1;
    }
    proof {
        assert(m.take(m.len() as int) =~= m);
    }
    out
}

/// What to report back for one attempt to start a task: `Running` with the
/// container identifier on success, `Failed` without one on failure.
pub fn report_for_outcome(outcome: Result<String, OrchError>) -> (r: (TaskStatus, Option<String>))
    ensures
        match outcome {
            Ok(cid) => r.0 == TaskStatus::Running && opt_view(r.1) == Some(cid@),
            Err(_) => r.0 == TaskStatus::Failed && r.1 is None,
        },
{
    match outcome {
        Ok(cid) => (TaskStatus::Running, Some(cid)),
        Err(_) => (TaskStatus::Failed, None),
    }
}

/// The name under which a task's container is created: a fixed prefix
/// followed by the task identifier.
pub fn container_name_for(task_id: &str) -> (r: String)
    ensures
        r@ == "rust-orch-"@ + task_id@,
{
    let mut s = "rust-orch-".to_owned();
    s.append(task_id);
    s
}

/// The environment of a task rendered for the container runtime: one
/// `key=value` string per variable, in order.
pub fn env_strings(env: &Vec<(String, String)>) -> (r: Vec<String>)
    ensures
        r@.len() == env@.len(),
        forall|i: int|
            0 <= i < env@.len() ==> (#[trigger] r@[i])@ == env@[i].0@ + "="@ + env@[i].1@,
{
    let mut out: Vec<String> = Vec::new();
    let mut i: usize = 0;
    while i < env.len()
        invariant
            i <= env@.len(),
            out@.len() == i,
            forall|j: int|
                0 <= j < i ==> (#[trigger] out@[j])@ == env@[j].0@ + "="@ + env@[j].1@,
        decreases env@.len() - i,
    {
        let mut s = env[i].0.clone();
        push_char(&mut s, '=');
        s.append(env[i].1.as_str());
        proof {
            reveal_strlit("=");
            assert(s@ =~= env@[i as int].0@ + "="@ + env@[i as int].1@);
        }
        out.push(s);
        i = i + 1;
    }
    out
}

} // verus!
