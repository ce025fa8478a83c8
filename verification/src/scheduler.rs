//! The scheduling sweep: assigns every pending task to a node so that,
//! eventually, every submitted task either runs or fails. Node selection is
//! its own decision point, so that placement policies can be swapped without
//! touching the sweep.

use vstd::prelude::*;

use crate::error::OrchError;
use crate::node::{Node, NodeStatus};
use crate::store::{assigned_task, lemma_lookup_at, TaskStore};
use crate::task::{Task, TaskModel, TaskStatus};

verus! {

/// Whether `n` can take `t`: ready, with enough available memory and CPU.
pub open spec fn node_fits(n: Node, t: TaskModel) -> bool {
    &&& n.status == NodeStatus::Ready
    &&& n.available_memory as int >= t.memory
    &&& n.available_cpu_milli as int >= t.cpu_milli
}

/// The first node in `nodes` that can take `t`, if any.
pub open spec fn selected_node(nodes: Seq<Node>, t: TaskModel) -> Option<Node>
    decreases nodes.len(),
{
    if nodes.len() == 0 {
        None
    } else if node_fits(nodes[0], t) {
        Some(nodes[0])
    } else {
        selected_node(nodes.drop_first(), t)
    }
}

/// When position `i` holds the first fitting node, selection yields it.
proof fn lemma_selected_at(nodes: Seq<Node>, t: TaskModel, i: int)
    requires
        0 <= i < nodes.len(),
        node_fits(nodes[i], t),
        forall|j: int| 0 <= j < i ==> !node_fits(#[trigger] nodes[j], t),
    ensures
        selected_node(nodes, t) == Some(nodes[i]),
    decreases i,
{
    if i > 0 {
        assert(forall|j: int|
            0 <= j < i - 1 ==> (#[trigger] nodes.drop_first()[j]) == nodes[j + 1]);
        lemma_selected_at(nodes.drop_first(), t, i - 1);
    }
}

/// When no node fits, selection fails.
proof fn lemma_selected_none(nodes: Seq<Node>, t: TaskModel)
    requires
        forall|j: int| 0 <= j < nodes.len() ==> !node_fits(#[trigger] nodes[j], t),
    ensures
        selected_node(nodes, t) is None,
    decreases nodes.len(),
{
    if nodes.len() > 0 {
        assert(forall|j: int|
            0 <= j < nodes.len() - 1 ==> (#[trigger] nodes.drop_first()[j]) == nodes[j + 1]);
        lemma_selected_none(nodes.drop_first(), t);
    }
}

/// Picks a node for `task`: the first ready node with enough available
/// capacity, as an index into `nodes`.
pub fn select_node(nodes: &Vec<Node>, task: &Task) -> (r: Option<usize>)
    ensures
        match r {
            Some(i) => i < nodes@.len() && selected_node(nodes@, task@) == Some(nodes@[i as int]),
            None => selected_node(nodes@, task@) is None,
        },
{
    let mut i: usize = 0;
    while i < nodes.len()
        invariant
            i <= nodes@.len(),
            forall|j: int| 0 <= j < i ==> !node_fits(#[trigger] nodes@[j], task@),
        decreases nodes@.len() - i,
    {
        let n = &nodes[i];
        if n.status == NodeStatus::Ready && n.available_memory >= task.memory
            && n.available_cpu_milli >= task.cpu_milli {
            proof {
                lemma_selected_at(nodes@, task@, i as int);
            }
            return Some(i);
        }
        i = i + 1;
    }
    proof {
        lemma_selected_none(nodes@, task@);
    }
    None
}

/// One task after a sweep: a pending task that some node can take is
/// assigned to the first such node; everything else is untouched.
pub open spec fn swept_task(t: TaskModel, nodes: Seq<Node>) -> TaskModel {
    if t.status == TaskStatus::Pending {
        match selected_node(nodes, t) {
            Some(n) => assigned_task(t, n.id@),
            None => t,
        }
    } else {
        t
    }
}

/// The whole store after one sweep.
pub open spec fn swept_store(s: Seq<TaskModel>, nodes: Seq<Node>) -> Seq<TaskModel> {
    Seq::new(s.len(), |i: int| swept_task(s[i], nodes))
}

/// The store midway through a sweep: the first `k` tasks processed.
spec fn sweep_prefix(s: Seq<TaskModel>, nodes: Seq<Node>, k: int) -> Seq<TaskModel> {
    Seq::new(
        s.len(),
        |j: int| if j < k {
            swept_task(s[j], nodes)
        } else {
            s[j]
        },
    )
}

/// One scheduling sweep: takes a snapshot of the store and assigns every
/// pending task to the first ready node with sufficient available capacity,
/// advancing it to `Scheduled`. Tasks in any other state, and pending tasks
/// no node can take, are left untouched. No assignment is attempted twice:
/// each task is processed once per sweep.
pub fn schedule_sweep(store: &mut TaskStore, nodes: &Vec<Node>) -> (r: Result<(), OrchError>)
    requires
        old(store).wf(),
    ensures
        final(store).wf(),
        r is Ok,
        final(store)@ == swept_store(old(store)@, nodes@),
{
    let snapshot = match store.list_tasks() {
        Ok(v) => v,
        Err(e) => {
            return Err(e);
        },
    };
    let ghost s0 = old(store)@;
    let n = snapshot.len();
    let mut i: usize = 0;
    while i < n
        invariant
            old(store).wf(),
            store.wf(),
            s0 == old(store)@,
            n == snapshot@.len(),
            snapshot@.len() == s0.len(),
            forall|j: int| 0 <= j < s0.len() ==> (#[trigger] snapshot@[j])@ == s0[j],
            i <= n,
            store@ == sweep_prefix(s0, nodes@, i as int),
        decreases n - i,
    {
        let t = &snapshot[i];
        if t.status == TaskStatus::Pending {
            match select_node(nodes, t) {
                Some(nidx) => {
                    let node_name = nodes[nidx].id.clone();
                    let ghost tid = s0[i as int].id;
                    let ghost sb = store@;
                    proof {
                        assert forall|j: int| 0 <= j < i implies (#[trigger] sb[j]).id != tid by {
                            assert(sb[j] == swept_task(s0[j], nodes@));
                            assert(sb[j].id == s0[j].id);
                            assert(s0[j].id != s0[i as int].id);
                        }
                        assert(sb[i as int] == s0[i as int]);
                        lemma_lookup_at(sb, tid, i as int);
                    }
                    let _ = store.assign_node(t.id.as_str(), node_name);
                    proof {
                        assert forall|j: int|
                            0 <= j < s0.len() implies store@[j] == sweep_prefix(
                            s0,
                            nodes@,
                            i as int + 1,
                        )[j] by {
                            if j < i {
                                assert(sb[j].id == s0[j].id);
                                assert(sb[j].id != tid);
                            } else if j == i {
                                assert(sb[j] == s0[j]);
                                assert(swept_task(s0[j], nodes@) == assigned_task(
                                    s0[j],
                                    nodes@[nidx as int].id@,
                                ));
                            } else {
                                assert(sb[j] == s0[j]);
                                assert(s0[i as int].id != s0[j].id);
                            }
                        }
                        assert(store@ =~= sweep_prefix(s0, nodes@, i as int + 1));
                    }
                },
                None => {
                    proof {
                        assert(store@ =~= sweep_prefix(s0, nodes@, i as int + 1));
                    }
                },
            }
        } else {
            proof {
                assert(store@ =~= sweep_prefix(s0, nodes@, i as int + 1));
            }
        }
        i = i + 1;
    }
    proof {
        assert(store@ =~= swept_store(s0, nodes@));
    }
    Ok(())
}

} // verus!
