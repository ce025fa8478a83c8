//! The task store: single source of truth for all tasks, keyed by their
//! unique identifier. All other components operate on copies obtained
//! through its read operations and mutate state only through its write
//! operations.

use vstd::prelude::*;

use crate::error::OrchError;
use crate::task::{env_keys_unique, opt_view, Task, TaskModel, TaskStatus};
use crate::text::str_eq;

verus! {

/// The first task in `s` whose identifier is `id`, if any. Stores keep
/// identifiers pairwise distinct, so the first match is the only one.
pub open spec fn lookup(s: Seq<TaskModel>, id: Seq<char>) -> Option<TaskModel>
    decreases s.len(),
{
    if s.len() == 0 {
        None
    } else if s[0].id == id {
        Some(s[0])
    } else {
        lookup(s.drop_first(), id)
    }
}

/// Whether some task in `s` has identifier `id`.
pub open spec fn contains_id(s: Seq<TaskModel>, id: Seq<char>) -> bool {
    lookup(s, id) is Some
}

/// When position `i` holds the first task with identifier `id`, the lookup
/// yields exactly that task.
pub proof fn lemma_lookup_at(s: Seq<TaskModel>, id: Seq<char>, i: int)
    requires
        0 <= i < s.len(),
        s[i].id == id,
        forall|j: int| 0 <= j < i ==> (#[trigger] s[j]).id != id,
    ensures
        lookup(s, id) == Some(s[i]),
    decreases i,
{
    if i > 0 {
        assert(forall|j: int|
            0 <= j < i - 1 ==> (#[trigger] s.drop_first()[j]) == s[j + 1]);
        lemma_lookup_at(s.drop_first(), id, i - 1);
    }
}

/// When no task in `s` has identifier `id`, the lookup fails.
pub proof fn lemma_lookup_none(s: Seq<TaskModel>, id: Seq<char>)
    requires
        forall|j: int| 0 <= j < s.len() ==> (#[trigger] s[j]).id != id,
    ensures
        lookup(s, id) is None,
    decreases s.len(),
{
    if s.len() > 0 {
        assert(forall|j: int|
            0 <= j < s.len() - 1 ==> (#[trigger] s.drop_first()[j]) == s[j + 1]);
        lemma_lookup_none(s.drop_first(), id);
    }
}

/// A task after a status update: the new status is applied, the container
/// identifier is applied if one was provided and non-empty, and the start
/// time is recorded when the task transitions to `Running`.
pub open spec fn updated_task(
    t: TaskModel,
    status: TaskStatus,
    cid: Option<Seq<char>>,
    now_ms: int,
) -> TaskModel {
    TaskModel {
        id: t.id,
        name: t.name,
        image: t.image,
        memory: t.memory,
        cpu_milli: t.cpu_milli,
        env: t.env,
        status: status,
        created_at: t.created_at,
        started_at: if status == TaskStatus::Running && t.status != TaskStatus::Running {
            Some(now_ms)
        } else {
            t.started_at
        },
        node_id: t.node_id,
        container_id: match cid {
            Some(s) => if s.len() > 0 {
                Some(s)
            } else {
                t.container_id
            },
            None => t.container_id,
        },
    }
}

/// A task after being assigned to a node: scheduled, with the node recorded.
pub open spec fn assigned_task(t: TaskModel, node: Seq<char>) -> TaskModel {
    TaskModel {
        id: t.id,
        name: t.name,
        image: t.image,
        memory: t.memory,
        cpu_milli: t.cpu_milli,
        env: t.env,
        status: TaskStatus::Scheduled,
        created_at: t.created_at,
        started_at: t.started_at,
        node_id: Some(node),
        container_id: t.container_id,
    }
}

/// The store after a status update of the task with identifier `id`.
pub open spec fn updated_store(
    s: Seq<TaskModel>,
    id: Seq<char>,
    status: TaskStatus,
    cid: Option<Seq<char>>,
    now_ms: int,
) -> Seq<TaskModel> {
    Seq::new(
        s.len(),
        |j: int| if s[j].id == id {
            updated_task(s[j], status, cid, now_ms)
        } else {
            s[j]
        },
    )
}

/// The store after assigning the task with identifier `id` to `node`.
pub open spec fn assigned_store(s: Seq<TaskModel>, id: Seq<char>, node: Seq<char>) -> Seq<
    TaskModel,
> {
    Seq::new(
        s.len(),
        |j: int| if s[j].id == id {
            assigned_task(s[j], node)
        } else {
            s[j]
        },
    )
}

/// In-memory repository of tasks. Identifiers are pairwise distinct; every
/// operation keeps them so.
pub struct TaskStore {
    tasks: Vec<Task>,
}

impl View for TaskStore {
    type V = Seq<TaskModel>;

    closed spec fn view(&self) -> Seq<TaskModel> {
        Seq::new(self.tasks@.len(), |i: int| self.tasks@[i]@)
    }
}

impl TaskStore {
    /// Identifiers are pairwise distinct, and every task's environment
    /// keys are pairwise distinct.
    pub open spec fn wf(&self) -> bool {
        &&& forall|i: int, j: int|
            0 <= i < j < self@.len() ==> (#[trigger] self@[i]).id != (#[trigger] self@[j]).id
        &&& forall|i: int| 0 <= i < self@.len() ==> env_keys_unique((#[trigger] self@[i]).env)
    }

    /// An empty store.
    pub fn new() -> (s: Self)
        ensures
            s@ =~= Seq::<TaskModel>::empty(),
            s.wf(),
    {
        TaskStore { tasks: Vec::new() }
    }

    /// Inserts a new task keyed by its identifier. An identifier that is
    /// already present is refused as a store fault and nothing changes.
    pub fn add_task(&mut self, task: Task) -> (r: Result<(), OrchError>)
        requires
            old(self).wf(),
            env_keys_unique(task@.env),
        ensures
            final(self).wf(),
            match r {
                Ok(()) => !contains_id(old(self)@, task@.id) && final(self)@ == old(self)@.push(
                    task@,
                ),
                Err(e) => contains_id(old(self)@, task@.id) && final(self)@ == old(self)@ && (
                e is TaskStoreError),
            },
    {
        let n = self.tasks.len();
        let mut i: usize = 0;
        while i < n
            invariant
                old(self).wf(),
                self@ == old(self)@,
                n == self.tasks@.len(),
                i <= n,
                forall|j: int| 0 <= j < i ==> (#[trigger] self@[j]).id != task@.id,
            decreases n - i,
        {
            if str_eq(self.tasks[i].id.as_str(), task.id.as_str()) {
                proof {
                    lemma_lookup_at(self@, task@.id, i as int);
                }
                return Err(OrchError::TaskStoreError("duplicate task identifier".to_owned()));
            }
            i = i + 1;
        }
        proof {
            lemma_lookup_none(self@, task@.id);
        }
        self.tasks.push(task);
        proof {
            assert(self@ =~= old(self)@.push(task@));
            assert forall|i2: int, j2: int| 0 <= i2 < j2 < self@.len() implies self@[i2].id
                != self@[j2].id by {
                if j2 < old(self)@.len() {
                    assert(old(self)@[i2].id != old(self)@[j2].id);
                }
            }
            assert forall|i2: int| 0 <= i2 < self@.len() implies env_keys_unique(
                self@[i2].env,
            ) by {
                if i2 < old(self)@.len() {
                    assert(env_keys_unique(old(self)@[i2].env));
                }
            }
        }
        Ok(())
    }

    /// A point-in-time snapshot of all tasks, as copies, in store order.
    pub fn list_tasks(&self) -> (r: Result<Vec<Task>, OrchError>)
        ensures
            match r {
                Ok(v) => v@.len() == self@.len() && forall|i: int|
                    0 <= i < self@.len() ==> (#[trigger] v@[i])@ == self@[i],
                Err(_) => false,
            },
    {
        let n = self.tasks.len();
        let mut out: Vec<Task> = Vec::new();
        let mut i: usize = 0;
        while i < n
            invariant
                n == self.tasks@.len(),
                i <= n,
                out@.len() == i,
                forall|j: int| 0 <= j < i ==> (#[trigger] out@[j])@ == self@[j],
            decreases n - i,
        {
            let t = self.tasks[i].clone();
            out.push(t);
            i = i + 1;
        }
        Ok(out)
    }

    /// Snapshot lookup by identifier; `None` when absent.
    pub fn get_task(&self, id: &str) -> (r: Result<Option<Task>, OrchError>)
        ensures
            match r {
                Ok(found) => match found {
                    Some(t) => lookup(self@, id@) == Some(t@),
                    None => lookup(self@, id@) is None,
                },
                Err(_) => false,
            },
    {
        let n = self.tasks.len();
        let mut i: usize = 0;
        while i < n
            invariant
                n == self.tasks@.len(),
                i <= n,
                forall|j: int| 0 <= j < i ==> (#[trigger] self@[j]).id != id@,
            decreases n - i,
        {
            if str_eq(self.tasks[i].id.as_str(), id) {
                proof {
                    lemma_lookup_at(self@, id@, i as int);
                }
                let t = self.tasks[i].clone();
                return Ok(Some(t));
            }
            i = i + 1;
        }
        proof {
            lemma_lookup_none(self@, id@);
        }
        Ok(None)
    }

    /// Applies `status` (and the container identifier, if provided and
    /// non-empty) to the task with identifier `id`; records `now_ms` as the
    /// start time when the task transitions to `Running`. Yields `Ok(true)`
    /// when the task exists and `Ok(false)`, with the store unchanged, when
    /// it does not.
    pub fn update_status(
        &mut self,
        id: &str,
        status: TaskStatus,
        container_id: Option<String>,
        now_ms: i64,
    ) -> (r: Result<bool, OrchError>)
        requires
            old(self).wf(),
        ensures
            final(self).wf(),
            match lookup(old(self)@, id@) {
                None => r == Ok::<bool, OrchError>(false) && final(self)@ == old(self)@,
                Some(_) => r == Ok::<bool, OrchError>(true) && final(self)@ == updated_store(
                    old(self)@,
                    id@,
                    status,
                    opt_view(container_id),
                    now_ms as int,
                ),
            },
    {
        let ghost s0 = self@;
        let n = self.tasks.len();
        let mut i: usize = 0;
        while i < n
            invariant
                old(self).wf(),
                self@ == s0,
                s0 == old(self)@,
                n == self.tasks@.len(),
                i <= n,
                forall|j: int| 0 <= j < i ==> (#[trigger] self@[j]).id != id@,
            decreases n - i,
        {
            if str_eq(self.tasks[i].id.as_str(), id) {
                proof {
                    lemma_lookup_at(self@, id@, i as int);
                }
                let prev_status = self.tasks[i].status;
                self.tasks[i].status = status;
                if status == TaskStatus::Running && prev_status != TaskStatus::Running {
                    self.tasks[i].started_at = Some(now_ms);
                }
                match container_id {
                    Some(c) => {
                        let ghost cv = c@;
                        if !c.as_str().is_empty() {
                            self.tasks[i].container_id = Some(c);
                            proof {
                                assert(self@ =~= updated_store(
                                    s0,
                                    id@,
                                    status,
                                    Some(cv),
                                    now_ms as int,
                                ));
                            }
                        } else {
                            proof {
                                assert(self@ =~= updated_store(
                                    s0,
                                    id@,
                                    status,
                                    Some(cv),
                                    now_ms as int,
                                ));
                            }
                        }
                    },
                    None => {
                        proof {
                            assert(self@ =~= updated_store(s0, id@, status, None, now_ms as int));
                        }
                    },
                }
                return Ok(true);
            }
            i = i + 1;
        }
        proof {
            lemma_lookup_none(self@, id@);
        }
        Ok(false)
    }

    /// Assigns the task with identifier `id` to `node_id` and advances its
    /// status to `Scheduled`. Yields `Ok(true)` when the task exists and
    /// `Ok(false)`, with the store unchanged, when it does not.
    pub fn assign_node(&mut self, id: &str, node_id: String) -> (r: Result<bool, OrchError>)
        requires
            old(self).wf(),
        ensures
            final(self).wf(),
            match lookup(old(self)@, id@) {
                None => r == Ok::<bool, OrchError>(false) && final(self)@ == old(self)@,
                Some(_) => r == Ok::<bool, OrchError>(true) && final(self)@ == assigned_store(
                    old(self)@,
                    id@,
                    node_id@,
                ),
            },
    {
        let ghost s0 = self@;
        let n = self.tasks.len();
        let mut i: usize = 0;
        while i < n
            invariant
                old(self).wf(),
                self@ == s0,
                s0 == old(self)@,
                n == self.tasks@.len(),
                i <= n,
                forall|j: int| 0 <= j < i ==> (#[trigger] self@[j]).id != id@,
            decreases n - i,
        {
            if str_eq(self.tasks[i].id.as_str(), id) {
                proof {
                    lemma_lookup_at(self@, id@, i as int);
                }
                self.tasks[i].status = TaskStatus::Scheduled;
                self.tasks[i].node_id = Some(node_id);
                proof {
                    assert(self@ =~= assigned_store(s0, id@, node_id@));
                }
                return Ok(true);
            }
            i = i + 1;
        }
        proof {
            lemma_lookup_none(self@, id@);
        }
        Ok(false)
    }
}

/// A status update touches no identifier: looking up `id` afterwards finds
/// the same task with the update applied.
pub proof fn lemma_update_then_lookup(
    s: Seq<TaskModel>,
    id: Seq<char>,
    status: TaskStatus,
    cid: Option<Seq<char>>,
    now_ms: int,
)
    ensures
        lookup(updated_store(s, id, status, cid, now_ms), id) == match lookup(s, id) {
            Some(t) => Some(updated_task(t, status, cid, now_ms)),
            None => None::<TaskModel>,
        },
    decreases s.len(),
{
    let s2 = updated_store(s, id, status, cid, now_ms);
    if s.len() > 0 {
        if s[0].id == id {
            assert(s2[0] == updated_task(s[0], status, cid, now_ms));
        } else {
            assert(s2[0] == s[0]);
            assert(s2.drop_first() =~= updated_store(s.drop_first(), id, status, cid, now_ms));
            lemma_update_then_lookup(s.drop_first(), id, status, cid, now_ms);
        }
    }
}

/// Law: updating an existing task to `Running` with a non-empty container
/// identifier and then looking it up yields a task whose status is `Running`
/// and whose container identifier is the one given.
pub proof fn lemma_running_update_observed(
    s: Seq<TaskModel>,
    id: Seq<char>,
    cid: Seq<char>,
    now_ms: int,
)
    requires
        lookup(s, id) is Some,
        cid.len() > 0,
    ensures
        match lookup(updated_store(s, id, TaskStatus::Running, Some(cid), now_ms), id) {
            Some(t) => t.status == TaskStatus::Running && t.container_id == Some(cid),
            None => false,
        },
{
    lemma_update_then_lookup(s, id, TaskStatus::Running, Some(cid), now_ms);
}

/// Law: a snapshot of the store is a function of the store contents alone,
/// so two snapshots taken with no intervening writes are equal.
pub proof fn lemma_list_idempotent(s: Seq<TaskModel>, a: Seq<TaskModel>, b: Seq<TaskModel>)
    requires
        a.len() == s.len(),
        forall|i: int| 0 <= i < s.len() ==> #[trigger] a[i] == s[i],
        b.len() == s.len(),
        forall|i: int| 0 <= i < s.len() ==> #[trigger] b[i] == s[i],
    ensures
        a == b,
{
    assert(a =~= b);
}

/// Looking an identifier up in a concatenation: the left part wins when it
/// holds the identifier.
pub proof fn lemma_lookup_append(s1: Seq<TaskModel>, s2: Seq<TaskModel>, id: Seq<char>)
    ensures
        lookup(s1 + s2, id) == if contains_id(s1, id) {
            lookup(s1, id)
        } else {
            lookup(s2, id)
        },
    decreases s1.len(),
{
    if s1.len() == 0 {
        assert(s1 + s2 =~= s2);
    } else {
        assert((s1 + s2)[0] == s1[0]);
        if s1[0].id != id {
            assert((s1 + s2).drop_first() =~= s1.drop_first() + s2);
            lemma_lookup_append(s1.drop_first(), s2, id);
        }
    }
}

/// Law: submissions with pairwise-distinct identifiers, none of them already
/// stored, all succeed and no update is lost: after the first `k + 1` of
/// them the store holds exactly its original tasks followed by those
/// `k + 1` new ones.
pub proof fn lemma_no_lost_updates(s: Seq<TaskModel>, ts: Seq<TaskModel>, k: int)
    requires
        0 <= k < ts.len(),
        forall|i: int, j: int|
            0 <= i < j < ts.len() ==> (#[trigger] ts[i]).id != (#[trigger] ts[j]).id,
        forall|i: int| 0 <= i < ts.len() ==> !contains_id(s, (#[trigger] ts[i]).id),
    ensures
        !contains_id(s + ts.take(k), ts[k].id),
        (s + ts.take(k)).push(ts[k]) =~= s + ts.take(k + 1),
        (s + ts.take(k + 1)).len() == s.len() + k + 1,
{
    lemma_lookup_append(s, ts.take(k), ts[k].id);
    assert(forall|j: int| 0 <= j < k ==> (#[trigger] ts.take(k)[j]).id != ts[k].id);
    lemma_lookup_none(ts.take(k), ts[k].id);
    assert((s + ts.take(k)).push(ts[k]) =~= s + ts.take(k + 1));
}

} // verus!
