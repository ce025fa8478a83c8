//! The task data model: a unit of work with resource requirements and a
//! lifecycle status, together with the spec-level model that the rest of the
//! library states its contracts over.

use vstd::prelude::*;

verus! {

/// Lifecycle state machine of a task.
///
/// The lifecycle flows `Pending -> Scheduled -> Running -> {Complete | Failed}`:
/// a task is `Pending` once submitted, `Scheduled` once the scheduler has
/// picked a node for it, `Running` once its container is active, and ends
/// `Complete` or `Failed`.
#[derive(Clone, Copy, Debug, PartialEq, Eq, Structural)]
pub enum TaskStatus {
    Pending,
    Scheduled,
    Running,
    Complete,
    Failed,
}

/// Spec-level image of a [`Task`]: every text field as a sequence of
/// characters and every number as a mathematical integer.
pub ghost struct TaskModel {
    pub id: Seq<char>,
    pub name: Seq<char>,
    pub image: Seq<char>,
    pub memory: int,
    pub cpu_milli: int,
    pub env: Seq<(Seq<char>, Seq<char>)>,
    pub status: TaskStatus,
    pub created_at: int,
    pub started_at: Option<int>,
    pub node_id: Option<Seq<char>>,
    pub container_id: Option<Seq<char>>,
}

/// A unit of work to be executed on the cluster: roughly one container.
///
/// CPU requirements are held in milli-cores (1000 = one core) and timestamps
/// in milliseconds since the Unix epoch, so that the whole struct is made of
/// plain values the verifier can reason about.
pub struct Task {
    /// Unique identifier in canonical UUID text form, generated at creation.
    pub id: String,
    /// Human-readable label; not guaranteed unique.
    pub name: String,
    /// Reference to the workload's runnable artifact, e.g. a container image.
    pub image: String,
    /// Memory requirement in MB.
    pub memory: i32,
    /// CPU requirement in milli-cores (500 = half a core).
    pub cpu_milli: u32,
    /// Environment variables injected into the container; keys are unique.
    pub env: Vec<(String, String)>,
    /// Current lifecycle state.
    pub status: TaskStatus,
    /// Creation time, milliseconds since the Unix epoch; immutable.
    pub created_at: i64,
    /// Set when the task transitions to `Running`.
    pub started_at: Option<i64>,
    /// Identifier of the worker node the task is assigned to; `None` until
    /// scheduled.
    pub node_id: Option<String>,
    /// Handle returned by the container runtime; `None` until the workload
    /// was started.
    pub container_id: Option<String>,
}

/// View of an optional owned string as an optional character sequence.
pub open spec fn opt_view(o: Option<String>) -> Option<Seq<char>> {
    match o {
        Some(s) => Some(s@),
        None => None,
    }
}

/// View of an environment as a sequence of key/value character sequences.
pub open spec fn env_view(env: Seq<(String, String)>) -> Seq<(Seq<char>, Seq<char>)> {
    env.map_values(|p: (String, String)| (p.0@, p.1@))
}

impl View for Task {
    type V = TaskModel;

    open spec fn view(&self) -> TaskModel {
        TaskModel {
            id: self.id@,
            name: self.name@,
            image: self.image@,
            memory: self.memory as int,
            cpu_milli: self.cpu_milli as int,
            env: env_view(self.env@),
            status: self.status,
            created_at: self.created_at as int,
            started_at: match self.started_at {
                Some(t) => Some(t as int),
                None => None,
            },
            node_id: opt_view(self.node_id),
            container_id: opt_view(self.container_id),
        }
    }
}

/// Environment keys are pairwise distinct, as an environment requires.
pub open spec fn env_keys_unique(env: Seq<(Seq<char>, Seq<char>)>) -> bool {
    forall|i: int, j: int|
        0 <= i < j < env.len() ==> (#[trigger] env[i]).0 != (#[trigger] env[j]).0
}

/// The models of a sequence of tasks.
pub open spec fn task_models(v: Seq<Task>) -> Seq<TaskModel> {
    Seq::new(v.len(), |i: int| v[i]@)
}

/// Whether `c` is a lower-case hexadecimal digit.
pub open spec fn is_lower_hex(c: char) -> bool {
    ('0' <= c && c <= '9') || ('a' <= c && c <= 'f')
}

/// What the character at position `i` of a canonical textual UUID must be:
/// a hyphen at positions 8, 13, 18 and 23, a lower-case hexadecimal digit
/// elsewhere.
pub open spec fn uuid_char_ok(c: char, i: int) -> bool {
    if i == 8 || i == 13 || i == 18 || i == 23 {
        c == '-'
    } else {
        is_lower_hex(c)
    }
}

/// Whether `s` is a canonical textual UUID: 36 characters, hyphens at
/// positions 8, 13, 18 and 23, lower-case hexadecimal digits elsewhere.
pub open spec fn is_uuid_string(s: Seq<char>) -> bool {
    &&& s.len() == 36
    &&& forall|i: int| 0 <= i < 36 ==> uuid_char_ok(#[trigger] s[i], i)
}

/// The model of a freshly submitted task: `Pending`, unassigned, with the
/// default resource requirements of 256 MB and half a core.
pub open spec fn submitted_task(
    id: Seq<char>,
    name: Seq<char>,
    image: Seq<char>,
    created_at: int,
) -> TaskModel {
    TaskModel {
        id: id,
        name: name,
        image: image,
        memory: 256,
        cpu_milli: 500,
        env: Seq::empty(),
        status: TaskStatus::Pending,
        created_at: created_at,
        started_at: None,
        node_id: None,
        container_id: None,
    }
}

/// Relies on `uuid::Uuid::new_v4` to draw a random version-4 UUID and on
/// `uuid::Uuid::to_string`, whose result is documented to be the canonical
/// hyphenated form in lower case.
#[verifier::external_body]
pub fn fresh_task_id() -> (r: String)
    ensures
        is_uuid_string(r@),
{
    uuid::Uuid::new_v4().to_string()
}

/// Relies on `chrono::Utc::now` and `chrono::DateTime::timestamp_millis` for
/// the current time as milliseconds since the Unix epoch. Nothing is promised
/// of the clock's value.
#[verifier::external_body]
pub fn now_millis() -> i64 {
    chrono::Utc::now().timestamp_millis()
}

impl Task {
    /// Builds a task from already-drawn identifier and creation time; the
    /// resource requirements default to 256 MB and half a core.
    pub fn with_parts(name: String, image: String, id: String, created_at: i64) -> (t: Task)
        ensures
            t@ == submitted_task(id@, name@, image@, created_at as int),
    {
        let t = Task {
            id: id,
            name: name,
            image: image,
            memory: 256,
            cpu_milli: 500,
            env: Vec::new(),
            status: TaskStatus::Pending,
            created_at: created_at,
            started_at: None,
            node_id: None,
            container_id: None,
        };
        proof {
            assert(env_view(t.env@) =~= Seq::<(Seq<char>, Seq<char>)>::empty());
        }
        t
    }

    /// Creates a new task in `Pending` state with a server-generated
    /// identifier and creation timestamp and default resource limits.
    pub fn new(name: String, image: String) -> (t: Task)
        ensures
            exists|id: Seq<char>, created: int|
                is_uuid_string(id) && t@ == submitted_task(id, name@, image@, created),
            t@.status == TaskStatus::Pending,
            t@.node_id is None,
            t@.container_id is None,
            t@.started_at is None,
            t@.name == name@,
            t@.image == image@,
            t@.memory == 256,
            t@.cpu_milli == 500,
            t@.env == Seq::<(Seq<char>, Seq<char>)>::empty(),
            is_uuid_string(t@.id),
    {
        let id = fresh_task_id();
        let created = now_millis();
        let t = Task::with_parts(name, image, id, created);
        t
    }
}

/// Clones an optional owned string; the copy is spec-equal to the original.
pub fn clone_opt_string(o: &Option<String>) -> (r: Option<String>)
    ensures
        r == *o,
{
    match o {
        Some(s) => Some(s.clone()),
        None => None,
    }
}

/// Clones an environment; the copy is spec-equal to the original.
pub fn clone_env(env: &Vec<(String, String)>) -> (r: Vec<(String, String)>)
    ensures
        r@ =~= env@,
{
    let mut out: Vec<(String, String)> = Vec::new();
    let mut i: usize = 0;
    while i < env.len()
        invariant
            i <= env.len(),
            out@ =~= env@.take(i as int),
        decreases env.len() - i,
    {
        let key = env[i].0.clone();
        let value = env[i].1.clone();
        out.push((key, value));
        proof {
            assert(out@ =~= env@.take(i as int + 1));
        }
        i = i + 1;
    }
    proof {
        assert(env@.take(env@.len() as int) =~= env@);
    }
    out
}

impl Clone for Task {
    /// The copy has the same model as the original.
    fn clone(&self) -> (r: Self)
        ensures
            r@ == self@,
    {
        let r = Task {
            id: self.id.clone(),
            name: self.name.clone(),
            image: self.image.clone(),
            memory: self.memory,
            cpu_milli: self.cpu_milli,
            env: clone_env(&self.env),
            status: self.status,
            created_at: self.created_at,
            started_at: self.started_at,
            node_id: clone_opt_string(&self.node_id),
            container_id: clone_opt_string(&self.container_id),
        };
        proof {
            assert(env_view(r.env@) =~= env_view(self.env@));
        }
        r
    }
}

} // verus!
