//! Error taxonomy of the orchestrator. Domain errors become state
//! transitions or protocol responses; store faults abort the single
//! operation that hit them and are reported to the caller.

use vstd::prelude::*;
use vstd::string::StringExecFns;

verus! {

/// Everything that can go wrong inside the control-plane core.
#[derive(Debug)]
pub enum OrchError {
    /// The container runtime failed to carry out an operation.
    DockerError(String),
    /// No task with the given identifier exists.
    TaskNotFound(String),
    /// No node with the given identifier exists.
    NodeNotFound(String),
    /// The scheduling loop hit an internal fault.
    SchedulerError(String),
    /// A protocol call could not reach its peer.
    NetworkError(String),
    /// The task store could not complete an operation.
    TaskStoreError(String),
}

/// The human-readable rendering of an error.
pub open spec fn message_spec(e: OrchError) -> Seq<char> {
    match e {
        OrchError::DockerError(m) => "Docker operation failed: "@ + m@,
        OrchError::TaskNotFound(m) => "Task not found: "@ + m@,
        OrchError::NodeNotFound(m) => "Node not found: "@ + m@,
        OrchError::SchedulerError(m) => "Scheduler error: "@ + m@,
        OrchError::NetworkError(m) => "Network error: "@ + m@,
        OrchError::TaskStoreError(m) => "Task store error: "@ + m@,
    }
}

impl OrchError {
    /// Renders the error as text, a fixed phrase per kind followed by the
    /// detail it carries.
    pub fn message(&self) -> (r: String)
        ensures
            r@ == message_spec(*self),
    {
        match self {
            OrchError::DockerError(m) => {
                let mut s = "Docker operation failed: ".to_owned();
                s.append(m.as_str());
                s
            },
            OrchError::TaskNotFound(m) => {
                let mut s = "Task not found: ".to_owned();
                s.append(m.as_str());
                s
            },
            OrchError::NodeNotFound(m) => {
                let mut s = "Node not found: ".to_owned();
                s.append(m.as_str());
                s
            },
            OrchError::SchedulerError(m) => {
                let mut s = "Scheduler error: ".to_owned();
                s.append(m.as_str());
                s
            },
            OrchError::NetworkError(m) => {
                let mut s = "Network error: ".to_owned();
                s.append(m.as_str());
                s
            },
            OrchError::TaskStoreError(m) => {
                let mut s = "Task store error: ".to_owned();
                s.append(m.as_str());
                s
            },
        }
    }
}

} // verus!
