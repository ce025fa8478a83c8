//! Control-plane core of a minimal cluster orchestrator: the task data model
//! and its lifecycle state machine, the task store, the control protocol by
//! which clients and workers observe and mutate the store, the scheduling
//! sweep, and the worker-side reconciliation decisions.

pub mod error;
pub mod framing;
pub mod json;
pub mod node;
pub mod protocol;
pub mod scheduler;
pub mod store;
pub mod task;
pub mod text;
pub mod worker;

pub use error::OrchError;
pub use node::Node;
pub use node::NodeStatus;
pub use store::TaskStore;
pub use task::Task;
pub use task::TaskStatus;
