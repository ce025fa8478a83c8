//! Worker node identity and reported capacity. A node is referenced, not
//! owned, by the tasks assigned to it.

use vstd::prelude::*;
use vstd::string::StringExecFns;

verus! {

/// The operational status of a worker node.
#[derive(Clone, Copy, Debug, PartialEq, Eq, Structural)]
pub enum NodeStatus {
    /// The node is online and accepting work.
    Ready,
    /// The node has gone quiet or is explicitly disabled.
    NotReady,
}

/// A worker identity capable of running tasks. CPU capacity is held in
/// milli-cores (1000 = one core).
pub struct Node {
    /// Unique identifier for the machine, e.g. "worker-01".
    pub id: String,
    pub name: String,
    pub ip_address: String,
    pub status: NodeStatus,
    pub total_memory: i32,
    pub total_cpu_milli: u32,
    pub available_memory: i32,
    pub available_cpu_milli: u32,
}

impl Node {
    /// A fresh node: named after itself, loopback address, not yet ready,
    /// with all of its capacity available.
    pub fn new(name: String, total_memory: i32, total_cpu_milli: u32) -> (n: Node)
        ensures
            n.id@ == name@,
            n.name@ == name@,
            n.ip_address@ == "127.0.0.1"@,
            n.status == NodeStatus::NotReady,
            n.total_memory == total_memory,
            n.total_cpu_milli == total_cpu_milli,
            n.available_memory == total_memory,
            n.available_cpu_milli == total_cpu_milli,
    {
        let id = name.clone();
        Node {
            id: id,
            name: name,
            ip_address: "127.0.0.1".to_owned(),
            status: NodeStatus::NotReady,
            total_memory: total_memory,
            total_cpu_milli: total_cpu_milli,
            available_memory: total_memory,
            available_cpu_milli: total_cpu_milli,
        }
    }
}

} // verus!
