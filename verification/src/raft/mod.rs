//! Raft consensus core: the replicated log and the per-node decision logic.

pub mod log;
pub mod peers;
pub mod safety;
pub mod state_machine;

pub use log::{LogEntry, RaftLog};
pub use peers::PeerIndex;
pub use state_machine::{AppendOutcome, RaftNode, RaftState, Role, VoteOutcome};

use vstd::prelude::*;

verus! {

/// Static cluster membership: this node's id and the addresses of the others.
#[derive(Clone, Debug)]
pub struct ClusterConfig {
    pub node_id: String,
    pub peers: Vec<String>,
}

} // verus!
