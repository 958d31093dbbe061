//! What a controller knows, and how its records are named.

use crate::lease::{Fence, LeaseTable};
use crate::schema::{
    ActivationTransaction, AgentInstance, AgentMutationOperation, Approval, Artifact, ControllerPeer,
    DriverHandoffRequest, Executor, Generation, Handoff, Lease, ReadGrant, Task, WorkspaceSession,
};
use crate::table::Keyed;
use crate::task::TaskTable;
use vstd::prelude::*;

verus! {

/// The records of a controller as they are stored; the leases and the tasks are those of the last
/// time that they were stored.
#[derive(Debug, Clone)]
pub struct WorkbenchState {
    pub controller_id: Option<String>,
    pub controllers: Vec<ControllerPeer>,
    pub executors: Vec<Executor>,
    pub sessions: Vec<WorkspaceSession>,
    pub artifacts: Vec<Artifact>,
    pub generations: Vec<Generation>,
    pub transactions: Vec<ActivationTransaction>,
    pub agents: Vec<AgentInstance>,
    pub handoffs: Vec<Handoff>,
    pub approvals: Vec<Approval>,
    pub read_grants: Vec<ReadGrant>,
    pub driver_handoff_requests: Vec<DriverHandoffRequest>,
    pub agent_mutations: Vec<AgentMutationOperation>,
    pub leases: Vec<Lease>,
    pub lease_fences: Vec<Fence>,
    pub tasks: Vec<Task>,
}

/// A controller: its identity, its records, its leases and its tasks.
#[derive(Debug)]
pub struct Controller {
    pub id: String,
    pub state: WorkbenchState,
    pub leases: LeaseTable,
    pub tasks: TaskTable,
}

impl Controller {
    /// Whether the leases and the tasks are in order.
    pub open spec fn wf(self) -> bool {
        self.leases@.wf() && self.tasks.wf()
    }
}

impl Keyed for ControllerPeer {
    open spec fn key_view(&self) -> Seq<char> {
        self.metadata.id@
    }

    fn key(&self) -> (r: &str) {
        self.metadata.id.as_str()
    }
}

impl Keyed for Executor {
    open spec fn key_view(&self) -> Seq<char> {
        self.metadata.id@
    }

    fn key(&self) -> (r: &str) {
        self.metadata.id.as_str()
    }
}

impl Keyed for WorkspaceSession {
    open spec fn key_view(&self) -> Seq<char> {
        self.metadata.id@
    }

    fn key(&self) -> (r: &str) {
        self.metadata.id.as_str()
    }
}

impl Keyed for Artifact {
    open spec fn key_view(&self) -> Seq<char> {
        self.digest@
    }

    fn key(&self) -> (r: &str) {
        self.digest.as_str()
    }
}

impl Keyed for Generation {
    open spec fn key_view(&self) -> Seq<char> {
        self.id@
    }

    fn key(&self) -> (r: &str) {
        self.id.as_str()
    }
}

impl Keyed for ActivationTransaction {
    open spec fn key_view(&self) -> Seq<char> {
        self.id@
    }

    fn key(&self) -> (r: &str) {
        self.id.as_str()
    }
}

impl Keyed for AgentInstance {
    open spec fn key_view(&self) -> Seq<char> {
        self.id@
    }

    fn key(&self) -> (r: &str) {
        self.id.as_str()
    }
}

impl Keyed for Handoff {
    open spec fn key_view(&self) -> Seq<char> {
        self.id@
    }

    fn key(&self) -> (r: &str) {
        self.id.as_str()
    }
}

impl Keyed for Approval {
    open spec fn key_view(&self) -> Seq<char> {
        self.id@
    }

    fn key(&self) -> (r: &str) {
        self.id.as_str()
    }
}

impl Keyed for ReadGrant {
    open spec fn key_view(&self) -> Seq<char> {
        self.id@
    }

    fn key(&self) -> (r: &str) {
        self.id.as_str()
    }
}

impl Keyed for AgentMutationOperation {
    open spec fn key_view(&self) -> Seq<char> {
        self.id@
    }

    fn key(&self) -> (r: &str) {
        self.id.as_str()
    }
}

} // verus!
