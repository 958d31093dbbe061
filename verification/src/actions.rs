//! The actions that a controller answers.

use crate::rpc::{fails, rpc_error, RpcError};
use crate::text::{concat2, str_eq};
use vstd::prelude::*;

verus! {

/// An action that a controller answers.
#[derive(Debug, Clone, Copy, PartialEq, Eq, Structural)]
pub enum Action {
    Ping,
    Status,
    ExecutorList,
    ControllerList,
    ExecutorUnregister,
    ControllerUnregister,
    ControllerRegister,
    ControllerCall,
    Doctor,
    DashboardSnapshot,
    RunStart,
    RunFinish,
    RunGet,
    RunList,
    ObservabilityQuery,
    ObservationAppend,
    OperatorGrant,
    OperatorNonce,
    OperatorAction,
    SessionPut,
    SessionAcceptHandoff,
    SessionHandoff,
    SessionGet,
    SessionList,
    SessionTransition,
    ArtifactPut,
    ArtifactGet,
    ArtifactList,
    ArtifactTransfer,
    GenerationPut,
    GenerationGet,
    GenerationList,
    AgentPut,
    AgentGet,
    AgentList,
    AgentTransition,
    ExecutorPut,
    ExecutorRegister,
    ExecutorRemove,
    ExecutorCall,
    ApprovalRequest,
    ApprovalList,
    ApprovalApprove,
    ApprovalRevoke,
    ReadGrantRequest,
    ReadGrantApprove,
    ReadGrantList,
    ReadGrantRevoke,
    CapabilityInvoke,
    DriverStatus,
    LeaseStatus,
    DriverHandoffStatus,
    AgentMutationStart,
    AgentMutationFinish,
    DriverHandoffRequest,
    DriverHandoffAwait,
    DriverHandoffCancel,
    DriverAcquire,
    LeaseAcquire,
    DriverRenew,
    LeaseRenew,
    DriverHandoff,
    DriverTake,
    DriverRelease,
    LeaseRelease,
    TaskSubmit,
    TaskGet,
    TaskList,
    TaskEvents,
    TaskWait,
    TaskRetry,
    TaskCancel,
    TaskPrune,
    TaskTransition,
    PortList,
    PortAllocate,
    TransactionBegin,
    TransactionGet,
    TransactionList,
    TransactionRecord,
    HandoffCreate,
    HandoffGet,
    HandoffList,
    HandoffReport,
    HandoffAcknowledge,
    HandoffComplete,
}

impl Action {
    /// The name of an action in requests.
    pub open spec fn name_view(self) -> Seq<char> {
        match self {
            Action::Ping => "ping"@,
            Action::Status => "status"@,
            Action::ExecutorList => "executor.list"@,
            Action::ControllerList => "controller.list"@,
            Action::ExecutorUnregister => "executor.unregister"@,
            Action::ControllerUnregister => "controller.unregister"@,
            Action::ControllerRegister => "controller.register"@,
            Action::ControllerCall => "controller.call"@,
            Action::Doctor => "doctor"@,
            Action::DashboardSnapshot => "dashboard.snapshot"@,
            Action::RunStart => "run.start"@,
            Action::RunFinish => "run.finish"@,
            Action::RunGet => "run.get"@,
            Action::RunList => "run.list"@,
            Action::ObservabilityQuery => "observability.query"@,
            Action::ObservationAppend => "observation.append"@,
            Action::OperatorGrant => "operator.grant"@,
            Action::OperatorNonce => "operator.nonce"@,
            Action::OperatorAction => "operator.action"@,
            Action::SessionPut => "session.put"@,
            Action::SessionAcceptHandoff => "session.accept-handoff"@,
            Action::SessionHandoff => "session.handoff"@,
            Action::SessionGet => "session.get"@,
            Action::SessionList => "session.list"@,
            Action::SessionTransition => "session.transition"@,
            Action::ArtifactPut => "artifact.put"@,
            Action::ArtifactGet => "artifact.get"@,
            Action::ArtifactList => "artifact.list"@,
            Action::ArtifactTransfer => "artifact.transfer"@,
            Action::GenerationPut => "generation.put"@,
            Action::GenerationGet => "generation.get"@,
            Action::GenerationList => "generation.list"@,
            Action::AgentPut => "agent.put"@,
            Action::AgentGet => "agent.get"@,
            Action::AgentList => "agent.list"@,
            Action::AgentTransition => "agent.transition"@,
            Action::ExecutorPut => "executor.put"@,
            Action::ExecutorRegister => "executor.register"@,
            Action::ExecutorRemove => "executor.remove"@,
            Action::ExecutorCall => "executor.call"@,
            Action::ApprovalRequest => "approval.request"@,
            Action::ApprovalList => "approval.list"@,
            Action::ApprovalApprove => "approval.approve"@,
            Action::ApprovalRevoke => "approval.revoke"@,
            Action::ReadGrantRequest => "read-grant.request"@,
            Action::ReadGrantApprove => "read-grant.approve"@,
            Action::ReadGrantList => "read-grant.list"@,
            Action::ReadGrantRevoke => "read-grant.revoke"@,
            Action::CapabilityInvoke => "capability.invoke"@,
            Action::DriverStatus => "driver.status"@,
            Action::LeaseStatus => "lease.status"@,
            Action::DriverHandoffStatus => "driver.handoff.status"@,
            Action::AgentMutationStart => "agent.mutation.start"@,
            Action::AgentMutationFinish => "agent.mutation.finish"@,
            Action::DriverHandoffRequest => "driver.handoff.request"@,
            Action::DriverHandoffAwait => "driver.handoff.await"@,
            Action::DriverHandoffCancel => "driver.handoff.cancel"@,
            Action::DriverAcquire => "driver.acquire"@,
            Action::LeaseAcquire => "lease.acquire"@,
            Action::DriverRenew => "driver.renew"@,
            Action::LeaseRenew => "lease.renew"@,
            Action::DriverHandoff => "driver.handoff"@,
            Action::DriverTake => "driver.take"@,
            Action::DriverRelease => "driver.release"@,
            Action::LeaseRelease => "lease.release"@,
            Action::TaskSubmit => "task.submit"@,
            Action::TaskGet => "task.get"@,
            Action::TaskList => "task.list"@,
            Action::TaskEvents => "task.events"@,
            Action::TaskWait => "task.wait"@,
            Action::TaskRetry => "task.retry"@,
            Action::TaskCancel => "task.cancel"@,
            Action::TaskPrune => "task.prune"@,
            Action::TaskTransition => "task.transition"@,
            Action::PortList => "port.list"@,
            Action::PortAllocate => "port.allocate"@,
            Action::TransactionBegin => "transaction.begin"@,
            Action::TransactionGet => "transaction.get"@,
            Action::TransactionList => "transaction.list"@,
            Action::TransactionRecord => "transaction.record"@,
            Action::HandoffCreate => "handoff.create"@,
            Action::HandoffGet => "handoff.get"@,
            Action::HandoffList => "handoff.list"@,
            Action::HandoffReport => "handoff.report"@,
            Action::HandoffAcknowledge => "handoff.acknowledge"@,
            Action::HandoffComplete => "handoff.complete"@,
        }
    }
}

/// The action of a name.
pub open spec fn action_named(name: Seq<char>) -> Option<Action> {
    if name == "ping"@ {
        Some(Action::Ping)
    } else if name == "status"@ {
        Some(Action::Status)
    } else if name == "executor.list"@ {
        Some(Action::ExecutorList)
    } else if name == "controller.list"@ {
        Some(Action::ControllerList)
    } else if name == "executor.unregister"@ {
        Some(Action::ExecutorUnregister)
    } else if name == "controller.unregister"@ {
        Some(Action::ControllerUnregister)
    } else if name == "controller.register"@ {
        Some(Action::ControllerRegister)
    } else if name == "controller.call"@ {
        Some(Action::ControllerCall)
    } else if name == "doctor"@ {
        Some(Action::Doctor)
    } else if name == "dashboard.snapshot"@ {
        Some(Action::DashboardSnapshot)
    } else if name == "run.start"@ {
        Some(Action::RunStart)
    } else if name == "run.finish"@ {
        Some(Action::RunFinish)
    } else if name == "run.get"@ {
        Some(Action::RunGet)
    } else if name == "run.list"@ {
        Some(Action::RunList)
    } else if name == "observability.query"@ {
        Some(Action::ObservabilityQuery)
    } else if name == "observation.append"@ {
        Some(Action::ObservationAppend)
    } else if name == "operator.grant"@ {
        Some(Action::OperatorGrant)
    } else if name == "operator.nonce"@ {
        Some(Action::OperatorNonce)
    } else if name == "operator.action"@ {
        Some(Action::OperatorAction)
    } else if name == "session.put"@ {
        Some(Action::SessionPut)
    } else if name == "session.accept-handoff"@ {
        Some(Action::SessionAcceptHandoff)
    } else if name == "session.handoff"@ {
        Some(Action::SessionHandoff)
    } else if name == "session.get"@ {
        Some(Action::SessionGet)
    } else if name == "session.list"@ {
        Some(Action::SessionList)
    } else if name == "session.transition"@ {
        Some(Action::SessionTransition)
    } else if name == "artifact.put"@ {
        Some(Action::ArtifactPut)
    } else if name == "artifact.get"@ {
        Some(Action::ArtifactGet)
    } else if name == "artifact.list"@ {
        Some(Action::ArtifactList)
    } else if name == "artifact.transfer"@ {
        Some(Action::ArtifactTransfer)
    } else if name == "generation.put"@ {
        Some(Action::GenerationPut)
    } else if name == "generation.get"@ {
        Some(Action::GenerationGet)
    } else if name == "generation.list"@ {
        Some(Action::GenerationList)
    } else if name == "agent.put"@ {
        Some(Action::AgentPut)
    } else if name == "agent.get"@ {
        Some(Action::AgentGet)
    } else if name == "agent.list"@ {
        Some(Action::AgentList)
    } else if name == "agent.transition"@ {
        Some(Action::AgentTransition)
    } else if name == "executor.put"@ {
        Some(Action::ExecutorPut)
    } else if name == "executor.register"@ {
        Some(Action::ExecutorRegister)
    } else if name == "executor.remove"@ {
        Some(Action::ExecutorRemove)
    } else if name == "executor.call"@ {
        Some(Action::ExecutorCall)
    } else if name == "approval.request"@ {
        Some(Action::ApprovalRequest)
    } else if name == "approval.list"@ {
        Some(Action::ApprovalList)
    } else if name == "approval.approve"@ {
        Some(Action::ApprovalApprove)
    } else if name == "approval.revoke"@ {
        Some(Action::ApprovalRevoke)
    } else if name == "read-grant.request"@ {
        Some(Action::ReadGrantRequest)
    } else if name == "read-grant.approve"@ {
        Some(Action::ReadGrantApprove)
    } else if name == "read-grant.list"@ {
        Some(Action::ReadGrantList)
    } else if name == "read-grant.revoke"@ {
        Some(Action::ReadGrantRevoke)
    } else if name == "capability.invoke"@ {
        Some(Action::CapabilityInvoke)
    } else if name == "driver.status"@ {
        Some(Action::DriverStatus)
    } else if name == "lease.status"@ {
        Some(Action::LeaseStatus)
    } else if name == "driver.handoff.status"@ {
        Some(Action::DriverHandoffStatus)
    } else if name == "agent.mutation.start"@ {
        Some(Action::AgentMutationStart)
    } else if name == "agent.mutation.finish"@ {
        Some(Action::AgentMutationFinish)
    } else if name == "driver.handoff.request"@ {
        Some(Action::DriverHandoffRequest)
    } else if name == "driver.handoff.await"@ {
        Some(Action::DriverHandoffAwait)
    } else if name == "driver.handoff.cancel"@ {
        Some(Action::DriverHandoffCancel)
    } else if name == "driver.acquire"@ {
        Some(Action::DriverAcquire)
    } else if name == "lease.acquire"@ {
        Some(Action::LeaseAcquire)
    } else if name == "driver.renew"@ {
        Some(Action::DriverRenew)
    } else if name == "lease.renew"@ {
        Some(Action::LeaseRenew)
    } else if name == "driver.handoff"@ {
        Some(Action::DriverHandoff)
    } else if name == "driver.take"@ {
        Some(Action::DriverTake)
    } else if name == "driver.release"@ {
        Some(Action::DriverRelease)
    } else if name == "lease.release"@ {
        Some(Action::LeaseRelease)
    } else if name == "task.submit"@ {
        Some(Action::TaskSubmit)
    } else if name == "task.get"@ {
        Some(Action::TaskGet)
    } else if name == "task.list"@ {
        Some(Action::TaskList)
    } else if name == "task.events"@ {
        Some(Action::TaskEvents)
    } else if name == "task.wait"@ {
        Some(Action::TaskWait)
    } else if name == "task.retry"@ {
        Some(Action::TaskRetry)
    } else if name == "task.cancel"@ {
        Some(Action::TaskCancel)
    } else if name == "task.prune"@ {
        Some(Action::TaskPrune)
    } else if name == "task.transition"@ {
        Some(Action::TaskTransition)
    } else if name == "port.list"@ {
        Some(Action::PortList)
    } else if name == "port.allocate"@ {
        Some(Action::PortAllocate)
    } else if name == "transaction.begin"@ {
        Some(Action::TransactionBegin)
    } else if name == "transaction.get"@ {
        Some(Action::TransactionGet)
    } else if name == "transaction.list"@ {
        Some(Action::TransactionList)
    } else if name == "transaction.record"@ {
        Some(Action::TransactionRecord)
    } else if name == "handoff.create"@ {
        Some(Action::HandoffCreate)
    } else if name == "handoff.get"@ {
        Some(Action::HandoffGet)
    } else if name == "handoff.list"@ {
        Some(Action::HandoffList)
    } else if name == "handoff.report"@ {
        Some(Action::HandoffReport)
    } else if name == "handoff.acknowledge"@ {
        Some(Action::HandoffAcknowledge)
    } else if name == "handoff.complete"@ {
        Some(Action::HandoffComplete)
    } else {
        None
    }
}

/// The action of a name, or the refusal of one that no controller answers.
pub fn parse_action(name: &str) -> (r: Result<Action, RpcError>)
    ensures
        match action_named(name@) {
            Some(a) => r == Ok::<Action, RpcError>(a),
            None => fails(r, rpc_error("UNKNOWN_ACTION"@, "unknown action: "@ + name@)),
        },
{
    if str_eq(name, "ping") {
        Ok(Action::Ping)
    } else if str_eq(name, "status") {
        Ok(Action::Status)
    } else if str_eq(name, "executor.list") {
        Ok(Action::ExecutorList)
    } else if str_eq(name, "controller.list") {
        Ok(Action::ControllerList)
    } else if str_eq(name, "executor.unregister") {
        Ok(Action::ExecutorUnregister)
    } else if str_eq(name, "controller.unregister") {
        Ok(Action::ControllerUnregister)
    } else if str_eq(name, "controller.register") {
        Ok(Action::ControllerRegister)
    } else if str_eq(name, "controller.call") {
        Ok(Action::ControllerCall)
    } else if str_eq(name, "doctor") {
        Ok(Action::Doctor)
    } else if str_eq(name, "dashboard.snapshot") {
        Ok(Action::DashboardSnapshot)
    } else if str_eq(name, "run.start") {
        Ok(Action::RunStart)
    } else if str_eq(name, "run.finish") {
        Ok(Action::RunFinish)
    } else if str_eq(name, "run.get") {
        Ok(Action::RunGet)
    } else if str_eq(name, "run.list") {
        Ok(Action::RunList)
    } else if str_eq(name, "observability.query") {
        Ok(Action::ObservabilityQuery)
    } else if str_eq(name, "observation.append") {
        Ok(Action::ObservationAppend)
    } else if str_eq(name, "operator.grant") {
        Ok(Action::OperatorGrant)
    } else if str_eq(name, "operator.nonce") {
        Ok(Action::OperatorNonce)
    } else if str_eq(name, "operator.action") {
        Ok(Action::OperatorAction)
    } else if str_eq(name, "session.put") {
        Ok(Action::SessionPut)
    } else if str_eq(name, "session.accept-handoff") {
        Ok(Action::SessionAcceptHandoff)
    } else if str_eq(name, "session.handoff") {
        Ok(Action::SessionHandoff)
    } else if str_eq(name, "session.get") {
        Ok(Action::SessionGet)
    } else if str_eq(name, "session.list") {
        Ok(Action::SessionList)
    } else if str_eq(name, "session.transition") {
        Ok(Action::SessionTransition)
    } else if str_eq(name, "artifact.put") {
        Ok(Action::ArtifactPut)
    } else if str_eq(name, "artifact.get") {
        Ok(Action::ArtifactGet)
    } else if str_eq(name, "artifact.list") {
        Ok(Action::ArtifactList)
    } else if str_eq(name, "artifact.transfer") {
        Ok(Action::ArtifactTransfer)
    } else if str_eq(name, "generation.put") {
        Ok(Action::GenerationPut)
    } else if str_eq(name, "generation.get") {
        Ok(Action::GenerationGet)
    } else if str_eq(name, "generation.list") {
        Ok(Action::GenerationList)
    } else if str_eq(name, "agent.put") {
        Ok(Action::AgentPut)
    } else if str_eq(name, "agent.get") {
        Ok(Action::AgentGet)
    } else if str_eq(name, "agent.list") {
        Ok(Action::AgentList)
    } else if str_eq(name, "agent.transition") {
        Ok(Action::AgentTransition)
    } else if str_eq(name, "executor.put") {
        Ok(Action::ExecutorPut)
    } else if str_eq(name, "executor.register") {
        Ok(Action::ExecutorRegister)
    } else if str_eq(name, "executor.remove") {
        Ok(Action::ExecutorRemove)
    } else if str_eq(name, "executor.call") {
        Ok(Action::ExecutorCall)
    } else if str_eq(name, "approval.request") {
        Ok(Action::ApprovalRequest)
    } else if str_eq(name, "approval.list") {
        Ok(Action::ApprovalList)
    } else if str_eq(name, "approval.approve") {
        Ok(Action::ApprovalApprove)
    } else if str_eq(name, "approval.revoke") {
        Ok(Action::ApprovalRevoke)
    } else if str_eq(name, "read-grant.request") {
        Ok(Action::ReadGrantRequest)
    } else if str_eq(name, "read-grant.approve") {
        Ok(Action::ReadGrantApprove)
    } else if str_eq(name, "read-grant.list") {
        Ok(Action::ReadGrantList)
    } else if str_eq(name, "read-grant.revoke") {
        Ok(Action::ReadGrantRevoke)
    } else if str_eq(name, "capability.invoke") {
        Ok(Action::CapabilityInvoke)
    } else if str_eq(name, "driver.status") {
        Ok(Action::DriverStatus)
    } else if str_eq(name, "lease.status") {
        Ok(Action::LeaseStatus)
    } else if str_eq(name, "driver.handoff.status") {
        Ok(Action::DriverHandoffStatus)
    } else if str_eq(name, "agent.mutation.start") {
        Ok(Action::AgentMutationStart)
    } else if str_eq(name, "agent.mutation.finish") {
        Ok(Action::AgentMutationFinish)
    } else if str_eq(name, "driver.handoff.request") {
        Ok(Action::DriverHandoffRequest)
    } else if str_eq(name, "driver.handoff.await") {
        Ok(Action::DriverHandoffAwait)
    } else if str_eq(name, "driver.handoff.cancel") {
        Ok(Action::DriverHandoffCancel)
    } else if str_eq(name, "driver.acquire") {
        Ok(Action::DriverAcquire)
    } else if str_eq(name, "lease.acquire") {
        Ok(Action::LeaseAcquire)
    } else if str_eq(name, "driver.renew") {
        Ok(Action::DriverRenew)
    } else if str_eq(name, "lease.renew") {
        Ok(Action::LeaseRenew)
    } else if str_eq(name, "driver.handoff") {
        Ok(Action::DriverHandoff)
    } else if str_eq(name, "driver.take") {
        Ok(Action::DriverTake)
    } else if str_eq(name, "driver.release") {
        Ok(Action::DriverRelease)
    } else if str_eq(name, "lease.release") {
        Ok(Action::LeaseRelease)
    } else if str_eq(name, "task.submit") {
        Ok(Action::TaskSubmit)
    } else if str_eq(name, "task.get") {
        Ok(Action::TaskGet)
    } else if str_eq(name, "task.list") {
        Ok(Action::TaskList)
    } else if str_eq(name, "task.events") {
        Ok(Action::TaskEvents)
    } else if str_eq(name, "task.wait") {
        Ok(Action::TaskWait)
    } else if str_eq(name, "task.retry") {
        Ok(Action::TaskRetry)
    } else if str_eq(name, "task.cancel") {
        Ok(Action::TaskCancel)
    } else if str_eq(name, "task.prune") {
        Ok(Action::TaskPrune)
    } else if str_eq(name, "task.transition") {
        Ok(Action::TaskTransition)
    } else if str_eq(name, "port.list") {
        Ok(Action::PortList)
    } else if str_eq(name, "port.allocate") {
        Ok(Action::PortAllocate)
    } else if str_eq(name, "transaction.begin") {
        Ok(Action::TransactionBegin)
    } else if str_eq(name, "transaction.get") {
        Ok(Action::TransactionGet)
    } else if str_eq(name, "transaction.list") {
        Ok(Action::TransactionList)
    } else if str_eq(name, "transaction.record") {
        Ok(Action::TransactionRecord)
    } else if str_eq(name, "handoff.create") {
        Ok(Action::HandoffCreate)
    } else if str_eq(name, "handoff.get") {
        Ok(Action::HandoffGet)
    } else if str_eq(name, "handoff.list") {
        Ok(Action::HandoffList)
    } else if str_eq(name, "handoff.report") {
        Ok(Action::HandoffReport)
    } else if str_eq(name, "handoff.acknowledge") {
        Ok(Action::HandoffAcknowledge)
    } else if str_eq(name, "handoff.complete") {
        Ok(Action::HandoffComplete)
    } else {
        Err(RpcError::new("UNKNOWN_ACTION", concat2("unknown action: ", name).as_str()))
    }
}

/// An action that is found by a name has that name.
pub proof fn action_has_its_name(name: Seq<char>)
    ensures
        action_named(name) matches Some(a) ==> a.name_view() == name,
{
}

/// Every action is found by its name.
#[verifier::rlimit(40)]
pub proof fn named_action_is_found(a: Action)
    ensures
        action_named(a.name_view()) == Some(a),
{
    reveal_strlit("ping");
    reveal_strlit("status");
    reveal_strlit("executor.list");
    reveal_strlit("controller.list");
    reveal_strlit("executor.unregister");
    reveal_strlit("controller.unregister");
    reveal_strlit("controller.register");
    reveal_strlit("controller.call");
    reveal_strlit("doctor");
    reveal_strlit("dashboard.snapshot");
    reveal_strlit("run.start");
    reveal_strlit("run.finish");
    reveal_strlit("run.get");
    reveal_strlit("run.list");
    reveal_strlit("observability.query");
    reveal_strlit("observation.append");
    reveal_strlit("operator.grant");
    reveal_strlit("operator.nonce");
    reveal_strlit("operator.action");
    reveal_strlit("session.put");
    reveal_strlit("session.accept-handoff");
    reveal_strlit("session.handoff");
    reveal_strlit("session.get");
    reveal_strlit("session.list");
    reveal_strlit("session.transition");
    reveal_strlit("artifact.put");
    reveal_strlit("artifact.get");
    reveal_strlit("artifact.list");
    reveal_strlit("artifact.transfer");
    reveal_strlit("generation.put");
    reveal_strlit("generation.get");
    reveal_strlit("generation.list");
    reveal_strlit("agent.put");
    reveal_strlit("agent.get");
    reveal_strlit("agent.list");
    reveal_strlit("agent.transition");
    reveal_strlit("executor.put");
    reveal_strlit("executor.register");
    reveal_strlit("executor.remove");
    reveal_strlit("executor.call");
    reveal_strlit("approval.request");
    reveal_strlit("approval.list");
    reveal_strlit("approval.approve");
    reveal_strlit("approval.revoke");
    reveal_strlit("read-grant.request");
    reveal_strlit("read-grant.approve");
    reveal_strlit("read-grant.list");
    reveal_strlit("read-grant.revoke");
    reveal_strlit("capability.invoke");
    reveal_strlit("driver.status");
    reveal_strlit("lease.status");
    reveal_strlit("driver.handoff.status");
    reveal_strlit("agent.mutation.start");
    reveal_strlit("agent.mutation.finish");
    reveal_strlit("driver.handoff.request");
    reveal_strlit("driver.handoff.await");
    reveal_strlit("driver.handoff.cancel");
    reveal_strlit("driver.acquire");
    reveal_strlit("lease.acquire");
    reveal_strlit("driver.renew");
    reveal_strlit("lease.renew");
    reveal_strlit("driver.handoff");
    reveal_strlit("driver.take");
    reveal_strlit("driver.release");
    reveal_strlit("lease.release");
    reveal_strlit("task.submit");
    reveal_strlit("task.get");
    reveal_strlit("task.list");
    reveal_strlit("task.events");
    reveal_strlit("task.wait");
    reveal_strlit("task.retry");
    reveal_strlit("task.cancel");
    reveal_strlit("task.prune");
    reveal_strlit("task.transition");
    reveal_strlit("port.list");
    reveal_strlit("port.allocate");
    reveal_strlit("transaction.begin");
    reveal_strlit("transaction.get");
    reveal_strlit("transaction.list");
    reveal_strlit("transaction.record");
    reveal_strlit("handoff.create");
    reveal_strlit("handoff.get");
    reveal_strlit("handoff.list");
    reveal_strlit("handoff.report");
    reveal_strlit("handoff.acknowledge");
    reveal_strlit("handoff.complete");
    assert("ping"@.len() == 4);
    assert("run.get"@.len() == 7);
    assert("status"@.len() == 6 && "status"@[0] == 's');
    assert("doctor"@.len() == 6 && "doctor"@[0] == 'd');
    assert("run.list"@.len() == 8 && "run.list"@[0] == 'r');
    assert("task.get"@.len() == 8 && "task.get"@[0] == 't');
    assert("run.start"@.len() == 9 && "run.start"@[0] == 'r' && "run.start"@[6] == 'a');
    assert("agent.put"@.len() == 9 && "agent.put"@[0] == 'a' && "agent.put"@[6] == 'p');
    assert("agent.get"@.len() == 9 && "agent.get"@[0] == 'a' && "agent.get"@[6] == 'g');
    assert("task.list"@.len() == 9 && "task.list"@[0] == 't' && "task.list"@[6] == 'i');
    assert("task.wait"@.len() == 9 && "task.wait"@[0] == 't' && "task.wait"@[6] == 'a');
    assert("port.list"@.len() == 9 && "port.list"@[0] == 'p' && "port.list"@[6] == 'i');
    assert("run.finish"@.len() == 10 && "run.finish"@[5] == 'i');
    assert("agent.list"@.len() == 10 && "agent.list"@[5] == '.');
    assert("task.retry"@.len() == 10 && "task.retry"@[5] == 'r');
    assert("task.prune"@.len() == 10 && "task.prune"@[5] == 'p');
    assert("session.put"@.len() == 11 && "session.put"@[0] == 's' && "session.put"@[8] == 'p');
    assert("session.get"@.len() == 11 && "session.get"@[0] == 's' && "session.get"@[8] == 'g');
    assert("lease.renew"@.len() == 11 && "lease.renew"@[0] == 'l' && "lease.renew"@[8] == 'n');
    assert("driver.take"@.len() == 11 && "driver.take"@[0] == 'd' && "driver.take"@[8] == 'a');
    assert("task.submit"@.len() == 11 && "task.submit"@[0] == 't' && "task.submit"@[8] == 'm');
    assert("task.events"@.len() == 11 && "task.events"@[0] == 't' && "task.events"@[8] == 'n');
    assert("task.cancel"@.len() == 11 && "task.cancel"@[0] == 't' && "task.cancel"@[8] == 'c');
    assert("handoff.get"@.len() == 11 && "handoff.get"@[0] == 'h' && "handoff.get"@[8] == 'g');
    assert("session.list"@.len() == 12 && "session.list"@[0] == 's' && "session.list"@[9] == 'i');
    assert("artifact.put"@.len() == 12 && "artifact.put"@[0] == 'a' && "artifact.put"@[9] == 'p');
    assert("artifact.get"@.len() == 12 && "artifact.get"@[0] == 'a' && "artifact.get"@[9] == 'g');
    assert("executor.put"@.len() == 12 && "executor.put"@[0] == 'e' && "executor.put"@[9] == 'p');
    assert("lease.status"@.len() == 12 && "lease.status"@[0] == 'l' && "lease.status"@[9] == 't');
    assert("driver.renew"@.len() == 12 && "driver.renew"@[0] == 'd' && "driver.renew"@[9] == 'n');
    assert("handoff.list"@.len() == 12 && "handoff.list"@[0] == 'h' && "handoff.list"@[9] == 'i');
    assert("executor.list"@.len() == 13 && "executor.list"@[1] == 'x' && "executor.list"@[9] == 'l');
    assert("artifact.list"@.len() == 13 && "artifact.list"@[1] == 'r' && "artifact.list"@[9] == 'l');
    assert("executor.call"@.len() == 13 && "executor.call"@[1] == 'x' && "executor.call"@[9] == 'c');
    assert("approval.list"@.len() == 13 && "approval.list"@[1] == 'p' && "approval.list"@[9] == 'l');
    assert("driver.status"@.len() == 13 && "driver.status"@[1] == 'r' && "driver.status"@[9] == 'a');
    assert("lease.acquire"@.len() == 13 && "lease.acquire"@[1] == 'e' && "lease.acquire"@[9] == 'u');
    assert("lease.release"@.len() == 13 && "lease.release"@[1] == 'e' && "lease.release"@[9] == 'e');
    assert("port.allocate"@.len() == 13 && "port.allocate"@[1] == 'o' && "port.allocate"@[9] == 'c');
    assert("operator.grant"@.len() == 14 && "operator.grant"@[0] == 'o' && "operator.grant"@[11] == 'a');
    assert("operator.nonce"@.len() == 14 && "operator.nonce"@[0] == 'o' && "operator.nonce"@[11] == 'n');
    assert("generation.put"@.len() == 14 && "generation.put"@[0] == 'g' && "generation.put"@[11] == 'p');
    assert("generation.get"@.len() == 14 && "generation.get"@[0] == 'g' && "generation.get"@[11] == 'g');
    assert("driver.acquire"@.len() == 14 && "driver.acquire"@[0] == 'd' && "driver.acquire"@[11] == 'i');
    assert("driver.handoff"@.len() == 14 && "driver.handoff"@[0] == 'd' && "driver.handoff"@[11] == 'o');
    assert("driver.release"@.len() == 14 && "driver.release"@[0] == 'd' && "driver.release"@[11] == 'a');
    assert("handoff.create"@.len() == 14 && "handoff.create"@[0] == 'h' && "handoff.create"@[11] == 'a');
    assert("handoff.report"@.len() == 14 && "handoff.report"@[0] == 'h' && "handoff.report"@[11] == 'o');
    assert("controller.list"@.len() == 15 && "controller.list"@[0] == 'c' && "controller.list"@[11] == 'l');
    assert("controller.call"@.len() == 15 && "controller.call"@[0] == 'c' && "controller.call"@[11] == 'c');
    assert("operator.action"@.len() == 15 && "operator.action"@[0] == 'o' && "operator.action"@[11] == 't');
    assert("session.handoff"@.len() == 15 && "session.handoff"@[0] == 's' && "session.handoff"@[11] == 'd');
    assert("generation.list"@.len() == 15 && "generation.list"@[0] == 'g' && "generation.list"@[11] == 'l');
    assert("executor.remove"@.len() == 15 && "executor.remove"@[0] == 'e' && "executor.remove"@[11] == 'm');
    assert("approval.revoke"@.len() == 15 && "approval.revoke"@[0] == 'a' && "approval.revoke"@[11] == 'v');
    assert("read-grant.list"@.len() == 15 && "read-grant.list"@[0] == 'r' && "read-grant.list"@[11] == 'l');
    assert("task.transition"@.len() == 15 && "task.transition"@[0] == 't' && "task.transition"@[11] == 't');
    assert("transaction.get"@.len() == 15 && "transaction.get"@[0] == 't' && "transaction.get"@[11] == '.');
    assert("agent.transition"@.len() == 16 && "agent.transition"@[10] == 's');
    assert("approval.request"@.len() == 16 && "approval.request"@[10] == 'e');
    assert("approval.approve"@.len() == 16 && "approval.approve"@[10] == 'p');
    assert("transaction.list"@.len() == 16 && "transaction.list"@[10] == 'n');
    assert("handoff.complete"@.len() == 16 && "handoff.complete"@[10] == 'm');
    assert("artifact.transfer"@.len() == 17 && "artifact.transfer"@[0] == 'a');
    assert("executor.register"@.len() == 17 && "executor.register"@[0] == 'e');
    assert("read-grant.revoke"@.len() == 17 && "read-grant.revoke"@[0] == 'r');
    assert("capability.invoke"@.len() == 17 && "capability.invoke"@[0] == 'c');
    assert("transaction.begin"@.len() == 17 && "transaction.begin"@[0] == 't');
    assert("dashboard.snapshot"@.len() == 18 && "dashboard.snapshot"@[14] == 's');
    assert("observation.append"@.len() == 18 && "observation.append"@[14] == 'p');
    assert("session.transition"@.len() == 18 && "session.transition"@[14] == 't');
    assert("read-grant.request"@.len() == 18 && "read-grant.request"@[14] == 'u');
    assert("read-grant.approve"@.len() == 18 && "read-grant.approve"@[14] == 'r');
    assert("transaction.record"@.len() == 18 && "transaction.record"@[14] == 'c');
    assert("executor.unregister"@.len() == 19 && "executor.unregister"@[0] == 'e');
    assert("controller.register"@.len() == 19 && "controller.register"@[0] == 'c');
    assert("observability.query"@.len() == 19 && "observability.query"@[0] == 'o');
    assert("handoff.acknowledge"@.len() == 19 && "handoff.acknowledge"@[0] == 'h');
    assert("agent.mutation.start"@.len() == 20 && "agent.mutation.start"@[0] == 'a');
    assert("driver.handoff.await"@.len() == 20 && "driver.handoff.await"@[0] == 'd');
    assert("controller.unregister"@.len() == 21 && "controller.unregister"@[15] == 'g');
    assert("driver.handoff.status"@.len() == 21 && "driver.handoff.status"@[15] == 's');
    assert("agent.mutation.finish"@.len() == 21 && "agent.mutation.finish"@[15] == 'f');
    assert("driver.handoff.cancel"@.len() == 21 && "driver.handoff.cancel"@[15] == 'c');
    assert("session.accept-handoff"@.len() == 22 && "session.accept-handoff"@[0] == 's');
    assert("driver.handoff.request"@.len() == 22 && "driver.handoff.request"@[0] == 'd');
    action_has_its_name(a.name_view());
    assert(action_named(a.name_view()) is Some);
    assert(action_named(a.name_view())->0 == a);
}

} // verus!
