//! The records of the control plane.

use crate::json::Json;
use std::collections::BTreeMap;
use vstd::prelude::*;

verus! {

pub const API_VERSION: &'static str = "workbench.dev/v1";

/// The identity and age of a record.
#[derive(Debug, Clone, PartialEq, Eq)]
pub struct Metadata {
    pub id: String,
    pub labels: BTreeMap<String, String>,
    pub created_at: u64,
    pub updated_at: u64,
}

/// The metadata of a record that is created at `now`, without labels.
pub fn fresh_metadata(id: &str, now: u64) -> (r: Metadata)
    ensures
        r.id@ == id@,
        r.created_at == now,
        r.updated_at == now,
{
    Metadata { id: id.to_owned(), labels: BTreeMap::new(), created_at: now, updated_at: now }
}

/// A unit of work that one controller has authority over.
#[derive(Debug, Clone, PartialEq, Eq)]
pub struct WorkspaceSession {
    pub api_version: String,
    pub metadata: Metadata,
    pub objective: String,
    pub state: SessionState,
    pub authority: Option<SessionAuthority>,
    pub observability: Option<SessionObservability>,
}

/// How a session is shown.
#[derive(Debug, Clone, PartialEq, Eq)]
pub struct SessionObservability {
    pub kind_label: String,
    pub stages: Vec<ObservabilityStage>,
    pub capability_groups: BTreeMap<String, Vec<String>>,
    pub safe_fields: Vec<String>,
    pub process_restart_templates: Vec<Json>,
    pub default_stall_after_ms: u64,
}

impl Default for SessionObservability {
    fn default() -> (r: SessionObservability)
        ensures
            r.kind_label@ == "Workspace"@,
            r.stages@.len() == 0,
            r.safe_fields@.len() == 0,
            r.process_restart_templates@.len() == 0,
            r.default_stall_after_ms == 300_000,
    {
        SessionObservability {
            kind_label: default_workspace_kind_label(),
            stages: Vec::new(),
            capability_groups: BTreeMap::new(),
            safe_fields: Vec::new(),
            process_restart_templates: Vec::new(),
            default_stall_after_ms: default_stall_after_ms(),
        }
    }
}

/// A stage that the sessions of a kind go through.
#[derive(Debug, Clone, PartialEq, Eq)]
pub struct ObservabilityStage {
    pub id: String,
    pub label: String,
}

/// The label of a session that names none.
pub fn default_workspace_kind_label() -> (r: String)
    ensures
        r@ == "Workspace"@,
{
    "Workspace".to_owned()
}

/// After how many milliseconds without progress a session that says nothing else has stalled.
pub fn default_stall_after_ms() -> (r: u64)
    ensures
        r == 300_000,
{
    300_000
}

/// Which controller has authority over a session, in which epoch.
#[derive(Debug, PartialEq, Eq)]
pub struct SessionAuthority {
    pub controller_id: String,
    pub epoch: u64,
    pub pending_controller_id: Option<String>,
}

impl Clone for SessionAuthority {
    fn clone(&self) -> (r: SessionAuthority)
        ensures
            r == *self,
    {
        SessionAuthority {
            controller_id: self.controller_id.clone(),
            epoch: self.epoch,
            pending_controller_id: self.pending_controller_id.clone(),
        }
    }
}

#[derive(Debug, Clone, Copy, PartialEq, Eq, Structural)]
pub enum SessionState {
    Active,
    Completed,
    Archived,
}

impl Default for SessionState {
    fn default() -> (r: SessionState)
        ensures
            r == SessionState::Active,
    {
        SessionState::Active
    }
}

/// A node that runs capabilities.
#[derive(Debug, Clone, PartialEq, Eq)]
pub struct Executor {
    pub api_version: String,
    pub metadata: Metadata,
    pub endpoint: ExecutorEndpoint,
    pub capabilities: Vec<CapabilityDescriptor>,
    pub allowed_roots: Vec<String>,
    pub health: HealthStatus,
}

/// A controller that can be reached. How it is reached does not depend on its role, so one
/// connection between nodes can carry the traffic of controllers and of executors.
#[derive(Debug, Clone, PartialEq, Eq)]
pub struct ControllerPeer {
    pub api_version: String,
    pub metadata: Metadata,
    pub endpoint: ExecutorEndpoint,
    pub health: HealthStatus,
}

/// How a node is reached.
#[derive(Debug, Clone, PartialEq, Eq)]
pub enum ExecutorEndpoint {
    Local { socket: String },
    Ssh { host: String, socket: String, control_path: Option<String> },
    Command { executable: String, args: Vec<String>, cwd: Option<String> },
}

#[derive(Debug, Clone, Copy, PartialEq, Eq, Structural)]
pub enum HealthStatus {
    Ready,
    Degraded,
    Offline,
    Unknown,
}

impl Default for HealthStatus {
    fn default() -> (r: HealthStatus)
        ensures
            r == HealthStatus::Unknown,
    {
        HealthStatus::Unknown
    }
}

/// What an executor says of one thing that it can do.
#[derive(Debug, Clone, PartialEq, Eq)]
pub struct CapabilityDescriptor {
    pub name: String,
    pub version: String,
    pub input_schema: Json,
    pub output_schema: Json,
    pub required_executor_features: Vec<String>,
    pub locks: Vec<LockTemplate>,
    pub idempotency: IdempotencyContract,
    pub timeout_ms: u64,
    /// How it is invoked where the request leaves that open.
    pub execution_kind: ExecutionKind,
    pub retry: RetryPolicy,
    pub rollback: RollbackStrategy,
    pub health_check: HealthCheck,
    pub emitted_evidence: Vec<String>,
    pub effect: Effect,
    /// What the caller must hold already. The locks only keep invocations apart.
    pub authority: CapabilityAuthority,
    /// Lower values are served first; zero is for the control plane itself.
    pub priority: u8,
    /// How many invocations of this class an executor runs at once.
    pub max_concurrency: Option<u32>,
    /// What becomes of work whose client is gone.
    pub cancel_policy: CancelPolicy,
}

#[derive(Debug, Clone, Copy, PartialEq, Eq, Structural)]
pub enum ExecutionKind {
    Inline,
    Background,
}

impl Default for ExecutionKind {
    fn default() -> (r: ExecutionKind)
        ensures
            r == ExecutionKind::Inline,
    {
        ExecutionKind::Inline
    }
}

/// The priority of a capability that names none.
pub fn default_capability_priority() -> (r: u8)
    ensures
        r == 3,
{
    3
}

#[derive(Debug, Clone, Copy, PartialEq, Eq, Structural)]
pub enum CancelPolicy {
    CancelOnDisconnect,
    Continue,
}

impl Default for CancelPolicy {
    fn default() -> (r: CancelPolicy)
        ensures
            r == CancelPolicy::Continue,
    {
        CancelPolicy::Continue
    }
}

/// How often a task is attempted.
#[derive(Debug, Clone, PartialEq, Eq)]
pub struct RetryPolicy {
    pub max_attempts: u32,
    pub retryable_errors: Vec<String>,
    pub backoff_ms: u64,
}

impl Default for RetryPolicy {
    fn default() -> (r: RetryPolicy)
        ensures
            r.max_attempts == 1,
            r.retryable_errors@.len() == 0,
            r.backoff_ms == 0,
    {
        RetryPolicy { max_attempts: default_attempts(), retryable_errors: Vec::new(), backoff_ms: 0 }
    }
}

/// How often a task is attempted where the capability does not say.
pub fn default_attempts() -> (r: u32)
    ensures
        r == 1,
{
    1
}

/// A resource that an invocation locks, with places for fields of its input.
#[derive(Debug, Clone, PartialEq, Eq)]
pub struct LockTemplate {
    pub key: String,
    pub mode: LockMode,
}

#[derive(Debug, Clone, Copy, PartialEq, Eq, Structural)]
pub enum LockMode {
    Shared,
    Exclusive,
}

impl Default for LockMode {
    fn default() -> (r: LockMode)
        ensures
            r == LockMode::Exclusive,
    {
        LockMode::Exclusive
    }
}

/// What makes two invocations the same, and for how long.
#[derive(Debug, Clone, PartialEq, Eq)]
pub struct IdempotencyContract {
    pub key_fields: Vec<String>,
    pub retention_ms: u64,
}

/// For how long invocations are remembered where the capability does not say: a day.
pub fn default_idempotency_ttl() -> (r: u64)
    ensures
        r == 86_400_000,
{
    86_400_000
}

#[derive(Debug, Clone, PartialEq, Eq)]
pub enum RollbackStrategy {
    Nothing,
    Compensate { capability: String },
    RetainPreviousGeneration,
}

#[derive(Debug, Clone, PartialEq, Eq)]
pub enum HealthCheck {
    Nothing,
    Capability { name: String },
    Process,
}

#[derive(Debug, Clone, Copy, PartialEq, Eq, Structural)]
pub enum Effect {
    ReadOnly,
    Mutating,
    Destructive,
}

impl Default for Effect {
    fn default() -> (r: Effect)
        ensures
            r == Effect::ReadOnly,
    {
        Effect::ReadOnly
    }
}

/// What the caller of a capability must hold.
#[derive(Debug, Clone, PartialEq, Eq)]
pub enum CapabilityAuthority {
    Nothing,
    WorkspaceDriver,
    ResourceLease { resource: String },
}

impl Default for CapabilityAuthority {
    fn default() -> (r: CapabilityAuthority)
        ensures
            r == CapabilityAuthority::Nothing,
    {
        CapabilityAuthority::Nothing
    }
}

#[derive(Debug, Clone, Copy, PartialEq, Eq, Structural)]
pub enum DriverHandoffState {
    Requested,
    Draining,
    Ready,
    Completed,
    Cancelled,
    Expired,
}

/// A request to take over as the writer of a workspace.
#[derive(Debug, PartialEq, Eq)]
pub struct DriverHandoffRequest {
    pub id: String,
    pub workspace_session_id: String,
    pub resource: String,
    pub requested_by: String,
    pub previous_owner: Option<String>,
    pub state: DriverHandoffState,
    pub created_at: u64,
    pub expires_at: u64,
    pub completed_at: Option<u64>,
}

impl Clone for DriverHandoffRequest {
    fn clone(&self) -> (r: DriverHandoffRequest)
        ensures
            r == *self,
    {
        DriverHandoffRequest {
            id: self.id.clone(),
            workspace_session_id: self.workspace_session_id.clone(),
            resource: self.resource.clone(),
            requested_by: self.requested_by.clone(),
            previous_owner: self.previous_owner.clone(),
            state: self.state,
            created_at: self.created_at,
            expires_at: self.expires_at,
            completed_at: self.completed_at,
        }
    }
}

/// A write that an agent has announced and not yet finished.
#[derive(Debug, PartialEq, Eq)]
pub struct AgentMutationOperation {
    pub id: String,
    pub workspace_session_id: String,
    pub agent_id: String,
    pub tool: String,
    pub started_at: u64,
}

impl Clone for AgentMutationOperation {
    fn clone(&self) -> (r: AgentMutationOperation)
        ensures
            r == *self,
    {
        AgentMutationOperation {
            id: self.id.clone(),
            workspace_session_id: self.workspace_session_id.clone(),
            agent_id: self.agent_id.clone(),
            tool: self.tool.clone(),
            started_at: self.started_at,
        }
    }
}

#[derive(Debug, Clone, Copy, PartialEq, Eq, Structural)]
pub enum ReadGrantState {
    Requested,
    Approved,
    Revoked,
    Expired,
}

/// Leave for the capabilities of a session to read below a directory of an executor.
#[derive(Debug, Clone, PartialEq, Eq)]
pub struct ReadGrant {
    pub id: String,
    pub workspace_session_id: String,
    pub executor_id: String,
    pub requested_root: String,
    pub real_root: String,
    pub capabilities: Vec<String>,
    pub state: ReadGrantState,
    pub requested_by: String,
    pub created_at: u64,
    pub approved_at: Option<u64>,
    pub revoked_at: Option<u64>,
    pub approved_by: Option<String>,
    pub audit: Json,
}

/// The exclusive right to a resource, for a time.
#[derive(Debug, PartialEq, Eq)]
pub struct Lease {
    pub id: String,
    pub kind: LeaseKind,
    pub resource: String,
    pub owner: String,
    pub token: String,
    pub fence: u64,
    pub acquired_at: u64,
    pub updated_at: u64,
    pub expires_at: u64,
    pub handoff_to: Option<String>,
}

impl Clone for Lease {
    fn clone(&self) -> (r: Lease)
        ensures
            r == *self,
    {
        Lease {
            id: self.id.clone(),
            kind: self.kind,
            resource: self.resource.clone(),
            owner: self.owner.clone(),
            token: self.token.clone(),
            fence: self.fence,
            acquired_at: self.acquired_at,
            updated_at: self.updated_at,
            expires_at: self.expires_at,
            handoff_to: self.handoff_to.clone(),
        }
    }
}

#[derive(Debug, Clone, Copy, PartialEq, Eq, Structural)]
pub enum LeaseKind {
    Driver,
    Resource,
}

/// An invocation of a capability.
#[derive(Debug, PartialEq, Eq)]
pub struct Task {
    pub id: String,
    pub correlation_id: Option<String>,
    pub request_id: Option<String>,
    pub workspace_session_id: String,
    pub executor_id: String,
    pub capability: String,
    pub input: Json,
    pub output: Option<Json>,
    pub error: Option<TaskFailure>,
    pub idempotency_key: String,
    pub state: TaskState,
    pub attempt: u32,
    pub created_at: u64,
    pub updated_at: u64,
    pub events: Vec<TaskEvent>,
}

#[derive(Debug, Clone, Copy, PartialEq, Eq, Structural)]
pub enum TaskState {
    Queued,
    Running,
    CancelRequested,
    Cancelling,
    Succeeded,
    Failed,
    Cancelled,
    FailedToCancel,
    TimedOut,
    OutcomeUnknown,
}

#[derive(Debug, Clone, Copy, PartialEq, Eq, Structural)]
pub enum RunStatus {
    Running,
    Completed,
    Cancelled,
    Interrupted,
}

#[derive(Debug, Clone, Copy, PartialEq, Eq, Structural)]
pub enum RunHealth {
    Healthy,
    Degraded,
    Failed,
    Unknown,
}

impl Default for RunHealth {
    fn default() -> (r: RunHealth)
        ensures
            r == RunHealth::Unknown,
    {
        RunHealth::Unknown
    }
}

/// A piece of work of an agent, from its start to its end.
#[derive(Debug, PartialEq, Eq)]
pub struct Run {
    pub run_id: String,
    pub workspace_session_id: Option<String>,
    pub agent_session_id: Option<String>,
    pub target_summary: String,
    pub created_by: String,
    pub status: RunStatus,
    pub health: RunHealth,
    pub started_at: u64,
    pub finished_at: Option<u64>,
    pub business_outcome: Option<String>,
}

impl Clone for Run {
    fn clone(&self) -> (r: Run)
        ensures
            r == *self,
    {
        Run {
            run_id: self.run_id.clone(),
            workspace_session_id: self.workspace_session_id.clone(),
            agent_session_id: self.agent_session_id.clone(),
            target_summary: self.target_summary.clone(),
            created_by: self.created_by.clone(),
            status: self.status,
            health: self.health,
            started_at: self.started_at,
            finished_at: self.finished_at,
            business_outcome: self.business_outcome.clone(),
        }
    }
}

/// Something that was seen to happen on a node.
#[derive(Debug, Clone, PartialEq, Eq)]
pub struct Observation {
    pub event_id: u64,
    pub run_id: Option<String>,
    pub timestamp: u64,
    pub node_id: String,
    pub role: String,
    pub kind: String,
    pub name: String,
    pub status: String,
    pub duration_ms: Option<u64>,
    pub span_id: Option<String>,
    pub parent_span_id: Option<String>,
    pub request_id: Option<String>,
    pub task_id: Option<String>,
    pub process_id: Option<String>,
    pub connection_id: Option<String>,
    pub attributes: Json,
}

impl TaskState {
    /// Whether a task in this state has come to an end.
    pub open spec fn ended(self) -> bool {
        self == TaskState::Succeeded || self == TaskState::Failed || self == TaskState::Cancelled || self
            == TaskState::FailedToCancel || self == TaskState::TimedOut || self == TaskState::OutcomeUnknown
    }

    /// Whether a task in this state has come to an end.
    pub fn terminal(&self) -> (r: bool)
        ensures
            r == self.ended(),
    {
        match self {
            TaskState::Succeeded
            | TaskState::Failed
            | TaskState::Cancelled
            | TaskState::FailedToCancel
            | TaskState::TimedOut
            | TaskState::OutcomeUnknown => true,
            _ => false,
        }
    }

    /// The name of the state in documents.
    pub open spec fn name_view(self) -> Seq<char> {
        match self {
            TaskState::Queued => "queued"@,
            TaskState::Running => "running"@,
            TaskState::CancelRequested => "cancel-requested"@,
            TaskState::Cancelling => "cancelling"@,
            TaskState::Succeeded => "succeeded"@,
            TaskState::Failed => "failed"@,
            TaskState::Cancelled => "cancelled"@,
            TaskState::FailedToCancel => "failed-to-cancel"@,
            TaskState::TimedOut => "timed-out"@,
            TaskState::OutcomeUnknown => "outcome-unknown"@,
        }
    }

    /// The name of the state in documents.
    pub fn name(&self) -> (r: &'static str)
        ensures
            r@ == self.name_view(),
    {
        match self {
            TaskState::Queued => "queued",
            TaskState::Running => "running",
            TaskState::CancelRequested => "cancel-requested",
            TaskState::Cancelling => "cancelling",
            TaskState::Succeeded => "succeeded",
            TaskState::Failed => "failed",
            TaskState::Cancelled => "cancelled",
            TaskState::FailedToCancel => "failed-to-cancel",
            TaskState::TimedOut => "timed-out",
            TaskState::OutcomeUnknown => "outcome-unknown",
        }
    }
}

impl RunStatus {
    /// The name of the status in documents.
    pub open spec fn name_view(self) -> Seq<char> {
        match self {
            RunStatus::Running => "running"@,
            RunStatus::Completed => "completed"@,
            RunStatus::Cancelled => "cancelled"@,
            RunStatus::Interrupted => "interrupted"@,
        }
    }

    /// The name of the status in documents.
    pub fn name(&self) -> (r: &'static str)
        ensures
            r@ == self.name_view(),
    {
        match self {
            RunStatus::Running => "running",
            RunStatus::Completed => "completed",
            RunStatus::Cancelled => "cancelled",
            RunStatus::Interrupted => "interrupted",
        }
    }
}

impl RunHealth {
    /// The name of the health in documents.
    pub open spec fn name_view(self) -> Seq<char> {
        match self {
            RunHealth::Healthy => "healthy"@,
            RunHealth::Degraded => "degraded"@,
            RunHealth::Failed => "failed"@,
            RunHealth::Unknown => "unknown"@,
        }
    }

    /// The name of the health in documents.
    pub fn name(&self) -> (r: &'static str)
        ensures
            r@ == self.name_view(),
    {
        match self {
            RunHealth::Healthy => "healthy",
            RunHealth::Degraded => "degraded",
            RunHealth::Failed => "failed",
            RunHealth::Unknown => "unknown",
        }
    }
}

/// A step in the life of a task.
#[derive(Debug, PartialEq, Eq)]
pub struct TaskEvent {
    pub sequence: u64,
    pub timestamp: u64,
    pub event_type: String,
    pub details: Json,
}

/// Why a task, a generation or a transaction failed.
#[derive(Debug, PartialEq, Eq)]
pub struct TaskFailure {
    pub code: String,
    pub message: String,
    pub retryable: bool,
    pub details: Json,
}

/// Content that is known by its digest.
#[derive(Debug, Clone, PartialEq, Eq)]
pub struct Artifact {
    pub digest: String,
    pub artifact_type: String,
    pub schema: String,
    pub size: u64,
    pub locations: Vec<ArtifactLocation>,
    pub provenance: Provenance,
    pub created_at: u64,
}

/// A deployed tree of an application, from its reservation on.
#[derive(Debug, Clone, PartialEq, Eq)]
pub struct Generation {
    pub id: String,
    pub workspace_session_id: String,
    pub application_type: String,
    pub root: String,
    pub state: GenerationState,
    pub baseline: BaselineIdentity,
    pub applied_artifacts: Vec<String>,
    pub digest: String,
    pub created_at: u64,
    pub activated_at: Option<u64>,
    pub validation: Option<EvidenceResult>,
    pub finalization: Option<EvidenceResult>,
    pub smoke: Option<EvidenceResult>,
    pub failure: Option<TaskFailure>,
}

#[derive(Debug, Clone, Copy, PartialEq, Eq, Structural)]
pub enum GenerationState {
    Reserved,
    Materializing,
    Materialized,
    Validated,
    Finalized,
    SmokePassed,
    Active,
    Superseded,
    Failed,
}

/// What a generation was made from.
#[derive(Debug, Clone, PartialEq, Eq)]
pub struct BaselineIdentity {
    pub digest: String,
    pub source: String,
    pub identifier: Option<String>,
    pub version: Option<String>,
    pub attributes: BTreeMap<String, String>,
}

/// The outcome of a check, with what it rests on.
#[derive(Debug, Clone, PartialEq, Eq)]
pub struct EvidenceResult {
    pub passed: bool,
    pub checked_at: u64,
    pub summary: String,
    pub artifacts: Vec<String>,
    pub details: Json,
}

/// The change of a target to a new generation, step by step.
#[derive(Debug, Clone, PartialEq, Eq)]
pub struct ActivationTransaction {
    pub id: String,
    pub workspace_session_id: String,
    pub idempotency_key: String,
    pub target: String,
    pub generation_id: String,
    pub previous_generation_id: Option<String>,
    pub state: TransactionState,
    pub created_at: u64,
    pub updated_at: u64,
    pub completed_steps: Vec<String>,
    pub journal: Vec<TransactionJournalEntry>,
    pub lease_fence: Option<u64>,
    pub evidence: Vec<String>,
    pub error: Option<TaskFailure>,
}

#[derive(Debug, Clone, Copy, PartialEq, Eq, Structural)]
pub enum TransactionState {
    Planned,
    Running,
    OutcomeUnknown,
    Activated,
    RolledBack,
    Failed,
}

/// One step of a transaction, as it was recorded.
#[derive(Debug, Clone, PartialEq, Eq)]
pub struct TransactionJournalEntry {
    pub sequence: u64,
    pub step: String,
    pub state: TransactionStepState,
    pub attempt: u32,
    pub started_at: u64,
    pub finished_at: Option<u64>,
    pub input_digest: Option<String>,
    pub output_digest: Option<String>,
    pub executor_id: Option<String>,
    pub fence: Option<u64>,
    pub details: Json,
}

#[derive(Debug, Clone, Copy, PartialEq, Eq, Structural)]
pub enum TransactionStepState {
    Planned,
    Started,
    Succeeded,
    Failed,
    Compensated,
    OutcomeUnknown,
}

#[derive(Debug, Clone, PartialEq, Eq)]
pub enum ArtifactLocation {
    File { executor_id: String, path: String },
    Url { url: String },
}

/// Where content comes from.
#[derive(Debug, Clone, PartialEq, Eq)]
pub struct Provenance {
    pub workspace_session_id: String,
    pub task_id: Option<String>,
    pub source_digests: Vec<String>,
    pub attributes: BTreeMap<String, String>,
}

/// An agent that works on a session.
#[derive(Debug, Clone, PartialEq, Eq)]
pub struct AgentInstance {
    pub id: String,
    pub workspace_session_id: String,
    pub executor_id: String,
    pub role: String,
    pub provider: String,
    pub state: AgentState,
    pub metadata: Json,
}

#[derive(Debug, Clone, Copy, PartialEq, Eq, Structural)]
pub enum AgentState {
    Starting,
    Running,
    Stopped,
    Failed,
}

/// Work that one agent passes to another.
#[derive(Debug, Clone, PartialEq, Eq)]
pub struct Handoff {
    pub id: String,
    pub kind: HandoffKind,
    pub workspace_session_id: String,
    pub objective: String,
    pub from: AgentRoleRef,
    pub to: AgentRoleRef,
    pub artifacts: Vec<HandoffArtifact>,
    pub evidence: Vec<Json>,
    pub completed_actions: Vec<PendingAction>,
    pub pending_actions: Vec<PendingAction>,
    pub acceptance_criteria: Vec<String>,
    pub constraints: Vec<String>,
    pub blockers: Vec<String>,
    pub created_at: u64,
    pub acknowledged_at: Option<u64>,
    pub completed_at: Option<u64>,
    pub report: Option<Json>,
}

#[derive(Debug, Clone, Copy, PartialEq, Eq, Structural)]
pub enum HandoffKind {
    Work,
    Acceptance,
}

impl Default for HandoffKind {
    fn default() -> (r: HandoffKind)
        ensures
            r == HandoffKind::Work,
    {
        HandoffKind::Work
    }
}

/// An artifact that goes with a handoff.
#[derive(Debug, Clone, PartialEq, Eq)]
pub struct HandoffArtifact {
    pub artifact_type: String,
    pub digest: String,
    pub generation: Option<String>,
    pub provenance: Json,
    pub location: Option<ArtifactLocation>,
}

/// A role, and the agent that has it where that is settled.
#[derive(Debug, Clone, PartialEq, Eq)]
pub struct AgentRoleRef {
    pub agent_id: Option<String>,
    pub role: String,
}

/// A capability to be invoked, with its input.
#[derive(Debug, Clone, PartialEq, Eq)]
pub struct PendingAction {
    pub capability: String,
    pub input: Json,
}

/// Leave to run one exact command, once.
#[derive(Debug, PartialEq, Eq)]
pub struct Approval {
    pub id: String,
    pub digest: String,
    pub owner: String,
    pub reason: String,
    pub state: ApprovalState,
    pub created_at: u64,
    pub approved_at: Option<u64>,
    pub consumed_at: Option<u64>,
    pub expires_at: Option<u64>,
}

impl Clone for Approval {
    fn clone(&self) -> (r: Approval)
        ensures
            r == *self,
    {
        Approval {
            id: self.id.clone(),
            digest: self.digest.clone(),
            owner: self.owner.clone(),
            reason: self.reason.clone(),
            state: self.state,
            created_at: self.created_at,
            approved_at: self.approved_at,
            consumed_at: self.consumed_at,
            expires_at: self.expires_at,
        }
    }
}

#[derive(Debug, Clone, Copy, PartialEq, Eq, Structural)]
pub enum ApprovalState {
    Pending,
    Approved,
    Consumed,
    Revoked,
    Expired,
}

} // verus!
