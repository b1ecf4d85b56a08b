//! The primary records: agents, tools, runs, operations and events.
use vstd::prelude::*;
use crate::error::{invalid, Error, Result};

verus! {

pub const SCHEMA_VERSION: u32 = 1u32;

#[derive(Clone, Debug, PartialEq, Eq, PartialOrd, Ord)]
pub struct VersionRef {
    pub id: String,
    pub version: u32,
}

impl VersionRef {
    pub open spec fn same(self, other: VersionRef) -> bool {
        self.id@ == other.id@ && self.version == other.version
    }

    pub fn equals(&self, other: &VersionRef) -> (r: bool)
        ensures
            r == self.same(*other),
    {
        self.id == other.id && self.version == other.version
    }

    pub fn copy(&self) -> (r: VersionRef)
        ensures
            r.same(*self),
    {
        VersionRef { id: self.id.clone(), version: self.version }
    }
}

#[derive(Clone, Debug, PartialEq, Eq)]
pub struct Actor {
    pub workspace_id: String,
    pub id: String,
}

#[derive(Clone, Debug, PartialEq, Eq, Structural)]
pub struct Limits {
    pub max_harness_steps: u64,
    pub max_model_calls: u32,
    pub max_operations: u32,
    pub max_batch_size: usize,
    pub max_context_bytes: usize,
    pub max_payload_bytes: usize,
}

impl Limits {
    pub open spec fn all_positive(self) -> bool {
        &&& self.max_harness_steps > 0
        &&& self.max_model_calls > 0
        &&& self.max_operations > 0
        &&& self.max_batch_size > 0
        &&& self.max_context_bytes > 0
        &&& self.max_payload_bytes > 0
    }

    /// Every execution limit must be positive.
    pub fn validate(&self) -> (r: Result<()>)
        ensures
            r is Ok <==> self.all_positive(),
            r is Err ==> r matches Err(Error::Invalid(_)),
    {
        if self.max_harness_steps == 0 || self.max_model_calls == 0 || self.max_operations == 0
            || self.max_batch_size == 0 || self.max_context_bytes == 0
            || self.max_payload_bytes == 0 {
            return Err(invalid("all execution limits must be positive"));
        }
        Ok(())
    }

    pub fn copy(&self) -> (r: Limits)
        ensures
            r == *self,
    {
        Limits { ..*self }
    }
}

impl Default for Limits {
    fn default() -> (r: Limits)
        ensures
            r.max_harness_steps == 128,
            r.max_model_calls == 8,
            r.max_operations == 32,
            r.max_batch_size == 4,
            r.max_context_bytes == 65536,
            r.max_payload_bytes == 65536,
    {
        Limits {
            max_harness_steps: 128,
            max_model_calls: 8,
            max_operations: 32,
            max_batch_size: 4,
            max_context_bytes: 64 * 1024,
            max_payload_bytes: 64 * 1024,
        }
    }
}

} // verus!

verus! {

#[derive(Clone, Copy, Debug, PartialEq, Eq, Structural)]
pub enum RunStatus {
    Queued,
    Running,
    Waiting,
    Cancelling,
    Completed,
    Failed,
    Cancelled,
}

impl RunStatus {
    pub open spec fn is_terminal(self) -> bool {
        self is Completed || self is Failed || self is Cancelled
    }

    /// Completed, failed and cancelled runs are final.
    pub fn terminal(self) -> (r: bool)
        ensures
            r == self.is_terminal(),
    {
        match self {
            RunStatus::Completed | RunStatus::Failed | RunStatus::Cancelled => true,
            _ => false,
        }
    }

    /// Terminal, or already stopping.
    pub open spec fn is_stopped(self) -> bool {
        self.is_terminal() || self is Cancelling
    }
}

#[derive(Clone, Copy, Debug, PartialEq, Eq, Structural)]
pub enum OperationStatus {
    Pending,
    WaitingApproval,
    Running,
    Unknown,
    Succeeded,
    Failed,
    Denied,
    Cancelled,
}

#[derive(Clone, Copy, Debug, PartialEq, Eq, Structural)]
pub enum EventType {
    RunCreated,
    InputReceived,
    OperationRequested,
    ApprovalRequested,
    ApprovalDecided,
    OperationStarted,
    OperationSettled,
    OperationUnknown,
    RunWaiting,
    RunResumed,
    CancellationRequested,
    RunFinished,
    AssessmentRecorded,
}

#[derive(Clone, Copy, Debug, PartialEq, Eq, Structural)]
pub enum Effect {
    Read,
    Write,
}

#[derive(Clone, Debug, PartialEq, Eq)]
pub enum Execution {
    /// Explicitly registered trusted in-process executor; never arbitrary guest code.
    Registered { key: String },
    Http { endpoint: String },
    Sandbox { package: String },
}

#[derive(Clone, Debug, PartialEq, Eq)]
pub enum WaitReason {
    Approval { operation_id: u128 },
    Reconciliation { operation_id: u128 },
    UserInput { prompt: String, question_id: u64 },
}

#[derive(Clone, Debug, PartialEq, Eq)]
pub struct Usage {
    /// Admitted calls, not provider token/currency estimates.
    pub model_calls: u32,
    pub tool_calls: u32,
    pub operations: u32,
    /// Only calls with a valid provider usage report contribute to these totals.
    pub reported_model_calls: u32,
    pub reported_input_tokens: u64,
    pub reported_output_tokens: u64,
}

impl Usage {
    pub open spec fn zero(self) -> bool {
        &&& self.model_calls == 0
        &&& self.tool_calls == 0
        &&& self.operations == 0
        &&& self.reported_model_calls == 0
        &&& self.reported_input_tokens == 0
        &&& self.reported_output_tokens == 0
    }

    pub fn new() -> (r: Usage)
        ensures
            r.zero(),
    {
        Usage {
            model_calls: 0,
            tool_calls: 0,
            operations: 0,
            reported_model_calls: 0,
            reported_input_tokens: 0,
            reported_output_tokens: 0,
        }
    }
}

#[derive(Clone, Debug, PartialEq, Eq)]
pub struct TokenUsage {
    /// Total reported input, including cached input when the provider separates it.
    pub input_tokens: u64,
    pub output_tokens: u64,
}

/// Identity and creation data of a stored record.
#[derive(Clone, Debug, PartialEq, Eq)]
pub struct Metadata {
    pub id: u128,
    pub workspace_id: String,
    pub schema_version: u32,
    pub created_at: u64,
}

/// Reference to a successful tool result that a verification relied on.
#[derive(Clone, Debug, PartialEq, Eq)]
pub struct Evidence {
    pub operation_id: u128,
    pub tool_name: String,
    pub request_digest: String,
    pub result_digest: String,
}

#[derive(Clone, Debug, PartialEq, Eq)]
pub struct Assessment {
    pub passed: bool,
    pub feedback: String,
    pub evidence: Vec<Evidence>,
}

/// Immutable task objective and deterministic final-output acceptance contract.
/// Schemas and criteria are held as JSON text.
#[derive(Clone, Debug, PartialEq, Eq)]
pub struct Goal {
    pub objective: String,
    pub success_schema: String,
    pub criteria: String,
}

#[derive(Clone, Debug, PartialEq, Eq)]
pub struct AgentTool {
    pub tool_ref: VersionRef,
    pub alias: String,
}

/// An immutable agent version. Schemas are JSON text.
#[derive(Clone, Debug, PartialEq, Eq)]
pub struct Agent {
    pub id: String,
    pub workspace_id: String,
    pub version: u32,
    pub schema_version: u32,
    pub name: String,
    pub allow_user_input: bool,
    pub instructions: String,
    pub model: String,
    pub tools: Vec<AgentTool>,
    pub input_schema: Option<String>,
    pub output_schema: Option<String>,
    pub limits: Limits,
    pub created_at: u64,
}

impl Agent {
    pub fn reference(&self) -> (r: VersionRef)
        ensures
            r.id@ == self.id@,
            r.version == self.version,
    {
        VersionRef { id: self.id.clone(), version: self.version }
    }
}

/// An immutable tool version. Schemas are JSON text.
#[derive(Clone, Debug, PartialEq, Eq)]
pub struct Tool {
    pub id: String,
    pub workspace_id: String,
    pub version: u32,
    pub schema_version: u32,
    pub name: String,
    pub description: String,
    pub input_schema: String,
    pub output_schema: Option<String>,
    pub execution: Execution,
    pub credential_ref: Option<String>,
    pub policy_ref: String,
    pub effect: Effect,
    pub created_at: u64,
}

impl Tool {
    pub fn reference(&self) -> (r: VersionRef)
        ensures
            r.id@ == self.id@,
            r.version == self.version,
    {
        VersionRef { id: self.id.clone(), version: self.version }
    }
}

} // verus!
