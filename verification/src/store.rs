//! Durable state: runs, operations, events and definitions, kept as tables.
//! Every mutating operation is a transaction on `Data`: on error it leaves the
//! value unchanged, so a caller may commit or discard it as a whole.
use vstd::prelude::*;
use crate::error::{Error, Result};
use crate::harness::{Checkpoint, Input, ModelRequest, ToolCall, ToolResult, ModelResponse};
use crate::models::{Actor, Agent, Assessment, EventType, Evidence, Goal, Limits, Metadata, OperationStatus, RunStatus, TokenUsage, Tool, Usage, VersionRef, WaitReason, SCHEMA_VERSION};
use crate::primitives::{new_id, now};

verus! {

#[derive(Clone, Debug, PartialEq, Eq)]
pub enum OperationRequest {
    Model { request: ModelRequest },
    Tool { tool_ref: VersionRef, call: ToolCall },
    Verify { candidate: String },
}

#[derive(Clone, Debug, PartialEq, Eq)]
pub enum OperationResult {
    Model { response: ModelResponse },
    Tool { result: ToolResult },
    Verify { passed: bool, feedback: String, evidence: Vec<Evidence> },
}

#[derive(Clone, Debug, PartialEq, Eq)]
pub struct ApprovalDecision {
    pub actor_id: String,
    pub request_digest: String,
    pub approved: bool,
    pub decided_at: u64,
    pub expires_at: u64,
}

#[derive(Clone, Debug, PartialEq, Eq)]
pub struct Approval {
    pub request_digest: String,
    pub decisions: Vec<ApprovalDecision>,
}

#[derive(Clone, Debug, PartialEq, Eq)]
pub struct Attempt {
    pub token_usage: Option<TokenUsage>,
    pub id: u128,
    pub number: u32,
    pub started_at: u64,
    pub finished_at: Option<u64>,
    pub status: OperationStatus,
    pub error: Option<String>,
}

#[derive(Clone, Debug, PartialEq, Eq)]
pub struct Operation {
    pub meta: Metadata,
    pub run_id: u128,
    pub step_index: u64,
    pub request_index: usize,
    pub request: OperationRequest,
    pub request_digest: String,
    pub status: OperationStatus,
    pub approval: Option<Approval>,
    pub attempts: Vec<Attempt>,
    pub result: Option<OperationResult>,
    pub revision: u64,
}

/// Immutable per-run binding of a shared model-call budget.
#[derive(Clone, Debug, PartialEq, Eq)]
pub struct ModelBudgetBinding {
    pub workspace: String,
    pub group: String,
}

impl ModelBudgetBinding {
    pub open spec fn same(self, o: ModelBudgetBinding) -> bool {
        self.workspace@ == o.workspace@ && self.group@ == o.group@
    }
}

pub open spec fn same_binding(a: Option<ModelBudgetBinding>, b: Option<ModelBudgetBinding>) -> bool {
    match (a, b) {
        (None, None) => true,
        (Some(x), Some(y)) => x.same(y),
        _ => false,
    }
}

pub fn binding_equals(a: &Option<ModelBudgetBinding>, b: &Option<ModelBudgetBinding>) -> (r: bool)
    ensures
        r == same_binding(*a, *b),
{
    match (a, b) {
        (None, None) => true,
        (Some(x), Some(y)) => x.workspace == y.workspace && x.group == y.group,
        _ => false,
    }
}

#[derive(Clone, Debug, PartialEq, Eq)]
pub struct Run {
    pub meta: Metadata,
    pub agent_ref: VersionRef,
    pub parent_operation: Option<u128>,
    pub model_budget: Option<ModelBudgetBinding>,
    pub actor_id: String,
    pub request_key: Option<String>,
    pub input_digest: String,
    pub input: String,
    pub goal: Option<Goal>,
    pub status: RunStatus,
    pub reason: Option<String>,
    pub wait: Option<WaitReason>,
    pub state: Checkpoint,
    pub pending_operations: Vec<u128>,
    pub next_input: Option<Input>,
    pub limits: Limits,
    pub usage: Usage,
    pub result: Option<String>,
    pub assessment: Option<Assessment>,
    pub verified_candidate_digest: Option<String>,
    pub revision: u64,
}

#[derive(Clone, Debug, PartialEq, Eq)]
pub struct Event {
    pub meta: Metadata,
    pub run_id: u128,
    pub operation_id: Option<u128>,
    pub sequence: u64,
    pub event_type: EventType,
    pub actor_id: Option<String>,
    pub payload: String,
}

/// The events of one run, in order.
#[derive(Clone, Debug, PartialEq, Eq)]
pub struct EventLog {
    pub run_id: u128,
    pub events: Vec<Event>,
}

/// A request-key receipt: the same key in the same scope names the same run.
#[derive(Clone, Debug, PartialEq, Eq)]
pub struct Submission {
    pub workspace_id: String,
    pub actor_id: String,
    pub key: String,
    pub run_id: u128,
}

/// A user-input receipt: one key per run, bound to the digest of its answer.
#[derive(Clone, Debug, PartialEq, Eq)]
pub struct InputReceipt {
    pub run_id: u128,
    pub key: String,
    pub digest: String,
}

/// The shared admission counter of a family of agent runtimes.
#[derive(Clone, Copy, Debug, PartialEq, Eq, Structural)]
pub struct ModelBudget {
    pub limit: u32,
    pub admitted: u32,
}

#[derive(Clone, Debug, PartialEq, Eq)]
pub struct BudgetEntry {
    pub workspace: String,
    pub group: String,
    pub budget: ModelBudget,
}

/// Tool-use authority of a policy reference.
#[derive(Clone, Debug, PartialEq, Eq)]
pub struct Policy {
    pub actors: Vec<String>,
    pub approvers: Vec<String>,
    pub require_approval: bool,
}

#[derive(Clone, Debug, PartialEq, Eq)]
pub struct PolicyEntry {
    pub workspace: String,
    pub id: String,
    pub policy: Policy,
}

/// Durable scheduling intent of a root run.
#[derive(Clone, Debug, PartialEq, Eq)]
pub struct ScheduleTarget {
    pub scheduler: String,
    pub task_queue: String,
}

#[derive(Clone, Debug, PartialEq, Eq)]
pub struct ScheduleRequest {
    pub run_id: u128,
    pub target: ScheduleTarget,
    pub acknowledged: bool,
    pub last_attempt: u64,
}

/// A delegated child run and its place in its parent's task graph.
#[derive(Clone, Debug, PartialEq, Eq)]
pub struct TeamTask {
    pub parent_run: u128,
    pub root_run: u128,
    pub child_run: u128,
    pub parent_operation: u128,
    pub task_key: String,
    pub dependencies: Vec<u128>,
    pub input_digest: String,
    pub repetition_digest: String,
}

/// The non-secret model transport configuration pinned to an agent version.
#[derive(Clone, Debug, PartialEq, Eq)]
pub struct ModelBinding {
    pub workspace: String,
    pub agent: VersionRef,
    pub fingerprint: String,
}

/// All durable state of one store.
pub struct Data {
    pub agents: Vec<Agent>,
    pub tools: Vec<Tool>,
    pub runs: Vec<Run>,
    pub operations: Vec<Operation>,
    pub logs: Vec<EventLog>,
    pub submissions: Vec<Submission>,
    pub inputs: Vec<InputReceipt>,
    pub policies: Vec<PolicyEntry>,
    pub model_budgets: Vec<BudgetEntry>,
    pub schedule_requests: Vec<ScheduleRequest>,
    pub team_tasks: Vec<TeamTask>,
    pub memories: Vec<crate::memory::MemoryRecord>,
    pub memory_bindings: Vec<crate::memory::MemoryBinding>,
    pub api_tokens: Vec<crate::credentials::ApiTokenRecord>,
    pub customer_registry: Vec<crate::customer::RegistryEntry>,
    pub model_bindings: Vec<ModelBinding>,
    pub publications: Vec<crate::publication::Publication>,
    pub publication_keys: Vec<crate::publication::PublicationKey>,
    pub coordination_policies: Vec<crate::coordination::CoordinationBinding>,
    pub context_artifacts: Vec<crate::context::ContextArtifact>,
    pub context_policies: Vec<crate::context::ContextBinding>,
    pub customer_tools: Vec<crate::customer::CustomerTool>,
    pub customer_tool_keys: Vec<crate::customer::ToolKey>,
}

/// `new` is `old` with zero or more entries appended.
pub open spec fn extends<T>(old: Seq<T>, new: Seq<T>) -> bool {
    old.len() <= new.len() && forall|i: int| 0 <= i < old.len() ==> #[trigger] new[i] == old[i]
}

/// Only the definition tables changed, and only by appending entries.
pub open spec fn definitions_extended(old: Data, new: Data) -> bool {
    &&& extends(old.agents@, new.agents@) && extends(old.tools@, new.tools@) && extends(old.policies@, new.policies@)
    &&& extends(old.model_budgets@, new.model_budgets@) && extends(old.model_bindings@, new.model_bindings@)
    &&& extends(old.memory_bindings@, new.memory_bindings@) && extends(old.context_policies@, new.context_policies@)
    &&& extends(old.coordination_policies@, new.coordination_policies@)
    &&& new == (Data { agents: new.agents, tools: new.tools, policies: new.policies, model_budgets: new.model_budgets,
        model_bindings: new.model_bindings, memory_bindings: new.memory_bindings, context_policies: new.context_policies,
        coordination_policies: new.coordination_policies, ..old })
}

/// Appending is transitive.
pub broadcast proof fn lemma_definitions_extended_trans(a: Data, b: Data, c: Data)
    requires
        definitions_extended(a, b),
        definitions_extended(b, c),
    ensures
        #![trigger definitions_extended(a, b), definitions_extended(b, c)]
        definitions_extended(a, c),
{
}

pub open spec fn run_ids_unique(runs: Seq<Run>) -> bool {
    forall|i: int, j: int| 0 <= i < runs.len() && 0 <= j < runs.len() && i != j
        ==> runs[i].meta.id != runs[j].meta.id
}

pub open spec fn operation_ids_unique(ops: Seq<Operation>) -> bool {
    forall|i: int, j: int| 0 <= i < ops.len() && 0 <= j < ops.len() && i != j
        ==> ops[i].meta.id != ops[j].meta.id
}

/// Events of a log carry its run and are numbered 1, 2, ... in order.
pub open spec fn log_sequenced(log: EventLog) -> bool {
    &&& log.events@.len() < u64::MAX
    &&& forall|k: int| 0 <= k < log.events@.len() ==> {
        &&& #[trigger] log.events@[k].sequence == k + 1
        &&& log.events@[k].run_id == log.run_id
    }
}

pub open spec fn policy_keys_unique(p: Seq<PolicyEntry>) -> bool {
    forall|i: int, j: int| 0 <= i < p.len() && 0 <= j < p.len() && i != j
        ==> !(p[i].workspace@ == p[j].workspace@ && p[i].id@ == p[j].id@)
}

pub open spec fn budget_keys_unique(p: Seq<BudgetEntry>) -> bool {
    forall|i: int, j: int| 0 <= i < p.len() && 0 <= j < p.len() && i != j
        ==> !(p[i].workspace@ == p[j].workspace@ && p[i].group@ == p[j].group@)
}

pub open spec fn tool_keys_unique(p: Seq<Tool>) -> bool {
    forall|i: int, j: int| 0 <= i < p.len() && 0 <= j < p.len() && i != j
        ==> !(p[i].workspace_id@ == p[j].workspace_id@ && p[i].id@ == p[j].id@ && p[i].version == p[j].version)
}

pub open spec fn agent_keys_unique(p: Seq<Agent>) -> bool {
    forall|i: int, j: int| 0 <= i < p.len() && 0 <= j < p.len() && i != j
        ==> !(p[i].workspace_id@ == p[j].workspace_id@ && p[i].id@ == p[j].id@ && p[i].version == p[j].version)
}

pub open spec fn input_keys_unique(p: Seq<InputReceipt>) -> bool {
    forall|i: int, j: int| 0 <= i < p.len() && 0 <= j < p.len() && i != j
        ==> !(p[i].run_id == p[j].run_id && p[i].key@ == p[j].key@)
}

pub open spec fn submission_keys_unique(p: Seq<Submission>) -> bool {
    forall|i: int, j: int| 0 <= i < p.len() && 0 <= j < p.len() && i != j
        ==> !(p[i].workspace_id@ == p[j].workspace_id@ && p[i].actor_id@ == p[j].actor_id@ && p[i].key@ == p[j].key@)
}

pub open spec fn schedule_keys_unique(p: Seq<ScheduleRequest>) -> bool {
    forall|i: int, j: int| 0 <= i < p.len() && 0 <= j < p.len() && i != j ==> p[i].run_id != p[j].run_id
}

pub open spec fn team_keys_unique(p: Seq<TeamTask>) -> bool {
    forall|i: int, j: int| 0 <= i < p.len() && 0 <= j < p.len() && i != j ==> p[i].child_run != p[j].child_run
}

pub open spec fn model_binding_keys_unique(p: Seq<ModelBinding>) -> bool {
    forall|i: int, j: int| 0 <= i < p.len() && 0 <= j < p.len() && i != j
        ==> !(p[i].workspace@ == p[j].workspace@ && p[i].agent.same(p[j].agent))
}

pub open spec fn logs_wf(logs: Seq<EventLog>) -> bool {
    &&& forall|i: int| 0 <= i < logs.len() ==> log_sequenced(#[trigger] logs[i])
    &&& forall|i: int, j: int| 0 <= i < logs.len() && 0 <= j < logs.len() && i != j
        ==> logs[i].run_id != logs[j].run_id
}

impl Data {
    pub open spec fn wf(&self) -> bool {
        &&& run_ids_unique(self.runs@)
        &&& operation_ids_unique(self.operations@)
        &&& logs_wf(self.logs@)
        &&& policy_keys_unique(self.policies@)
        &&& budget_keys_unique(self.model_budgets@)
        &&& tool_keys_unique(self.tools@)
        &&& agent_keys_unique(self.agents@)
        &&& input_keys_unique(self.inputs@)
        &&& submission_keys_unique(self.submissions@)
        &&& schedule_keys_unique(self.schedule_requests@)
        &&& team_keys_unique(self.team_tasks@)
        &&& crate::memory::memory_ids_unique(self.memories@)
        &&& crate::memory::memory_keys_unique(self.memories@)
        &&& crate::memory::binding_keys_unique(self.memory_bindings@)
        &&& crate::credentials::token_ids_unique(self.api_tokens@)
        &&& crate::customer::registry_keys_unique(self.customer_registry@)
        &&& model_binding_keys_unique(self.model_bindings@)
        &&& crate::publication::publications_unique(self.publications@)
        &&& crate::publication::publication_keys_unique(self.publication_keys@)
        &&& crate::coordination::coordination_keys_unique(self.coordination_policies@)
        &&& crate::context::artifact_ids_unique(self.context_artifacts@)
        &&& crate::context::context_keys_unique(self.context_policies@)
        &&& crate::customer::customer_tools_unique(self.customer_tools@)
        &&& crate::customer::tool_keys_unique(self.customer_tool_keys@)
    }

    pub fn new() -> (d: Data)
        ensures
            d.wf(),
            d.runs@.len() == 0,
            d.operations@.len() == 0,
            d.logs@.len() == 0,
    {
        Data {
            agents: Vec::new(),
            tools: Vec::new(),
            runs: Vec::new(),
            operations: Vec::new(),
            logs: Vec::new(),
            submissions: Vec::new(),
            inputs: Vec::new(),
            policies: Vec::new(),
            model_budgets: Vec::new(),
            schedule_requests: Vec::new(),
            team_tasks: Vec::new(),
            memories: Vec::new(),
            memory_bindings: Vec::new(),
            api_tokens: Vec::new(),
            customer_registry: Vec::new(),
            model_bindings: Vec::new(),
            publications: Vec::new(),
            publication_keys: Vec::new(),
            coordination_policies: Vec::new(),
            context_artifacts: Vec::new(),
            context_policies: Vec::new(),
            customer_tools: Vec::new(),
            customer_tool_keys: Vec::new(),
        }
    }

    // ----- runs -----

    pub open spec fn has_run(&self, id: u128) -> bool {
        exists|i: int| 0 <= i < self.runs@.len() && self.runs@[i].meta.id == id
    }

    pub open spec fn run_index(&self, id: u128) -> int {
        choose|i: int| 0 <= i < self.runs@.len() && self.runs@[i].meta.id == id
    }

    pub open spec fn run(&self, id: u128) -> Run {
        self.runs@[self.run_index(id)]
    }

    pub fn find_run(&self, id: u128) -> (r: Option<usize>)
        requires
            self.wf(),
        ensures
            r is Some <==> self.has_run(id),
            r matches Some(i) ==> i == self.run_index(id) && i < self.runs@.len()
                && self.runs@[i as int].meta.id == id,
    {
        let mut i: usize = 0;
        while i < self.runs.len()
            invariant
                self.wf(),
                i <= self.runs@.len(),
                forall|k: int| 0 <= k < i ==> self.runs@[k].meta.id != id,
            decreases self.runs@.len() - i,
        {
            if self.runs[i].meta.id == id {
                assert(self.has_run(id));
                let ghost j = self.run_index(id);
                assert(self.runs@[j].meta.id == id);
                assert(self.runs@[i as int].meta.id == id);
                assert(i == j);
                return Some(i);
            }
            i = i + 1;
        }
        None
    }

    /// The run exists and belongs to the actor's workspace and identity.
    pub open spec fn owns(&self, actor: Actor, id: u128) -> bool {
        &&& self.has_run(id)
        &&& self.run(id).meta.workspace_id@ == actor.workspace_id@
        &&& self.run(id).actor_id@ == actor.id@
    }

    /// Resolve a run owned by `actor`; any other run is reported as not found.
    pub fn owned_run(&self, actor: &Actor, id: u128) -> (r: Result<usize>)
        requires
            self.wf(),
        ensures
            r is Ok <==> self.owns(*actor, id),
            r is Err ==> r == Err::<usize, Error>(Error::NotFound),
            r matches Ok(i) ==> i == self.run_index(id) && i < self.runs@.len(),
    {
        match self.find_run(id) {
            None => Err(Error::NotFound),
            Some(i) => {
                if self.runs[i].meta.workspace_id == actor.workspace_id
                    && self.runs[i].actor_id == actor.id {
                    Ok(i)
                } else {
                    Err(Error::NotFound)
                }
            },
        }
    }

    // ----- operations -----

    pub open spec fn has_operation(&self, id: u128) -> bool {
        exists|i: int| 0 <= i < self.operations@.len() && self.operations@[i].meta.id == id
    }

    pub open spec fn operation_index(&self, id: u128) -> int {
        choose|i: int| 0 <= i < self.operations@.len() && self.operations@[i].meta.id == id
    }

    pub open spec fn operation(&self, id: u128) -> Operation {
        self.operations@[self.operation_index(id)]
    }

    pub fn find_operation(&self, id: u128) -> (r: Option<usize>)
        requires
            self.wf(),
        ensures
            r is Some <==> self.has_operation(id),
            r matches Some(i) ==> i == self.operation_index(id) && i < self.operations@.len()
                && self.operations@[i as int].meta.id == id,
    {
        let mut i: usize = 0;
        while i < self.operations.len()
            invariant
                self.wf(),
                i <= self.operations@.len(),
                forall|k: int| 0 <= k < i ==> self.operations@[k].meta.id != id,
            decreases self.operations@.len() - i,
        {
            if self.operations[i].meta.id == id {
                assert(self.has_operation(id));
                let ghost j = self.operation_index(id);
                assert(self.operations@[j].meta.id == id);
                assert(self.operations@[i as int].meta.id == id);
                assert(i == j);
                return Some(i);
            }
            i = i + 1;
        }
        None
    }

    // ----- definitions -----

    pub open spec fn has_tool(&self, workspace: Seq<char>, r: VersionRef) -> bool {
        exists|i: int| 0 <= i < self.tools@.len() && self.tools@[i].workspace_id@ == workspace
            && self.tools@[i].id@ == r.id@ && self.tools@[i].version == r.version
    }

    pub open spec fn tool_index(&self, workspace: Seq<char>, r: VersionRef) -> int {
        choose|i: int| 0 <= i < self.tools@.len() && self.tools@[i].workspace_id@ == workspace
            && self.tools@[i].id@ == r.id@ && self.tools@[i].version == r.version
    }

    pub open spec fn tool(&self, workspace: Seq<char>, r: VersionRef) -> Tool {
        self.tools@[self.tool_index(workspace, r)]
    }

    pub fn find_tool(&self, workspace: &String, r: &VersionRef) -> (res: Option<usize>)
        requires
            self.wf(),
        ensures
            res is Some <==> self.has_tool(workspace@, *r),
            res matches Some(i) ==> i == self.tool_index(workspace@, *r) && i < self.tools@.len(),
    {
        let mut i: usize = 0;
        while i < self.tools.len()
            invariant
                self.wf(),
                i <= self.tools@.len(),
                forall|k: int| 0 <= k < i ==> !(self.tools@[k].workspace_id@ == workspace@
                    && self.tools@[k].id@ == r.id@ && self.tools@[k].version == r.version),
            decreases self.tools@.len() - i,
        {
            if self.tools[i].workspace_id == *workspace && self.tools[i].id == r.id
                && self.tools[i].version == r.version {
                assert(self.has_tool(workspace@, *r));
                let ghost j = self.tool_index(workspace@, *r);
                assert(self.tools@[i as int].id@ == r.id@);
                assert(j == i);
                return Some(i);
            }
            i = i + 1;
        }
        None
    }

    pub open spec fn has_agent(&self, workspace: Seq<char>, r: VersionRef) -> bool {
        exists|i: int| 0 <= i < self.agents@.len() && self.agents@[i].workspace_id@ == workspace
            && self.agents@[i].id@ == r.id@ && self.agents@[i].version == r.version
    }

    pub open spec fn agent_index(&self, workspace: Seq<char>, r: VersionRef) -> int {
        choose|i: int| 0 <= i < self.agents@.len() && self.agents@[i].workspace_id@ == workspace
            && self.agents@[i].id@ == r.id@ && self.agents@[i].version == r.version
    }

    pub open spec fn agent(&self, workspace: Seq<char>, r: VersionRef) -> Agent {
        self.agents@[self.agent_index(workspace, r)]
    }

    pub fn find_agent(&self, workspace: &String, r: &VersionRef) -> (res: Option<usize>)
        requires
            self.wf(),
        ensures
            res is Some <==> self.has_agent(workspace@, *r),
            res matches Some(i) ==> i == self.agent_index(workspace@, *r) && i < self.agents@.len(),
    {
        let mut i: usize = 0;
        while i < self.agents.len()
            invariant
                self.wf(),
                i <= self.agents@.len(),
                forall|k: int| 0 <= k < i ==> !(self.agents@[k].workspace_id@ == workspace@
                    && self.agents@[k].id@ == r.id@ && self.agents@[k].version == r.version),
            decreases self.agents@.len() - i,
        {
            if self.agents[i].workspace_id == *workspace && self.agents[i].id == r.id
                && self.agents[i].version == r.version {
                assert(self.has_agent(workspace@, *r));
                let ghost j = self.agent_index(workspace@, *r);
                assert(self.agents@[i as int].id@ == r.id@);
                assert(j == i);
                return Some(i);
            }
            i = i + 1;
        }
        None
    }

    // ----- events -----

    pub open spec fn has_log(&self, run: u128) -> bool {
        exists|i: int| 0 <= i < self.logs@.len() && self.logs@[i].run_id == run
    }

    pub open spec fn log_index(&self, run: u128) -> int {
        choose|i: int| 0 <= i < self.logs@.len() && self.logs@[i].run_id == run
    }

    /// The events recorded for a run, in order.
    pub open spec fn events_of(&self, run: u128) -> Seq<Event> {
        if self.has_log(run) {
            self.logs@[self.log_index(run)].events@
        } else {
            Seq::empty()
        }
    }

    pub open spec fn event_types(&self, run: u128) -> Seq<EventType> {
        self.events_of(run).map_values(|e: Event| e.event_type)
    }

    pub proof fn lemma_same_logs(&self, other: &Data)
        requires
            self.logs == other.logs,
        ensures
            forall|r: u128| #[trigger] self.events_of(r) == other.events_of(r),
            forall|r: u128| #[trigger] self.event_types(r) == other.event_types(r),
    {
        assert forall|r: u128| #[trigger] self.events_of(r) == other.events_of(r) by {
            assert(self.has_log(r) == other.has_log(r));
            assert(self.log_index(r) == other.log_index(r));
        }
        assert forall|r: u128| #[trigger] self.event_types(r) == other.event_types(r) by {
            assert(self.events_of(r) == other.events_of(r));
        }
    }

    pub(crate) fn find_log(&self, run: u128) -> (r: Option<usize>)
        requires
            self.wf(),
        ensures
            r is Some <==> self.has_log(run),
            r matches Some(i) ==> i == self.log_index(run) && i < self.logs@.len(),
    {
        let mut i: usize = 0;
        while i < self.logs.len()
            invariant
                self.wf(),
                i <= self.logs@.len(),
                forall|k: int| 0 <= k < i ==> self.logs@[k].run_id != run,
            decreases self.logs@.len() - i,
        {
            if self.logs[i].run_id == run {
                assert(self.has_log(run));
                let ghost j = self.log_index(run);
                assert(self.logs@[j].run_id == run);
                assert(self.logs@[i as int].run_id == run);
                assert(i == j);
                return Some(i);
            }
            i = i + 1;
        }
        None
    }

    /// Append an event to a run's log with the next sequence number. A log that
    /// already holds `u64::MAX - 1` events is left as it is.
    pub fn event(
        &mut self,
        run_id: u128,
        workspace: &String,
        operation_id: Option<u128>,
        event_type: EventType,
        actor_id: Option<String>,
        payload: String,
    )
        requires
            old(self).wf(),
        ensures
            final(self).wf(),
            final(self).runs == old(self).runs,
            final(self).operations == old(self).operations,
            final(self).agents == old(self).agents,
            final(self).tools == old(self).tools,
            final(self).submissions == old(self).submissions,
            final(self).inputs == old(self).inputs,
            final(self).policies == old(self).policies,
            final(self).model_budgets == old(self).model_budgets,
            final(self).schedule_requests == old(self).schedule_requests,
            final(self).team_tasks == old(self).team_tasks,
            forall|r: u128| r != run_id ==> #[trigger] final(self).events_of(r) == old(self).events_of(r),
            old(self).events_of(run_id).len() + 1 < u64::MAX ==> {
                &&& final(self).events_of(run_id).len() == old(self).events_of(run_id).len() + 1
                &&& final(self).events_of(run_id).drop_last() == old(self).events_of(run_id)
                &&& final(self).events_of(run_id).last().event_type == event_type
                &&& final(self).events_of(run_id).last().operation_id == operation_id
                &&& final(self).events_of(run_id).last().actor_id == actor_id
                &&& final(self).events_of(run_id).last().payload == payload
            },
            old(self).events_of(run_id).len() + 1 >= u64::MAX ==> final(self).events_of(run_id) == old(self).events_of(run_id),
    {
        let meta = Metadata {
            id: new_id(),
            workspace_id: workspace.clone(),
            schema_version: SCHEMA_VERSION,
            created_at: now(),
        };
        match self.find_log(run_id) {
            Some(i) => {
                let n = self.logs[i].events.len();
                if n as u64 + 1 < u64::MAX {
                    let e = Event {
                        meta,
                        run_id,
                        operation_id,
                        sequence: n as u64 + 1,
                        event_type,
                        actor_id,
                        payload,
                    };
                    let ghost before = self.logs@;
                    self.logs[i].events.push(e);
                    assert(self.logs@ == before.update(i as int, self.logs@[i as int]));
                    assert forall|r: u128| r != run_id implies #[trigger] self.events_of(r) == old(self).events_of(r) by {
                        if old(self).has_log(r) {
                            let k = old(self).log_index(r);
                            assert(self.logs@[k].run_id == r);
                            assert(self.has_log(r));
                            assert(self.log_index(r) == k);
                        } else {
                            if self.has_log(r) {
                                let k = self.log_index(r);
                                assert(old(self).logs@[k].run_id == r);
                            }
                        }
                    }
                    assert(self.has_log(run_id));
                    assert(self.log_index(run_id) == i);
                    assert(self.events_of(run_id).drop_last() =~= old(self).events_of(run_id));
                } else {
                    assert(old(self).events_of(run_id) == old(self).logs@[i as int].events@);
                }
            },
            None => {
                let e = Event {
                    meta,
                    run_id,
                    operation_id,
                    sequence: 1,
                    event_type,
                    actor_id,
                    payload,
                };
                let mut events: Vec<Event> = Vec::new();
                events.push(e);
                let ghost before = self.logs@;
                self.logs.push(EventLog { run_id, events });
                assert forall|r: u128| r != run_id implies #[trigger] self.events_of(r) == old(self).events_of(r) by {
                    if old(self).has_log(r) {
                        let k = old(self).log_index(r);
                        assert(self.logs@[k].run_id == r);
                        assert(self.has_log(r));
                        assert(self.log_index(r) == k);
                    } else {
                        if self.has_log(r) {
                            let k = self.log_index(r);
                            assert(k < before.len());
                            assert(old(self).logs@[k].run_id == r);
                        }
                    }
                }
                let ghost last = (self.logs@.len() - 1) as int;
                assert(self.logs@[last].run_id == run_id);
                assert(self.has_log(run_id));
                assert(self.log_index(run_id) == last);
                assert(self.events_of(run_id).drop_last() =~= old(self).events_of(run_id));
            },
        }
    }
}

} // verus!
