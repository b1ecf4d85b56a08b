//! Executing one operation: admitting it under its tool's policy, then settling
//! the outcome that the host brings back from the model or tool.
//! The host makes the outside call between the two transactions.
use vstd::prelude::*;
use crate::error::{conflict, invalid, text, unsupported, Error, Result};
use crate::harness::{ToolCall, ToolOutcome, ToolResult};
use crate::json::{digest_text, put, put_decimal, put_quoted, text_digest};
use crate::models::{Actor, EventType, Execution, OperationStatus, RunStatus, TokenUsage, WaitReason};
use crate::primitives::{decimal, json_string, new_id, now, uuid_json, uuid_quote};
use crate::runtime::{lemma_update_op_wf, lemma_update_run_wf};
use crate::security::{admission, admit_operation, Admission};
use crate::store::{Approval, Attempt, Data, Operation, OperationRequest, OperationResult};

verus! {

/// The JSON text of an operation request (`kind`-tagged, as stored).
pub open spec fn request_json(req: OperationRequest) -> Seq<char> {
    match req {
        OperationRequest::Model { request } => "{\"kind\":\"model\",\"request\":"@ + request.json@ + "}"@,
        OperationRequest::Tool { tool_ref, call } => "{\"kind\":\"tool\",\"tool_ref\":{\"id\":"@
            + json_string(tool_ref.id@) + ",\"version\":"@ + decimal(tool_ref.version as nat) + "},\"call\":"@
            + call.json@ + "}"@,
        OperationRequest::Verify { candidate } => "{\"kind\":\"verify\",\"candidate\":"@ + candidate@ + "}"@,
    }
}

/// The digest that binds a request to its operation, run and workspace: the
/// SHA-256 of the JSON array `[operation, run, workspace, request]`.
pub open spec fn request_digest(op_id: u128, run_id: u128, workspace: Seq<char>, req: OperationRequest) -> Seq<char> {
    text_digest("["@ + uuid_json(op_id) + ","@ + uuid_json(run_id) + ","@ + json_string(workspace) + ","@
        + request_json(req) + "]"@)
}

pub fn write_request(out: &mut String, req: &OperationRequest)
    ensures
        final(out)@ == old(out)@ + request_json(*req),
{
    match req {
        OperationRequest::Model { request } => {
            put(out, "{\"kind\":\"model\",\"request\":");
            put(out, request.json.as_str());
            put(out, "}");
        },
        OperationRequest::Tool { tool_ref, call } => {
            put(out, "{\"kind\":\"tool\",\"tool_ref\":{\"id\":");
            put_quoted(out, tool_ref.id.as_str());
            put(out, ",\"version\":");
            put_decimal(out, tool_ref.version as u64);
            put(out, "},\"call\":");
            put(out, call.json.as_str());
            put(out, "}");
        },
        OperationRequest::Verify { candidate } => {
            put(out, "{\"kind\":\"verify\",\"candidate\":");
            put(out, candidate.as_str());
            put(out, "}");
        },
    }
}

pub fn compute_request_digest(op_id: u128, run_id: u128, workspace: &String, req: &OperationRequest) -> (r: String)
    ensures
        r@ == request_digest(op_id, run_id, workspace@, *req),
{
    let mut out = text("[");
    let a = uuid_quote(op_id);
    put(&mut out, a.as_str());
    put(&mut out, ",");
    let b = uuid_quote(run_id);
    put(&mut out, b.as_str());
    put(&mut out, ",");
    put_quoted(&mut out, workspace.as_str());
    put(&mut out, ",");
    write_request(&mut out, req);
    put(&mut out, "]");
    digest_text(&out)
}

/// `r` is the tool error that settles `op`: a tool result with this code and
/// message for a tool request, nothing for any other request.
pub open spec fn is_tool_error(r: Option<OperationResult>, op: Operation, code: Seq<char>, message: Seq<char>) -> bool {
    match op.request {
        OperationRequest::Tool { call, .. } => r matches Some(OperationResult::Tool { result }) && {
            &&& result.call_id@ == call.call_id@
            &&& result.outcome matches ToolOutcome::Error { code: c, message: m } && c@ == code && m@ == message
        },
        _ => r is None,
    }
}

pub fn tool_error(op: &Operation, code: &str, message: &str) -> (r: Option<OperationResult>)
    ensures
        is_tool_error(r, *op, code@, message@),
{
    match &op.request {
        OperationRequest::Tool { call, .. } => Some(OperationResult::Tool {
            result: ToolResult {
                call_id: call.call_id.clone(),
                outcome: ToolOutcome::Error { code: text(code), message: text(message) },
            },
        }),
        _ => None,
    }
}

/// Only the sandbox execution is refused: it is not integrated, and nothing
/// falls back to a host process.
pub fn ensure_supported(execution: &Execution) -> (r: Result<()>)
    ensures
        r is Ok <==> !(execution is Sandbox),
        r is Err ==> r matches Err(Error::Unsupported(_)),
{
    match execution {
        Execution::Sandbox { .. } => Err(unsupported("Hudson Sandbox is not integrated")),
        _ => Ok(()),
    }
}

/// The operation at `oi` replaced by `op`; runs and definitions untouched.
pub open spec fn only_op_changed(old: Data, new: Data, oi: int, op: Operation) -> bool {
    &&& new.operations@ == old.operations@.update(oi, op)
    &&& new.runs == old.runs
    &&& new.agents == old.agents
    &&& new.tools == old.tools
    &&& new.policies == old.policies
    &&& new.submissions == old.submissions
    &&& new.inputs == old.inputs
    &&& new.model_budgets == old.model_budgets
    &&& new.schedule_requests == old.schedule_requests
    &&& new.team_tasks == old.team_tasks
}

/// Everything that admission checks before the tool policy is consulted.
pub open spec fn dispatchable(d: Data, actor: Actor, run_id: u128, id: u128) -> bool {
    &&& d.owns(actor, run_id)
    &&& !d.run(run_id).status.is_stopped()
    &&& d.has_operation(id)
    &&& d.operation(id).run_id == run_id
    &&& d.run(run_id).pending_operations@.contains(id)
    &&& (d.operation(id).status is Pending || d.operation(id).status is WaitingApproval)
    &&& d.operation(id).request_digest@ == request_digest(id, run_id, actor.workspace_id@, d.operation(id).request)
}

/// The tool that a tool request names in the actor's workspace exists and
/// accepts the call's arguments.
pub open spec fn tool_call_valid(d: Data, actor: Actor, op: Operation) -> bool {
    match op.request {
        OperationRequest::Tool { tool_ref, call } => {
            &&& d.has_tool(actor.workspace_id@, tool_ref)
            &&& crate::definitions::schema_valid(d.tool(actor.workspace_id@, tool_ref).input_schema@)
            &&& crate::definitions::json_schema_accepts(d.tool(actor.workspace_id@, tool_ref).input_schema@, call.arguments@)
        },
        _ => true,
    }
}

/// The policy decision on a tool request at time `at`.
pub open spec fn tool_admission(d: Data, actor: Actor, run_id: u128, op: Operation, at: u64) -> Admission {
    let tool = d.tool(actor.workspace_id@, op.request->tool_ref);
    admission(d.policy(tool.workspace_id@, tool.policy_ref@), d.run(run_id).actor_id@, op, at)
}

/// The operation after a new attempt has started at `at`.
pub open spec fn started(op: Operation, op2: Operation, attempt_id: u128, at: u64) -> bool {
    &&& op2 == (Operation {
        status: OperationStatus::Running,
        revision: op.revision.wrapping_add(1),
        attempts: op2.attempts,
        ..op
    })
    &&& op2.attempts@ == op.attempts@.push(Attempt {
        token_usage: None,
        id: attempt_id,
        number: (op.attempts@.len() + 1) as u32,
        started_at: at,
        finished_at: None,
        status: OperationStatus::Running,
        error: None,
    })
}

fn start_attempt(d: &mut Data, oi: usize, run_id: u128, at: u64) -> (attempt_id: u128)
    requires
        old(d).wf(),
        oi < old(d).operations@.len(),
        old(d).operations@[oi as int].attempts@.len() < u32::MAX,
    ensures
        final(d).wf(),
        only_op_changed(*old(d), *final(d), oi as int, final(d).operations@[oi as int]),
        started(old(d).operations@[oi as int], final(d).operations@[oi as int], attempt_id, at),
{
    let attempt_id = new_id();
    let number = d.operations[oi].attempts.len() as u32 + 1;
    let ghost before = *d;
    d.operations[oi].attempts.push(Attempt {
        token_usage: None,
        id: attempt_id,
        number,
        started_at: at,
        finished_at: None,
        status: OperationStatus::Running,
        error: None,
    });
    d.operations[oi].status = OperationStatus::Running;
    d.operations[oi].revision = d.operations[oi].revision.wrapping_add(1);
    proof {
        lemma_update_op_wf(before, oi as int, d.operations@[oi as int]);
        assert(d.operations@ == before.operations@.update(oi as int, d.operations@[oi as int]));
    }
    let id = d.operations[oi].meta.id;
    let workspace = d.operations[oi].meta.workspace_id.clone();
    let mut payload = text("{\"attempt_id\":");
    let a = uuid_quote(attempt_id);
    put(&mut payload, a.as_str());
    put(&mut payload, "}");
    d.event(run_id, &workspace, Some(id), EventType::OperationStarted, None, payload);
    attempt_id
}

/// Settle an operation without executing it (denied, or unsupported).
fn settle_unexecuted(d: &mut Data, oi: usize, run_id: u128, status: OperationStatus, code: &str, message: &str, payload: &str)
    requires
        old(d).wf(),
        oi < old(d).operations@.len(),
    ensures
        final(d).wf(),
        only_op_changed(*old(d), *final(d), oi as int, final(d).operations@[oi as int]),
        ({
            let op = old(d).operations@[oi as int];
            let op2 = final(d).operations@[oi as int];
            &&& op2 == (Operation { status, result: op2.result, revision: op.revision.wrapping_add(1), ..op })
            &&& is_tool_error(op2.result, op, code@, message@)
        }),
{
    let result = tool_error(&d.operations[oi], code, message);
    let ghost before = *d;
    d.operations[oi].status = status;
    d.operations[oi].result = result;
    d.operations[oi].revision = d.operations[oi].revision.wrapping_add(1);
    proof {
        lemma_update_op_wf(before, oi as int, d.operations@[oi as int]);
        assert(d.operations@ == before.operations@.update(oi as int, d.operations@[oi as int]));
    }
    let id = d.operations[oi].meta.id;
    let workspace = d.operations[oi].meta.workspace_id.clone();
    d.event(run_id, &workspace, Some(id), EventType::OperationSettled, None, text(payload));
}

/// Put an operation and its run into the wait for an approval.
fn await_approval(d: &mut Data, oi: usize, ri: usize, run_id: u128)
    requires
        old(d).wf(),
        oi < old(d).operations@.len(),
        ri < old(d).runs@.len(),
    ensures
        final(d).wf(),
        crate::runtime::only_op_and_run_changed(*old(d), *final(d), oi as int, final(d).operations@[oi as int],
            ri as int, final(d).runs@[ri as int]),
        ({
            let op = old(d).operations@[oi as int];
            let op2 = final(d).operations@[oi as int];
            let run = old(d).runs@[ri as int];
            let run2 = final(d).runs@[ri as int];
            &&& op2 == (Operation {
                status: OperationStatus::WaitingApproval,
                approval: op2.approval,
                revision: op.revision.wrapping_add(1),
                ..op
            })
            &&& op.approval is Some ==> op2.approval == op.approval
            &&& op.approval is None ==> (op2.approval matches Some(a)
                && a.request_digest@ == op.request_digest@ && a.decisions@.len() == 0)
            &&& run2 == (crate::store::Run {
                status: RunStatus::Waiting,
                wait: Some(WaitReason::Approval { operation_id: op.meta.id }),
                revision: run.revision.wrapping_add(1),
                ..run
            })
        }),
{
    let new_wait = d.operations[oi].status != OperationStatus::WaitingApproval;
    let ghost before = *d;
    if d.operations[oi].approval.is_none() {
        let digest = d.operations[oi].request_digest.clone();
        d.operations[oi].approval = Some(Approval { request_digest: digest, decisions: Vec::new() });
    }
    d.operations[oi].status = OperationStatus::WaitingApproval;
    d.operations[oi].revision = d.operations[oi].revision.wrapping_add(1);
    let id = d.operations[oi].meta.id;
    d.runs[ri].status = RunStatus::Waiting;
    d.runs[ri].wait = Some(WaitReason::Approval { operation_id: id });
    d.runs[ri].revision = d.runs[ri].revision.wrapping_add(1);
    proof {
        lemma_update_op_wf(before, oi as int, d.operations@[oi as int]);
        lemma_update_run_wf(before, ri as int, d.runs@[ri as int]);
        assert(d.operations@ == before.operations@.update(oi as int, d.operations@[oi as int]));
        assert(d.runs@ == before.runs@.update(ri as int, d.runs@[ri as int]));
    }
    if new_wait {
        let workspace = d.operations[oi].meta.workspace_id.clone();
        d.event(run_id, &workspace, Some(id), EventType::ApprovalRequested, None, text("{}"));
        d.event(run_id, &workspace, None, EventType::RunWaiting, None, text("{}"));
    }
}

pub(crate) fn contains_id(v: &Vec<u128>, x: u128) -> (r: bool)
    ensures
        r == v@.contains(x),
{
    let mut i: usize = 0;
    while i < v.len()
        invariant
            i <= v@.len(),
            forall|k: int| 0 <= k < i ==> v@[k] != x,
        decreases v@.len() - i,
    {
        if v[i] == x {
            assert(v@[i as int] == x);
            return true;
        }
        i = i + 1;
    }
    false
}

/// Admit one pending operation of a run for execution at time `at`.
///
/// A stopped run, or an operation that is no longer pending, is left alone
/// (`Ok(None)`). A tool request is checked against its tool's input schema and
/// policy: a denial settles it, a required approval puts it and its run into
/// the wait, and the sandbox execution fails it as unsupported. Otherwise a new
/// attempt starts and its identity is returned: the host then executes the
/// request and brings the outcome to `settle_dispatch`.
#[verifier::rlimit(80)]
pub fn begin_dispatch(d: &mut Data, actor: &Actor, run_id: u128, id: u128, at: u64) -> (r: Result<Option<u128>>)
    requires
        old(d).wf(),
    ensures
        final(d).wf(),
        r is Err ==> *final(d) == *old(d),
        !old(d).owns(*actor, run_id) ==> r == Err::<Option<u128>, Error>(Error::NotFound),
        old(d).owns(*actor, run_id) && old(d).run(run_id).status.is_stopped()
            ==> r == Ok::<Option<u128>, Error>(None) && *final(d) == *old(d),
        old(d).owns(*actor, run_id) && !old(d).run(run_id).status.is_stopped() && !old(d).has_operation(id)
            ==> r == Err::<Option<u128>, Error>(Error::NotFound),
        old(d).owns(*actor, run_id) && !old(d).run(run_id).status.is_stopped() && old(d).has_operation(id)
            && (old(d).operation(id).run_id != run_id || !old(d).run(run_id).pending_operations@.contains(id))
            ==> r == Err::<Option<u128>, Error>(Error::Denied),
        old(d).owns(*actor, run_id) && !old(d).run(run_id).status.is_stopped() && old(d).has_operation(id)
            && old(d).operation(id).run_id == run_id && old(d).run(run_id).pending_operations@.contains(id)
            && !(old(d).operation(id).status is Pending || old(d).operation(id).status is WaitingApproval)
            ==> r == Ok::<Option<u128>, Error>(None) && *final(d) == *old(d),
        old(d).owns(*actor, run_id) && !old(d).run(run_id).status.is_stopped() && old(d).has_operation(id)
            && old(d).operation(id).run_id == run_id && old(d).run(run_id).pending_operations@.contains(id)
            && (old(d).operation(id).status is Pending || old(d).operation(id).status is WaitingApproval)
            && old(d).operation(id).request_digest@ != request_digest(id, run_id, actor.workspace_id@, old(d).operation(id).request)
            ==> r matches Err(Error::Invalid(_)),
        dispatchable(*old(d), *actor, run_id, id) && !tool_call_valid(*old(d), *actor, old(d).operation(id)) ==> r is Err,
        r matches Ok(Some(attempt)) ==> {
            let op = old(d).operation(id);
            &&& dispatchable(*old(d), *actor, run_id, id)
            &&& tool_call_valid(*old(d), *actor, op)
            &&& op.request is Tool ==> tool_admission(*old(d), *actor, run_id, op, at) == Admission::Allow
                && !(old(d).tool(actor.workspace_id@, op.request->tool_ref).execution is Sandbox)
            &&& only_op_changed(*old(d), *final(d), old(d).operation_index(id), final(d).operations@[old(d).operation_index(id)])
            &&& started(op, final(d).operations@[old(d).operation_index(id)], attempt, at)
        },
        dispatchable(*old(d), *actor, run_id, id) && tool_call_valid(*old(d), *actor, old(d).operation(id)) ==> {
            let op = old(d).operation(id);
            let oi = old(d).operation_index(id);
            let op2 = final(d).operations@[oi];
            let admitted = !(op.request is Tool) || (tool_admission(*old(d), *actor, run_id, op, at) == Admission::Allow
                && !(old(d).tool(actor.workspace_id@, op.request->tool_ref).execution is Sandbox));
            &&& admitted && op.attempts@.len() < u32::MAX ==> (r matches Ok(Some(_)))
            &&& admitted && op.attempts@.len() >= u32::MAX ==> (r matches Err(Error::Invalid(_)))
            &&& op.request is Tool && tool_admission(*old(d), *actor, run_id, op, at) == Admission::Deny ==> {
                &&& r == Ok::<Option<u128>, Error>(None)
                &&& only_op_changed(*old(d), *final(d), oi, op2)
                &&& op2 == (Operation { status: OperationStatus::Denied, result: op2.result, revision: op.revision.wrapping_add(1), ..op })
                &&& is_tool_error(op2.result, op, "denied"@, "Current policy denied this tool"@)
            }
            &&& op.request is Tool && tool_admission(*old(d), *actor, run_id, op, at) == Admission::Wait ==> {
                let ri = old(d).run_index(run_id);
                let run = old(d).runs@[ri];
                &&& r == Ok::<Option<u128>, Error>(None)
                &&& crate::runtime::only_op_and_run_changed(*old(d), *final(d), oi, op2, ri, final(d).runs@[ri])
                &&& op2 == (Operation { status: OperationStatus::WaitingApproval, approval: op2.approval,
                    revision: op.revision.wrapping_add(1), ..op })
                &&& op.approval is Some ==> op2.approval == op.approval
                &&& op.approval is None ==> (op2.approval matches Some(a)
                    && a.request_digest@ == op.request_digest@ && a.decisions@.len() == 0)
                &&& final(d).runs@[ri] == (crate::store::Run {
                    status: RunStatus::Waiting,
                    wait: Some(WaitReason::Approval { operation_id: id }),
                    revision: run.revision.wrapping_add(1),
                    ..run
                })
            }
            &&& op.request is Tool && tool_admission(*old(d), *actor, run_id, op, at) == Admission::Allow
                && old(d).tool(actor.workspace_id@, op.request->tool_ref).execution is Sandbox ==> {
                &&& r == Ok::<Option<u128>, Error>(None)
                &&& only_op_changed(*old(d), *final(d), oi, op2)
                &&& op2 == (Operation { status: OperationStatus::Failed, result: op2.result, revision: op.revision.wrapping_add(1), ..op })
                &&& is_tool_error(op2.result, op, "unsupported"@, "Hudson Sandbox is not integrated"@)
            }
        },
{
    let ri = d.owned_run(actor, run_id)?;
    if d.runs[ri].status.terminal() || d.runs[ri].status == RunStatus::Cancelling {
        return Ok(None);
    }
    let oi = match d.find_operation(id) {
        None => return Err(Error::NotFound),
        Some(oi) => oi,
    };
    if d.operations[oi].run_id != run_id || !contains_id(&d.runs[ri].pending_operations, id) {
        return Err(Error::Denied);
    }
    if !(d.operations[oi].status == OperationStatus::Pending || d.operations[oi].status == OperationStatus::WaitingApproval) {
        return Ok(None);
    }
    let digest = compute_request_digest(id, run_id, &actor.workspace_id, &d.operations[oi].request);
    if d.operations[oi].request_digest != digest {
        return Err(invalid("operation request changed"));
    }
    let ghost op = d.operations@[oi as int];
    let is_tool = matches!(d.operations[oi].request, OperationRequest::Tool { .. });
    if is_tool {
        let (ti, decision) = match &d.operations[oi].request {
            OperationRequest::Tool { tool_ref, call } => {
                let ti = match d.find_tool(&actor.workspace_id, tool_ref) {
                    None => return Err(Error::NotFound),
                    Some(ti) => ti,
                };
                crate::definitions::validate(d.tools[ti].input_schema.as_str(), call.arguments.as_str())?;
                let policy = match d.find_policy(&d.tools[ti].workspace_id, &d.tools[ti].policy_ref) {
                    None => None,
                    Some(pi) => Some(&d.policies[pi].policy),
                };
                (ti, admit_operation(policy, &d.runs[ri].actor_id, &d.operations[oi], at))
            },
            _ => return Err(Error::NotFound),
        };
        match decision {
            Admission::Deny => {
                settle_unexecuted(d, oi, run_id, OperationStatus::Denied, "denied", "Current policy denied this tool",
                    "{\"status\":\"denied\"}");
                return Ok(None);
            },
            Admission::Wait => {
                await_approval(d, oi, ri, run_id);
                return Ok(None);
            },
            Admission::Allow => {},
        }
        if ensure_supported(&d.tools[ti].execution).is_err() {
            settle_unexecuted(d, oi, run_id, OperationStatus::Failed, "unsupported", "Hudson Sandbox is not integrated",
                "{\"status\":\"unsupported\"}");
            return Ok(None);
        }
    }
    if d.operations[oi].attempts.len() >= u32::MAX as usize {
        return Err(invalid("attempt limit reached"));
    }
    let attempt = start_attempt(d, oi, run_id, at);
    Ok(Some(attempt))
}

/// How an execution failed: `Unknown` where the call may have taken effect
/// (it is never retried automatically), `Failed` where it certainly did not.
#[derive(Clone, Debug, PartialEq, Eq)]
pub enum ExecutionError {
    Failed(String),
    Unknown(String),
}

/// `e` reports `message`, as of unknown effect for a writing tool and as a
/// failure otherwise.
pub open spec fn rejected(e: ExecutionError, write: bool, message: Seq<char>) -> bool {
    if write {
        e matches ExecutionError::Unknown(m) && m@ == message
    } else {
        e matches ExecutionError::Failed(m) && m@ == message
    }
}

/// Losing a write receipt is not evidence that the write did not happen: a
/// result that cannot be accepted from a writing tool is of unknown effect.
pub fn invalid_result(tool: Option<&crate::models::Tool>, message: &str) -> (r: ExecutionError)
    ensures
        rejected(r, match tool { Some(t) => t.effect is Write, None => false }, message@),
{
    match tool {
        Some(t) => match t.effect {
            crate::models::Effect::Write => ExecutionError::Unknown(text(message)),
            _ => ExecutionError::Failed(text(message)),
        },
        None => ExecutionError::Failed(text(message)),
    }
}

pub open spec fn bool_json(b: bool) -> Seq<char> {
    if b { "true"@ } else { "false"@ }
}

pub open spec fn outcome_json(o: ToolOutcome) -> Seq<char> {
    match o {
        ToolOutcome::Success { value } => "{\"status\":\"success\",\"value\":"@ + value@ + "}"@,
        ToolOutcome::Error { code, message } => "{\"status\":\"error\",\"code\":"@ + json_string(code@)
            + ",\"message\":"@ + json_string(message@) + "}"@,
    }
}

/// The JSON text of a tool result.
pub open spec fn tool_result_json(r: ToolResult) -> Seq<char> {
    "{\"call_id\":"@ + json_string(r.call_id@) + ",\"outcome\":"@ + outcome_json(r.outcome) + "}"@
}

pub open spec fn evidence_json(e: crate::models::Evidence) -> Seq<char> {
    "{\"operation_id\":"@ + uuid_json(e.operation_id) + ",\"tool_name\":"@ + json_string(e.tool_name@)
        + ",\"request_digest\":"@ + json_string(e.request_digest@) + ",\"result_digest\":"@
        + json_string(e.result_digest@) + "}"@
}

/// The JSON texts of the items, separated by commas.
pub open spec fn evidence_items(s: Seq<crate::models::Evidence>) -> Seq<char>
    decreases s.len(),
{
    if s.len() == 0 {
        Seq::empty()
    } else if s.len() == 1 {
        evidence_json(s[0])
    } else {
        evidence_items(s.drop_last()) + ","@ + evidence_json(s.last())
    }
}

/// The JSON text of an operation result (`kind`-tagged, as stored).
pub open spec fn result_json(r: OperationResult) -> Seq<char> {
    match r {
        OperationResult::Model { response } => "{\"kind\":\"model\",\"response\":"@ + match response {
            crate::harness::ModelResponse::ToolCalls { json, .. } => json@,
            crate::harness::ModelResponse::Final { json, .. } => json@,
        } + "}"@,
        OperationResult::Tool { result } => "{\"kind\":\"tool\",\"result\":"@ + tool_result_json(result) + "}"@,
        OperationResult::Verify { passed, feedback, evidence } => "{\"kind\":\"verify\",\"passed\":"@ + bool_json(passed)
            + ",\"feedback\":"@ + json_string(feedback@) + ",\"evidence\":["@ + evidence_items(evidence@) + "]}"@,
    }
}

pub fn write_tool_result(out: &mut String, r: &ToolResult)
    ensures
        final(out)@ == old(out)@ + tool_result_json(*r),
{
    put(out, "{\"call_id\":");
    put_quoted(out, r.call_id.as_str());
    put(out, ",\"outcome\":");
    match &r.outcome {
        ToolOutcome::Success { value } => {
            put(out, "{\"status\":\"success\",\"value\":");
            put(out, value.as_str());
            put(out, "}");
        },
        ToolOutcome::Error { code, message } => {
            put(out, "{\"status\":\"error\",\"code\":");
            put_quoted(out, code.as_str());
            put(out, ",\"message\":");
            put_quoted(out, message.as_str());
            put(out, "}");
        },
    }
    put(out, "}");
}

fn write_evidence(out: &mut String, e: &crate::models::Evidence)
    ensures
        final(out)@ == old(out)@ + evidence_json(*e),
{
    put(out, "{\"operation_id\":");
    let id = uuid_quote(e.operation_id);
    put(out, id.as_str());
    put(out, ",\"tool_name\":");
    put_quoted(out, e.tool_name.as_str());
    put(out, ",\"request_digest\":");
    put_quoted(out, e.request_digest.as_str());
    put(out, ",\"result_digest\":");
    put_quoted(out, e.result_digest.as_str());
    put(out, "}");
}

pub fn write_result(out: &mut String, r: &OperationResult)
    ensures
        final(out)@ == old(out)@ + result_json(*r),
{
    match r {
        OperationResult::Model { response } => {
            put(out, "{\"kind\":\"model\",\"response\":");
            match response {
                crate::harness::ModelResponse::ToolCalls { json, .. } => put(out, json.as_str()),
                crate::harness::ModelResponse::Final { json, .. } => put(out, json.as_str()),
            }
            put(out, "}");
        },
        OperationResult::Tool { result } => {
            put(out, "{\"kind\":\"tool\",\"result\":");
            write_tool_result(out, result);
            put(out, "}");
        },
        OperationResult::Verify { passed, feedback, evidence } => {
            put(out, "{\"kind\":\"verify\",\"passed\":");
            if *passed {
                put(out, "true");
            } else {
                put(out, "false");
            }
            put(out, ",\"feedback\":");
            put_quoted(out, feedback.as_str());
            put(out, ",\"evidence\":[");
            let ghost start = out@;
            let mut i: usize = 0;
            while i < evidence.len()
                invariant
                    i <= evidence@.len(),
                    out@ == start + evidence_items(evidence@.take(i as int)),
                decreases evidence@.len() - i,
            {
                proof {
                    let t = evidence@.take(i as int + 1);
                    assert(t.drop_last() =~= evidence@.take(i as int));
                    assert(t.last() == evidence@[i as int]);
                    if i == 0 {
                        assert(evidence@.take(0) =~= Seq::<crate::models::Evidence>::empty());
                    }
                }
                if i > 0 {
                    put(out, ",");
                }
                write_evidence(out, &evidence[i]);
                i = i + 1;
            }
            proof {
                assert(evidence@.take(evidence@.len() as int) =~= evidence@);
            }
            put(out, "]}");
        },
    }
}

/// The operation result of a tool's output value: the value must satisfy the
/// tool's output schema, where it has one.
pub fn tool_output(tool: &crate::models::Tool, call: &ToolCall, value: String) -> (r: core::result::Result<OperationResult, ExecutionError>)
    ensures
        r is Ok <==> (match tool.output_schema {
            None => true,
            Some(s) => crate::definitions::schema_valid(s@) && crate::definitions::json_schema_accepts(s@, value@),
        }),
        r matches Ok(res) ==> (res matches OperationResult::Tool { result }
            && result.call_id@ == call.call_id@
            && result.outcome == ToolOutcome::Success { value }),
        r matches Err(e) ==> rejected(e, tool.effect is Write, "tool output schema failed"@),
{
    match &tool.output_schema {
        Some(schema) => {
            if crate::definitions::validate(schema.as_str(), value.as_str()).is_err() {
                return Err(invalid_result(Some(tool), "tool output schema failed"));
            }
        },
        None => {},
    }
    Ok(OperationResult::Tool {
        result: ToolResult { call_id: call.call_id.clone(), outcome: ToolOutcome::Success { value } },
    })
}

/// The result, where its JSON text fits in `limit` bytes.
pub fn bounded_result(result: OperationResult, limit: usize, tool: Option<&crate::models::Tool>) -> (r: core::result::Result<OperationResult, ExecutionError>)
    ensures
        crate::text::utf8_len(result_json(result)) <= limit ==> r == Ok::<OperationResult, ExecutionError>(result),
        crate::text::utf8_len(result_json(result)) > limit ==> (r matches Err(e)
            && rejected(e, match tool { Some(t) => t.effect is Write, None => false }, "execution result exceeds limit"@)),
{
    let mut out = String::new();
    write_result(&mut out, &result);
    proof {
        assert(out@ =~= result_json(result));
    }
    if crate::text::byte_length(&out) > limit {
        return Err(invalid_result(tool, "execution result exceeds limit"));
    }
    Ok(result)
}

/// The status that an execution outcome settles an operation in.
pub open spec fn settled_status(outcome: core::result::Result<OperationResult, ExecutionError>) -> OperationStatus {
    match outcome {
        Ok(_) => OperationStatus::Succeeded,
        Err(ExecutionError::Unknown(_)) => OperationStatus::Unknown,
        Err(ExecutionError::Failed(_)) => OperationStatus::Failed,
    }
}

pub open spec fn sat_u32(a: u32, b: u32) -> u32 {
    if a + b > u32::MAX { u32::MAX } else { (a + b) as u32 }
}

pub open spec fn sat_u64(a: u64, b: u64) -> u64 {
    if a + b > u64::MAX { u64::MAX } else { (a + b) as u64 }
}

/// The execution with attempt `attempt_id` is the operation's current one.
pub open spec fn current_attempt(op: Operation, attempt_id: u128) -> bool {
    &&& op.status is Running
    &&& op.attempts@.len() > 0
    &&& op.attempts@.last().id == attempt_id
}

/// The run's reported usage after one more reported model call.
pub open spec fn reported(run: crate::store::Run, u: TokenUsage) -> crate::store::Run {
    crate::store::Run {
        usage: crate::models::Usage {
            reported_model_calls: sat_u32(run.usage.reported_model_calls, 1),
            reported_input_tokens: sat_u64(run.usage.reported_input_tokens, u.input_tokens),
            reported_output_tokens: sat_u64(run.usage.reported_output_tokens, u.output_tokens),
            ..run.usage
        },
        revision: run.revision.wrapping_add(1),
        ..run
    }
}

/// The JSON text of a provider's token report, `null` when there is none.
pub open spec fn usage_json(token_usage: Option<TokenUsage>) -> Seq<char> {
    match token_usage {
        None => "null"@,
        Some(u) => "{\"input_tokens\":"@ + decimal(u.input_tokens as nat) + ",\"output_tokens\":"@
            + decimal(u.output_tokens as nat) + "}"@,
    }
}

fn write_usage(out: &mut String, token_usage: &Option<TokenUsage>)
    ensures
        final(out)@ == old(out)@ + usage_json(*token_usage),
{
    match token_usage {
        None => put(out, "null"),
        Some(u) => {
            let ghost start = out@;
            put(out, "{\"input_tokens\":");
            put_decimal(out, u.input_tokens);
            put(out, ",\"output_tokens\":");
            put_decimal(out, u.output_tokens);
            put(out, "}");
            proof {
                assert(out@ =~= start + usage_json(*token_usage));
            }
        },
    }
}

/// Record the outcome of the execution started as `attempt_id`. A result that
/// arrives for an attempt that is no longer current is refused as stale. A
/// provider's token report is added to the run's reported usage (saturating).
#[verifier::rlimit(60)]
pub fn settle_dispatch(
    d: &mut Data,
    id: u128,
    attempt_id: u128,
    outcome: core::result::Result<OperationResult, ExecutionError>,
    token_usage: Option<TokenUsage>,
) -> (r: Result<()>)
    requires
        old(d).wf(),
    ensures
        final(d).wf(),
        r is Err ==> *final(d) == *old(d),
        !old(d).has_operation(id) ==> r == Err::<(), Error>(Error::NotFound),
        old(d).has_operation(id) && !current_attempt(old(d).operation(id), attempt_id) ==> r matches Err(Error::Conflict(_)),
        old(d).has_operation(id) && current_attempt(old(d).operation(id), attempt_id) && token_usage is Some
            && !old(d).has_run(old(d).operation(id).run_id) ==> r == Err::<(), Error>(Error::NotFound),
        r is Ok <==> old(d).has_operation(id) && current_attempt(old(d).operation(id), attempt_id)
            && (token_usage is Some ==> old(d).has_run(old(d).operation(id).run_id)),
        r is Ok ==> {
            let oi = old(d).operation_index(id);
            let op = old(d).operation(id);
            let op2 = final(d).operations@[oi];
            let a = op.attempts@.last();
            let a2 = op2.attempts@.last();
            &&& final(d).operations@ == old(d).operations@.update(oi, op2)
            &&& final(d).agents == old(d).agents && final(d).tools == old(d).tools
            &&& final(d).policies == old(d).policies && final(d).submissions == old(d).submissions
            &&& final(d).inputs == old(d).inputs && final(d).model_budgets == old(d).model_budgets
            &&& final(d).schedule_requests == old(d).schedule_requests && final(d).team_tasks == old(d).team_tasks
            &&& op2 == (Operation { status: settled_status(outcome), result: op2.result, attempts: op2.attempts,
                revision: op.revision.wrapping_add(1), ..op })
            &&& outcome matches Ok(res) ==> op2.result == Some(res)
            &&& outcome matches Err(ExecutionError::Unknown(_)) ==> op2.result == op.result
            &&& outcome matches Err(ExecutionError::Failed(_)) ==> is_tool_error(op2.result, op, "execution_failed"@, "Tool execution failed"@)
            &&& op2.attempts@.len() == op.attempts@.len()
            &&& op2.attempts@.drop_last() == op.attempts@.drop_last()
            &&& a2 == (Attempt { status: settled_status(outcome), token_usage, error: a2.error, finished_at: a2.finished_at, ..a })
            &&& a2.finished_at is Some
            &&& outcome is Ok ==> a2.error is None
            &&& outcome matches Err(ExecutionError::Unknown(m)) ==> a2.error == Some(m)
            &&& outcome matches Err(ExecutionError::Failed(m)) ==> a2.error == Some(m)
            &&& token_usage is None ==> final(d).runs == old(d).runs
            &&& token_usage matches Some(u) ==> final(d).runs@ == old(d).runs@.update(old(d).run_index(op.run_id),
                reported(old(d).run(op.run_id), u))
        },
{
    let oi = match d.find_operation(id) {
        None => return Err(Error::NotFound),
        Some(oi) => oi,
    };
    let n = d.operations[oi].attempts.len();
    if d.operations[oi].status != OperationStatus::Running || n == 0 || d.operations[oi].attempts[n - 1].id != attempt_id {
        return Err(conflict("stale execution result"));
    }
    let run_id = d.operations[oi].run_id;
    let ri = match d.find_run(run_id) {
        None => {
            if token_usage.is_some() {
                return Err(Error::NotFound);
            }
            0
        },
        Some(ri) => ri,
    };
    let ghost before = *d;
    let ghost op = d.operations@[oi as int];
    let failed_result = tool_error(&d.operations[oi], "execution_failed", "Tool execution failed");
    let verification = matches!(d.operations[oi].request, OperationRequest::Verify { .. });
    let (status, error) = match outcome {
        Ok(result) => {
            d.operations[oi].result = Some(result);
            (OperationStatus::Succeeded, None)
        },
        Err(ExecutionError::Unknown(message)) => (OperationStatus::Unknown, Some(message)),
        Err(ExecutionError::Failed(message)) => {
            d.operations[oi].result = failed_result;
            (OperationStatus::Failed, Some(message))
        },
    };
    let finished = now();
    d.operations[oi].status = status;
    d.operations[oi].revision = d.operations[oi].revision.wrapping_add(1);
    d.operations[oi].attempts[n - 1].status = status;
    d.operations[oi].attempts[n - 1].token_usage = token_usage;
    d.operations[oi].attempts[n - 1].error = error;
    d.operations[oi].attempts[n - 1].finished_at = Some(finished);
    proof {
        lemma_update_op_wf(before, oi as int, d.operations@[oi as int]);
        assert(d.operations@ == before.operations@.update(oi as int, d.operations@[oi as int]));
        assert(d.operations@[oi as int].attempts@.drop_last() =~= op.attempts@.drop_last());
    }
    match &d.operations[oi].attempts[n - 1].token_usage {
        Some(u) => {
            let input_tokens = u.input_tokens;
            let output_tokens = u.output_tokens;
            let ghost mid = *d;
            d.runs[ri].usage.reported_model_calls = d.runs[ri].usage.reported_model_calls.saturating_add(1);
            d.runs[ri].usage.reported_input_tokens = d.runs[ri].usage.reported_input_tokens.saturating_add(input_tokens);
            d.runs[ri].usage.reported_output_tokens = d.runs[ri].usage.reported_output_tokens.saturating_add(output_tokens);
            d.runs[ri].revision = d.runs[ri].revision.wrapping_add(1);
            proof {
                lemma_update_run_wf(mid, ri as int, d.runs@[ri as int]);
                assert(d.runs@ == mid.runs@.update(ri as int, d.runs@[ri as int]));
            }
        },
        None => {},
    }
    let workspace = d.operations[oi].meta.workspace_id.clone();
    let mut payload = text("{\"status\":");
    match status {
        OperationStatus::Succeeded => put(&mut payload, "\"succeeded\""),
        OperationStatus::Unknown => put(&mut payload, "\"unknown\""),
        _ => put(&mut payload, "\"failed\""),
    }
    put(&mut payload, ",\"token_usage\":");
    write_usage(&mut payload, &d.operations[oi].attempts[n - 1].token_usage);
    put(&mut payload, "}");
    let event_type = if status == OperationStatus::Unknown { EventType::OperationUnknown } else { EventType::OperationSettled };
    d.event(run_id, &workspace, Some(id), event_type, None, payload);
    if verification {
        d.event(run_id, &workspace, Some(id), EventType::AssessmentRecorded, None, text("{}"));
    }
    Ok(())
}

/// A succeeded tool operation of the run whose result is a success: what a
/// verification may cite.
pub open spec fn is_evidence(run_id: u128) -> spec_fn(Operation) -> bool {
    |op: Operation| {
        &&& op.run_id == run_id
        &&& op.status is Succeeded
        &&& op.request is Tool
        &&& op.result matches Some(OperationResult::Tool { result }) && result.outcome is Success
    }
}

/// `e` cites the operation: its identity, tool name, request digest and the
/// digest of its result's JSON text.
pub open spec fn cites(e: crate::models::Evidence, op: Operation) -> bool {
    &&& e.operation_id == op.meta.id
    &&& e.tool_name@ == op.request->call.name@
    &&& e.request_digest@ == op.request_digest@
    &&& e.result_digest@ == text_digest(tool_result_json(op.result->0->result))
}

/// The evidence of a run's verification: every successful tool result of the
/// run, in the order of the operation table (the order of their requests).
pub fn verification_evidence(d: &Data, actor: &Actor, run_id: u128) -> (r: Result<Vec<crate::models::Evidence>>)
    requires
        d.wf(),
    ensures
        r is Err <==> !d.owns(*actor, run_id),
        r is Err ==> r == Err::<Vec<crate::models::Evidence>, Error>(Error::NotFound),
        r matches Ok(v) ==> {
            let ops = d.operations@.filter(is_evidence(run_id));
            &&& v@.len() == ops.len()
            &&& forall|k: int| 0 <= k < v@.len() ==> cites(#[trigger] v@[k], ops[k])
        },
{
    d.owned_run(actor, run_id)?;
    let mut v: Vec<crate::models::Evidence> = Vec::new();
    let mut i: usize = 0;
    while i < d.operations.len()
        invariant
            i <= d.operations@.len(),
            v@.len() == d.operations@.take(i as int).filter(is_evidence(run_id)).len(),
            forall|k: int| 0 <= k < v@.len() ==> cites(#[trigger] v@[k], d.operations@.take(i as int).filter(is_evidence(run_id))[k]),
        decreases d.operations@.len() - i,
    {
        let ghost prev = d.operations@.take(i as int);
        let ghost next = d.operations@.take(i as int + 1);
        proof {
            reveal(Seq::filter);
            assert(next.drop_last() =~= prev);
            assert(next.last() == d.operations@[i as int]);
        }
        let op = &d.operations[i];
        if op.run_id == run_id && op.status == OperationStatus::Succeeded {
            match (&op.request, &op.result) {
                (OperationRequest::Tool { call, .. }, Some(OperationResult::Tool { result })) => {
                    if matches!(result.outcome, ToolOutcome::Success { .. }) {
                        let mut json = String::new();
                        write_tool_result(&mut json, result);
                        proof {
                            assert(json@ =~= tool_result_json(*result));
                        }
                        let e = crate::models::Evidence {
                            operation_id: op.meta.id,
                            tool_name: call.name.clone(),
                            request_digest: op.request_digest.clone(),
                            result_digest: digest_text(&json),
                        };
                        proof {
                            assert(is_evidence(run_id)(*op));
                            assert(next.filter(is_evidence(run_id)) == prev.filter(is_evidence(run_id)).push(*op));
                        }
                        v.push(e);
                    } else {
                        proof { assert(!is_evidence(run_id)(*op)); }
                    }
                },
                _ => {
                    proof { assert(!is_evidence(run_id)(*op)); }
                },
            }
        } else {
            proof { assert(!is_evidence(run_id)(*op)); }
        }
        i = i + 1;
    }
    proof {
        assert(d.operations@.take(d.operations@.len() as int) =~= d.operations@);
    }
    Ok(v)
}

/// An optional schema is met: there is none, or it is usable and accepts the value.
pub open spec fn schema_passes(schema: Option<Seq<char>>, value: Seq<char>) -> bool {
    match schema {
        None => true,
        Some(s) => crate::definitions::schema_valid(s) && crate::definitions::json_schema_accepts(s, value),
    }
}

/// Whether a verification of `candidate` passes: the agent's output schema,
/// then the goal's success schema, then its criteria (`failed_criterion` is
/// the index of the first criterion that the candidate fails, if any).
pub open spec fn verdict(output_schema: Option<Seq<char>>, goal_schema: Option<Seq<char>>, candidate: Seq<char>, failed_criterion: Option<usize>) -> bool {
    &&& schema_passes(output_schema, candidate)
    &&& goal_schema matches Some(g) ==> schema_passes(Some(g), candidate) && failed_criterion is None
}

pub open spec fn verdict_feedback(output_schema: Option<Seq<char>>, goal_schema: Option<Seq<char>>, candidate: Seq<char>, failed_criterion: Option<usize>) -> Seq<char> {
    if !schema_passes(output_schema, candidate) {
        "output did not satisfy the configured schema"@
    } else {
        match goal_schema {
            None => "output contract passed"@,
            Some(g) => if !schema_passes(Some(g), candidate) {
                "goal output did not satisfy its success schema"@
            } else {
                match failed_criterion {
                    Some(i) => "success criterion "@ + decimal((i + 1) as nat) + " failed"@,
                    None => "goal output contract passed"@,
                }
            },
        }
    }
}

fn passes(schema: Option<&str>, value: &str) -> (r: bool)
    ensures
        r == schema_passes(match schema { Some(s) => Some(s@), None => None }, value@),
{
    match schema {
        None => true,
        Some(s) => crate::definitions::validate(s, value).is_ok(),
    }
}

/// The result of a verification of `candidate`, citing `evidence`.
pub fn verification_result(
    output_schema: Option<&str>,
    goal_schema: Option<&str>,
    candidate: &str,
    failed_criterion: Option<usize>,
    evidence: Vec<crate::models::Evidence>,
) -> (r: OperationResult)
    requires
        failed_criterion matches Some(i) ==> i < u64::MAX,
    ensures
        ({
            let o = match output_schema { Some(s) => Some(s@), None => None };
            let g = match goal_schema { Some(s) => Some(s@), None => None };
            r matches OperationResult::Verify { passed, feedback, evidence: e } && {
                &&& passed == verdict(o, g, candidate@, failed_criterion)
                &&& feedback@ == verdict_feedback(o, g, candidate@, failed_criterion)
                &&& e == evidence
            }
        }),
{
    let (passed, feedback) = if !passes(output_schema, candidate) {
        (false, text("output did not satisfy the configured schema"))
    } else {
        match goal_schema {
            None => (true, text("output contract passed")),
            Some(g) => if !passes(Some(g), candidate) {
                (false, text("goal output did not satisfy its success schema"))
            } else {
                match failed_criterion {
                    Some(i) => {
                        let mut f = text("success criterion ");
                        put_decimal(&mut f, i as u64 + 1);
                        put(&mut f, " failed");
                        (false, f)
                    },
                    None => (true, text("goal output contract passed")),
                }
            },
        }
    };
    OperationResult::Verify { passed, feedback, evidence }
}

} // verus!
