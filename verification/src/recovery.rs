//! Trusted reconciliation of uncertain operations. Nothing uncertain is ever
//! replayed automatically: an operator brings evidence instead.
use vstd::prelude::*;
use crate::dispatch::current_attempt;
use crate::error::{conflict, invalid, text, unsupported, Error, Result};
use crate::harness::{ToolOutcome, ToolResult};
use crate::json::{put, put_quoted};
use crate::models::{Actor, EventType, OperationStatus, RunStatus, WaitReason};
use crate::primitives::{json_quote, json_string, now, uuid_quote};
use crate::runtime::{lemma_update_op_wf, lemma_update_run_wf, only_op_and_run_changed};
use crate::store::{Data, Operation, OperationRequest, OperationResult, Run};
use crate::text::{blank, is_blank, utf8_len};

verus! {

/// Byte length of the JSON string literal of a text.
pub open spec fn quoted_len(s: Seq<char>) -> nat {
    utf8_len(json_string(s))
}

fn quoted_bytes(s: &str) -> (r: usize)
    ensures
        r == quoted_len(s@),
{
    let q = json_quote(s);
    crate::text::byte_length(&q)
}

/// The operation exists and its run is owned by the actor.
pub open spec fn visible(d: Data, actor: Actor, operation_id: u128) -> bool {
    d.has_operation(operation_id) && d.owns(actor, d.operation(operation_id).run_id)
}

/// The run resumes after a reconciliation, unless it is being cancelled.
pub open spec fn resumed(run: Run, status: RunStatus, wait: Option<WaitReason>) -> Run {
    Run {
        status: if run.status is Cancelling { RunStatus::Cancelling } else { status },
        wait,
        revision: run.revision.wrapping_add(1),
        ..run
    }
}

fn locate(d: &Data, actor: &Actor, operation_id: u128) -> (r: Result<(usize, usize)>)
    requires
        d.wf(),
    ensures
        r is Ok <==> visible(*d, *actor, operation_id),
        r is Err ==> r == Err::<(usize, usize), Error>(Error::NotFound),
        r matches Ok((oi, ri)) ==> oi == d.operation_index(operation_id) && oi < d.operations@.len()
            && ri == d.run_index(d.operation(operation_id).run_id) && ri < d.runs@.len(),
{
    let oi = match d.find_operation(operation_id) {
        None => return Err(Error::NotFound),
        Some(oi) => oi,
    };
    let ri = d.owned_run(actor, d.operations[oi].run_id)?;
    Ok((oi, ri))
}

/// Give up an unavailable model response after its attempt became uncertain.
/// This neither asserts that the provider failed nor refunds admission
/// counters: the attempt stays uncertain, the operation fails, and the next
/// ordinary tick fails the run (or settles an existing cancellation). Tool
/// operations cannot use this path: they require destination evidence.
pub fn abandon_model_response(d: &mut Data, actor: &Actor, operation_id: u128, evidence: &str) -> (r: Result<()>)
    requires
        old(d).wf(),
    ensures
        final(d).wf(),
        r is Err ==> *final(d) == *old(d),
        blank(evidence@) ==> r matches Err(Error::Invalid(_)),
        !blank(evidence@) && !visible(*old(d), *actor, operation_id) ==> r == Err::<(), Error>(Error::NotFound),
        r is Ok <==> !blank(evidence@) && visible(*old(d), *actor, operation_id)
            && quoted_len(evidence@) <= old(d).run(old(d).operation(operation_id).run_id).limits.max_payload_bytes
            && old(d).operation(operation_id).request is Model
            && old(d).operation(operation_id).status is Unknown,
        r is Ok ==> {
            let oi = old(d).operation_index(operation_id);
            let op = old(d).operations@[oi];
            let ri = old(d).run_index(op.run_id);
            let run = old(d).runs@[ri];
            &&& only_op_and_run_changed(*old(d), *final(d), oi, final(d).operations@[oi], ri, final(d).runs@[ri])
            &&& final(d).operations@[oi] == (Operation { status: OperationStatus::Failed, result: None,
                revision: op.revision.wrapping_add(1), ..op })
            &&& final(d).runs@[ri] == resumed(run, RunStatus::Running, None)
        },
{
    if is_blank(evidence) {
        return Err(invalid("response-abandonment evidence is required"));
    }
    let (oi, ri) = locate(d, actor, operation_id)?;
    if quoted_bytes(evidence) > d.runs[ri].limits.max_payload_bytes {
        return Err(invalid("payload exceeds configured limit"));
    }
    if !matches!(d.operations[oi].request, OperationRequest::Model { .. }) {
        return Err(unsupported("only a model response may be abandoned"));
    }
    if d.operations[oi].status != OperationStatus::Unknown {
        return Err(conflict("model attempt must be uncertain before abandonment"));
    }
    let run_id = d.operations[oi].run_id;
    let ghost before = *d;
    d.operations[oi].status = OperationStatus::Failed;
    d.operations[oi].result = None;
    d.operations[oi].revision = d.operations[oi].revision.wrapping_add(1);
    if d.runs[ri].status != RunStatus::Cancelling {
        d.runs[ri].status = RunStatus::Running;
    }
    d.runs[ri].wait = None;
    d.runs[ri].revision = d.runs[ri].revision.wrapping_add(1);
    proof {
        lemma_update_op_wf(before, oi as int, d.operations@[oi as int]);
        lemma_update_run_wf(before, ri as int, d.runs@[ri as int]);
        assert(d.operations@ == before.operations@.update(oi as int, d.operations@[oi as int]));
        assert(d.runs@ == before.runs@.update(ri as int, d.runs@[ri as int]));
    }
    let workspace = d.runs[ri].meta.workspace_id.clone();
    let mut payload = text("{\"status\":\"failed\",\"response_abandoned\":true,\"evidence\":");
    put_quoted(&mut payload, evidence);
    put(&mut payload, ",\"admission_refunded\":false}");
    d.event(run_id, &workspace, Some(operation_id), EventType::OperationSettled, Some(actor.id.clone()), payload);
    Ok(())
}

/// Record the result of an uncertain tool operation from independently
/// verified destination evidence (`receipt`). Trusted adapter API: never
/// exposed to the model. The value must satisfy the tool's output schema.
#[verifier::rlimit(40)]
pub fn record_reconciled_tool_result(d: &mut Data, actor: &Actor, operation_id: u128, value: String, receipt: &str) -> (r: Result<()>)
    requires
        old(d).wf(),
    ensures
        final(d).wf(),
        r is Err ==> *final(d) == *old(d),
        blank(receipt@) ==> r matches Err(Error::Invalid(_)),
        !blank(receipt@) && !visible(*old(d), *actor, operation_id) ==> r == Err::<(), Error>(Error::NotFound),
        r is Ok ==> {
            let oi = old(d).operation_index(operation_id);
            let op = old(d).operations@[oi];
            let ri = old(d).run_index(op.run_id);
            let run = old(d).runs@[ri];
            let limit = run.limits.max_payload_bytes;
            &&& !blank(receipt@) && visible(*old(d), *actor, operation_id)
            &&& utf8_len(value@) <= limit && quoted_len(receipt@) <= limit
            &&& op.status is Unknown
            &&& op.request is Tool
            &&& old(d).has_tool(actor.workspace_id@, op.request->tool_ref)
            &&& crate::dispatch::schema_passes(match old(d).tool(actor.workspace_id@, op.request->tool_ref).output_schema {
                Some(s) => Some(s@), None => None }, value@)
            &&& only_op_and_run_changed(*old(d), *final(d), oi, final(d).operations@[oi], ri, final(d).runs@[ri])
            &&& final(d).operations@[oi] == (Operation { status: OperationStatus::Succeeded,
                result: final(d).operations@[oi].result, revision: op.revision.wrapping_add(1), ..op })
            &&& final(d).operations@[oi].result matches Some(OperationResult::Tool { result })
                && result.call_id@ == op.request->call.call_id@ && result.outcome == ToolOutcome::Success { value }
            &&& final(d).runs@[ri] == resumed(run, RunStatus::Running, None)
        },
        ({
            let op = old(d).operation(operation_id);
            let limit = old(d).run(op.run_id).limits.max_payload_bytes;
            !blank(receipt@) && visible(*old(d), *actor, operation_id) && utf8_len(value@) <= limit
                && quoted_len(receipt@) <= limit && op.status is Unknown && op.request is Tool
                && old(d).has_tool(actor.workspace_id@, op.request->tool_ref)
                && crate::dispatch::schema_passes(match old(d).tool(actor.workspace_id@, op.request->tool_ref).output_schema {
                    Some(s) => Some(s@), None => None }, value@) ==> r is Ok
        }),
{
    if is_blank(receipt) {
        return Err(invalid("receipt is required"));
    }
    let (oi, ri) = locate(d, actor, operation_id)?;
    let limit = d.runs[ri].limits.max_payload_bytes;
    if crate::text::byte_length(&value) > limit || quoted_bytes(receipt) > limit {
        return Err(invalid("payload exceeds configured limit"));
    }
    if d.operations[oi].status != OperationStatus::Unknown {
        return Err(conflict("operation is not uncertain"));
    }
    let call_id = match &d.operations[oi].request {
        OperationRequest::Tool { tool_ref, call } => {
            let ti = match d.find_tool(&actor.workspace_id, tool_ref) {
                None => return Err(Error::NotFound),
                Some(ti) => ti,
            };
            match &d.tools[ti].output_schema {
                Some(schema) => crate::definitions::validate(schema.as_str(), value.as_str())?,
                None => {},
            }
            call.call_id.clone()
        },
        _ => return Err(unsupported("only tool-result reconciliation is implemented")),
    };
    let run_id = d.operations[oi].run_id;
    let ghost before = *d;
    d.operations[oi].status = OperationStatus::Succeeded;
    d.operations[oi].result = Some(OperationResult::Tool {
        result: ToolResult { call_id, outcome: ToolOutcome::Success { value } },
    });
    d.operations[oi].revision = d.operations[oi].revision.wrapping_add(1);
    if d.runs[ri].status != RunStatus::Cancelling {
        d.runs[ri].status = RunStatus::Running;
    }
    d.runs[ri].wait = None;
    d.runs[ri].revision = d.runs[ri].revision.wrapping_add(1);
    proof {
        lemma_update_op_wf(before, oi as int, d.operations@[oi as int]);
        lemma_update_run_wf(before, ri as int, d.runs@[ri as int]);
        assert(d.operations@ == before.operations@.update(oi as int, d.operations@[oi as int]));
        assert(d.runs@ == before.runs@.update(ri as int, d.runs@[ri as int]));
    }
    let workspace = d.runs[ri].meta.workspace_id.clone();
    let mut payload = text("{\"status\":\"succeeded\",\"reconciled\":true,\"receipt\":");
    put_quoted(&mut payload, receipt);
    put(&mut payload, "}");
    d.event(run_id, &workspace, Some(operation_id), EventType::OperationSettled, Some(actor.id.clone()), payload);
    Ok(())
}

/// Trusted operator recovery after independently confirming that the executor
/// has stopped (age alone is no evidence). The exact observed attempt is
/// fenced: it becomes uncertain, so a late result cannot overwrite the
/// reconciliation, and the run waits for it.
#[verifier::rlimit(40)]
pub fn mark_interrupted(d: &mut Data, actor: &Actor, operation_id: u128, attempt_id: u128, evidence: &str) -> (r: Result<()>)
    requires
        old(d).wf(),
    ensures
        final(d).wf(),
        r is Err ==> *final(d) == *old(d),
        blank(evidence@) ==> r matches Err(Error::Invalid(_)),
        !blank(evidence@) && !visible(*old(d), *actor, operation_id) ==> r == Err::<(), Error>(Error::NotFound),
        r is Ok <==> !blank(evidence@) && visible(*old(d), *actor, operation_id)
            && quoted_len(evidence@) <= old(d).run(old(d).operation(operation_id).run_id).limits.max_payload_bytes
            && current_attempt(old(d).operation(operation_id), attempt_id),
        r is Ok ==> {
            let oi = old(d).operation_index(operation_id);
            let op = old(d).operations@[oi];
            let op2 = final(d).operations@[oi];
            let ri = old(d).run_index(op.run_id);
            let run = old(d).runs@[ri];
            let a = op.attempts@.last();
            let a2 = op2.attempts@.last();
            &&& only_op_and_run_changed(*old(d), *final(d), oi, op2, ri, final(d).runs@[ri])
            &&& op2 == (Operation { status: OperationStatus::Unknown, attempts: op2.attempts,
                revision: op.revision.wrapping_add(1), ..op })
            &&& op2.attempts@.len() == op.attempts@.len()
            &&& op2.attempts@.drop_last() == op.attempts@.drop_last()
            &&& a2 == (crate::store::Attempt { status: OperationStatus::Unknown, finished_at: a2.finished_at, error: a2.error, ..a })
            &&& a2.finished_at is Some
            &&& a2.error matches Some(m) && m@ == "executor interrupted; outcome requires reconciliation"@
            &&& final(d).runs@[ri] == resumed(run, RunStatus::Waiting, Some(WaitReason::Reconciliation { operation_id }))
        },
{
    if is_blank(evidence) {
        return Err(invalid("executor-stop evidence is required"));
    }
    let (oi, ri) = locate(d, actor, operation_id)?;
    if quoted_bytes(evidence) > d.runs[ri].limits.max_payload_bytes {
        return Err(invalid("payload exceeds configured limit"));
    }
    let n = d.operations[oi].attempts.len();
    if d.operations[oi].status != OperationStatus::Running || n == 0 || d.operations[oi].attempts[n - 1].id != attempt_id {
        return Err(conflict("running attempt changed"));
    }
    let run_id = d.operations[oi].run_id;
    let finished = now();
    let ghost before = *d;
    let ghost op = d.operations@[oi as int];
    d.operations[oi].status = OperationStatus::Unknown;
    d.operations[oi].revision = d.operations[oi].revision.wrapping_add(1);
    d.operations[oi].attempts[n - 1].status = OperationStatus::Unknown;
    d.operations[oi].attempts[n - 1].finished_at = Some(finished);
    d.operations[oi].attempts[n - 1].error = Some(text("executor interrupted; outcome requires reconciliation"));
    if d.runs[ri].status != RunStatus::Cancelling {
        d.runs[ri].status = RunStatus::Waiting;
    }
    d.runs[ri].wait = Some(WaitReason::Reconciliation { operation_id });
    d.runs[ri].revision = d.runs[ri].revision.wrapping_add(1);
    proof {
        lemma_update_op_wf(before, oi as int, d.operations@[oi as int]);
        lemma_update_run_wf(before, ri as int, d.runs@[ri as int]);
        assert(d.operations@ == before.operations@.update(oi as int, d.operations@[oi as int]));
        assert(d.runs@ == before.runs@.update(ri as int, d.runs@[ri as int]));
        assert(d.operations@[oi as int].attempts@.drop_last() =~= op.attempts@.drop_last());
    }
    let workspace = d.runs[ri].meta.workspace_id.clone();
    let mut payload = text("{\"status\":\"unknown\",\"interrupted\":true,\"attempt_id\":");
    let q = uuid_quote(attempt_id);
    put(&mut payload, q.as_str());
    put(&mut payload, ",\"evidence\":");
    put_quoted(&mut payload, evidence);
    put(&mut payload, "}");
    d.event(run_id, &workspace, Some(operation_id), EventType::OperationSettled, Some(actor.id.clone()), payload);
    Ok(())
}

} // verus!
