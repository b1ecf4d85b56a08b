//! Run lifecycle transactions: collecting operation results, failing,
//! approving, answering, and cancelling runs.
use vstd::prelude::*;
use crate::error::{conflict, invalid, text, Error, Result};
use crate::harness::{Input, ToolOutcome, ToolResult};
use crate::json::{digest_text, put, put_quoted, text_digest};
use crate::models::{Actor, Assessment, EventType, OperationStatus, RunStatus, WaitReason};
use crate::primitives::json_string;
use crate::store::{Data, Operation, OperationRequest, OperationResult, Run};

verus! {

/// The run at `i` replaced by `r`; operations and definitions untouched.
pub open spec fn only_run_changed(old: Data, new: Data, i: int, r: Run) -> bool {
    &&& new.runs@ == old.runs@.update(i, r)
    &&& new.operations == old.operations
    &&& new.agents == old.agents
    &&& new.tools == old.tools
    &&& new.policies == old.policies
    &&& new.submissions == old.submissions
    &&& new.inputs == old.inputs
    &&& new.model_budgets == old.model_budgets
    &&& new.schedule_requests == old.schedule_requests
    &&& new.team_tasks == old.team_tasks
}

pub(crate) proof fn lemma_update_run_wf(d: Data, i: int, r: Run)
    requires
        d.wf(),
        0 <= i < d.runs@.len(),
        r.meta.id == d.runs@[i].meta.id,
    ensures
        crate::store::run_ids_unique(d.runs@.update(i, r)),
{
}

/// Mark a run failed if it is still at `revision`.
pub fn fail(d: &mut Data, actor: &Actor, id: u128, revision: u64, reason: &str) -> (r: Result<()>)
    requires
        old(d).wf(),
    ensures
        final(d).wf(),
        !old(d).owns(*actor, id) ==> r == Err::<(), Error>(Error::NotFound),
        old(d).owns(*actor, id) && old(d).run(id).revision != revision ==> r matches Err(Error::Conflict(_)),
        r is Ok <==> old(d).owns(*actor, id) && old(d).run(id).revision == revision,
        r is Err ==> *final(d) == *old(d),
        r is Ok ==> old(d).owns(*actor, id) && old(d).run(id).revision == revision && {
            let run = old(d).run(id);
            let run2 = final(d).run(id);
            &&& only_run_changed(*old(d), *final(d), old(d).run_index(id), run2)
            &&& run2 == (Run { status: RunStatus::Failed, reason: run2.reason, revision: run.revision.wrapping_add(1), ..run })
            &&& run2.reason matches Some(m) && m@ == reason@
            &&& final(d).event_types(id) == old(d).event_types(id).push(EventType::RunFinished)
                || old(d).events_of(id).len() + 1 >= u64::MAX
        },
{
    let i = d.owned_run(actor, id)?;
    if d.runs[i].revision != revision {
        return Err(conflict("stale run revision"));
    }
    let ghost before = *d;
    d.runs[i].status = RunStatus::Failed;
    d.runs[i].reason = Some(text(reason));
    d.runs[i].revision = d.runs[i].revision.wrapping_add(1);
    proof {
        lemma_update_run_wf(before, i as int, d.runs@[i as int]);
        assert(d.runs@ == before.runs@.update(i as int, d.runs@[i as int]));
        assert(d.has_run(id));
        assert(d.run_index(id) == i);
    }
    let mut payload = text("{\"status\":\"failed\",\"reason\":");
    put_quoted(&mut payload, reason);
    put(&mut payload, "}");
    let workspace = d.runs[i].meta.workspace_id.clone();
    let ghost mid = *d;
    d.event(id, &workspace, None, EventType::RunFinished, None, payload);
    proof {
        assert(d.runs == mid.runs);
        assert(d.run_index(id) == i);
        if mid.events_of(id).len() + 1 < u64::MAX {
            assert(d.event_types(id) =~= mid.event_types(id).push(EventType::RunFinished));
        }
        let run = before.run(id);
        let run2 = d.run(id);
        assert(only_run_changed(before, *d, before.run_index(id), run2));
        assert(run2 == (Run { status: RunStatus::Failed, reason: run2.reason, revision: run.revision.wrapping_add(1), ..run }));
        mid.lemma_same_logs(&before);
    }
    Ok(())
}

} // verus!

verus! {

pub open spec fn active(s: OperationStatus) -> bool {
    s is Pending || s is WaitingApproval || s is Running
}

/// Every pending operation of the run is stored.
pub open spec fn pending_stored(d: Data, run: Run) -> bool {
    forall|k: int| 0 <= k < run.pending_operations@.len() ==> d.has_operation(
        #[trigger] run.pending_operations@[k])
}

pub open spec fn pending_op(d: Data, run: Run, k: int) -> Operation {
    d.operation(run.pending_operations@[k])
}

/// The input that a settled batch hands back to the loop, as far as its shape.
pub open spec fn settled_input(d: Data, run: Run, next: Option<Input>) -> bool {
    let n = run.pending_operations@.len() as int;
    let first = pending_op(d, run, 0);
    match first.request {
        OperationRequest::Model { .. } => match first.result {
            Some(OperationResult::Model { response }) => (next matches Some(Input::Model { response: r }) && r.same(response)),
            _ => next is None,
        },
        OperationRequest::Verify { .. } => match first.result {
            Some(OperationResult::Verify { passed, feedback, .. }) => (next matches Some(Input::Verification { passed: p, feedback: f }) && p == passed && f@ == feedback@),
            _ => next is None,
        },
        OperationRequest::Tool { .. } => match next {
            Some(Input::Tools { results }) => (forall|k: int| 0 <= k < n ==> pending_op(d, run, k).request is Tool)
                ==> results@.len() == n && forall|k: int| 0 <= k < n ==> tool_input(pending_op(d, run, k), #[trigger] results@[k]),
            _ => false,
        },
    }
}

/// A tool operation's result, or the error that stands for a missing result.
pub open spec fn tool_input(op: Operation, r: ToolResult) -> bool {
    match op.result {
        Some(OperationResult::Tool { result }) => r == result,
        _ => match op.request {
            OperationRequest::Tool { call, .. } => r.call_id@ == call.call_id@ && (r.outcome matches ToolOutcome::Error { code, .. } && code@ == "execution_failed"@),
            _ => true,
        },
    }
}

fn missing_tool_result(call_id: &String) -> (r: ToolResult)
    ensures
        r.call_id@ == call_id@,
        r.outcome matches ToolOutcome::Error { code, .. } && code@ == "execution_failed"@,
{
    ToolResult {
        call_id: call_id.clone(),
        outcome: ToolOutcome::Error { code: text("execution_failed"), message: text("Tool did not complete") },
    }
}

/// `idx` locates each pending operation of `run` in the operation table.
pub open spec fn located(d: Data, run: Run, idx: Seq<usize>) -> bool {
    &&& idx.len() == run.pending_operations@.len()
    &&& forall|m: int| 0 <= m < idx.len() ==> (#[trigger] idx[m]) == d.operation_index(run.pending_operations@[m])
        && idx[m] < d.operations@.len() && d.has_operation(run.pending_operations@[m])
        && d.operations@[idx[m] as int].meta.id == run.pending_operations@[m]
}

fn pending_indices(d: &Data, i: usize) -> (r: Option<Vec<usize>>)
    requires
        d.wf(),
        i < d.runs@.len(),
    ensures
        r is Some <==> pending_stored(*d, d.runs@[i as int]),
        r matches Some(idx) ==> located(*d, d.runs@[i as int], idx@),
{
    let ghost run = d.runs@[i as int];
    let n = d.runs[i].pending_operations.len();
    let mut idx: Vec<usize> = Vec::new();
    let mut k: usize = 0;
    while k < n
        invariant
            d.wf(),
            i < d.runs@.len(),
            run == d.runs@[i as int],
            n == run.pending_operations@.len(),
            k <= n,
            idx@.len() == k,
            forall|m: int| 0 <= m < k ==> d.has_operation(#[trigger] run.pending_operations@[m]),
            forall|m: int| 0 <= m < k ==> (#[trigger] idx@[m]) == d.operation_index(run.pending_operations@[m])
                && idx@[m] < d.operations@.len() && d.has_operation(run.pending_operations@[m])
                && d.operations@[idx@[m] as int].meta.id == run.pending_operations@[m],
        decreases n - k,
    {
        match d.find_operation(d.runs[i].pending_operations[k]) {
            None => {
                assert(!d.has_operation(run.pending_operations@[k as int]));
                return None;
            },
            Some(j) => idx.push(j),
        }
        k = k + 1;
    }
    Some(idx)
}

fn first_unknown(d: &Data, i: usize, idx: &Vec<usize>) -> (r: Option<usize>)
    requires
        d.wf(),
        i < d.runs@.len(),
        located(*d, d.runs@[i as int], idx@),
    ensures
        r matches Some(u) ==> u < idx@.len() && pending_op(*d, d.runs@[i as int], u as int).status is Unknown
            && forall|k: int| 0 <= k < u ==> !(#[trigger] pending_op(*d, d.runs@[i as int], k).status is Unknown),
        r is None ==> forall|k: int| 0 <= k < idx@.len() ==> !(#[trigger] pending_op(*d, d.runs@[i as int], k).status is Unknown),
{
    let mut k: usize = 0;
    while k < idx.len()
        invariant
            d.wf(),
            i < d.runs@.len(),
            located(*d, d.runs@[i as int], idx@),
            k <= idx@.len(),
            forall|m: int| 0 <= m < k ==> !(#[trigger] pending_op(*d, d.runs@[i as int], m).status is Unknown),
        decreases idx@.len() - k,
    {
        if d.operations[idx[k]].status == OperationStatus::Unknown {
            return Some(k);
        }
        k = k + 1;
    }
    None
}

fn any_active(d: &Data, i: usize, idx: &Vec<usize>) -> (r: bool)
    requires
        d.wf(),
        i < d.runs@.len(),
        located(*d, d.runs@[i as int], idx@),
    ensures
        r == exists|k: int| 0 <= k < idx@.len() && active((#[trigger] pending_op(*d, d.runs@[i as int], k)).status),
{
    let mut k: usize = 0;
    while k < idx.len()
        invariant
            d.wf(),
            i < d.runs@.len(),
            located(*d, d.runs@[i as int], idx@),
            k <= idx@.len(),
            forall|m: int| 0 <= m < k ==> !active((#[trigger] pending_op(*d, d.runs@[i as int], m)).status),
        decreases idx@.len() - k,
    {
        let s = d.operations[idx[k]].status;
        if s == OperationStatus::Pending || s == OperationStatus::WaitingApproval || s == OperationStatus::Running {
            assert(active(pending_op(*d, d.runs@[i as int], k as int).status));
            return true;
        }
        k = k + 1;
    }
    false
}

fn batch_results(d: &Data, i: usize, idx: &Vec<usize>) -> (results: Vec<ToolResult>)
    requires
        d.wf(),
        i < d.runs@.len(),
        located(*d, d.runs@[i as int], idx@),
    ensures
        (forall|m: int| 0 <= m < idx@.len() ==> pending_op(*d, d.runs@[i as int], m).request is Tool)
            ==> results@.len() == idx@.len() && forall|m: int| 0 <= m < idx@.len()
                ==> tool_input(pending_op(*d, d.runs@[i as int], m), #[trigger] results@[m]),
{
    let ghost run = d.runs@[i as int];
    let mut results: Vec<ToolResult> = Vec::new();
    let mut k: usize = 0;
    while k < idx.len()
        invariant
            d.wf(),
            i < d.runs@.len(),
            run == d.runs@[i as int],
            located(*d, run, idx@),
            k <= idx@.len(),
            (forall|m: int| 0 <= m < k ==> pending_op(*d, run, m).request is Tool) ==> results@.len() == k
                && forall|m: int| 0 <= m < k ==> tool_input(pending_op(*d, run, m), #[trigger] results@[m]),
        decreases idx@.len() - k,
    {
        let ghost before = results@;
        let op = &d.operations[idx[k]];
        assert(*op == pending_op(*d, run, k as int));
        match &op.result {
            Some(OperationResult::Tool { result }) => results.push(result.clone()),
            _ => match &op.request {
                OperationRequest::Tool { call, .. } => results.push(missing_tool_result(&call.call_id)),
                _ => {},
            },
        }
        proof {
            if forall|m: int| 0 <= m < k + 1 ==> pending_op(*d, run, m).request is Tool {
                assert(forall|m: int| 0 <= m < k ==> pending_op(*d, run, m).request is Tool);
                assert(pending_op(*d, run, k as int).request is Tool);
                assert(results@.len() == k + 1);
                assert forall|m: int| 0 <= m < k + 1 implies tool_input(pending_op(*d, run, m), #[trigger] results@[m]) by {
                    if m < k {
                        assert(results@[m] == before[m]);
                    }
                }
            }
        }
        k = k + 1;
    }
    results
}

/// The run after its settled batch was folded into its next input.
pub open spec fn settled_run(d: Data, run: Run, run2: Run) -> bool {
    &&& run2.pending_operations@.len() == 0
    &&& run2.wait is None
    &&& settled_input(d, run, run2.next_input)
    &&& run2.status == (if run2.next_input is Some { RunStatus::Running } else { RunStatus::Failed })
    &&& run2.revision == run.revision.wrapping_add(1)
    &&& run2.meta == run.meta && run2.agent_ref == run.agent_ref && run2.actor_id == run.actor_id
    &&& run2.usage == run.usage && run2.limits == run.limits && run2.state == run.state
    &&& run2.result == run.result && run2.parent_operation == run.parent_operation
    &&& (run2.next_input is Some ==> run2.reason == run.reason)
    &&& match pending_op(d, run, 0).request {
        OperationRequest::Verify { candidate } => match pending_op(d, run, 0).result {
            Some(OperationResult::Verify { passed, feedback, evidence }) => {
                &&& run2.assessment matches Some(a) && a.passed == passed && a.feedback@ == feedback@ && a.evidence@.len() == evidence@.len()
                &&& (passed ==> (run2.verified_candidate_digest matches Some(g) && g@ == text_digest(candidate@)))
                &&& (!passed ==> run2.verified_candidate_digest == run.verified_candidate_digest)
            },
            _ => run2.assessment == run.assessment && run2.verified_candidate_digest == run.verified_candidate_digest,
        },
        _ => run2.assessment == run.assessment && run2.verified_candidate_digest == run.verified_candidate_digest,
    }
}

fn settle(d: &mut Data, i: usize, idx: &Vec<usize>)
    requires
        old(d).wf(),
        i < old(d).runs@.len(),
        idx@.len() > 0,
        located(*old(d), old(d).runs@[i as int], idx@),
    ensures
        final(d).wf(),
        only_run_changed(*old(d), *final(d), i as int, final(d).runs@[i as int]),
        settled_run(*old(d), old(d).runs@[i as int], final(d).runs@[i as int]),
        final(d).runs@[i as int].status is Failed ==> (final(d).event_types(old(d).runs@[i as int].meta.id) == old(d).event_types(old(d).runs@[i as int].meta.id).push(EventType::RunFinished)
            || old(d).events_of(old(d).runs@[i as int].meta.id).len() + 1 >= u64::MAX),
        final(d).runs@[i as int].status is Running ==> final(d).logs == old(d).logs,
{
    let ghost before = *d;
    let ghost run = d.runs@[i as int];
    let first = idx[0];
    let mut assessment: Option<Assessment> = None;
    let mut verified: Option<String> = None;
    let next: Option<Input> = match &d.operations[first].request {
        OperationRequest::Model { .. } => match &d.operations[first].result {
            Some(OperationResult::Model { response }) => Some(Input::Model { response: response.copy() }),
            _ => None,
        },
        OperationRequest::Tool { .. } => Some(Input::Tools { results: batch_results(d, i, idx) }),
        OperationRequest::Verify { candidate } => match &d.operations[first].result {
            Some(OperationResult::Verify { passed, feedback, evidence }) => {
                assessment = Some(Assessment { passed: *passed, feedback: feedback.clone(), evidence: evidence.clone() });
                if *passed {
                    verified = Some(digest_text(candidate));
                }
                Some(Input::Verification { passed: *passed, feedback: feedback.clone() })
            },
            _ => None,
        },
    };
    assert(before.operations@[first as int] == pending_op(before, run, 0));
    let failed = next.is_none();
    d.runs[i].pending_operations = Vec::new();
    d.runs[i].next_input = next;
    d.runs[i].wait = None;
    if assessment.is_some() {
        d.runs[i].assessment = assessment;
    }
    if verified.is_some() {
        d.runs[i].verified_candidate_digest = verified;
    }
    d.runs[i].status = if failed { RunStatus::Failed } else { RunStatus::Running };
    if failed {
        d.runs[i].reason = Some(text("operation failed"));
    }
    d.runs[i].revision = d.runs[i].revision.wrapping_add(1);
    proof {
        lemma_update_run_wf(before, i as int, d.runs@[i as int]);
        assert(d.runs@ == before.runs@.update(i as int, d.runs@[i as int]));
    }
    if failed {
        let workspace = d.runs[i].meta.workspace_id.clone();
        let ghost mid = *d;
        d.event(d.runs[i].meta.id, &workspace, None, EventType::RunFinished, None, text("{\"status\":\"failed\"}"));
        proof {
            mid.lemma_same_logs(&before);
            let rid = run.meta.id;
            if mid.events_of(rid).len() + 1 < u64::MAX {
                assert(d.event_types(rid) =~= mid.event_types(rid).push(EventType::RunFinished));
            }
        }
    }
}

/// What collecting the pending batch of an owned run does (see `collect`).
pub open spec fn collected(o: Data, f: Data, actor: Actor, id: u128, r: Result<()>) -> bool {
        
            let run = o.run(id);
            let n = run.pending_operations@.len() as int;
            let i = o.run_index(id);
            if n == 0 || run.status.is_stopped() {
                r is Ok && f == o
            } else if !pending_stored(o, run) {
                r == Err::<(), Error>(Error::NotFound)
            } else if exists|k: int| 0 <= k < n && (#[trigger] pending_op(o, run, k)).status is Unknown {
                r is Ok && exists|u: int| 0 <= u < n && (#[trigger] pending_op(o, run, u)).status is Unknown
                    && (forall|k: int| 0 <= k < u ==> !(#[trigger] pending_op(o, run, k).status is Unknown))
                    && only_run_changed(o, f, i, Run {
                        status: RunStatus::Waiting,
                        wait: Some(WaitReason::Reconciliation { operation_id: run.pending_operations@[u] }),
                        revision: run.revision.wrapping_add(1),
                        ..run
                    }) && f.logs == o.logs
            } else if exists|k: int| 0 <= k < n && active((#[trigger] pending_op(o, run, k)).status) {
                r is Ok && f == o
            } else {
                &&& r is Ok
                &&& only_run_changed(o, f, i, f.runs@[i])
                &&& settled_run(o, run, f.runs@[i])
            }
        
}

/// What settling a cancelling owned run does (see `finish_cancellation`).
pub open spec fn cancellation_finished(before: Data, after: Data, actor: Actor, id: u128, r: Result<()>) -> bool {
        
            let run = before.run(id);
            let i = before.run_index(id);
            if !(run.status is Cancelling) {
                r is Ok && after == before
            } else if !pending_stored(before, run) {
                r == Err::<(), Error>(Error::NotFound)
            } else {
                let run2 = after.runs@[i];
                &&& r is Ok
                &&& after.runs@ == before.runs@.update(i, run2)
                &&& after.operations@.len() == before.operations@.len()
                &&& forall|j: int| 0 <= j < before.operations@.len() ==> #[trigger] after.operations@[j] == if cancellable(before, run, j) {
                    Operation { status: OperationStatus::Cancelled, revision: before.operations@[j].revision.wrapping_add(1), ..before.operations@[j] }
                } else {
                    before.operations@[j]
                }
                &&& run2.revision == run.revision.wrapping_add(1)
                &&& (exists|o: u128| unresolved(before, run, o)) ==> {
                    &&& run2.wait matches Some(WaitReason::Reconciliation { operation_id: o }) && unresolved(before, run, o)
                    &&& run2 == (Run { wait: run2.wait, revision: run.revision.wrapping_add(1), ..run })
                }
                &&& !(exists|o: u128| unresolved(before, run, o)) ==> {
                    &&& run2 == (Run { status: RunStatus::Cancelled, wait: None, revision: run.revision.wrapping_add(1), ..run })
                    &&& (after.event_types(id) == before.event_types(id).push(EventType::RunFinished)
                        || before.events_of(id).len() + 1 >= u64::MAX)
                }
            }
        
}

/// Fold the settled pending batch of a run back into its next loop input.
/// An uncertain operation makes the run wait for reconciliation; an active one
/// leaves the run as it is.
#[verifier::rlimit(50)]
pub fn collect(d: &mut Data, actor: &Actor, id: u128) -> (r: Result<()>)
    requires
        old(d).wf(),
    ensures
        final(d).wf(),
        !old(d).owns(*actor, id) ==> r == Err::<(), Error>(Error::NotFound),
        r is Err ==> *final(d) == *old(d),
        old(d).owns(*actor, id) ==> collected(*old(d), *final(d), *actor, id, r),
{
    let i = d.owned_run(actor, id)?;
    let n = d.runs[i].pending_operations.len();
    if n == 0 || d.runs[i].status.terminal() || d.runs[i].status == RunStatus::Cancelling {
        return Ok(());
    }
    let ghost run = d.runs@[i as int];
    let idx = match pending_indices(d, i) {
        None => return Err(Error::NotFound),
        Some(idx) => idx,
    };
    if let Some(u) = first_unknown(d, i, &idx) {
        let op_id = d.runs[i].pending_operations[u];
        let ghost before = *d;
        d.runs[i].status = RunStatus::Waiting;
        d.runs[i].wait = Some(WaitReason::Reconciliation { operation_id: op_id });
        d.runs[i].revision = d.runs[i].revision.wrapping_add(1);
        proof {
            lemma_update_run_wf(before, i as int, d.runs@[i as int]);
            assert(d.runs@ == before.runs@.update(i as int, d.runs@[i as int]));
            assert(d.runs@[i as int] == Run {
                status: RunStatus::Waiting,
                wait: Some(WaitReason::Reconciliation { operation_id: run.pending_operations@[u as int] }),
                revision: run.revision.wrapping_add(1),
                ..run
            });
            assert(pending_op(before, run, u as int).status is Unknown);
            assert(only_run_changed(before, *d, i as int, d.runs@[i as int]));
        }
        return Ok(());
    }
    proof {
        assert(forall|k: int| 0 <= k < n ==> !(#[trigger] pending_op(*d, run, k).status is Unknown));
    }
    if any_active(d, i, &idx) {
        return Ok(());
    }
    // Every operation settled: hand the results back to the loop.
    settle(d, i, &idx);
    Ok(())
}

} // verus!

verus! {

pub open spec fn only_op_and_run_changed(old: Data, new: Data, oi: int, op: Operation, ri: int, run: Run) -> bool {
    &&& new.operations@ == old.operations@.update(oi, op)
    &&& new.runs@ == old.runs@.update(ri, run)
    &&& new.agents == old.agents
    &&& new.tools == old.tools
    &&& new.policies == old.policies
    &&& new.submissions == old.submissions
    &&& new.inputs == old.inputs
    &&& new.model_budgets == old.model_budgets
    &&& new.schedule_requests == old.schedule_requests
    &&& new.team_tasks == old.team_tasks
}

pub(crate) proof fn lemma_update_op_wf(d: Data, i: int, op: Operation)
    requires
        d.wf(),
        0 <= i < d.operations@.len(),
        op.meta.id == d.operations@[i].meta.id,
    ensures
        crate::store::operation_ids_unique(d.operations@.update(i, op)),
{
}

/// The conditions under which an approval decision is accepted.
pub open spec fn approval_admissible(d: Data, approver: Actor, operation_id: u128) -> bool {
    &&& d.has_operation(operation_id)
    &&& d.operation(operation_id).meta.workspace_id@ == approver.workspace_id@
    &&& d.operation(operation_id).status is WaitingApproval
    &&& d.has_run(d.operation(operation_id).run_id)
    &&& !d.run(d.operation(operation_id).run_id).status.is_stopped()
    &&& d.operation(operation_id).request is Tool
    &&& d.has_tool(approver.workspace_id@, d.operation(operation_id).request->tool_ref)
    &&& d.policy(approver.workspace_id@, d.tool(approver.workspace_id@, d.operation(operation_id).request->tool_ref).policy_ref@) is Some
    &&& crate::text::seq_has(d.policy(approver.workspace_id@, d.tool(approver.workspace_id@, d.operation(operation_id).request->tool_ref).policy_ref@)->0.approvers@, approver.id@)
    &&& d.operation(operation_id).approval is Some
}

/// Record an approver's decision on an operation that waits for approval.
/// An approval re-queues the operation; a denial settles it with a denied
/// tool error. Either way the run resumes.
#[verifier::rlimit(50)]
pub fn approve(d: &mut Data, approver: &Actor, operation_id: u128, approved: bool, at: u64, expires_at: u64) -> (r: Result<()>)
    requires
        old(d).wf(),
    ensures
        final(d).wf(),
        r is Err ==> *final(d) == *old(d),
        expires_at <= at ==> r matches Err(Error::Invalid(_)),
        !old(d).has_operation(operation_id) ==> r is Err,
        r is Ok <==> expires_at > at && approval_admissible(*old(d), *approver, operation_id),
        r is Ok ==> {
            let op = old(d).operation(operation_id);
            let op2 = final(d).operation(operation_id);
            let run = old(d).run(op.run_id);
            let run2 = final(d).run(op.run_id);
            &&& only_op_and_run_changed(*old(d), *final(d), old(d).operation_index(operation_id), op2,
                old(d).run_index(op.run_id), run2)
            &&& op2.status == (if approved { OperationStatus::Pending } else { OperationStatus::Denied })
            &&& op2.revision == op.revision.wrapping_add(1)
            &&& op2.meta == op.meta && op2.run_id == op.run_id && op2.request == op.request
            &&& op2.request_digest == op.request_digest && op2.attempts == op.attempts
            &&& op2.approval->0.decisions@.len() == op.approval->0.decisions@.len() + 1
            &&& op2.approval->0.decisions@.drop_last() == op.approval->0.decisions@
            &&& op2.approval->0.request_digest == op.approval->0.request_digest
            &&& {
                let dec = op2.approval->0.decisions@.last();
                &&& dec.actor_id@ == approver.id@
                &&& dec.request_digest@ == op.request_digest@
                &&& dec.approved == approved
                &&& dec.decided_at == at
                &&& dec.expires_at == expires_at
            }
            &&& approved ==> op2.result == op.result
            &&& !approved ==> (op2.result matches Some(OperationResult::Tool { result })
                && (result.outcome matches ToolOutcome::Error { code, .. } && code@ == "denied"@))
            &&& run2 == (Run { status: RunStatus::Running, wait: None, revision: run.revision.wrapping_add(1), ..run })
        },
{
    if expires_at <= at {
        return Err(invalid("approval already expired"));
    }
    let oi = match d.find_operation(operation_id) {
        None => return Err(Error::NotFound),
        Some(oi) => oi,
    };
    crate::security::require_workspace(approver, &d.operations[oi].meta.workspace_id)?;
    if d.operations[oi].status != OperationStatus::WaitingApproval {
        return Err(conflict("operation is not awaiting approval"));
    }
    let run_id = d.operations[oi].run_id;
    let ri = match d.find_run(run_id) {
        None => return Err(Error::NotFound),
        Some(ri) => ri,
    };
    if d.runs[ri].status.terminal() || d.runs[ri].status == RunStatus::Cancelling {
        return Err(conflict("run stopped"));
    }
    let (tool_ref, call_id) = match &d.operations[oi].request {
        OperationRequest::Tool { tool_ref, call } => (tool_ref.copy(), call.call_id.clone()),
        _ => return Err(invalid("approval requires tool")),
    };
    let ti = match d.find_tool(&approver.workspace_id, &tool_ref) {
        None => return Err(Error::NotFound),
        Some(ti) => ti,
    };
    let pi = match d.find_policy(&approver.workspace_id, &d.tools[ti].policy_ref) {
        None => return Err(Error::Denied),
        Some(pi) => pi,
    };
    if !crate::text::vec_contains(&d.policies[pi].policy.approvers, &approver.id) {
        return Err(Error::Denied);
    }
    if d.operations[oi].approval.is_none() {
        return Err(invalid("missing approval request"));
    }
    proof {
        assert(tool_ref.id@ == old(d).operation(operation_id).request->tool_ref.id@);
        assert(old(d).has_tool(approver.workspace_id@, old(d).operation(operation_id).request->tool_ref));
    }
    let ghost before = *d;
    let decision = crate::store::ApprovalDecision {
        actor_id: approver.id.clone(),
        request_digest: d.operations[oi].request_digest.clone(),
        approved,
        decided_at: at,
        expires_at,
    };
    match &mut d.operations[oi].approval {
        Some(a) => a.decisions.push(decision),
        None => {},
    }
    if approved {
        d.operations[oi].status = OperationStatus::Pending;
    } else {
        d.operations[oi].status = OperationStatus::Denied;
        d.operations[oi].result = Some(OperationResult::Tool {
            result: ToolResult {
                call_id,
                outcome: ToolOutcome::Error { code: text("denied"), message: text("Approval denied") },
            },
        });
    }
    d.operations[oi].revision = d.operations[oi].revision.wrapping_add(1);
    d.runs[ri].status = RunStatus::Running;
    d.runs[ri].wait = None;
    d.runs[ri].revision = d.runs[ri].revision.wrapping_add(1);
    proof {
        lemma_update_op_wf(before, oi as int, d.operations@[oi as int]);
        lemma_update_run_wf(before, ri as int, d.runs@[ri as int]);
        assert(d.operations@ == before.operations@.update(oi as int, d.operations@[oi as int]));
        assert(d.runs@ == before.runs@.update(ri as int, d.runs@[ri as int]));
        assert(d.has_operation(operation_id));
        assert(d.operation_index(operation_id) == oi);
        assert(d.has_run(run_id));
        assert(d.run_index(run_id) == ri);
        assert(d.operations@[oi as int].approval->0.decisions@.drop_last() =~= before.operations@[oi as int].approval->0.decisions@);
    }
    let workspace = d.runs[ri].meta.workspace_id.clone();
    let payload = if approved { text("{\"approved\":true}") } else { text("{\"approved\":false}") };
    d.event(run_id, &workspace, Some(operation_id), EventType::ApprovalDecided, Some(approver.id.clone()), payload);
    d.event(run_id, &workspace, None, EventType::RunResumed, None, text("{}"));
    Ok(())
}

} // verus!

verus! {

/// JSON text of `(question_id, value)`.
pub open spec fn answer_json(question_id: u64, value: Seq<char>) -> Seq<char> {
    "["@ + crate::primitives::decimal(question_id as nat) + ","@ + value + "]"@
}

impl Data {
    pub open spec fn has_input(&self, run: u128, key: Seq<char>) -> bool {
        exists|i: int| 0 <= i < self.inputs@.len() && self.inputs@[i].run_id == run && self.inputs@[i].key@ == key
    }

    pub open spec fn input_index(&self, run: u128, key: Seq<char>) -> int {
        choose|i: int| 0 <= i < self.inputs@.len() && self.inputs@[i].run_id == run && self.inputs@[i].key@ == key
    }

    fn find_input(&self, run: u128, key: &str) -> (r: Option<usize>)
        requires
            self.wf(),
        ensures
            r is Some <==> self.has_input(run, key@),
            r matches Some(i) ==> i == self.input_index(run, key@) && i < self.inputs@.len(),
    {
        let mut i: usize = 0;
        while i < self.inputs.len()
            invariant
                self.wf(),
                i <= self.inputs@.len(),
                forall|k: int| 0 <= k < i ==> !(self.inputs@[k].run_id == run && self.inputs@[k].key@ == key@),
            decreases self.inputs@.len() - i,
        {
            if self.inputs[i].run_id == run && crate::text::str_equal(self.inputs[i].key.as_str(), key) {
                assert(self.has_input(run, key@));
                let ghost j = self.input_index(run, key@);
                assert(self.inputs@[i as int].key@ == key@);
                assert(j == i);
                return Some(i);
            }
            i = i + 1;
        }
        None
    }
}

/// The run waits for the answer to exactly this question.
pub open spec fn awaits_answer(run: Run, question_id: u64) -> bool {
    &&& run.status is Waiting
    &&& run.wait matches Some(WaitReason::UserInput { question_id: q, .. }) && q == question_id
}

/// Answer a run's question. The answer is bound to `key`: repeating the same
/// answer under the same key is accepted without effect; a different one is refused.
#[verifier::rlimit(50)]
pub fn provide_input(d: &mut Data, actor: &Actor, id: u128, question_id: u64, key: &str, value: &String) -> (r: Result<()>)
    requires
        old(d).wf(),
    ensures
        final(d).wf(),
        r is Err ==> *final(d) == *old(d),
        key@.len() == 0 || key.len() > 256 ==> r matches Err(Error::Invalid(_)),
        !(key@.len() == 0 || key.len() > 256) ==> {
            let digest = text_digest(answer_json(question_id, value@));
            if !old(d).owns(*actor, id) {
                r == Err::<(), Error>(Error::NotFound)
            } else if crate::text::utf8_len(value@) > old(d).run(id).limits.max_payload_bytes {
                r matches Err(Error::Invalid(_))
            } else if old(d).has_input(id, key@) {
                &&& (r is Ok <==> old(d).inputs@[old(d).input_index(id, key@)].digest@ == digest)
                &&& (r is Ok ==> *final(d) == *old(d))
                &&& (r is Err ==> r matches Err(Error::Conflict(_)))
            } else if !awaits_answer(old(d).run(id), question_id) {
                r matches Err(Error::Conflict(_))
            } else {
                let run = old(d).run(id);
                let run2 = final(d).run(id);
                &&& r is Ok
                &&& final(d).runs@ == old(d).runs@.update(old(d).run_index(id), run2)
                &&& run2 == (Run { next_input: run2.next_input, wait: None, status: RunStatus::Running,
                        revision: run.revision.wrapping_add(1), ..run })
                &&& run2.next_input matches Some(Input::User { value: v }) && v@ == value@
                &&& final(d).has_input(id, key@)
                &&& final(d).inputs@[final(d).input_index(id, key@)].digest@ == digest
                &&& final(d).operations == old(d).operations
            }
        },
{
    if key.is_empty() || key.len() > 256 {
        return Err(invalid("input key length"));
    }
    let mut answer = text("[");
    crate::json::put_decimal(&mut answer, question_id);
    put(&mut answer, ",");
    put(&mut answer, value.as_str());
    put(&mut answer, "]");
    let digest = digest_text(&answer);
    let i = d.owned_run(actor, id)?;
    if crate::text::byte_length(value) > d.runs[i].limits.max_payload_bytes {
        return Err(invalid("payload exceeds configured limit"));
    }
    if let Some(k) = d.find_input(id, key) {
        if d.inputs[k].digest == digest {
            return Ok(());
        } else {
            return Err(conflict("input key reused"));
        }
    }
    let waiting = match &d.runs[i].wait {
        Some(WaitReason::UserInput { question_id: q, .. }) => *q == question_id,
        _ => false,
    };
    if !waiting || d.runs[i].status != RunStatus::Waiting {
        return Err(conflict("run is not waiting for this question"));
    }
    let ghost before = *d;
    d.runs[i].next_input = Some(Input::User { value: value.clone() });
    d.runs[i].wait = None;
    d.runs[i].status = RunStatus::Running;
    d.runs[i].revision = d.runs[i].revision.wrapping_add(1);
    proof {
        lemma_update_run_wf(before, i as int, d.runs@[i as int]);
        assert(d.runs@ == before.runs@.update(i as int, d.runs@[i as int]));
        assert(d.has_run(id));
        assert(d.run_index(id) == i);
    }
    let ghost mid = d.inputs@;
    d.inputs.push(crate::store::InputReceipt { run_id: id, key: key.to_owned(), digest });
    proof {
        let last = mid.len() as int;
        assert(d.inputs@[last].key@ == key@);
        assert(d.has_input(id, key@));
        assert(d.input_index(id, key@) == last);
    }
    let workspace = d.runs[i].meta.workspace_id.clone();
    let mut payload = text("{\"input\":");
    put(&mut payload, value.as_str());
    put(&mut payload, ",\"question_id\":");
    crate::json::put_decimal(&mut payload, question_id);
    put(&mut payload, "}");
    d.event(id, &workspace, None, EventType::InputReceived, Some(actor.id.clone()), payload);
    Ok(())
}

} // verus!

verus! {

/// An operation of `run` that cancellation cannot settle: a pending operation
/// that may be executing, or the parent operation of a live child run.
pub open spec fn unresolved(d: Data, run: Run, op_id: u128) -> bool {
    ||| exists|k: int| 0 <= k < run.pending_operations@.len() && #[trigger] run.pending_operations@[k] == op_id
        && d.has_operation(op_id) && (d.operation(op_id).status is Running || d.operation(op_id).status is Unknown)
    ||| exists|c: int| 0 <= c < d.runs@.len() && !(#[trigger] d.runs@[c]).status.is_terminal()
        && d.runs@[c].parent_operation == Some(op_id) && d.has_operation(op_id)
        && d.operation(op_id).run_id == run.meta.id
}

/// The operation at `j` is a pending operation of `run` that has not started.
pub open spec fn cancellable(d: Data, run: Run, j: int) -> bool {
    &&& exists|k: int| 0 <= k < run.pending_operations@.len() && #[trigger] run.pending_operations@[k] == d.operations@[j].meta.id
    &&& (d.operations@[j].status is Pending || d.operations@[j].status is WaitingApproval)
}

fn cancel_unstarted(d: &mut Data, i: usize, idx: &Vec<usize>) -> (unresolved_op: Option<u128>)
    requires
        old(d).wf(),
        i < old(d).runs@.len(),
        located(*old(d), old(d).runs@[i as int], idx@),
    ensures
        final(d).wf(),
        final(d).runs == old(d).runs,
        final(d).logs == old(d).logs,
        final(d).agents == old(d).agents && final(d).tools == old(d).tools && final(d).policies == old(d).policies,
        final(d).submissions == old(d).submissions && final(d).inputs == old(d).inputs,
        final(d).model_budgets == old(d).model_budgets && final(d).schedule_requests == old(d).schedule_requests,
        final(d).team_tasks == old(d).team_tasks,
        final(d).operations@.len() == old(d).operations@.len(),
        forall|j: int| 0 <= j < old(d).operations@.len() ==> #[trigger] final(d).operations@[j] == if cancellable(*old(d), old(d).runs@[i as int], j) {
            Operation { status: OperationStatus::Cancelled, revision: old(d).operations@[j].revision.wrapping_add(1), ..old(d).operations@[j] }
        } else {
            old(d).operations@[j]
        },
        unresolved_op matches Some(o) ==> exists|k: int| 0 <= k < old(d).runs@[i as int].pending_operations@.len()
            && #[trigger] old(d).runs@[i as int].pending_operations@[k] == o && old(d).has_operation(o)
            && (old(d).operation(o).status is Running || old(d).operation(o).status is Unknown),
        unresolved_op is None ==> forall|k: int| 0 <= k < old(d).runs@[i as int].pending_operations@.len()
            ==> !(old(d).operation(#[trigger] old(d).runs@[i as int].pending_operations@[k]).status is Running
                || old(d).operation(old(d).runs@[i as int].pending_operations@[k]).status is Unknown),
{
    let ghost run = d.runs@[i as int];
    let ghost start = *d;
    let mut found: Option<u128> = None;
    let mut k: usize = 0;
    while k < idx.len()
        invariant
            d.wf(),
            i < d.runs@.len(),
            d.runs == start.runs,
            d.logs == start.logs,
            d.agents == start.agents && d.tools == start.tools && d.policies == start.policies,
            d.submissions == start.submissions && d.inputs == start.inputs,
            d.model_budgets == start.model_budgets && d.schedule_requests == start.schedule_requests,
            d.team_tasks == start.team_tasks,
            start.wf(),
            run == start.runs@[i as int],
            located(start, run, idx@),
            k <= idx@.len(),
            d.operations@.len() == start.operations@.len(),
            forall|j: int| 0 <= j < start.operations@.len() ==> d.operations@[j].meta == start.operations@[j].meta,
            forall|j: int| 0 <= j < start.operations@.len() ==> #[trigger] d.operations@[j] == if cancellable(start, run, j)
                && exists|m: int| 0 <= m < k && idx@[m] == j {
                Operation { status: OperationStatus::Cancelled, revision: start.operations@[j].revision.wrapping_add(1), ..start.operations@[j] }
            } else {
                start.operations@[j]
            },
            found matches Some(o) ==> exists|m: int| 0 <= m < k && #[trigger] run.pending_operations@[m] == o && start.has_operation(o)
                && (start.operation(o).status is Running || start.operation(o).status is Unknown),
            found is None ==> forall|m: int| 0 <= m < k
                ==> !(start.operation(#[trigger] run.pending_operations@[m]).status is Running
                    || start.operation(run.pending_operations@[m]).status is Unknown),
        decreases idx@.len() - k,
    {
        let j = idx[k];
        proof {
            assert(start.operations@[j as int] == start.operation(run.pending_operations@[k as int]));
        }
        let already = exists_before(idx, k, j);
        let s = d.operations[j].status;
        let ghost dk = *d;
        if !already && (s == OperationStatus::Pending || s == OperationStatus::WaitingApproval) {
            let ghost ops = d.operations@;
            d.operations[j].status = OperationStatus::Cancelled;
            d.operations[j].revision = d.operations[j].revision.wrapping_add(1);
            proof {
                assert(d.operations@ == ops.update(j as int, d.operations@[j as int]));
                assert(crate::store::operation_ids_unique(d.operations@)) by {
                    assert(forall|x: int| 0 <= x < d.operations@.len() ==> d.operations@[x].meta.id == start.operations@[x].meta.id);
                }
                assert(cancellable(start, run, j as int)) by {
                    assert(run.pending_operations@[k as int] == start.operations@[j as int].meta.id);
                }
            }
        }
        if s == OperationStatus::Running || s == OperationStatus::Unknown {
            found = Some(d.operations[j].meta.id);
        }
        proof {
            assert forall|x: int| 0 <= x < start.operations@.len() implies #[trigger] d.operations@[x] == if cancellable(start, run, x)
                && exists|m: int| 0 <= m < k + 1 && idx@[m] == x {
                Operation { status: OperationStatus::Cancelled, revision: start.operations@[x].revision.wrapping_add(1), ..start.operations@[x] }
            } else {
                start.operations@[x]
            } by {
                if x == j {
                    assert(idx@[k as int] == x);
                    if already {
                        let m = choose|m: int| 0 <= m < k && idx@[m] == j;
                        assert(exists|m: int| 0 <= m < k && idx@[m] == x);
                    } else {
                        assert(!exists|m: int| 0 <= m < k && idx@[m] == x);
                        assert(start.operations@[x].status == s);
                    }
                } else {
                    if exists|m: int| 0 <= m < k + 1 && idx@[m] == x {
                        let m = choose|m: int| 0 <= m < k + 1 && idx@[m] == x;
                        assert(m != k);
                        assert(exists|m: int| 0 <= m < k && idx@[m] == x);
                    }
                }
            }
        }
        k = k + 1;
    }
    proof {
        assert forall|j: int| 0 <= j < start.operations@.len() implies #[trigger] d.operations@[j] == if cancellable(start, run, j) {
            Operation { status: OperationStatus::Cancelled, revision: start.operations@[j].revision.wrapping_add(1), ..start.operations@[j] }
        } else {
            start.operations@[j]
        } by {
            if cancellable(start, run, j) {
                let m = choose|m: int| 0 <= m < run.pending_operations@.len() && #[trigger] run.pending_operations@[m] == start.operations@[j].meta.id;
                assert(idx@[m] == start.operation_index(run.pending_operations@[m]));
                assert(start.operations@[j].meta.id == run.pending_operations@[m]);
                assert(idx@[m] == j);
            }
        }
    }
    found
}

fn exists_before(idx: &Vec<usize>, k: usize, j: usize) -> (r: bool)
    requires
        k <= idx@.len(),
    ensures
        r == exists|m: int| 0 <= m < k && idx@[m] == j,
{
    let mut m: usize = 0;
    while m < k
        invariant
            k <= idx@.len(),
            m <= k,
            forall|x: int| 0 <= x < m ==> idx@[x] != j,
        decreases k - m,
    {
        if idx[m] == j {
            return true;
        }
        m = m + 1;
    }
    false
}

} // verus!

verus! {

/// The parent operation of some live child of `run_id`, if there is one.
fn live_child_operation(d: &Data, run_id: u128) -> (r: Option<u128>)
    requires
        d.wf(),
    ensures
        r matches Some(o) ==> exists|c: int| 0 <= c < d.runs@.len() && !(#[trigger] d.runs@[c]).status.is_terminal()
            && d.runs@[c].parent_operation == Some(o) && d.has_operation(o) && d.operation(o).run_id == run_id,
        r is None ==> forall|c: int| 0 <= c < d.runs@.len() ==> !(!(#[trigger] d.runs@[c]).status.is_terminal()
            && d.runs@[c].parent_operation is Some && d.has_operation(d.runs@[c].parent_operation->0)
            && d.operation(d.runs@[c].parent_operation->0).run_id == run_id),
{
    let mut c: usize = 0;
    while c < d.runs.len()
        invariant
            d.wf(),
            c <= d.runs@.len(),
            forall|x: int| 0 <= x < c ==> !(!(#[trigger] d.runs@[x]).status.is_terminal()
                && d.runs@[x].parent_operation is Some && d.has_operation(d.runs@[x].parent_operation->0)
                && d.operation(d.runs@[x].parent_operation->0).run_id == run_id),
        decreases d.runs@.len() - c,
    {
        if !d.runs[c].status.terminal() {
            if let Some(op) = d.runs[c].parent_operation {
                if let Some(j) = d.find_operation(op) {
                    if d.operations[j].run_id == run_id {
                        assert(!(d.runs@[c as int]).status.is_terminal());
                        return Some(op);
                    }
                }
            }
        }
        c = c + 1;
    }
    None
}

/// Settle a cancelling run: unstarted operations are cancelled; the run is
/// cancelled, or waits for reconciliation while an operation may still be
/// executing or a child run is still live.
#[verifier::rlimit(50)]
pub fn finish_cancellation(d: &mut Data, actor: &Actor, id: u128) -> (r: Result<()>)
    requires
        old(d).wf(),
    ensures
        final(d).wf(),
        r is Err ==> *final(d) == *old(d),
        !old(d).owns(*actor, id) ==> r == Err::<(), Error>(Error::NotFound),
        old(d).owns(*actor, id) ==> cancellation_finished(*old(d), *final(d), *actor, id, r),
        final(d).submissions == old(d).submissions,
{
    let i = d.owned_run(actor, id)?;
    if d.runs[i].status != RunStatus::Cancelling {
        return Ok(());
    }
    let ghost run = d.runs@[i as int];
    let idx = match pending_indices(d, i) {
        None => return Err(Error::NotFound),
        Some(idx) => idx,
    };
    let ghost start = *d;
    let pending_unresolved = cancel_unstarted(d, i, &idx);
    let child_unresolved = live_child_operation(d, id);
    proof {
        // Child runs and operations' run identities are untouched by cancelling operations.
        assert forall|o: u128| start.has_operation(o) implies d.has_operation(o) && d.operation(o).run_id == start.operation(o).run_id
            && d.operation_index(o) == start.operation_index(o) by {
            let j = start.operation_index(o);
            assert(d.operations@[j].meta == start.operations@[j].meta);
            assert(d.has_operation(o));
            assert(d.operation_index(o) == j);
        }
        assert forall|o: u128| d.has_operation(o) implies start.has_operation(o) by {
            let j = d.operation_index(o);
            assert(d.operations@[j].meta == start.operations@[j].meta);
        }
    }
    let unresolved_op = match child_unresolved {
        Some(o) => Some(o),
        None => pending_unresolved,
    };
    let ghost mid = *d;
    d.runs[i].revision = d.runs[i].revision.wrapping_add(1);
    match unresolved_op {
        Some(o) => {
            d.runs[i].wait = Some(WaitReason::Reconciliation { operation_id: o });
            proof {
                lemma_update_run_wf(mid, i as int, d.runs@[i as int]);
                assert(d.runs@ == start.runs@.update(i as int, d.runs@[i as int]));
                assert(unresolved(start, run, o));
            }
        },
        None => {
            d.runs[i].status = RunStatus::Cancelled;
            d.runs[i].wait = None;
            proof {
                lemma_update_run_wf(mid, i as int, d.runs@[i as int]);
                assert(d.runs@ == start.runs@.update(i as int, d.runs@[i as int]));
                assert(!(exists|o: u128| unresolved(start, run, o))) by {
                    if exists|o: u128| unresolved(start, run, o) {
                        let o = choose|o: u128| unresolved(start, run, o);
                        if exists|c: int| 0 <= c < start.runs@.len() && !(#[trigger] start.runs@[c]).status.is_terminal()
                            && start.runs@[c].parent_operation == Some(o) && start.has_operation(o)
                            && start.operation(o).run_id == run.meta.id {
                            let c = choose|c: int| 0 <= c < start.runs@.len() && !(#[trigger] start.runs@[c]).status.is_terminal()
                                && start.runs@[c].parent_operation == Some(o) && start.has_operation(o)
                                && start.operation(o).run_id == run.meta.id;
                            assert(mid.runs@[c] == start.runs@[c]);
                        } else {
                            let k = choose|k: int| 0 <= k < run.pending_operations@.len() && #[trigger] run.pending_operations@[k] == o
                                && start.has_operation(o) && (start.operation(o).status is Running || start.operation(o).status is Unknown);
                            assert(!(start.operation(run.pending_operations@[k]).status is Running
                                || start.operation(run.pending_operations@[k]).status is Unknown));
                        }
                    }
                }
            }
            let workspace = d.runs[i].meta.workspace_id.clone();
            let ghost before_event = *d;
            d.event(id, &workspace, None, EventType::RunFinished, None, text("{\"status\":\"cancelled\"}"));
            proof {
                before_event.lemma_same_logs(&start);
                assert(d.runs@ == before_event.runs@);
                if before_event.events_of(id).len() + 1 < u64::MAX {
                    assert(d.event_types(id) =~= before_event.event_types(id).push(EventType::RunFinished));
                }
            }
        },
    }
    Ok(())
}

} // verus!

verus! {

pub open spec fn count_true(s: Seq<bool>) -> nat
    decreases s.len(),
{
    if s.len() == 0 {
        0
    } else {
        count_true(s.drop_last()) + if s.last() { 1nat } else { 0nat }
    }
}

pub(crate) proof fn lemma_count_true_bound(s: Seq<bool>)
    ensures
        count_true(s) <= s.len(),
    decreases s.len(),
{
    if s.len() > 0 {
        lemma_count_true_bound(s.drop_last());
    }
}

pub(crate) proof fn lemma_count_true_none(s: Seq<bool>)
    requires
        forall|x: int| 0 <= x < s.len() ==> !s[x],
    ensures
        count_true(s) == 0,
    decreases s.len(),
{
    if s.len() > 0 {
        lemma_count_true_none(s.drop_last());
    }
}

pub(crate) proof fn lemma_count_true_set(s: Seq<bool>, j: int)
    requires
        0 <= j < s.len(),
        !s[j],
    ensures
        count_true(s.update(j, true)) == count_true(s) + 1,
    decreases s.len(),
{
    if j == s.len() - 1 {
        assert(s.update(j, true).drop_last() =~= s.drop_last());
    } else {
        lemma_count_true_set(s.drop_last(), j);
        assert(s.update(j, true).drop_last() =~= s.drop_last().update(j, true));
    }
}

/// The run at index `c` is a child of a run whose identity is in `tree`.
pub open spec fn child_of_tree(d: Data, c: int, tree: Seq<u128>) -> bool {
    &&& d.runs@[c].parent_operation is Some
    &&& d.has_operation(d.runs@[c].parent_operation->0)
    &&& tree.contains(d.operation(d.runs@[c].parent_operation->0).run_id)
}

/// The run identities reachable from `id` through parent links, root first,
/// each after its parent; every run in it is owned by `actor`.
pub open spec fn run_tree(d: Data, actor: Actor, id: u128, tree: Seq<u128>) -> bool {
    &&& tree.len() > 0 && tree[0] == id
    &&& tree.no_duplicates()
    &&& forall|k: int| 0 <= k < tree.len() ==> d.owns(actor, #[trigger] tree[k])
    &&& forall|c: int| 0 <= c < d.runs@.len() && child_of_tree(d, c, tree) ==> tree.contains(#[trigger] d.runs@[c].meta.id)
}

/// The run after a cancellation request: stopping runs are left alone.
pub open spec fn cancel_requested(run: Run) -> Run {
    if run.status.is_stopped() {
        run
    } else {
        Run { status: RunStatus::Cancelling, next_input: None, revision: run.revision.wrapping_add(1), ..run }
    }
}

fn mark_index(d: &Data, id: u128, marked: &Vec<bool>) -> (r: Option<usize>)
    requires
        d.wf(),
        marked@.len() == d.runs@.len(),
    ensures
        r matches Some(c) ==> c < d.runs@.len() && d.runs@[c as int].meta.id == id,
        r is None ==> !d.has_run(id),
{
    d.find_run(id)
}

/// Every run started by an operation of a run of `actor` is `actor`'s too:
/// what linking children keeps.
pub open spec fn children_owned(d: Data, actor: Actor) -> bool {
    forall|x: int| #![trigger d.runs@[x]] 0 <= x < d.runs@.len() && (d.runs@[x].parent_operation matches Some(o)
        && d.has_operation(o) && d.owns(actor, d.operation(o).run_id)) ==> d.owns(actor, d.runs@[x].meta.id)
}

/// Request cancellation of a run and of all its descendants. Returns the run
/// tree, root first; the host then settles each run (see `finish_cancellation`),
/// descendants before their parents.
#[verifier::rlimit(80)]
pub fn cancel(d: &mut Data, actor: &Actor, id: u128) -> (r: Result<Vec<u128>>)
    requires
        old(d).wf(),
    ensures
        final(d).wf(),
        r is Err ==> *final(d) == *old(d),
        !old(d).owns(*actor, id) ==> r == Err::<Vec<u128>, Error>(Error::NotFound),
        old(d).owns(*actor, id) && children_owned(*old(d), *actor) ==> r is Ok,
        r is Err ==> r == Err::<Vec<u128>, Error>(Error::NotFound),
        r matches Ok(tree) ==> {
            &&& run_tree(*old(d), *actor, id, tree@)
            &&& final(d).runs@.len() == old(d).runs@.len()
            &&& forall|c: int| 0 <= c < old(d).runs@.len() ==> #[trigger] final(d).runs@[c] == if tree@.contains(old(d).runs@[c].meta.id) {
                cancel_requested(old(d).runs@[c])
            } else {
                old(d).runs@[c]
            }
            &&& final(d).operations == old(d).operations
        },
        final(d).submissions == old(d).submissions,
{
    let root = d.owned_run(actor, id)?;
    let n = d.runs.len();
    let mut marked: Vec<bool> = Vec::new();
    let mut c: usize = 0;
    while c < n
        invariant
            n == d.runs@.len(),
            c <= n,
            marked@.len() == c,
            forall|x: int| 0 <= x < c ==> !marked@[x],
        decreases n - c,
    {
        marked.push(false);
        c = c + 1;
    }
    let mut tree: Vec<u128> = Vec::new();
    proof {
        lemma_count_true_none(marked@);
        lemma_count_true_set(marked@, root as int);
    }
    marked.set(root, true);
    tree.push(id);
    proof {
        assert forall|x: int| 0 <= x < n implies (marked@[x] <==> tree@.contains(#[trigger] d.runs@[x].meta.id)) by {
            assert(tree@[0] == id);
            if x != root {
                assert(d.runs@[x].meta.id != id);
                assert(tree@ =~= seq![id]);
            }
        }
    }
    loop
        invariant
            d.wf(),
            *d == *old(d),
            old(d).owns(*actor, id),
            n == d.runs@.len(),
            marked@.len() == n,
            tree@.len() == count_true(marked@),
            tree@.len() > 0 && tree@[0] == id,
            tree@.no_duplicates(),
            forall|x: int| 0 <= x < n ==> (marked@[x] <==> tree@.contains(#[trigger] d.runs@[x].meta.id)),
            forall|k: int| 0 <= k < tree@.len() ==> d.owns(*actor, #[trigger] tree@[k]),
            tree@.len() <= n,
        ensures
            forall|x: int| 0 <= x < n && child_of_tree(*d, x, tree@) ==> tree@.contains(#[trigger] d.runs@[x].meta.id),
        decreases n - tree@.len(),
    {
        proof { lemma_count_true_bound(marked@); }
        let mut changed = false;
        let ghost start_len = tree@.len();
        let mut c: usize = 0;
        while c < n
            invariant
                d.wf(),
                *d == *old(d),
                n == d.runs@.len(),
                c <= n,
                marked@.len() == n,
                tree@.len() == count_true(marked@),
                tree@.len() > 0 && tree@[0] == id,
                tree@.no_duplicates(),
                tree@.len() >= start_len,
                changed ==> tree@.len() > start_len,
                !changed ==> tree@.len() == start_len,
                forall|x: int| 0 <= x < n ==> (marked@[x] <==> tree@.contains(#[trigger] d.runs@[x].meta.id)),
                forall|k: int| 0 <= k < tree@.len() ==> d.owns(*actor, #[trigger] tree@[k]),
                !changed ==> forall|x: int| 0 <= x < c ==> !marked@[x] ==> !child_of_tree(*d, x, tree@),
            decreases n - c,
        {
            if !marked[c] {
                if let Some(op) = d.runs[c].parent_operation {
                    if let Some(j) = d.find_operation(op) {
                        let parent = d.operations[j].run_id;
                        match mark_index(d, parent, &marked) {
                            Some(p) => {
                                if marked[p] {
                                    // A child of the tree: it must belong to the same owner.
                                    let child = d.runs[c].meta.id;
                                    if !(d.runs[c].meta.workspace_id == actor.workspace_id && d.runs[c].actor_id == actor.id) {
                                        proof {
                                            assert(d.run_index(child) == c);
                                            assert(tree@.contains(d.runs@[p as int].meta.id));
                                            let k = choose|k: int| 0 <= k < tree@.len() && #[trigger] tree@[k] == d.runs@[p as int].meta.id;
                                            assert(d.owns(*actor, tree@[k]));
                                            assert(d.operation(op) == d.operations@[j as int]);
                                            assert(!d.owns(*actor, d.runs@[c as int].meta.id));
                                            assert(!children_owned(*old(d), *actor));
                                        }
                                        return Err(Error::NotFound);
                                    }
                                    proof {
                                        assert(d.run_index(child) == c);
                                        assert(!tree@.contains(child));
                                        lemma_count_true_set(marked@, c as int);
                                        lemma_count_true_bound(marked@.update(c as int, true));
                                    }
                                    let ghost old_tree = tree@;
                                    marked.set(c, true);
                                    tree.push(child);
                                    changed = true;
                                    proof {
                                        assert forall|x: int| 0 <= x < n implies (marked@[x] <==> tree@.contains(#[trigger] d.runs@[x].meta.id)) by {
                                            if x == c {
                                                assert(tree@[tree@.len() - 1] == child);
                                            } else {
                                                assert(d.runs@[x].meta.id != child);
                                                if old_tree.contains(d.runs@[x].meta.id) {
                                                    let k = choose|k: int| 0 <= k < old_tree.len() && #[trigger] old_tree[k] == d.runs@[x].meta.id;
                                                    assert(tree@[k] == old_tree[k]);
                                                }
                                                if tree@.contains(d.runs@[x].meta.id) {
                                                    let k = choose|k: int| 0 <= k < tree@.len() && #[trigger] tree@[k] == d.runs@[x].meta.id;
                                                    assert(k < old_tree.len());
                                                    assert(old_tree[k] == tree@[k]);
                                                }
                                            }
                                        }
                                        assert forall|k: int| 0 <= k < tree@.len() implies d.owns(*actor, #[trigger] tree@[k]) by {
                                            if k < old_tree.len() {
                                                assert(tree@[k] == old_tree[k]);
                                            }
                                        }
                                        assert(tree@.no_duplicates()) by {
                                            assert forall|a: int, b: int| 0 <= a < tree@.len() && 0 <= b < tree@.len() && a != b implies tree@[a] != tree@[b] by {
                                                if a < old_tree.len() && b < old_tree.len() {
                                                } else if a == old_tree.len() {
                                                    assert(old_tree[b] == tree@[b]);
                                                } else {
                                                    assert(old_tree[a] == tree@[a]);
                                                }
                                            }
                                        }
                                    }
                                } else {
                                    proof {
                                        assert(!tree@.contains(parent)) by {
                                            assert(d.runs@[p as int].meta.id == parent);
                                        }
                                    }
                                }
                            },
                            None => {
                                proof {
                                    assert(!tree@.contains(parent)) by {
                                        if tree@.contains(parent) {
                                            let k = choose|k: int| 0 <= k < tree@.len() && #[trigger] tree@[k] == parent;
                                            assert(d.owns(*actor, tree@[k]));
                                        }
                                    }
                                }
                            },
                        }
                    }
                }
            }
            c = c + 1;
        }
        proof { lemma_count_true_bound(marked@); }
        if !changed {
            proof {
                assert forall|x: int| 0 <= x < n && child_of_tree(*d, x, tree@) implies tree@.contains(#[trigger] d.runs@[x].meta.id) by {
                    if !marked@[x] {
                        assert(!child_of_tree(*d, x, tree@));
                    }
                }
            }
            break;
        }
    }
    // Mark every live run of the tree as cancelling, in tree order.
    let ghost start = *d;
    let mut k: usize = 0;
    while k < tree.len()
        invariant
            d.wf(),
            start == *old(d),
            run_tree(start, *actor, id, tree@),
            k <= tree@.len(),
            d.runs@.len() == start.runs@.len(),
            d.operations == start.operations,
            d.agents == start.agents && d.tools == start.tools && d.policies == start.policies,
            d.submissions == start.submissions && d.inputs == start.inputs,
            d.model_budgets == start.model_budgets && d.schedule_requests == start.schedule_requests,
            d.team_tasks == start.team_tasks,
            forall|c: int| 0 <= c < start.runs@.len() ==> #[trigger] d.runs@[c] == if tree@.take(k as int).contains(start.runs@[c].meta.id) {
                cancel_requested(start.runs@[c])
            } else {
                start.runs@[c]
            },
        decreases tree@.len() - k,
    {
        let rid = tree[k];
        let ghost before = *d;
        proof {
            assert(start.owns(*actor, tree@[k as int]));
            assert(forall|c: int| 0 <= c < start.runs@.len() ==> d.runs@[c].meta.id == start.runs@[c].meta.id);
        }
        let c = match d.find_run(rid) {
            Some(c) => c,
            None => {
                proof {
                    let c0 = start.run_index(rid);
                    assert(d.runs@[c0].meta.id == rid);
                }
                return Err(Error::NotFound);
            },
        };
        proof {
            assert(!tree@.take(k as int).contains(rid)) by {
                if tree@.take(k as int).contains(rid) {
                    let m = choose|m: int| 0 <= m < k && #[trigger] tree@.take(k as int)[m] == rid;
                    assert(tree@[m] == tree@[k as int]);
                }
            }
            assert(d.runs@[c as int] == start.runs@[c as int]);
        }
        if !(d.runs[c].status.terminal() || d.runs[c].status == RunStatus::Cancelling) {
            d.runs[c].status = RunStatus::Cancelling;
            d.runs[c].next_input = None;
            d.runs[c].revision = d.runs[c].revision.wrapping_add(1);
            proof {
                lemma_update_run_wf(before, c as int, d.runs@[c as int]);
                assert(d.runs@ == before.runs@.update(c as int, d.runs@[c as int]));
            }
            let workspace = d.runs[c].meta.workspace_id.clone();
            let mut payload = text("{\"root_run\":");
            let root_text = crate::primitives::uuid_quote(id);
            put(&mut payload, root_text.as_str());
            put(&mut payload, "}");
            d.event(rid, &workspace, None, EventType::CancellationRequested, Some(actor.id.clone()), payload);
        }
        proof {
            assert forall|x: int| 0 <= x < start.runs@.len() implies #[trigger] d.runs@[x] == if tree@.take(k as int + 1).contains(start.runs@[x].meta.id) {
                cancel_requested(start.runs@[x])
            } else {
                start.runs@[x]
            } by {
                if x == c {
                    assert(tree@.take(k as int + 1)[k as int] == rid);
                } else {
                    assert(start.runs@[x].meta.id != rid);
                    if tree@.take(k as int + 1).contains(start.runs@[x].meta.id) {
                        let m = choose|m: int| 0 <= m < k + 1 && #[trigger] tree@.take(k as int + 1)[m] == start.runs@[x].meta.id;
                        assert(m != k);
                        assert(tree@.take(k as int)[m] == start.runs@[x].meta.id);
                    }
                    if tree@.take(k as int).contains(start.runs@[x].meta.id) {
                        let m = choose|m: int| 0 <= m < k && #[trigger] tree@.take(k as int)[m] == start.runs@[x].meta.id;
                        assert(tree@.take(k as int + 1)[m] == start.runs@[x].meta.id);
                    }
                }
            }
        }
        k = k + 1;
    }
    proof {
        assert(tree@.take(tree@.len() as int) =~= tree@);
    }
    Ok(tree)
}

} // verus!
