//! Read-only views of runs, operations and events, scoped by ownership.
use vstd::prelude::*;
use crate::error::{conflict, text, Error, Result};
use crate::models::{Actor, Assessment, Evidence, Goal, OperationStatus, RunStatus, TokenUsage, Usage, VersionRef, WaitReason};
use crate::store::{Approval, ApprovalDecision, Data, Event, ModelBudgetBinding, Operation, OperationRequest, Run};

verus! {

/// What a caller may see of a run: no checkpoint, credentials, raw requests
/// or worker internals.
pub struct RunView {
    pub agent_ref: VersionRef,
    pub parent_operation: Option<u128>,
    pub goal: Option<Goal>,
    pub id: u128,
    pub status: RunStatus,
    pub wait: Option<WaitReason>,
    pub reason: Option<String>,
    pub result: Option<String>,
    pub usage: Usage,
    pub assessment: Option<Assessment>,
}

/// Both absent, or both present with the same verdict, feedback and evidence.
pub open spec fn same_assessment(a: Option<Assessment>, b: Option<Assessment>) -> bool {
    match (a, b) {
        (None, None) => true,
        (Some(x), Some(y)) => x.passed == y.passed && x.feedback == y.feedback && x.evidence@ == y.evidence@,
        _ => false,
    }
}

/// `v` shows `run`.
pub open spec fn shows_run(v: RunView, run: Run) -> bool {
    &&& v.agent_ref == run.agent_ref
    &&& v.parent_operation == run.parent_operation
    &&& v.goal == run.goal
    &&& v.id == run.meta.id
    &&& v.status == run.status
    &&& v.wait == run.wait
    &&& v.reason == run.reason
    &&& v.result == run.result
    &&& v.usage == run.usage
    &&& same_assessment(v.assessment, run.assessment)
}

fn copy_text(s: &Option<String>) -> (r: Option<String>)
    ensures
        r == *s,
{
    match s {
        None => None,
        Some(x) => Some(x.clone()),
    }
}

fn copy_version_ref(r: &VersionRef) -> (c: VersionRef)
    ensures
        c == *r,
{
    VersionRef { id: r.id.clone(), version: r.version }
}

fn copy_goal(g: &Option<Goal>) -> (r: Option<Goal>)
    ensures
        r == *g,
{
    match g {
        None => None,
        Some(x) => Some(Goal { objective: x.objective.clone(), success_schema: x.success_schema.clone(), criteria: x.criteria.clone() }),
    }
}

fn copy_wait(w: &Option<WaitReason>) -> (r: Option<WaitReason>)
    ensures
        r == *w,
{
    match w {
        None => None,
        Some(WaitReason::Approval { operation_id }) => Some(WaitReason::Approval { operation_id: *operation_id }),
        Some(WaitReason::Reconciliation { operation_id }) => Some(WaitReason::Reconciliation { operation_id: *operation_id }),
        Some(WaitReason::UserInput { prompt, question_id }) => Some(WaitReason::UserInput { prompt: prompt.clone(), question_id: *question_id }),
    }
}

fn copy_usage(u: &Usage) -> (r: Usage)
    ensures
        r == *u,
{
    Usage {
        model_calls: u.model_calls,
        tool_calls: u.tool_calls,
        operations: u.operations,
        reported_model_calls: u.reported_model_calls,
        reported_input_tokens: u.reported_input_tokens,
        reported_output_tokens: u.reported_output_tokens,
    }
}

fn copy_evidence(v: &Vec<Evidence>) -> (r: Vec<Evidence>)
    ensures
        r@ == v@,
{
    let mut r: Vec<Evidence> = Vec::new();
    let mut i: usize = 0;
    while i < v.len()
        invariant
            i <= v@.len(),
            r@ == v@.subrange(0, i as int),
        decreases v@.len() - i,
    {
        let e = &v[i];
        r.push(Evidence {
            operation_id: e.operation_id,
            tool_name: e.tool_name.clone(),
            request_digest: e.request_digest.clone(),
            result_digest: e.result_digest.clone(),
        });
        i = i + 1;
        proof {
            assert(r@ =~= v@.subrange(0, i as int));
        }
    }
    proof {
        assert(r@ =~= v@);
    }
    r
}

fn copy_assessment(a: &Option<Assessment>) -> (r: Option<Assessment>)
    ensures
        same_assessment(r, *a),
{
    match a {
        None => None,
        Some(x) => Some(Assessment { passed: x.passed, feedback: x.feedback.clone(), evidence: copy_evidence(&x.evidence) }),
    }
}

/// The view of a run.
pub fn view_of_run(run: &Run) -> (v: RunView)
    ensures
        shows_run(v, *run),
{
    RunView {
        agent_ref: copy_version_ref(&run.agent_ref),
        parent_operation: run.parent_operation,
        goal: copy_goal(&run.goal),
        id: run.meta.id,
        status: run.status,
        wait: copy_wait(&run.wait),
        reason: copy_text(&run.reason),
        result: copy_text(&run.result),
        usage: copy_usage(&run.usage),
        assessment: copy_assessment(&run.assessment),
    }
}

/// The view of a run owned by `actor`; any other run is not found.
pub fn inspect(d: &Data, actor: &Actor, id: u128) -> (r: Result<RunView>)
    requires
        d.wf(),
    ensures
        r is Ok <==> d.owns(*actor, id),
        r is Err ==> r == Err::<RunView, Error>(Error::NotFound),
        r matches Ok(v) ==> shows_run(v, d.run(id)),
{
    let i = d.owned_run(actor, id)?;
    Ok(view_of_run(&d.runs[i]))
}

/// What a caller may see of an operation: its kind, the tool call it makes,
/// its status and approval, and the usage its last attempt reported.
pub struct OperationView {
    pub token_usage: Option<TokenUsage>,
    pub id: u128,
    pub run_id: u128,
    pub kind: String,
    pub status: OperationStatus,
    pub tool_name: Option<String>,
    pub arguments: Option<String>,
    pub request_digest: String,
    pub approval: Option<Approval>,
}

/// The kind of an operation's request: "model", "tool" or "verify".
pub open spec fn kind_name(r: OperationRequest) -> Seq<char> {
    match r {
        OperationRequest::Model { .. } => "model"@,
        OperationRequest::Tool { .. } => "tool"@,
        OperationRequest::Verify { .. } => "verify"@,
    }
}

/// Both absent, or both present with the same digest and decisions.
pub open spec fn same_approval(a: Option<Approval>, b: Option<Approval>) -> bool {
    match (a, b) {
        (None, None) => true,
        (Some(x), Some(y)) => x.request_digest == y.request_digest && x.decisions@ == y.decisions@,
        _ => false,
    }
}

/// `v` shows `op`.
pub open spec fn shows_operation(v: OperationView, op: Operation) -> bool {
    &&& v.token_usage == (if op.attempts@.len() == 0 { None } else { op.attempts@.last().token_usage })
    &&& v.id == op.meta.id
    &&& v.run_id == op.run_id
    &&& v.kind@ == kind_name(op.request)
    &&& v.status == op.status
    &&& v.tool_name == (match op.request { OperationRequest::Tool { call, .. } => Some(call.name), _ => None })
    &&& v.arguments == (match op.request { OperationRequest::Tool { call, .. } => Some(call.arguments), _ => None })
    &&& v.request_digest == op.request_digest
    &&& same_approval(v.approval, op.approval)
}

fn copy_decisions(v: &Vec<ApprovalDecision>) -> (r: Vec<ApprovalDecision>)
    ensures
        r@ == v@,
{
    let mut r: Vec<ApprovalDecision> = Vec::new();
    let mut i: usize = 0;
    while i < v.len()
        invariant
            i <= v@.len(),
            r@ == v@.subrange(0, i as int),
        decreases v@.len() - i,
    {
        let e = &v[i];
        r.push(ApprovalDecision {
            actor_id: e.actor_id.clone(),
            request_digest: e.request_digest.clone(),
            approved: e.approved,
            decided_at: e.decided_at,
            expires_at: e.expires_at,
        });
        i = i + 1;
        proof {
            assert(r@ =~= v@.subrange(0, i as int));
        }
    }
    proof {
        assert(r@ =~= v@);
    }
    r
}

/// The view of an operation.
pub fn view_of_operation(op: &Operation) -> (v: OperationView)
    ensures
        shows_operation(v, *op),
{
    let (kind, tool_name, arguments) = match &op.request {
        OperationRequest::Model { .. } => (text("model"), None, None),
        OperationRequest::Verify { .. } => (text("verify"), None, None),
        OperationRequest::Tool { call, .. } => (text("tool"), Some(call.name.clone()), Some(call.arguments.clone())),
    };
    let n = op.attempts.len();
    let token_usage = if n == 0 {
        None
    } else {
        match &op.attempts[n - 1].token_usage {
            None => None,
            Some(t) => Some(TokenUsage { input_tokens: t.input_tokens, output_tokens: t.output_tokens }),
        }
    };
    let approval = match &op.approval {
        None => None,
        Some(a) => Some(Approval { request_digest: a.request_digest.clone(), decisions: copy_decisions(&a.decisions) }),
    };
    OperationView {
        token_usage,
        id: op.meta.id,
        run_id: op.run_id,
        kind,
        status: op.status,
        tool_name,
        arguments,
        request_digest: op.request_digest.clone(),
        approval,
    }
}

/// The operation exists and its run belongs to `actor`.
pub open spec fn owns_operation(d: Data, actor: Actor, id: u128) -> bool {
    d.has_operation(id) && d.owns(actor, d.operation(id).run_id)
}

/// The view of an operation whose run `actor` owns; any other is not found.
pub fn inspect_operation(d: &Data, actor: &Actor, id: u128) -> (r: Result<OperationView>)
    requires
        d.wf(),
    ensures
        r is Ok <==> owns_operation(*d, *actor, id),
        r is Err ==> r == Err::<OperationView, Error>(Error::NotFound),
        r matches Ok(v) ==> shows_operation(v, d.operation(id)),
{
    let oi = match d.find_operation(id) {
        None => return Err(Error::NotFound),
        Some(oi) => oi,
    };
    d.owned_run(actor, d.operations[oi].run_id)?;
    Ok(view_of_operation(&d.operations[oi]))
}

/// The run of an operation whose run `actor` owns; any other is not found.
pub fn operation_run(d: &Data, actor: &Actor, id: u128) -> (r: Result<u128>)
    requires
        d.wf(),
    ensures
        r is Ok <==> owns_operation(*d, *actor, id),
        r is Err ==> r == Err::<u128, Error>(Error::NotFound),
        r matches Ok(run) ==> run == d.operation(id).run_id,
{
    let oi = match d.find_operation(id) {
        None => return Err(Error::NotFound),
        Some(oi) => oi,
    };
    let run = d.operations[oi].run_id;
    d.owned_run(actor, run)?;
    Ok(run)
}

/// The events of a run owned by `actor` numbered after `after`, in order.
pub fn events<'a>(d: &'a Data, actor: &Actor, id: u128, after: u64) -> (r: Result<Vec<&'a Event>>)
    requires
        d.wf(),
    ensures
        r is Ok <==> d.owns(*actor, id),
        r is Err ==> r == Err::<Vec<&'a Event>, Error>(Error::NotFound),
        r matches Ok(v) ==> v@.len() == (if after < d.events_of(id).len() { d.events_of(id).len() - after } else { 0 }),
        r matches Ok(v) ==> forall|k: int| 0 <= k < v@.len() ==> *v@[k] == d.events_of(id)[after + k],
{
    d.owned_run(actor, id)?;
    let mut v: Vec<&'a Event> = Vec::new();
    let li = match d.find_log(id) {
        None => return Ok(v),
        Some(li) => li,
    };
    let events = &d.logs[li].events;
    proof {
        assert(crate::store::log_sequenced(d.logs@[li as int]));
    }
    let mut i: usize = 0;
    while i < events.len()
        invariant
            d.wf(),
            li < d.logs@.len(),
            *events == d.logs@[li as int].events,
            events@ == d.events_of(id),
            i <= events@.len(),
            v@.len() == (if after < i { i - after } else { 0 }),
            forall|k: int| 0 <= k < v@.len() ==> *v@[k] == events@[after + k],
            forall|k: int| 0 <= k < events@.len() ==> #[trigger] events@[k].sequence == k + 1,
        decreases events@.len() - i,
    {
        if events[i].sequence > after {
            v.push(&events[i]);
        }
        i = i + 1;
    }
    Ok(v)
}

/// Order of operations within a run: by step, then by place in the step's
/// batch, then by identity.
pub open spec fn op_before(a: Operation, b: Operation) -> bool {
    ||| a.step_index < b.step_index
    ||| a.step_index == b.step_index && a.request_index < b.request_index
    ||| a.step_index == b.step_index && a.request_index == b.request_index && a.meta.id < b.meta.id
}

fn op_less(a: &Operation, b: &Operation) -> (r: bool)
    ensures
        r == op_before(*a, *b),
{
    a.step_index < b.step_index || (a.step_index == b.step_index
        && (a.request_index < b.request_index || (a.request_index == b.request_index && a.meta.id < b.meta.id)))
}

/// Earlier steps come first, and within a step the batch's order.
pub open spec fn in_step_order<'a>(v: Seq<&'a Operation>) -> bool {
    forall|a: int, b: int| 0 <= a < b < v.len() ==> (#[trigger] v[a]).step_index <= (#[trigger] v[b]).step_index
        && (v[a].step_index == v[b].step_index ==> v[a].request_index <= v[b].request_index)
}

/// A listing ordered by `op_before` follows the steps of the run, and the
/// batch order within a step.
pub proof fn operations_are_listed_in_step_order<'a>(v: Seq<&'a Operation>)
    requires
        forall|a: int, b: int| 0 <= a < b < v.len() ==> op_before(*v[a], *v[b]),
    ensures
        in_step_order(v),
{
    assert forall|a: int, b: int| 0 <= a < b < v.len() implies (#[trigger] v[a]).step_index <= (#[trigger] v[b]).step_index
        && (v[a].step_index == v[b].step_index ==> v[a].request_index <= v[b].request_index) by {
        assert(op_before(*v[a], *v[b]));
    }
}

/// `op` is stored, and belongs to run `id`.
pub open spec fn stored_operation_of(d: Data, op: Operation, id: u128) -> bool {
    exists|i: int| 0 <= i < d.operations@.len() && #[trigger] d.operations@[i] == op && op.run_id == id
}

/// `op` is listed in `v`.
pub open spec fn lists_operation<'a>(v: Seq<&'a Operation>, op: Operation) -> bool {
    exists|k: int| 0 <= k < v.len() && *#[trigger] v[k] == op
}

/// The operations of a run owned by `actor`: each stored operation of the
/// run exactly once, in step and batch order.
pub fn operations<'a>(d: &'a Data, actor: &Actor, id: u128) -> (r: Result<Vec<&'a Operation>>)
    requires
        d.wf(),
    ensures
        r is Ok <==> d.owns(*actor, id),
        r is Err ==> r == Err::<Vec<&'a Operation>, Error>(Error::NotFound),
        r matches Ok(v) ==> forall|k: int| 0 <= k < v@.len() ==> stored_operation_of(*d, *#[trigger] v@[k], id),
        r matches Ok(v) ==> forall|a: int, b: int| 0 <= a < b < v@.len() ==> op_before(*v@[a], *v@[b]),
        r matches Ok(v) ==> forall|i: int| 0 <= i < d.operations@.len() && (#[trigger] d.operations@[i]).run_id == id ==>
            lists_operation(v@, d.operations@[i]),
        r matches Ok(v) ==> in_step_order(v@),
{
    d.owned_run(actor, id)?;
    let ops = &d.operations;
    let mut v: Vec<&'a Operation> = Vec::new();
    let ghost mut at: Seq<int> = Seq::empty();
    let mut j: usize = 0;
    while j < ops.len()
        invariant
            d.wf(),
            *ops == d.operations,
            j <= ops@.len(),
            at.len() == v@.len(),
            forall|k: int| 0 <= k < v@.len() ==> 0 <= #[trigger] at[k] < j && *v@[k] == ops@[at[k]] && ops@[at[k]].run_id == id,
            forall|a: int, b: int| 0 <= a < b < v@.len() ==> op_before(*v@[a], *v@[b]),
            forall|i: int| 0 <= i < j && (#[trigger] ops@[i]).run_id == id ==> exists|k: int| 0 <= k < v@.len() && #[trigger] at[k] == i,
        decreases ops@.len() - j,
    {
        if ops[j].run_id == id {
            let op = &ops[j];
            let mut p: usize = 0;
            while p < v.len()
                invariant
                    p <= v@.len(),
                    forall|k: int| 0 <= k < p ==> op_before(*v@[k], *op),
                ensures
                    p <= v@.len(),
                    forall|k: int| 0 <= k < p ==> op_before(*v@[k], *op),
                    p < v@.len() ==> !op_before(*v@[p as int], *op),
                decreases v@.len() - p,
            {
                if !op_less(v[p], op) {
                    break;
                }
                p = p + 1;
            }
            let ghost before = v@;
            let ghost at0 = at;
            proof {
                assert forall|k: int| 0 <= k < before.len() implies before[k].meta.id != op.meta.id by {
                    assert(at0[k] < j);
                    assert(ops@[at0[k]].meta.id != ops@[j as int].meta.id);
                }
            }
            v.insert(p, op);
            proof {
                at = at0.insert(p as int, j as int);
                assert(v@ =~= before.insert(p as int, op));
                assert forall|a: int, b: int| 0 <= a < b < v@.len() implies op_before(*v@[a], *v@[b]) by {
                    if b < p {
                        assert(v@[a] == before[a] && v@[b] == before[b]);
                    } else if b == p {
                        assert(v@[a] == before[a]);
                    } else if a < p {
                        assert(v@[a] == before[a] && v@[b] == before[b - 1]);
                        assert(!op_before(*before[p as int], *op));
                        if b - 1 > p {
                            assert(op_before(*before[p as int], *before[b - 1]));
                        }
                    } else if a == p {
                        assert(v@[b] == before[b - 1]);
                        assert(!op_before(*before[p as int], *op));
                        if b - 1 > p {
                            assert(op_before(*before[p as int], *before[b - 1]));
                        }
                    } else {
                        assert(v@[a] == before[a - 1] && v@[b] == before[b - 1]);
                    }
                }
                assert forall|k: int| 0 <= k < v@.len() implies 0 <= #[trigger] at[k] < j + 1 && *v@[k] == ops@[at[k]] && ops@[at[k]].run_id == id by {
                    if k < p {
                        assert(at[k] == at0[k]);
                    } else if k > p {
                        assert(at[k] == at0[k - 1]);
                    }
                }
                assert forall|i: int| 0 <= i < j + 1 && (#[trigger] ops@[i]).run_id == id implies exists|k: int| 0 <= k < v@.len() && #[trigger] at[k] == i by {
                    if i == j {
                        assert(at[p as int] == i);
                    } else {
                        let k0 = choose|k: int| 0 <= k < at0.len() && at0[k] == i;
                        if k0 < p {
                            assert(at[k0] == i);
                        } else {
                            assert(at[k0 + 1] == i);
                        }
                    }
                }
            }
        }
        j = j + 1;
    }
    proof {
        assert forall|k: int| 0 <= k < v@.len() implies stored_operation_of(*d, *#[trigger] v@[k], id) by {
            assert(0 <= at[k] < j);
            assert(d.operations@[at[k]] == *v@[k]);
        }
        assert forall|i: int| 0 <= i < d.operations@.len() && (#[trigger] d.operations@[i]).run_id == id implies
            lists_operation(v@, d.operations@[i]) by {
            assert(ops@[i] == d.operations@[i]);
            let k = choose|k: int| 0 <= k < v@.len() && #[trigger] at[k] == i;
            assert(*v@[k] == ops@[at[k]]);
            assert(*v@[k] == d.operations@[i]);
        }
    }
    proof {
        operations_are_listed_in_step_order(v@);
    }
    Ok(v)
}

/// `run` was delegated from an operation of run `parent`.
pub open spec fn child_of(d: Data, run: Run, parent: u128) -> bool {
    &&& run.parent_operation is Some
    &&& d.has_operation(run.parent_operation->0)
    &&& d.operation(run.parent_operation->0).run_id == parent
}

/// Order of child runs: oldest first, then by identity.
pub open spec fn run_before(a: Run, b: Run) -> bool {
    a.meta.created_at < b.meta.created_at || (a.meta.created_at == b.meta.created_at && a.meta.id < b.meta.id)
}

/// A run with identity `id` is shown in `v`.
pub open spec fn lists_run(v: Seq<RunView>, id: u128) -> bool {
    exists|k: int| 0 <= k < v.len() && (#[trigger] v[k]).id == id
}

proof fn lemma_run_index(d: Data, i: int)
    requires
        d.wf(),
        0 <= i < d.runs@.len(),
    ensures
        d.has_run(d.runs@[i].meta.id),
        d.run_index(d.runs@[i].meta.id) == i,
{
    let id = d.runs@[i].meta.id;
    assert(d.has_run(id));
    let j = d.run_index(id);
    assert(d.runs@[j].meta.id == id);
}

fn is_child_of(d: &Data, run: &Run, parent: u128) -> (r: bool)
    requires
        d.wf(),
    ensures
        r == child_of(*d, *run, parent),
{
    match run.parent_operation {
        None => false,
        Some(op) => match d.find_operation(op) {
            None => false,
            Some(oi) => d.operations[oi].run_id == parent,
        },
    }
}

/// The direct child runs of a run, scoped through ownership of the parent and
/// of every child: oldest first. A child that `actor` does not own makes the
/// whole listing not found.
#[verifier::rlimit(30)]
pub fn children(d: &Data, actor: &Actor, parent: u128) -> (r: Result<Vec<RunView>>)
    requires
        d.wf(),
    ensures
        r is Ok <==> d.owns(*actor, parent) && forall|i: int| 0 <= i < d.runs@.len()
            && child_of(*d, #[trigger] d.runs@[i], parent) ==> d.owns(*actor, d.runs@[i].meta.id),
        r is Err ==> r == Err::<Vec<RunView>, Error>(Error::NotFound),
        r matches Ok(v) ==> forall|k: int| 0 <= k < v@.len() ==> d.has_run((#[trigger] v@[k]).id)
            && shows_run(v@[k], d.run(v@[k].id)) && child_of(*d, d.run(v@[k].id), parent),
        r matches Ok(v) ==> forall|a: int, b: int| 0 <= a < b < v@.len() ==>
            run_before(d.run((#[trigger] v@[a]).id), d.run((#[trigger] v@[b]).id)),
        r matches Ok(v) ==> forall|i: int| 0 <= i < d.runs@.len() && child_of(*d, #[trigger] d.runs@[i], parent) ==>
            lists_run(v@, d.runs@[i].meta.id),
{
    d.owned_run(actor, parent)?;
    let runs = &d.runs;
    let mut v: Vec<&Run> = Vec::new();
    let ghost mut at: Seq<int> = Seq::empty();
    let mut j: usize = 0;
    while j < runs.len()
        invariant
            d.wf(),
            *runs == d.runs,
            j <= runs@.len(),
            at.len() == v@.len(),
            forall|k: int| 0 <= k < v@.len() ==> 0 <= #[trigger] at[k] < j && *v@[k] == runs@[at[k]]
                && child_of(*d, runs@[at[k]], parent),
            forall|a: int, b: int| 0 <= a < b < v@.len() ==> run_before(*v@[a], *v@[b]),
            forall|i: int| 0 <= i < j && child_of(*d, #[trigger] runs@[i], parent) ==>
                exists|k: int| 0 <= k < v@.len() && #[trigger] at[k] == i,
            forall|i: int| 0 <= i < j && child_of(*d, #[trigger] runs@[i], parent) ==> d.owns(*actor, runs@[i].meta.id),
        decreases runs@.len() - j,
    {
        let run = &runs[j];
        if is_child_of(d, run, parent) {
            match d.owned_run(actor, run.meta.id) {
                Err(e) => {
                    proof {
                        lemma_run_index(*d, j as int);
                    }
                    return Err(e);
                },
                Ok(_) => {},
            }
            let mut p: usize = 0;
            while p < v.len()
                invariant
                    p <= v@.len(),
                    forall|k: int| 0 <= k < p ==> run_before(*v@[k], *run),
                ensures
                    p <= v@.len(),
                    forall|k: int| 0 <= k < p ==> run_before(*v@[k], *run),
                    p < v@.len() ==> !run_before(*v@[p as int], *run),
                decreases v@.len() - p,
            {
                let w = v[p];
                if !(w.meta.created_at < run.meta.created_at || (w.meta.created_at == run.meta.created_at && w.meta.id < run.meta.id)) {
                    break;
                }
                p = p + 1;
            }
            let ghost before = v@;
            let ghost at0 = at;
            proof {
                assert forall|k: int| 0 <= k < before.len() implies before[k].meta.id != run.meta.id by {
                    assert(at0[k] < j);
                    assert(runs@[at0[k]].meta.id != runs@[j as int].meta.id);
                }
            }
            v.insert(p, run);
            proof {
                at = at0.insert(p as int, j as int);
                assert(v@ =~= before.insert(p as int, run));
                assert forall|a: int, b: int| 0 <= a < b < v@.len() implies run_before(*v@[a], *v@[b]) by {
                    if b < p {
                        assert(v@[a] == before[a] && v@[b] == before[b]);
                    } else if b == p {
                        assert(v@[a] == before[a]);
                    } else if a < p {
                        assert(v@[a] == before[a] && v@[b] == before[b - 1]);
                        assert(!run_before(*before[p as int], *run));
                        if b - 1 > p {
                            assert(run_before(*before[p as int], *before[b - 1]));
                        }
                    } else if a == p {
                        assert(v@[b] == before[b - 1]);
                        assert(!run_before(*before[p as int], *run));
                        if b - 1 > p {
                            assert(run_before(*before[p as int], *before[b - 1]));
                        }
                    } else {
                        assert(v@[a] == before[a - 1] && v@[b] == before[b - 1]);
                    }
                }
                assert forall|k: int| 0 <= k < v@.len() implies 0 <= #[trigger] at[k] < j + 1 && *v@[k] == runs@[at[k]]
                    && child_of(*d, runs@[at[k]], parent) by {
                    if k < p {
                        assert(at[k] == at0[k]);
                    } else if k > p {
                        assert(at[k] == at0[k - 1]);
                    }
                }
                assert forall|i: int| 0 <= i < j + 1 && child_of(*d, #[trigger] runs@[i], parent) implies
                    exists|k: int| 0 <= k < v@.len() && #[trigger] at[k] == i by {
                    if i == j {
                        assert(at[p as int] == i);
                    } else {
                        let k0 = choose|k: int| 0 <= k < at0.len() && #[trigger] at0[k] == i;
                        if k0 < p {
                            assert(at[k0] == i);
                        } else {
                            assert(at[k0 + 1] == i);
                        }
                    }
                }
                lemma_run_index(*d, j as int);
            }
        }
        j = j + 1;
    }
    let mut views: Vec<RunView> = Vec::new();
    let mut k: usize = 0;
    while k < v.len()
        invariant
            d.wf(),
            *runs == d.runs,
            k <= v@.len(),
            views@.len() == k,
            at.len() == v@.len(),
            forall|x: int| 0 <= x < v@.len() ==> 0 <= #[trigger] at[x] < runs@.len() && *v@[x] == runs@[at[x]]
                && child_of(*d, runs@[at[x]], parent),
            forall|x: int| 0 <= x < k ==> (#[trigger] views@[x]).id == v@[x].meta.id && shows_run(views@[x], *v@[x]),
        decreases v@.len() - k,
    {
        views.push(view_of_run(v[k]));
        k = k + 1;
    }
    proof {
        assert forall|x: int| 0 <= x < views@.len() implies d.has_run((#[trigger] views@[x]).id)
            && shows_run(views@[x], d.run(views@[x].id)) && child_of(*d, d.run(views@[x].id), parent) by {
            lemma_run_index(*d, at[x]);
        }
        assert forall|a: int, b: int| 0 <= a < b < views@.len() implies
            run_before(d.run((#[trigger] views@[a]).id), d.run((#[trigger] views@[b]).id)) by {
            lemma_run_index(*d, at[a]);
            lemma_run_index(*d, at[b]);
        }
        assert forall|i: int| 0 <= i < d.runs@.len() && child_of(*d, #[trigger] d.runs@[i], parent) implies
            lists_run(views@, d.runs@[i].meta.id) by {
            assert(runs@[i] == d.runs@[i]);
            let x = choose|x: int| 0 <= x < v@.len() && #[trigger] at[x] == i;
            assert(views@[x].id == d.runs@[i].meta.id);
        }
    }
    Ok(views)
}

/// Before a host accepts continuation controls: a run that is still live
/// keeps the shared budget binding it was submitted with.
pub fn validate_model_budget(d: &Data, actor: &Actor, run_id: u128, expected: &Option<ModelBudgetBinding>) -> (r: Result<()>)
    requires
        d.wf(),
    ensures
        !d.owns(*actor, run_id) ==> r == Err::<(), Error>(Error::NotFound),
        d.owns(*actor, run_id) ==> (r is Ok <==> (d.run(run_id).status.is_terminal()
            || crate::store::same_binding(d.run(run_id).model_budget, *expected))),
        r is Err ==> r == Err::<(), Error>(Error::NotFound) || r matches Err(Error::Conflict(_)),
{
    let i = d.owned_run(actor, run_id)?;
    let run = &d.runs[i];
    if !run.status.terminal() && !crate::store::binding_equals(&run.model_budget, expected) {
        return Err(conflict("run model budget binding changed"));
    }
    Ok(())
}

/// Both absent, or both present and equal.
pub open spec fn same_goal(a: Option<Goal>, b: Option<Goal>) -> bool {
    match (a, b) {
        (None, None) => true,
        (Some(x), Some(y)) => x.objective@ == y.objective@ && x.success_schema@ == y.success_schema@ && x.criteria@ == y.criteria@,
        _ => false,
    }
}

fn goal_equals(a: &Option<Goal>, b: &Option<Goal>) -> (r: bool)
    ensures
        r == same_goal(*a, *b),
{
    match (a, b) {
        (None, None) => true,
        (Some(x), Some(y)) => x.objective == y.objective && x.success_schema == y.success_schema && x.criteria == y.criteria,
        _ => false,
    }
}

/// A resumed host must be configured with the run's saved agent and goal.
pub fn validate_resume(d: &Data, actor: &Actor, run_id: u128, agent: &VersionRef, goal: &Option<Goal>) -> (r: Result<()>)
    requires
        d.wf(),
    ensures
        !d.owns(*actor, run_id) ==> r == Err::<(), Error>(Error::NotFound),
        d.owns(*actor, run_id) ==> (r is Ok <==> (d.run(run_id).agent_ref.same(*agent) && same_goal(d.run(run_id).goal, *goal))),
        r is Err ==> r == Err::<(), Error>(Error::NotFound) || r matches Err(Error::Conflict(_)),
{
    let i = d.owned_run(actor, run_id)?;
    let run = &d.runs[i];
    if !run.agent_ref.equals(agent) || !goal_equals(&run.goal, goal) {
        return Err(conflict("resume configuration differs from the saved agent or goal"));
    }
    Ok(())
}

} // verus!
