//! One bounded step of a run: what the host does next, and the commit of the
//! agent loop's transition (its checkpoint and the action it chose).
use vstd::prelude::*;
use crate::dispatch::{compute_request_digest, request_digest, request_json, write_request};
use crate::error::{conflict, invalid, text, Error, Result};
use crate::harness::{Action, Checkpoint, Config, Input, ModelResponse, ToolCall, Transition};
use crate::json::text_digest;
use crate::models::{Actor, Agent, AgentTool, EventType, Metadata, OperationStatus, RunStatus, WaitReason, SCHEMA_VERSION};
use crate::primitives::{new_id, now};
use crate::store::{binding_equals, same_binding, Data, ModelBudgetBinding, Operation, OperationRequest, Run};
use crate::text::{blank, is_blank, utf8_len};

verus! {

/// The first tool binding of the agent with this alias, or -1.
pub open spec fn alias_index(tools: Seq<AgentTool>, name: Seq<char>) -> int
    decreases tools.len(),
{
    if tools.len() == 0 {
        -1
    } else {
        let i = alias_index(tools.drop_last(), name);
        if i >= 0 {
            i
        } else if tools.last().alias@ == name {
            tools.len() - 1
        } else {
            -1
        }
    }
}

proof fn lemma_alias_index(tools: Seq<AgentTool>, name: Seq<char>)
    ensures
        -1 <= alias_index(tools, name) < tools.len(),
        alias_index(tools, name) >= 0 ==> tools[alias_index(tools, name)].alias@ == name,
        alias_index(tools, name) == -1 ==> forall|k: int| 0 <= k < tools.len() ==> tools[k].alias@ != name,
    decreases tools.len(),
{
    if tools.len() > 0 {
        lemma_alias_index(tools.drop_last(), name);
        assert forall|k: int| 0 <= k < tools.len() - 1 implies tools.drop_last()[k] == tools[k] by {}
    }
}

fn find_alias(tools: &Vec<AgentTool>, name: &String) -> (r: Option<usize>)
    ensures
        r is None <==> alias_index(tools@, name@) == -1,
        r matches Some(i) ==> i == alias_index(tools@, name@) && i < tools@.len(),
{
    proof {
        lemma_alias_index(tools@, name@);
    }
    let mut i: usize = 0;
    while i < tools.len()
        invariant
            i <= tools@.len(),
            alias_index(tools@.take(i as int), name@) == -1,
            -1 <= alias_index(tools@, name@) < tools@.len(),
            alias_index(tools@, name@) >= 0 ==> tools@[alias_index(tools@, name@)].alias@ == name@,
            alias_index(tools@, name@) == -1 ==> forall|k: int| 0 <= k < tools@.len() ==> tools@[k].alias@ != name@,
        decreases tools@.len() - i,
    {
        proof {
            assert(tools@.take(i as int + 1).drop_last() =~= tools@.take(i as int));
        }
        if tools[i].alias == *name {
            proof {
                assert(alias_index(tools@.take(i as int + 1), name@) == i);
                lemma_alias_prefix(tools@, name@, i as int + 1);
            }
            return Some(i);
        }
        i = i + 1;
    }
    proof {
        assert(tools@.take(tools@.len() as int) =~= tools@);
    }
    None
}

/// A found alias in a prefix is the alias of the whole sequence.
proof fn lemma_alias_prefix(tools: Seq<AgentTool>, name: Seq<char>, n: int)
    requires
        0 <= n <= tools.len(),
        alias_index(tools.take(n), name) >= 0,
    ensures
        alias_index(tools, name) == alias_index(tools.take(n), name),
    decreases tools.len() - n,
{
    if n < tools.len() {
        assert(tools.take(n + 1).drop_last() =~= tools.take(n));
        lemma_alias_prefix(tools, name, n + 1);
    } else {
        assert(tools.take(n) =~= tools);
    }
}

pub open spec fn call_same(a: ToolCall, b: ToolCall) -> bool {
    a.call_id@ == b.call_id@ && a.name@ == b.name@ && a.arguments@ == b.arguments@ && a.json@ == b.json@
}

pub open spec fn calls_same(a: Seq<ToolCall>, b: Seq<ToolCall>) -> bool {
    a.len() == b.len() && forall|k: int| 0 <= k < a.len() ==> call_same(#[trigger] a[k], b[k])
}

fn calls_equal(a: &Vec<ToolCall>, b: &Vec<ToolCall>) -> (r: bool)
    ensures
        r == calls_same(a@, b@),
{
    if a.len() != b.len() {
        return false;
    }
    let mut i: usize = 0;
    while i < a.len()
        invariant
            a@.len() == b@.len(),
            i <= a@.len(),
            forall|k: int| 0 <= k < i ==> call_same(#[trigger] a@[k], b@[k]),
        decreases a@.len() - i,
    {
        let x = &a[i];
        let y = &b[i];
        if !(x.call_id == y.call_id && x.name == y.name && x.arguments == y.arguments && x.json == y.json) {
            return false;
        }
        i = i + 1;
    }
    true
}

/// The calls of a batch have present, distinct identities, and each names a
/// tool of the agent that exists and accepts the call's arguments.
pub open spec fn tool_plan_ok(d: Data, workspace: Seq<char>, agent: Agent, calls: Seq<ToolCall>) -> bool {
    forall|k: int| 0 <= k < calls.len() ==> {
        &&& !blank(#[trigger] calls[k].call_id@)
        &&& forall|j: int| 0 <= j < k ==> calls[j].call_id@ != calls[k].call_id@
        &&& alias_index(agent.tools@, calls[k].name@) >= 0
        &&& d.has_tool(workspace, agent.tools@[alias_index(agent.tools@, calls[k].name@)].tool_ref)
        &&& crate::definitions::schema_valid(d.tool(workspace, agent.tools@[alias_index(agent.tools@, calls[k].name@)].tool_ref).input_schema@)
        &&& crate::definitions::json_schema_accepts(d.tool(workspace, agent.tools@[alias_index(agent.tools@, calls[k].name@)].tool_ref).input_schema@, calls[k].arguments@)
    }
}

/// The requests of a tool batch: each call under the tool its name binds.
pub open spec fn tool_requests(agent: Agent, calls: Seq<ToolCall>, reqs: Seq<OperationRequest>) -> bool {
    &&& reqs.len() == calls.len()
    &&& forall|k: int| 0 <= k < reqs.len() ==> (#[trigger] reqs[k] matches OperationRequest::Tool { tool_ref, call }
        && call == calls[k] && tool_ref.same(agent.tools@[alias_index(agent.tools@, calls[k].name@)].tool_ref))
}

fn id_used_before(calls: &Vec<ToolCall>, k: usize) -> (r: bool)
    requires
        k < calls@.len(),
    ensures
        r == exists|j: int| 0 <= j < k && calls@[j].call_id@ == calls@[k as int].call_id@,
{
    let mut j: usize = 0;
    while j < k
        invariant
            j <= k < calls@.len(),
            forall|m: int| 0 <= m < j ==> calls@[m].call_id@ != calls@[k as int].call_id@,
        decreases k - j,
    {
        if calls[j].call_id == calls[k].call_id {
            return true;
        }
        j = j + 1;
    }
    false
}

fn plan_tools(d: &Data, workspace: &String, agent: &Agent, calls: &Vec<ToolCall>) -> (r: Result<Vec<OperationRequest>>)
    requires
        d.wf(),
    ensures
        r is Ok <==> tool_plan_ok(*d, workspace@, *agent, calls@),
        r matches Ok(reqs) ==> tool_requests(*agent, calls@, reqs@),
        r matches Err(e) ==> e is Invalid || e is NotFound,
{
    let mut reqs: Vec<OperationRequest> = Vec::new();
    let mut k: usize = 0;
    while k < calls.len()
        invariant
            d.wf(),
            k <= calls@.len(),
            tool_plan_ok(*d, workspace@, *agent, calls@.take(k as int)),
            tool_requests(*agent, calls@.take(k as int), reqs@),
        decreases calls@.len() - k,
    {
        let call = &calls[k];
        if is_blank(call.call_id.as_str()) || id_used_before(calls, k) {
            proof {
                assert(!tool_plan_ok(*d, workspace@, *agent, calls@)) by {
                    assert(calls@[k as int] == call);
                }
            }
            return Err(invalid("duplicate or empty tool-call ID"));
        }
        let b = match find_alias(&agent.tools, &call.name) {
            None => {
                proof {
                    assert(!tool_plan_ok(*d, workspace@, *agent, calls@)) by {
                        assert(calls@[k as int] == call);
                    }
                }
                return Err(invalid("unregistered tool requested"));
            },
            Some(b) => b,
        };
        let ti = match d.find_tool(workspace, &agent.tools[b].tool_ref) {
            None => {
                proof {
                    assert(!tool_plan_ok(*d, workspace@, *agent, calls@)) by {
                        assert(calls@[k as int] == call);
                    }
                }
                return Err(Error::NotFound);
            },
            Some(ti) => ti,
        };
        match crate::definitions::validate(d.tools[ti].input_schema.as_str(), call.arguments.as_str()) {
            Err(e) => {
                proof {
                    assert(!tool_plan_ok(*d, workspace@, *agent, calls@)) by {
                        assert(calls@[k as int] == call);
                    }
                }
                return Err(e);
            },
            Ok(()) => {},
        }
        let ghost prev = reqs@;
        reqs.push(OperationRequest::Tool { tool_ref: agent.tools[b].tool_ref.copy(), call: call.clone() });
        proof {
            let t = calls@.take(k as int + 1);
            assert(t.drop_last() =~= calls@.take(k as int));
            assert forall|m: int| 0 <= m < t.len() implies {
                &&& !blank(#[trigger] t[m].call_id@)
                &&& forall|j: int| 0 <= j < m ==> t[j].call_id@ != t[m].call_id@
                &&& alias_index(agent.tools@, t[m].name@) >= 0
                &&& d.has_tool(workspace@, agent.tools@[alias_index(agent.tools@, t[m].name@)].tool_ref)
                &&& crate::definitions::schema_valid(d.tool(workspace@, agent.tools@[alias_index(agent.tools@, t[m].name@)].tool_ref).input_schema@)
                &&& crate::definitions::json_schema_accepts(d.tool(workspace@, agent.tools@[alias_index(agent.tools@, t[m].name@)].tool_ref).input_schema@, t[m].arguments@)
            } by {
                if m < k {
                    assert(t[m] == calls@.take(k as int)[m]);
                    assert forall|j: int| 0 <= j < m implies t[j].call_id@ != t[m].call_id@ by {
                        assert(t[j] == calls@.take(k as int)[j]);
                    }
                } else {
                    assert(t[m] == calls@[k as int]);
                    assert forall|j: int| 0 <= j < m implies t[j].call_id@ != t[m].call_id@ by {
                        assert(t[j] == calls@[j]);
                    }
                }
            }
            assert forall|m: int| 0 <= m < reqs@.len() implies (#[trigger] reqs@[m] matches OperationRequest::Tool { tool_ref, call }
                && call == t[m] && tool_ref.same(agent.tools@[alias_index(agent.tools@, t[m].name@)].tool_ref)) by {
                if m < k {
                    assert(reqs@[m] == prev[m]);
                    assert(t[m] == calls@.take(k as int)[m]);
                }
            }
        }
        k = k + 1;
    }
    proof {
        assert(calls@.take(calls@.len() as int) =~= calls@);
    }
    Ok(reqs)
}

/// The conditions on the action itself: a model request reproduces the
/// configuration, tool calls and a verification candidate reproduce the model's
/// response that is the step's input, and a completion carries the output
/// whose check passed, within the payload limit.
pub open spec fn action_admissible(d: Data, workspace: Seq<char>, agent: Agent, run: Run, input: Input, config: Config, action: Action) -> bool {
    match action {
        Action::CallModel { request } => request.model@ == config.model@ && request.instructions@ == config.instructions@
            && request.tools@ == config.tools@,
        Action::ExecuteTools { calls } => {
            &&& input matches Input::Model { response: ModelResponse::ToolCalls { calls: expected, .. } } && calls_same(calls@, expected@)
            &&& calls@.len() > 0
            &&& tool_plan_ok(d, workspace, agent, calls@)
        },
        Action::Verify { candidate } => input matches Input::Model { response: ModelResponse::Final { output, .. } }
            && output@ == candidate@,
        Action::Complete { output } => (run.verified_candidate_digest matches Some(g) && g@ == text_digest(output@))
            && utf8_len(output@) <= run.limits.max_payload_bytes,
        _ => true,
    }
}

/// The operation requests that an action creates.
pub open spec fn action_requests(agent: Agent, action: Action, reqs: Seq<OperationRequest>) -> bool {
    match action {
        Action::CallModel { request } => reqs == seq![OperationRequest::Model { request }],
        Action::ExecuteTools { calls } => tool_requests(agent, calls@, reqs),
        Action::Verify { candidate } => reqs.len() == 1 && (reqs[0] matches OperationRequest::Verify { candidate: c } && c@ == candidate@),
        _ => reqs.len() == 0,
    }
}

/// Each request's JSON text fits in `limit` bytes.
pub open spec fn requests_fit(reqs: Seq<OperationRequest>, limit: usize) -> bool {
    forall|k: int| 0 <= k < reqs.len() ==> utf8_len(request_json(#[trigger] reqs[k])) <= limit
}

/// The run status after committing an action.
pub open spec fn committed_status(action: Action) -> RunStatus {
    match action {
        Action::Complete { .. } => RunStatus::Completed,
        Action::WaitForInput { .. } => RunStatus::Waiting,
        Action::Fail { .. } => RunStatus::Failed,
        _ => RunStatus::Running,
    }
}

pub open spec fn reserved_usage(u: crate::models::Usage, reqs: Seq<OperationRequest>) -> crate::models::Usage {
    crate::models::Usage {
        operations: (u.operations + (reqs.len() as u32)) as u32,
        model_calls: (u.model_calls + (crate::budgets::count_models(reqs) as u32)) as u32,
        tool_calls: u.tool_calls.wrapping_add(crate::budgets::count_tools(reqs) as u32),
        ..u
    }
}

/// A new operation of the run for the `k`-th request of a step.
pub open spec fn new_operation(op: Operation, run_id: u128, workspace: Seq<char>, step: u64, k: int) -> bool {
    &&& op.run_id == run_id
    &&& op.meta.workspace_id@ == workspace
    &&& op.step_index == step
    &&& op.request_index == k
    &&& op.status == OperationStatus::Pending
    &&& op.approval is None
    &&& op.attempts@.len() == 0
    &&& op.result is None
    &&& op.revision == 0
    &&& op.request_digest@ == request_digest(op.meta.id, run_id, workspace, op.request)
}

fn request_fits(req: &OperationRequest, limit: usize) -> (r: bool)
    ensures
        r == (utf8_len(request_json(*req)) <= limit),
{
    let mut out = String::new();
    write_request(&mut out, req);
    proof {
        assert(out@ =~= request_json(*req));
    }
    crate::text::byte_length(&out) <= limit
}

fn all_fit(reqs: &Vec<OperationRequest>, limit: usize) -> (r: bool)
    ensures
        r == requests_fit(reqs@, limit),
{
    let mut i: usize = 0;
    while i < reqs.len()
        invariant
            i <= reqs@.len(),
            forall|k: int| 0 <= k < i ==> utf8_len(request_json(#[trigger] reqs@[k])) <= limit,
        decreases reqs@.len() - i,
    {
        if !request_fits(&reqs[i], limit) {
            return false;
        }
        i = i + 1;
    }
    true
}

/// Fresh operation identities, one for each request: none is stored yet, and
/// they are distinct.
fn fresh_ids(d: &Data, n: usize) -> (r: Result<Vec<u128>>)
    requires
        d.wf(),
    ensures
        r matches Ok(ids) ==> ids@.len() == n && ids@.no_duplicates()
            && forall|k: int| 0 <= k < n ==> !d.has_operation(#[trigger] ids@[k]),
        r matches Err(e) ==> e is Conflict,
{
    let mut ids: Vec<u128> = Vec::new();
    let mut k: usize = 0;
    while k < n
        invariant
            d.wf(),
            k <= n,
            ids@.len() == k,
            ids@.no_duplicates(),
            forall|m: int| 0 <= m < k ==> !d.has_operation(#[trigger] ids@[m]),
        decreases n - k,
    {
        let id = new_id();
        if d.find_operation(id).is_some() || crate::dispatch::contains_id(&ids, id) {
            return Err(conflict("operation identifier already in use"));
        }
        let ghost prev = ids@;
        ids.push(id);
        proof {
            assert forall|a: int, b: int| 0 <= a < ids@.len() && 0 <= b < ids@.len() && a != b implies ids@[a] != ids@[b] by {
                if a < prev.len() && b < prev.len() {
                    assert(prev[a] != prev[b]);
                } else if a == prev.len() {
                    assert(prev.contains(ids@[b]) || b == a);
                } else {
                    assert(prev.contains(ids@[a]) || b == a);
                }
            }
            assert forall|m: int| 0 <= m < ids@.len() implies !d.has_operation(#[trigger] ids@[m]) by {
                if m < prev.len() {
                    assert(ids@[m] == prev[m]);
                }
            }
        }
        k = k + 1;
    }
    Ok(ids)
}

fn plan_requests(d: &Data, workspace: &String, ai: usize, ri: usize, input: &Input, config: &Config, action: &Action)
    -> (r: Result<Vec<OperationRequest>>)
    requires
        d.wf(),
        ai < d.agents@.len(),
        ri < d.runs@.len(),
    ensures
        r is Ok <==> action_admissible(*d, workspace@, d.agents@[ai as int], d.runs@[ri as int], *input, *config, *action),
        r matches Ok(reqs) ==> action_requests(d.agents@[ai as int], *action, reqs@),
        r matches Err(e) ==> e is Invalid || e is NotFound,
{
    let mut reqs: Vec<OperationRequest> = Vec::new();
    match action {
        Action::CallModel { request } => {
            if request.model != config.model || request.instructions != config.instructions || request.tools != config.tools {
                return Err(invalid("model request changed configured model/instructions/tools"));
            }
            reqs.push(OperationRequest::Model { request: request.clone() });
            proof {
                assert(reqs@ =~= seq![OperationRequest::Model { request: *request }]);
            }
        },
        Action::ExecuteTools { calls } => {
            let same = match input {
                Input::Model { response: ModelResponse::ToolCalls { calls: expected, .. } } => calls_equal(calls, expected),
                _ => false,
            };
            if !same {
                return Err(invalid("tool calls do not match model response"));
            }
            if calls.len() == 0 {
                return Err(invalid("empty tool batch"));
            }
            match plan_tools(d, workspace, &d.agents[ai], calls) {
                Ok(v) => {
                    reqs = v;
                },
                Err(e) => {
                    return Err(e);
                },
            }
        },
        Action::Verify { candidate } => {
            let same = match input {
                Input::Model { response: ModelResponse::Final { output, .. } } => *output == *candidate,
                _ => false,
            };
            if !same {
                return Err(invalid("candidate must match the model's final response"));
            }
            reqs.push(OperationRequest::Verify { candidate: candidate.clone() });
        },
        Action::Complete { output } => {
            let verified = match &d.runs[ri].verified_candidate_digest {
                Some(g) => *g == crate::json::digest_text(output),
                None => false,
            };
            if !verified {
                return Err(invalid("completion requires a passed check of this exact output"));
            }
            if crate::text::byte_length(output) > d.runs[ri].limits.max_payload_bytes {
                return Err(invalid("payload exceeds configured limit"));
            }
        },
        _ => {},
    }
    Ok(reqs)
}

/// Commit the agent loop's transition for a run that is still at `revision`:
/// the checkpoint replaces the run's state, and the action either creates the
/// step's operations (a model call, a tool batch, a verification) or settles
/// the run (completion, a wait for user input, failure).
///
/// The step is charged against the run's budget, and every request must fit
/// the context limit. `input` is the input the loop was given and `config` the
/// configuration it was projected with.
#[verifier::rlimit(100)]
pub fn commit_transition(
    d: &mut Data,
    actor: &Actor,
    id: u128,
    revision: u64,
    input: &Input,
    config: &Config,
    transition: Transition,
) -> (r: Result<()>)
    requires
        old(d).wf(),
    ensures
        final(d).wf(),
        r is Err ==> *final(d) == *old(d),
        !old(d).owns(*actor, id) ==> r == Err::<(), Error>(Error::NotFound),
        old(d).owns(*actor, id) && old(d).run(id).revision != revision ==> r matches Err(Error::Conflict(_)),
        ({
            let run = old(d).run(id);
            let agent = old(d).agent(actor.workspace_id@, run.agent_ref);
            let limit = run.limits.max_context_bytes;
            old(d).owns(*actor, id) && run.revision == revision && transition.checkpoint_bytes <= limit
                && transition.action_bytes <= limit && old(d).has_agent(actor.workspace_id@, run.agent_ref)
                && action_admissible(*old(d), actor.workspace_id@, agent, run, *input, *config, transition.action)
                && (forall|reqs: Seq<OperationRequest>| action_requests(agent, transition.action, reqs)
                    ==> crate::budgets::reservable(run, reqs) && requests_fit(reqs, limit))
                ==> (r is Ok || r matches Err(Error::Conflict(_)))
        }),
        r is Ok ==> {
            let run = old(d).run(id);
            let ri = old(d).run_index(id);
            let agent = old(d).agent(actor.workspace_id@, run.agent_ref);
            let limit = run.limits.max_context_bytes;
            let n = old(d).operations@.len() as int;
            let ops = final(d).operations@.subrange(n, final(d).operations@.len() as int);
            let reqs = ops.map_values(|o: Operation| o.request);
            let run2 = final(d).runs@[ri];
            &&& old(d).owns(*actor, id) && run.revision == revision
            &&& transition.checkpoint_bytes <= limit && transition.action_bytes <= limit
            &&& old(d).has_agent(actor.workspace_id@, run.agent_ref)
            &&& action_admissible(*old(d), actor.workspace_id@, agent, run, *input, *config, transition.action)
            &&& action_requests(agent, transition.action, reqs)
            &&& crate::budgets::reservable(run, reqs)
            &&& requests_fit(reqs, limit)
            &&& final(d).operations@.subrange(0, n) == old(d).operations@
            &&& forall|k: int| 0 <= k < ops.len() ==> new_operation(#[trigger] ops[k], id, actor.workspace_id@,
                transition.checkpoint.step, k) && !old(d).has_operation(ops[k].meta.id)
            &&& final(d).runs@ == old(d).runs@.update(ri, run2)
            &&& run2 == (Run {
                status: committed_status(transition.action),
                wait: run2.wait,
                result: run2.result,
                reason: run2.reason,
                verified_candidate_digest: run2.verified_candidate_digest,
                state: transition.checkpoint,
                next_input: None,
                pending_operations: run2.pending_operations,
                usage: reserved_usage(run.usage, reqs),
                revision: run.revision.wrapping_add(1),
                ..run
            })
            &&& run2.pending_operations@ == ops.map_values(|o: Operation| o.meta.id)
            &&& reqs.len() > 0 ==> run2.wait is None && run2.verified_candidate_digest is None
            &&& reqs.len() == 0 ==> run2.verified_candidate_digest == run.verified_candidate_digest
            &&& match transition.action {
                Action::WaitForInput { prompt } => run2.wait == Some(WaitReason::UserInput { prompt, question_id: transition.checkpoint.step }),
                Action::CallModel { .. } | Action::ExecuteTools { .. } | Action::Verify { .. } => run2.wait is None,
                _ => run2.wait == run.wait,
            }
            &&& match transition.action {
                Action::Complete { output } => run2.result == Some(output),
                _ => run2.result == run.result,
            }
            &&& match transition.action {
                Action::Fail { reason } => run2.reason == Some(reason),
                _ => run2.reason == run.reason,
            }
            &&& final(d).agents == old(d).agents && final(d).tools == old(d).tools
            &&& final(d).policies == old(d).policies && final(d).submissions == old(d).submissions
            &&& final(d).inputs == old(d).inputs && final(d).model_budgets == old(d).model_budgets
            &&& final(d).schedule_requests == old(d).schedule_requests && final(d).team_tasks == old(d).team_tasks
        },
{
    let ri = d.owned_run(actor, id)?;
    if d.runs[ri].revision != revision {
        return Err(conflict("stale run revision"));
    }
    let limit = d.runs[ri].limits.max_context_bytes;
    if transition.checkpoint_bytes > limit || transition.action_bytes > limit {
        return Err(invalid("payload exceeds configured limit"));
    }
    let ai = match d.find_agent(&actor.workspace_id, &d.runs[ri].agent_ref) {
        None => return Err(Error::NotFound),
        Some(ai) => ai,
    };
    let Transition { checkpoint, action, .. } = transition;
    let requests = plan_requests(d, &actor.workspace_id, ai, ri, input, config, &action)?;
    if !all_fit(&requests, limit) {
        return Err(invalid("payload exceeds configured limit"));
    }
    let (operations, model_calls, tool_calls) = crate::budgets::reservation(&d.runs[ri], requests.as_slice())?;
    let ids = fresh_ids(d, requests.len())?;
    let ghost before = *d;
    d.runs[ri].usage.operations = operations;
    d.runs[ri].usage.model_calls = model_calls;
    d.runs[ri].usage.tool_calls = tool_calls;
    let step = checkpoint.step;
    let status = match &action {
        Action::Complete { .. } => RunStatus::Completed,
        Action::WaitForInput { .. } => RunStatus::Waiting,
        Action::Fail { .. } => RunStatus::Failed,
        _ => RunStatus::Running,
    };
    match action {
        Action::Complete { output } => {
            d.runs[ri].result = Some(output);
        },
        Action::WaitForInput { prompt } => {
            d.runs[ri].wait = Some(WaitReason::UserInput { prompt, question_id: step });
        },
        Action::Fail { reason } => {
            d.runs[ri].reason = Some(reason);
        },
        _ => {
            d.runs[ri].wait = None;
            d.runs[ri].verified_candidate_digest = None;
        },
    }
    d.runs[ri].status = status;
    d.runs[ri].state = checkpoint;
    d.runs[ri].next_input = None;
    d.runs[ri].pending_operations = ids.clone();
    d.runs[ri].revision = d.runs[ri].revision.wrapping_add(1);
    proof {
        lemma_runs_updated(before, ri as int, d.runs@[ri as int]);
        assert(d.runs@ == before.runs@.update(ri as int, d.runs@[ri as int]));
    }
    let ghost mid = *d;
    let n = d.operations.len();
    let mut k: usize = 0;
    while k < requests.len()
        invariant
            d.wf(),
            mid.wf(),
            n == mid.operations@.len(),
            k <= requests@.len(),
            ids@.len() == requests@.len(),
            ids@.no_duplicates(),
            forall|m: int| 0 <= m < ids@.len() ==> !mid.has_operation(#[trigger] ids@[m]),
            d.operations@.len() == n + k,
            d.operations@.subrange(0, n as int) == mid.operations@,
            forall|m: int| 0 <= m < k ==> new_operation(#[trigger] d.operations@[n + m], id, actor.workspace_id@, step, m)
                && d.operations@[n + m].request == requests@[m] && d.operations@[n + m].meta.id == ids@[m],
            d.runs == mid.runs && d.agents == mid.agents && d.tools == mid.tools && d.policies == mid.policies,
            d.submissions == mid.submissions && d.inputs == mid.inputs && d.model_budgets == mid.model_budgets,
            d.schedule_requests == mid.schedule_requests && d.team_tasks == mid.team_tasks,
        decreases requests@.len() - k,
    {
        let op_id = ids[k];
        let request = copy_request(&requests[k]);
        let digest = compute_request_digest(op_id, id, &actor.workspace_id, &request);
        let op = Operation {
            meta: Metadata { id: op_id, workspace_id: actor.workspace_id.clone(), schema_version: SCHEMA_VERSION, created_at: now() },
            run_id: id,
            step_index: step,
            request_index: k,
            request,
            request_digest: digest,
            status: OperationStatus::Pending,
            approval: None,
            attempts: Vec::new(),
            result: None,
            revision: 0,
        };
        let ghost prev = d.operations@;
        d.operations.push(op);
        proof {
            assert(d.operations@.subrange(0, n as int) =~= prev.subrange(0, n as int));
            assert forall|m: int| 0 <= m <= k implies (#[trigger] d.operations@[n + m]).meta.id == ids@[m] by {
                if m < k {
                    assert(d.operations@[n + m] == prev[n + m]);
                }
            }
            lemma_new_ids_distinct(mid, d.operations@, ids@, n as int, k as int);
        }
        let workspace = actor.workspace_id.clone();
        d.event(id, &workspace, Some(op_id), EventType::OperationRequested, None, text("{}"));
        k = k + 1;
    }
    let workspace = actor.workspace_id.clone();
    if status == RunStatus::Completed {
        d.event(id, &workspace, None, EventType::RunFinished, None, text("{\"status\":\"completed\"}"));
    } else if status == RunStatus::Failed {
        d.event(id, &workspace, None, EventType::RunFinished, None, text("{\"status\":\"failed\"}"));
    } else if status == RunStatus::Waiting {
        d.event(id, &workspace, None, EventType::RunWaiting, None, text("{}"));
    }
    proof {
        let ops = d.operations@.subrange(n as int, d.operations@.len() as int);
        assert forall|m: int| 0 <= m < ops.len() implies ops[m] == d.operations@[n + m] by {}
        assert(ops.map_values(|o: Operation| o.request) =~= requests@);
        assert(ops.map_values(|o: Operation| o.meta.id) =~= ids@);
    }
    Ok(())
}

fn copy_request(r: &OperationRequest) -> (c: OperationRequest)
    ensures
        c == *r,
{
    match r {
        OperationRequest::Model { request } => OperationRequest::Model { request: request.clone() },
        OperationRequest::Tool { tool_ref, call } => OperationRequest::Tool { tool_ref: copy_version_ref(tool_ref), call: call.clone() },
        OperationRequest::Verify { candidate } => OperationRequest::Verify { candidate: candidate.clone() },
    }
}

fn copy_version_ref(r: &crate::models::VersionRef) -> (c: crate::models::VersionRef)
    ensures
        c == *r,
{
    crate::models::VersionRef { id: r.id.clone(), version: r.version }
}

proof fn lemma_runs_updated(d: Data, i: int, r: Run)
    requires
        d.wf(),
        0 <= i < d.runs@.len(),
        r.meta.id == d.runs@[i].meta.id,
    ensures
        crate::store::run_ids_unique(d.runs@.update(i, r)),
{
}

proof fn lemma_new_ids_distinct(mid: Data, cur: Seq<Operation>, ids: Seq<u128>, n: int, k: int)
    requires
        mid.wf(),
        n == mid.operations@.len(),
        cur.len() == n + k + 1,
        cur.subrange(0, n) == mid.operations@,
        0 <= k < ids.len(),
        ids.no_duplicates(),
        forall|m: int| 0 <= m < ids.len() ==> !mid.has_operation(#[trigger] ids[m]),
        forall|m: int| 0 <= m <= k ==> (#[trigger] cur[n + m]).meta.id == ids[m],
    ensures
        crate::store::operation_ids_unique(cur),
{
    assert forall|a: int, b: int| 0 <= a < cur.len() && 0 <= b < cur.len() && a != b
        implies cur[a].meta.id != cur[b].meta.id by {
        if a < n && b < n {
            assert(cur[a] == cur.subrange(0, n)[a]);
            assert(cur[b] == cur.subrange(0, n)[b]);
        } else if a < n {
            assert(cur[a] == cur.subrange(0, n)[a]);
            let m = b - n;
            assert(cur[n + m].meta.id == ids[m]);
            if cur[a].meta.id == ids[m] {
                assert(mid.operations@[a].meta.id == ids[m]);
                assert(mid.has_operation(ids[m]));
            }
        } else if b < n {
            assert(cur[b] == cur.subrange(0, n)[b]);
            let m = a - n;
            assert(cur[n + m].meta.id == ids[m]);
            if cur[b].meta.id == ids[m] {
                assert(mid.operations@[b].meta.id == ids[m]);
                assert(mid.has_operation(ids[m]));
            }
        } else {
            assert(cur[n + (a - n)].meta.id == ids[a - n]);
            assert(cur[n + (b - n)].meta.id == ids[b - n]);
        }
    }
}

/// What the host does after one step of a run.
#[derive(Clone, Copy, Debug, PartialEq, Eq, Structural)]
pub enum TickStep {
    /// Nothing to execute now: inspect the run.
    Done,
    /// Execute this attempt of the operation outside the store, record its
    /// outcome with `settle_dispatch`, then call `after_dispatch`.
    Execute { operation_id: u128, attempt_id: u128 },
    /// Run the agent loop on the run's next input and commit its transition.
    Advance,
}

/// An operation that blocks the batch: not settled yet.
pub open spec fn unsettled(s: OperationStatus) -> bool {
    s is Pending || s is WaitingApproval || s is Running || s is Unknown
}

/// The first pending operation that is stored and not settled, or -1. The
/// driver is sequential: nothing overtakes an active or uncertain member of
/// the batch.
pub open spec fn first_unsettled(d: Data, pending: Seq<u128>) -> int
    decreases pending.len(),
{
    if pending.len() == 0 {
        -1
    } else {
        let i = first_unsettled(d, pending.drop_last());
        if i >= 0 {
            i
        } else if d.has_operation(pending.last()) && unsettled(d.operation(pending.last()).status) {
            pending.len() - 1
        } else {
            -1
        }
    }
}

proof fn lemma_unsettled_prefix(d: Data, pending: Seq<u128>, n: int)
    requires
        0 <= n <= pending.len(),
        first_unsettled(d, pending.take(n)) >= 0,
    ensures
        first_unsettled(d, pending) == first_unsettled(d, pending.take(n)),
    decreases pending.len() - n,
{
    if n < pending.len() {
        assert(pending.take(n + 1).drop_last() =~= pending.take(n));
        lemma_unsettled_prefix(d, pending, n + 1);
    } else {
        assert(pending.take(n) =~= pending);
    }
}

proof fn lemma_first_unsettled(d: Data, pending: Seq<u128>)
    ensures
        -1 <= first_unsettled(d, pending) < pending.len(),
        first_unsettled(d, pending) >= 0 ==> d.has_operation(pending[first_unsettled(d, pending)])
            && unsettled(d.operation(pending[first_unsettled(d, pending)]).status),
    decreases pending.len(),
{
    if pending.len() > 0 {
        lemma_first_unsettled(d, pending.drop_last());
        let i = first_unsettled(d, pending.drop_last());
        if i >= 0 {
            assert(pending.drop_last()[i] == pending[i]);
        }
    }
}

/// The operation to dispatch next: the first unsettled one, if it has not started.
pub open spec fn next_dispatch(d: Data, run: Run) -> Option<u128> {
    let i = first_unsettled(d, run.pending_operations@);
    if i >= 0 && (d.operation(run.pending_operations@[i]).status is Pending
        || d.operation(run.pending_operations@[i]).status is WaitingApproval) {
        Some(run.pending_operations@[i])
    } else {
        None
    }
}

fn find_next_dispatch(d: &Data, ri: usize) -> (r: Option<u128>)
    requires
        d.wf(),
        ri < d.runs@.len(),
    ensures
        r == next_dispatch(*d, d.runs@[ri as int]),
{
    let pending = &d.runs[ri].pending_operations;
    proof {
        lemma_first_unsettled(*d, pending@);
    }
    let mut k: usize = 0;
    while k < pending.len()
        invariant
            d.wf(),
            ri < d.runs@.len(),
            pending@ == d.runs@[ri as int].pending_operations@,
            k <= pending@.len(),
            first_unsettled(*d, pending@.take(k as int)) == -1,
            -1 <= first_unsettled(*d, pending@) < pending@.len(),
            first_unsettled(*d, pending@) >= 0 ==> d.has_operation(pending@[first_unsettled(*d, pending@)])
                && unsettled(d.operation(pending@[first_unsettled(*d, pending@)]).status),
        decreases pending@.len() - k,
    {
        proof {
            assert(pending@.take(k as int + 1).drop_last() =~= pending@.take(k as int));
        }
        match d.find_operation(pending[k]) {
            None => {},
            Some(oi) => {
                let status = d.operations[oi].status;
                if status == OperationStatus::Pending || status == OperationStatus::WaitingApproval
                    || status == OperationStatus::Running || status == OperationStatus::Unknown {
                    proof {
                        assert(first_unsettled(*d, pending@.take(k as int + 1)) == k);
                        lemma_unsettled_prefix(*d, pending@, k as int + 1);
                    }
                    if status == OperationStatus::Pending || status == OperationStatus::WaitingApproval {
                        return Some(pending[k]);
                    }
                    return None;
                }
            },
        }
        k = k + 1;
    }
    proof {
        assert(pending@.take(pending@.len() as int) =~= pending@);
    }
    None
}

/// Collect the batch after a dispatch, and settle a cancellation that arrived
/// while the host was executing: a cancelling run is settled as
/// `finish_cancellation` does, any other run has its batch collected as
/// `collect` does.
pub fn after_dispatch(d: &mut Data, actor: &Actor, id: u128) -> (r: Result<()>)
    requires
        old(d).wf(),
    ensures
        final(d).wf(),
        r is Err ==> *final(d) == *old(d),
        !old(d).owns(*actor, id) ==> r == Err::<(), Error>(Error::NotFound),
        old(d).owns(*actor, id) && old(d).run(id).status is Cancelling
            ==> crate::runtime::cancellation_finished(*old(d), *final(d), *actor, id, r),
        old(d).owns(*actor, id) && !(old(d).run(id).status is Cancelling)
            ==> crate::runtime::collected(*old(d), *final(d), *actor, id, r),
{
    let ghost start = *d;
    crate::runtime::collect(d, actor, id)?;
    let ri = d.owned_run(actor, id)?;
    if d.runs[ri].status == RunStatus::Cancelling {
        proof {
            assert(start.run(id).status is Cancelling) by {
                if !(start.run(id).status is Cancelling) {
                    assert(d.run_index(id) == ri);
                    assert(d.runs@[ri as int].status is Cancelling);
                    assert(start.run_index(id) == ri) by {
                        assert(d.runs@[ri as int].meta.id == id);
                    }
                }
            }
            assert(*d == start);
        }
        crate::runtime::finish_cancellation(d, actor, id)?;
    }
    Ok(())
}

/// The run may take a step of the agent loop now.
pub open spec fn ready_to_advance(d: Data, actor: Actor, id: u128, model_budget: Option<ModelBudgetBinding>) -> bool {
    let run = d.run(id);
    &&& d.owns(actor, id)
    &&& !run.status.is_stopped()
    &&& same_binding(run.model_budget, model_budget)
    &&& crate::coordination::dependency_state(d, actor, id) == Some(crate::coordination::DependencyState::Ready)
    &&& run.pending_operations@.len() == 0
    &&& run.next_input is Some
    &&& run.state.step < run.limits.max_harness_steps
}

/// One bounded local step of a run at time `at`. A finished run is left alone;
/// a run bound to another model budget is refused; a cancelling run is
/// settled; a pending batch dispatches its next operation (or is collected);
/// a run whose loop budget is spent fails; otherwise the loop may advance.
#[verifier::rlimit(60)]
pub fn tick(d: &mut Data, actor: &Actor, id: u128, model_budget: &Option<ModelBudgetBinding>, at: u64) -> (r: Result<TickStep>)
    requires
        old(d).wf(),
    ensures
        final(d).wf(),
        !old(d).owns(*actor, id) ==> r == Err::<TickStep, Error>(Error::NotFound),
        old(d).owns(*actor, id) && old(d).run(id).status.is_terminal() ==> r == Ok::<TickStep, Error>(TickStep::Done)
            && *final(d) == *old(d),
        old(d).owns(*actor, id) && !old(d).run(id).status.is_terminal() && !same_binding(old(d).run(id).model_budget, *model_budget)
            ==> (r matches Err(Error::Conflict(_))) && *final(d) == *old(d),
        ready_to_advance(*old(d), *actor, id, *model_budget) <==> r == Ok::<TickStep, Error>(TickStep::Advance),
        r == Ok::<TickStep, Error>(TickStep::Advance) ==> *final(d) == *old(d),
        r matches Ok(TickStep::Execute { operation_id, attempt_id }) ==> {
            let run = old(d).run(id);
            let oi = old(d).operation_index(operation_id);
            &&& next_dispatch(*old(d), run) == Some(operation_id)
            &&& (old(d).operation(operation_id).status is Pending || old(d).operation(operation_id).status is WaitingApproval)
            &&& only_op_changed_spec(*old(d), *final(d), oi)
            &&& crate::dispatch::started(old(d).operations@[oi], final(d).operations@[oi], attempt_id, at)
        },
        ({
            let run = old(d).run(id);
            old(d).owns(*actor, id) && !run.status.is_stopped() && same_binding(run.model_budget, *model_budget)
                && crate::coordination::dependency_state(*old(d), *actor, id) == Some(crate::coordination::DependencyState::Ready)
                && run.pending_operations@.len() == 0 && run.next_input is Some
                && run.state.step >= run.limits.max_harness_steps
                ==> r == Ok::<TickStep, Error>(TickStep::Done) && final(d).run(id).status is Failed
                    && (final(d).run(id).reason matches Some(m) && m@ == "harness step budget exhausted"@)
                    && final(d).operations == old(d).operations
        }),
{
    let ri = d.owned_run(actor, id)?;
    if d.runs[ri].status.terminal() {
        return Ok(TickStep::Done);
    }
    if !binding_equals(&d.runs[ri].model_budget, model_budget) {
        return Err(conflict("run model budget binding changed"));
    }
    if d.runs[ri].status == RunStatus::Cancelling {
        crate::runtime::finish_cancellation(d, actor, id)?;
        return Ok(TickStep::Done);
    }
    if !crate::coordination::dependencies_ready(d, actor, id)? {
        return Ok(TickStep::Done);
    }
    if d.runs[ri].pending_operations.len() > 0 {
        match find_next_dispatch(d, ri) {
            Some(op) => {
                match crate::dispatch::begin_dispatch(d, actor, id, op, at)? {
                    Some(attempt) => {
                        return Ok(TickStep::Execute { operation_id: op, attempt_id: attempt });
                    },
                    None => {},
                }
            },
            None => {},
        }
        after_dispatch(d, actor, id)?;
        return Ok(TickStep::Done);
    }
    if d.runs[ri].next_input.is_none() {
        return Ok(TickStep::Done);
    }
    if d.runs[ri].state.step >= d.runs[ri].limits.max_harness_steps {
        let revision = d.runs[ri].revision;
        let ghost before = *d;
        crate::runtime::fail(d, actor, id, revision, "harness step budget exhausted")?;
        proof {
            assert(before.run_index(id) == ri);
            assert(d.runs@[ri as int].meta.id == id);
            assert(d.has_run(id));
            assert(d.run_index(id) == ri);
        }
        return Ok(TickStep::Done);
    }
    Ok(TickStep::Advance)
}

/// Only the operation at `oi` changed.
pub open spec fn only_op_changed_spec(old: Data, new: Data, oi: int) -> bool {
    crate::dispatch::only_op_changed(old, new, oi, new.operations@[oi])
}

} // verus!
