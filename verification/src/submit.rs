//! Submitting runs: the run, its request key and its scheduling intent are
//! committed in one transaction.
use vstd::prelude::*;
use crate::error::{conflict, invalid, text, Error, Result};
use crate::harness::{Checkpoint, Input};
use crate::json::{digest_text, put, put_decimal, put_quoted, text_digest};
use crate::models::{Actor, EventType, Goal, Metadata, RunStatus, Usage, VersionRef, SCHEMA_VERSION};
use crate::primitives::{decimal, json_string, new_id, now};
use crate::scheduling::{same_optional_target, target_valid, ScheduleTarget};
use crate::store::{binding_equals, same_binding, Data, ModelBudgetBinding, Run, ScheduleRequest, Submission};
use crate::text::{blank, is_blank, utf8_len};

verus! {

pub open spec fn version_ref_json(r: VersionRef) -> Seq<char> {
    "{\"id\":"@ + json_string(r.id@) + ",\"version\":"@ + decimal(r.version as nat) + "}"@
}

pub open spec fn goal_json(g: Goal) -> Seq<char> {
    "{\"objective\":"@ + json_string(g.objective@) + ",\"success_schema\":"@ + g.success_schema@
        + ",\"criteria\":"@ + g.criteria@ + "}"@
}

pub open spec fn optional_goal_json(g: Option<Goal>) -> Seq<char> {
    match g {
        None => "null"@,
        Some(g) => goal_json(g),
    }
}

/// The digest that identifies a submission: SHA-256 of the JSON array
/// `[agent, input]`, or `[agent, input, goal]` when there is a goal.
pub open spec fn input_digest(agent: VersionRef, input: Seq<char>, goal: Option<Goal>) -> Seq<char> {
    match goal {
        None => text_digest("["@ + version_ref_json(agent) + ","@ + input + "]"@),
        Some(g) => text_digest("["@ + version_ref_json(agent) + ","@ + input + ","@ + goal_json(g) + "]"@),
    }
}

pub(crate) fn write_version_ref(out: &mut String, r: &VersionRef)
    ensures
        final(out)@ == old(out)@ + version_ref_json(*r),
{
    put(out, "{\"id\":");
    put_quoted(out, r.id.as_str());
    put(out, ",\"version\":");
    put_decimal(out, r.version as u64);
    put(out, "}");
}

fn write_goal(out: &mut String, g: &Goal)
    ensures
        final(out)@ == old(out)@ + goal_json(*g),
{
    put(out, "{\"objective\":");
    put_quoted(out, g.objective.as_str());
    put(out, ",\"success_schema\":");
    put(out, g.success_schema.as_str());
    put(out, ",\"criteria\":");
    put(out, g.criteria.as_str());
    put(out, "}");
}

pub fn compute_input_digest(agent: &VersionRef, input: &String, goal: &Option<Goal>) -> (r: String)
    ensures
        r@ == input_digest(*agent, input@, *goal),
{
    let mut out = text("[");
    write_version_ref(&mut out, agent);
    put(&mut out, ",");
    put(&mut out, input.as_str());
    match goal {
        None => {},
        Some(g) => {
            put(&mut out, ",");
            write_goal(&mut out, g);
        },
    }
    put(&mut out, "]");
    digest_text(&out)
}

/// Byte length of the JSON text of an optional goal.
fn goal_bytes(goal: &Option<Goal>) -> (r: usize)
    ensures
        r == utf8_len(optional_goal_json(*goal)),
{
    let mut out = String::new();
    match goal {
        None => put(&mut out, "null"),
        Some(g) => write_goal(&mut out, g),
    }
    proof {
        assert(out@ =~= optional_goal_json(*goal));
    }
    crate::text::byte_length(&out)
}

/// A goal's objective is present and at most 16 KiB, and its success schema is usable.
pub open spec fn goal_valid(g: Goal) -> bool {
    &&& !blank(g.objective@)
    &&& utf8_len(g.objective@) <= 16384
    &&& crate::definitions::schema_valid(g.success_schema@)
}

/// The checks made before the store is consulted.
pub open spec fn request_valid(actor: Actor, request_key: Option<String>, goal: Option<Goal>, schedule: Option<ScheduleTarget>) -> bool {
    &&& schedule matches Some(t) ==> target_valid(t)
    &&& goal matches Some(g) ==> goal_valid(g)
    &&& !blank(actor.id@) && !blank(actor.workspace_id@)
    &&& request_key matches Some(k) ==> k@.len() > 0 && utf8_len(k@) <= 256
}

impl Data {
    pub open spec fn has_submission(&self, workspace: Seq<char>, actor: Seq<char>, key: Seq<char>) -> bool {
        exists|i: int| 0 <= i < self.submissions@.len() && self.submissions@[i].workspace_id@ == workspace
            && self.submissions@[i].actor_id@ == actor && self.submissions@[i].key@ == key
    }

    pub open spec fn submission_index(&self, workspace: Seq<char>, actor: Seq<char>, key: Seq<char>) -> int {
        choose|i: int| 0 <= i < self.submissions@.len() && self.submissions@[i].workspace_id@ == workspace
            && self.submissions@[i].actor_id@ == actor && self.submissions@[i].key@ == key
    }

    /// The run that a request key names in an actor's scope.
    pub open spec fn submitted(&self, workspace: Seq<char>, actor: Seq<char>, key: Seq<char>) -> u128 {
        self.submissions@[self.submission_index(workspace, actor, key)].run_id
    }

    pub fn find_submission(&self, workspace: &String, actor: &String, key: &String) -> (r: Option<usize>)
        requires
            self.wf(),
        ensures
            r is Some <==> self.has_submission(workspace@, actor@, key@),
            r matches Some(i) ==> i == self.submission_index(workspace@, actor@, key@) && i < self.submissions@.len(),
    {
        let mut i: usize = 0;
        while i < self.submissions.len()
            invariant
                self.wf(),
                i <= self.submissions@.len(),
                forall|k: int| 0 <= k < i ==> !(self.submissions@[k].workspace_id@ == workspace@
                    && self.submissions@[k].actor_id@ == actor@ && self.submissions@[k].key@ == key@),
            decreases self.submissions@.len() - i,
        {
            let s = &self.submissions[i];
            if s.workspace_id == *workspace && s.actor_id == *actor && s.key == *key {
                assert(self.has_submission(workspace@, actor@, key@));
                let ghost j = self.submission_index(workspace@, actor@, key@);
                assert(self.submissions@[i as int].key@ == key@);
                assert(j == i);
                return Some(i);
            }
            i = i + 1;
        }
        None
    }
}

/// A repeated key is accepted only for the same submission.
pub open spec fn same_submission(d: Data, id: u128, digest: Seq<char>, model_budget: Option<ModelBudgetBinding>, schedule: Option<ScheduleTarget>) -> bool {
    &&& d.has_run(id)
    &&& d.run(id).input_digest@ == digest
    &&& same_binding(d.run(id).model_budget, model_budget)
    &&& same_optional_target(d.schedule_of(id), schedule)
}

/// What is stored of a new run.
pub open spec fn new_run(run: Run, actor: Actor, agent_ref: VersionRef, input: Seq<char>, goal: Option<Goal>,
    request_key: Option<String>, model_budget: Option<ModelBudgetBinding>, d: Data, initial_state: Checkpoint) -> bool {
    &&& run.meta.workspace_id@ == actor.workspace_id@
    &&& run.agent_ref.same(agent_ref)
    &&& run.parent_operation is None
    &&& same_binding(run.model_budget, model_budget)
    &&& run.actor_id@ == actor.id@
    &&& run.request_key == request_key
    &&& run.input_digest@ == input_digest(agent_ref, input, goal)
    &&& run.input@ == input
    &&& run.goal == goal
    &&& run.status == RunStatus::Queued
    &&& run.reason is None && run.wait is None && run.result is None && run.assessment is None
    &&& run.verified_candidate_digest is None
    &&& run.state == initial_state
    &&& run.pending_operations@.len() == 0
    &&& run.next_input matches Some(Input::Start { value }) && value@ == input
    &&& run.limits == d.agent(actor.workspace_id@, agent_ref).limits
    &&& run.usage.zero()
    &&& run.revision == 0
}

/// A run identifier is taken: by a run, a scheduling request or an event log.
pub open spec fn id_in_use(d: Data, id: u128) -> bool {
    d.has_run(id) || d.has_schedule(id) || d.has_log(id)
}

/// Commit a run of `agent_ref` on `input`, with an optional goal, request key
/// and scheduling target, in one transaction.
///
/// A request key already used in the actor's scope returns its run, provided
/// the input digest, model budget binding and scheduling target are the same;
/// otherwise the submission conflicts. `initial_state` is the agent loop's
/// initial checkpoint and `model_budget` the executor's budget binding.
/// The goal's criteria are JSON text that the caller has validated.
/// `id` is the identifier that the new run takes; when some run, scheduling
/// request or event log already holds it, the submission conflicts.
#[verifier::rlimit(80)]
pub fn submit_scheduled_with(
    d: &mut Data,
    actor: &Actor,
    agent_ref: VersionRef,
    input: String,
    request_key: Option<String>,
    goal: Option<Goal>,
    schedule: Option<ScheduleTarget>,
    model_budget: Option<ModelBudgetBinding>,
    initial_state: Checkpoint,
    id: u128,
) -> (r: Result<u128>)
    requires
        old(d).wf(),
    ensures
        final(d).wf(),
        r is Err ==> *final(d) == *old(d),
        !request_valid(*actor, request_key, goal, schedule) ==> r is Err,
        (schedule matches Some(t) && !target_valid(t)) ==> r matches Err(Error::Invalid(_)),
        (blank(actor.id@) || blank(actor.workspace_id@)) && (schedule matches Some(t) ==> target_valid(t))
            && (goal matches Some(g) ==> goal_valid(g)) ==> r == Err::<u128, Error>(Error::Denied),
        request_valid(*actor, request_key, goal, schedule) ==> {
            let digest = input_digest(agent_ref, input@, goal);
            match request_key {
                Some(k) if old(d).has_submission(actor.workspace_id@, actor.id@, k@) => {
                    let id = old(d).submitted(actor.workspace_id@, actor.id@, k@);
                    &&& same_submission(*old(d), id, digest, model_budget, schedule) ==> r == Ok::<u128, Error>(id)
                    &&& !same_submission(*old(d), id, digest, model_budget, schedule) ==> (r matches Err(Error::Conflict(_)))
                    &&& *final(d) == *old(d)
                },
                _ => {
                    &&& !old(d).has_agent(actor.workspace_id@, agent_ref) ==> r == Err::<u128, Error>(Error::NotFound)
                    &&& r is Ok ==> {
                        let agent = old(d).agent(actor.workspace_id@, agent_ref);
                        &&& old(d).has_agent(actor.workspace_id@, agent_ref)
                        &&& utf8_len(input@) <= agent.limits.max_payload_bytes
                        &&& utf8_len(optional_goal_json(goal)) <= agent.limits.max_payload_bytes
                        &&& agent.input_schema matches Some(s) ==> crate::definitions::schema_valid(s@)
                            && crate::definitions::json_schema_accepts(s@, input@)
                    }
                    &&& old(d).has_agent(actor.workspace_id@, agent_ref) && utf8_len(input@) > old(d).agent(actor.workspace_id@, agent_ref).limits.max_payload_bytes
                        ==> (r matches Err(Error::Invalid(_)))
                    &&& ({
                        let agent = old(d).agent(actor.workspace_id@, agent_ref);
                        old(d).has_agent(actor.workspace_id@, agent_ref)
                            && utf8_len(input@) <= agent.limits.max_payload_bytes
                            && utf8_len(optional_goal_json(goal)) <= agent.limits.max_payload_bytes
                            && (agent.input_schema matches Some(s) ==> crate::definitions::schema_valid(s@)
                                && crate::definitions::json_schema_accepts(s@, input@))
                    }) ==> (id_in_use(*old(d), id) ==> (r matches Err(Error::Conflict(_))))
                        && (!id_in_use(*old(d), id) ==> r == Ok::<u128, Error>(id))
                    &&& r is Ok ==> r == Ok::<u128, Error>(id)
                    &&& r matches Ok(id) ==> {
                        &&& !old(d).has_run(id)
                        &&& final(d).runs@.len() == old(d).runs@.len() + 1
                        &&& final(d).runs@.drop_last() == old(d).runs@
                        &&& final(d).runs@.last().meta.id == id
                        &&& new_run(final(d).runs@.last(), *actor, agent_ref, input@, goal, request_key, model_budget, *old(d), initial_state)
                        &&& final(d).operations == old(d).operations
                        &&& final(d).agents == old(d).agents && final(d).tools == old(d).tools
                        &&& final(d).policies == old(d).policies && final(d).inputs == old(d).inputs
                        &&& final(d).model_budgets == old(d).model_budgets && final(d).team_tasks == old(d).team_tasks
                        &&& final(d).schedule_of(id) == schedule
                        &&& schedule is Some ==> final(d).schedule_requests@.last().acknowledged == false
                        &&& request_key matches Some(k) ==> final(d).has_submission(actor.workspace_id@, actor.id@, k@)
                            && final(d).submitted(actor.workspace_id@, actor.id@, k@) == id
                        &&& request_key is None ==> final(d).submissions == old(d).submissions
                        &&& final(d).event_types(id) == seq![crate::models::EventType::RunCreated]
                    }
                },
            }
        },
{
    match &schedule {
        Some(t) => t.validate()?,
        None => {},
    }
    match &goal {
        Some(g) => {
            if is_blank(g.objective.as_str()) || crate::text::byte_length(&g.objective) > 16384 {
                return Err(invalid("goal requires an objective of at most 16 KiB"));
            }
            crate::definitions::validate_schema(g.success_schema.as_str())?;
        },
        None => {},
    }
    if is_blank(actor.id.as_str()) || is_blank(actor.workspace_id.as_str()) {
        return Err(Error::Denied);
    }
    match &request_key {
        Some(k) => {
            if k.as_str().is_empty() || crate::text::byte_length(k) > 256 {
                return Err(invalid("request key length"));
            }
        },
        None => {},
    }
    let digest = compute_input_digest(&agent_ref, &input, &goal);
    match &request_key {
        Some(k) => match d.find_submission(&actor.workspace_id, &actor.id, k) {
            Some(si) => {
                let id = d.submissions[si].run_id;
                let same = match d.find_run(id) {
                    None => false,
                    Some(ri) => {
                        let found = match d.find_schedule(id) {
                            None => None,
                            Some(qi) => Some(&d.schedule_requests[qi].target),
                        };
                        d.runs[ri].input_digest == digest && binding_equals(&d.runs[ri].model_budget, &model_budget)
                            && crate::scheduling::optional_target_equals(found, schedule.as_ref())
                    },
                };
                if !same {
                    return Err(conflict("submission key reused with different input or model budget"));
                }
                return Ok(id);
            },
            None => {},
        },
        None => {},
    }
    let ai = match d.find_agent(&actor.workspace_id, &agent_ref) {
        None => return Err(Error::NotFound),
        Some(ai) => ai,
    };
    let limit = d.agents[ai].limits.max_payload_bytes;
    if crate::text::byte_length(&input) > limit {
        return Err(invalid("payload exceeds configured limit"));
    }
    if goal_bytes(&goal) > limit {
        return Err(invalid("payload exceeds configured limit"));
    }
    match &d.agents[ai].input_schema {
        Some(s) => crate::definitions::validate(s.as_str(), input.as_str())?,
        None => {},
    }
    if d.find_run(id).is_some() || d.find_schedule(id).is_some() || d.find_log(id).is_some() {
        proof {
            assert(id_in_use(*old(d), id));
        }
        return Err(conflict("run identifier already in use"));
    }
    let limits = d.agents[ai].limits.copy();
    let start = input.clone();
    let meta = Metadata { id, workspace_id: actor.workspace_id.clone(), schema_version: SCHEMA_VERSION, created_at: now() };
    let key_entry = match &request_key {
        Some(k) => Some(Submission { workspace_id: actor.workspace_id.clone(), actor_id: actor.id.clone(), key: k.clone(), run_id: id }),
        None => None,
    };
    let ghost old_key = request_key;
    let ghost old_schedule = schedule;
    let run = Run {
        meta,
        agent_ref,
        parent_operation: None,
        model_budget,
        actor_id: actor.id.clone(),
        request_key,
        input_digest: digest,
        input,
        goal,
        status: RunStatus::Queued,
        reason: None,
        wait: None,
        state: initial_state,
        pending_operations: Vec::new(),
        next_input: Some(Input::Start { value: start }),
        limits,
        usage: Usage::new(),
        result: None,
        assessment: None,
        verified_candidate_digest: None,
        revision: 0,
    };
    let ghost before = *d;
    d.runs.push(run);
    proof {
        assert(d.runs@[d.runs@.len() - 1].meta.id == id);
    }
    match schedule {
        Some(target) => {
            d.schedule_requests.push(ScheduleRequest { run_id: id, target, acknowledged: false, last_attempt: 0 });
        },
        None => {},
    }
    match key_entry {
        Some(e) => d.submissions.push(e),
        None => {},
    }
    let ghost mid = *d;
    proof {
        if mid.has_schedule(id) {
            let k = mid.schedule_index(id);
            assert(mid.schedule_requests@[k].run_id == id);
            assert(k == mid.schedule_requests@.len() - 1);
        }
        match old_schedule {
            Some(t) => {
                let last = (mid.schedule_requests@.len() - 1) as int;
                assert(mid.schedule_requests@[last].run_id == id);
                assert(mid.has_schedule(id));
            },
            None => {
                assert(mid.schedule_requests == before.schedule_requests);
            },
        }
        assert(mid.schedule_of(id) == old_schedule);
        assert(!mid.has_log(id));
        assert(mid.events_of(id) =~= Seq::<crate::store::Event>::empty());
        match old_key {
            Some(k) => {
                let last = (mid.submissions@.len() - 1) as int;
                assert(mid.submissions@[last].key@ == k@);
                assert(mid.has_submission(actor.workspace_id@, actor.id@, k@));
                assert(mid.submission_index(actor.workspace_id@, actor.id@, k@) == last);
            },
            None => {},
        }
    }
    let workspace = actor.workspace_id.clone();
    d.event(id, &workspace, None, EventType::RunCreated, Some(actor.id.clone()), text("{}"));
    proof {
        assert(d.events_of(id).len() == 1);
        assert(d.event_types(id) =~= seq![crate::models::EventType::RunCreated]);
        assert(d.schedule_requests == mid.schedule_requests);
    }
    Ok(id)
}

/// Commit a run of `agent_ref` on `input`, with an optional goal, request key
/// and scheduling target, in one transaction.
///
/// A request key already used in the actor's scope returns its run, provided
/// the input digest, model budget binding and scheduling target are the same;
/// otherwise the submission conflicts. `initial_state` is the agent loop's
/// initial checkpoint and `model_budget` the executor's budget binding.
/// The goal's criteria are JSON text that the caller has validated. The new
/// run's identifier is drawn at random; see `submit_scheduled_with`.
pub fn submit_scheduled(
    d: &mut Data,
    actor: &Actor,
    agent_ref: VersionRef,
    input: String,
    request_key: Option<String>,
    goal: Option<Goal>,
    schedule: Option<ScheduleTarget>,
    model_budget: Option<ModelBudgetBinding>,
    initial_state: Checkpoint,
) -> (r: Result<u128>)
    requires
        old(d).wf(),
    ensures
        final(d).wf(),
        r is Err ==> *final(d) == *old(d),
        !request_valid(*actor, request_key, goal, schedule) ==> r is Err,
        (schedule matches Some(t) && !target_valid(t)) ==> r matches Err(Error::Invalid(_)),
        (blank(actor.id@) || blank(actor.workspace_id@)) && (schedule matches Some(t) ==> target_valid(t))
            && (goal matches Some(g) ==> goal_valid(g)) ==> r == Err::<u128, Error>(Error::Denied),
        request_valid(*actor, request_key, goal, schedule) ==> {
            let digest = input_digest(agent_ref, input@, goal);
            match request_key {
                Some(k) if old(d).has_submission(actor.workspace_id@, actor.id@, k@) => {
                    let id = old(d).submitted(actor.workspace_id@, actor.id@, k@);
                    &&& same_submission(*old(d), id, digest, model_budget, schedule) ==> r == Ok::<u128, Error>(id)
                    &&& !same_submission(*old(d), id, digest, model_budget, schedule) ==> (r matches Err(Error::Conflict(_)))
                    &&& *final(d) == *old(d)
                },
                _ => {
                    &&& !old(d).has_agent(actor.workspace_id@, agent_ref) ==> r == Err::<u128, Error>(Error::NotFound)
                    &&& r is Ok ==> {
                        let agent = old(d).agent(actor.workspace_id@, agent_ref);
                        &&& old(d).has_agent(actor.workspace_id@, agent_ref)
                        &&& utf8_len(input@) <= agent.limits.max_payload_bytes
                        &&& utf8_len(optional_goal_json(goal)) <= agent.limits.max_payload_bytes
                        &&& agent.input_schema matches Some(s) ==> crate::definitions::schema_valid(s@)
                            && crate::definitions::json_schema_accepts(s@, input@)
                    }
                    &&& old(d).has_agent(actor.workspace_id@, agent_ref) && utf8_len(input@) > old(d).agent(actor.workspace_id@, agent_ref).limits.max_payload_bytes
                        ==> (r matches Err(Error::Invalid(_)))
                    &&& ({
                        let agent = old(d).agent(actor.workspace_id@, agent_ref);
                        old(d).has_agent(actor.workspace_id@, agent_ref)
                            && utf8_len(input@) <= agent.limits.max_payload_bytes
                            && utf8_len(optional_goal_json(goal)) <= agent.limits.max_payload_bytes
                            && (agent.input_schema matches Some(s) ==> crate::definitions::schema_valid(s@)
                                && crate::definitions::json_schema_accepts(s@, input@))
                    }) ==> r is Ok || ((r matches Err(Error::Conflict(_))) && exists|x: u128| id_in_use(*old(d), x))
                    &&& r matches Ok(id) ==> {
                        &&& !old(d).has_run(id)
                        &&& final(d).runs@.len() == old(d).runs@.len() + 1
                        &&& final(d).runs@.drop_last() == old(d).runs@
                        &&& final(d).runs@.last().meta.id == id
                        &&& new_run(final(d).runs@.last(), *actor, agent_ref, input@, goal, request_key, model_budget, *old(d), initial_state)
                        &&& final(d).operations == old(d).operations
                        &&& final(d).agents == old(d).agents && final(d).tools == old(d).tools
                        &&& final(d).policies == old(d).policies && final(d).inputs == old(d).inputs
                        &&& final(d).model_budgets == old(d).model_budgets && final(d).team_tasks == old(d).team_tasks
                        &&& final(d).schedule_of(id) == schedule
                        &&& schedule is Some ==> final(d).schedule_requests@.last().acknowledged == false
                        &&& request_key matches Some(k) ==> final(d).has_submission(actor.workspace_id@, actor.id@, k@)
                            && final(d).submitted(actor.workspace_id@, actor.id@, k@) == id
                        &&& request_key is None ==> final(d).submissions == old(d).submissions
                        &&& final(d).event_types(id) == seq![crate::models::EventType::RunCreated]
                    }
                },
            }
        },
{
    let id = new_id();
    let r = submit_scheduled_with(d, actor, agent_ref, input, request_key, goal, schedule, model_budget, initial_state, id);
    proof {
        if r is Err && id_in_use(*old(d), id) {
            assert(exists|x: u128| id_in_use(*old(d), x));
        }
    }
    r
}

} // verus!
