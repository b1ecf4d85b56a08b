//! The persisted delegation graph: coordination limits, task keys, and the
//! readiness of a delegated run's prerequisites.
use vstd::prelude::*;
use crate::error::{invalid, text, Error, Result};
use crate::json::put;
use crate::models::{Actor, EventType, RunStatus, VersionRef};
use crate::primitives::{uuid_quote, uuid_string, uuid_text};
use crate::store::{Data, Run, TeamTask};

verus! {

/// Limits on the children that runs of an agent may delegate.
#[derive(Clone, Copy, Debug, PartialEq, Eq, Structural)]
pub struct CoordinationPolicy {
    pub max_children: usize,
    pub max_repeated_task: usize,
    pub child_max_model_calls: u32,
    pub child_max_operations: u32,
    pub child_max_harness_steps: u64,
}

impl Default for CoordinationPolicy {
    fn default() -> (r: CoordinationPolicy)
        ensures
            r == (CoordinationPolicy {
                max_children: 16,
                max_repeated_task: 2,
                child_max_model_calls: 8,
                child_max_operations: 32,
                child_max_harness_steps: 128,
            }),
    {
        CoordinationPolicy {
            max_children: 16,
            max_repeated_task: 2,
            child_max_model_calls: 8,
            child_max_operations: 32,
            child_max_harness_steps: 128,
        }
    }
}

impl CoordinationPolicy {
    pub open spec fn valid(self) -> bool {
        &&& 1 <= self.max_children <= 256
        &&& 1 <= self.max_repeated_task <= self.max_children
        &&& self.child_max_model_calls > 0
        &&& self.child_max_operations > 0
        &&& self.child_max_harness_steps > 0
    }

    pub fn validate(&self) -> (r: Result<()>)
        ensures
            r is Ok <==> self.valid(),
            r is Err ==> r matches Err(Error::Invalid(_)),
    {
        if self.max_children == 0 || self.max_children > 256 || self.max_repeated_task == 0
            || self.max_repeated_task > self.max_children || self.child_max_model_calls == 0
            || self.child_max_operations == 0 || self.child_max_harness_steps == 0 {
            return Err(invalid("invalid coordination limits"));
        }
        Ok(())
    }
}

/// How a delegated task is named and ordered among its siblings.
#[derive(Clone, Debug, PartialEq, Eq)]
pub struct DelegationOptions {
    pub task_key: Option<String>,
    pub depends_on: Vec<String>,
    pub max_model_calls: Option<u32>,
}

impl Default for DelegationOptions {
    fn default() -> (r: DelegationOptions)
        ensures
            r.task_key is None,
            r.depends_on@.len() == 0,
            r.max_model_calls is None,
    {
        DelegationOptions { task_key: None, depends_on: Vec::new(), max_model_calls: None }
    }
}

pub open spec fn key_char(c: char) -> bool {
    ('a' <= c <= 'z') || ('A' <= c <= 'Z') || ('0' <= c <= '9') || c == '_' || c == '-'
}

/// A task key: 1 to 128 ASCII letters, digits, underscores or hyphens.
pub open spec fn task_key_valid(key: Seq<char>) -> bool {
    &&& 1 <= key.len() <= 128
    &&& forall|i: int| 0 <= i < key.len() ==> key_char(#[trigger] key[i])
}

pub fn valid_task_key(key: &str) -> (r: bool)
    ensures
        r == task_key_valid(key@),
{
    let mut ok = true;
    let mut n: usize = 0;
    for c in it: key.chars()
        invariant
            it.seq() == key@,
            n == (if it.index() < 129 { it.index() } else { 129 }),
            ok == (forall|k: int| 0 <= k < it.index() ==> key_char(#[trigger] key@[k])),
    {
        if !(('a' <= c && c <= 'z') || ('A' <= c && c <= 'Z') || ('0' <= c && c <= '9') || c == '_' || c == '-') {
            ok = false;
        }
        if n < 129 {
            n = n + 1;
        }
    }
    ok && 1 <= n && n <= 128
}

/// The delegation options are well formed: at most 64 dependencies, a
/// positive model-call narrowing, and valid task keys.
pub open spec fn options_valid(o: DelegationOptions) -> bool {
    &&& o.depends_on@.len() <= 64
    &&& o.max_model_calls != Some(0u32)
    &&& o.task_key matches Some(k) ==> task_key_valid(k@)
    &&& forall|i: int| 0 <= i < o.depends_on@.len() ==> task_key_valid(#[trigger] o.depends_on@[i]@)
}

pub fn validate_options(o: &DelegationOptions) -> (r: Result<()>)
    ensures
        r is Ok <==> options_valid(*o),
        r is Err ==> r matches Err(Error::Invalid(_)),
{
    if o.depends_on.len() > 64 || o.max_model_calls == Some(0u32) {
        return Err(invalid("invalid delegation options"));
    }
    let key_ok = match &o.task_key {
        None => true,
        Some(k) => valid_task_key(k.as_str()),
    };
    if !key_ok {
        return Err(invalid("task keys must be 1..128 ASCII letters, digits, underscores or hyphens"));
    }
    let mut i: usize = 0;
    while i < o.depends_on.len()
        invariant
            i <= o.depends_on@.len(),
            forall|k: int| 0 <= k < i ==> task_key_valid(#[trigger] o.depends_on@[k]@),
        decreases o.depends_on@.len() - i,
    {
        if !valid_task_key(o.depends_on[i].as_str()) {
            return Err(invalid("task keys must be 1..128 ASCII letters, digits, underscores or hyphens"));
        }
        i = i + 1;
    }
    Ok(())
}

impl Data {
    pub open spec fn has_task(&self, child: u128) -> bool {
        exists|i: int| 0 <= i < self.team_tasks@.len() && self.team_tasks@[i].child_run == child
    }

    pub open spec fn task_index(&self, child: u128) -> int {
        choose|i: int| 0 <= i < self.team_tasks@.len() && self.team_tasks@[i].child_run == child
    }

    /// The team task of a delegated run.
    pub open spec fn task(&self, child: u128) -> TeamTask {
        self.team_tasks@[self.task_index(child)]
    }

    pub fn find_task(&self, child: u128) -> (r: Option<usize>)
        requires
            self.wf(),
        ensures
            r is Some <==> self.has_task(child),
            r matches Some(i) ==> i == self.task_index(child) && i < self.team_tasks@.len(),
    {
        let mut i: usize = 0;
        while i < self.team_tasks.len()
            invariant
                self.wf(),
                i <= self.team_tasks@.len(),
                forall|k: int| 0 <= k < i ==> self.team_tasks@[k].child_run != child,
            decreases self.team_tasks@.len() - i,
        {
            if self.team_tasks[i].child_run == child {
                assert(self.has_task(child));
                let ghost j = self.task_index(child);
                assert(self.team_tasks@[i as int].child_run == child);
                assert(j == i);
                return Some(i);
            }
            i = i + 1;
        }
        None
    }
}

/// The coordination policy bound to an agent version.
pub struct CoordinationBinding {
    pub workspace: String,
    pub agent: VersionRef,
    pub policy: CoordinationPolicy,
}

pub open spec fn coordination_keys_unique(p: Seq<CoordinationBinding>) -> bool {
    forall|i: int, j: int| 0 <= i < p.len() && 0 <= j < p.len() && i != j
        ==> !(p[i].workspace@ == p[j].workspace@ && p[i].agent.same(p[j].agent))
}

impl Data {
    pub open spec fn has_coordination(&self, workspace: Seq<char>, agent: VersionRef) -> bool {
        exists|i: int| 0 <= i < self.coordination_policies@.len() && self.coordination_policies@[i].workspace@ == workspace
            && self.coordination_policies@[i].agent.same(agent)
    }

    pub open spec fn coordination_index(&self, workspace: Seq<char>, agent: VersionRef) -> int {
        choose|i: int| 0 <= i < self.coordination_policies@.len() && self.coordination_policies@[i].workspace@ == workspace
            && self.coordination_policies@[i].agent.same(agent)
    }

    /// The policy that governs delegation from runs of an agent version: the
    /// bound one, or the default.
    pub open spec fn coordination(&self, workspace: Seq<char>, agent: VersionRef) -> CoordinationPolicy {
        if self.has_coordination(workspace, agent) {
            self.coordination_policies@[self.coordination_index(workspace, agent)].policy
        } else {
            CoordinationPolicy {
                max_children: 16,
                max_repeated_task: 2,
                child_max_model_calls: 8,
                child_max_operations: 32,
                child_max_harness_steps: 128,
            }
        }
    }

    fn find_coordination(&self, workspace: &str, agent: &VersionRef) -> (r: Option<usize>)
        requires
            self.wf(),
        ensures
            r is Some <==> self.has_coordination(workspace@, *agent),
            r matches Some(i) ==> i == self.coordination_index(workspace@, *agent) && i < self.coordination_policies@.len(),
    {
        let mut i: usize = 0;
        while i < self.coordination_policies.len()
            invariant
                self.wf(),
                i <= self.coordination_policies@.len(),
                forall|k: int| 0 <= k < i ==> !(self.coordination_policies@[k].workspace@ == workspace@
                    && self.coordination_policies@[k].agent.same(*agent)),
            decreases self.coordination_policies@.len() - i,
        {
            let b = &self.coordination_policies[i];
            if crate::text::str_equal(b.workspace.as_str(), workspace) && b.agent.equals(agent) {
                assert(self.has_coordination(workspace@, *agent));
                let ghost j = self.coordination_index(workspace@, *agent);
                proof {
                    assert(coordination_keys_unique(self.coordination_policies@));
                    if j != i as int {
                        assert(!(self.coordination_policies@[j].workspace@ == self.coordination_policies@[i as int].workspace@
                            && self.coordination_policies@[j].agent.same(self.coordination_policies@[i as int].agent)));
                    }
                }
                return Some(i);
            }
            i = i + 1;
        }
        None
    }

    pub fn coordination_policy(&self, workspace: &str, agent: &VersionRef) -> (r: CoordinationPolicy)
        requires
            self.wf(),
        ensures
            r == self.coordination(workspace@, *agent),
    {
        match self.find_coordination(workspace, agent) {
            Some(i) => self.coordination_policies[i].policy,
            None => CoordinationPolicy::default(),
        }
    }
}

/// Bind the coordination policy of an agent version before its runs start.
/// A bound policy is immutable: the same one is accepted again, another
/// conflicts.
pub fn bind_coordination_policy(d: &mut Data, workspace: &str, agent: &VersionRef, policy: &CoordinationPolicy) -> (r: Result<()>)
    requires
        old(d).wf(),
    ensures
        final(d).wf(),
        crate::store::definitions_extended(*old(d), *final(d)),
        final(d).policies == old(d).policies,
        final(d).agents == old(d).agents,
        final(d).tools == old(d).tools,
        r is Err ==> *final(d) == *old(d),
        !policy.valid() ==> (r matches Err(Error::Invalid(_))),
        policy.valid() && !old(d).has_agent(workspace@, *agent) ==> r == Err::<(), Error>(Error::NotFound),
        policy.valid() && old(d).has_agent(workspace@, *agent) && old(d).has_coordination(workspace@, *agent) ==> {
            &&& r is Ok <==> old(d).coordination(workspace@, *agent) == *policy
            &&& r is Err ==> (r matches Err(Error::Conflict(_)))
            &&& *final(d) == *old(d)
        },
        policy.valid() && old(d).has_agent(workspace@, *agent) && !old(d).has_coordination(workspace@, *agent) ==> {
            &&& old(d).has_runs_of(workspace@, *agent) ==> (r matches Err(Error::Conflict(_)))
            &&& !old(d).has_runs_of(workspace@, *agent) ==> r is Ok
                && final(d).has_coordination(workspace@, *agent)
                && final(d).coordination(workspace@, *agent) == *policy
                && final(d).runs == old(d).runs && final(d).agents == old(d).agents
                && final(d).team_tasks == old(d).team_tasks && final(d).operations == old(d).operations
        },
{
    policy.validate()?;
    let ws = text(workspace);
    if d.find_agent(&ws, agent).is_none() {
        return Err(Error::NotFound);
    }
    match d.find_coordination(workspace, agent) {
        Some(i) => {
            if d.coordination_policies[i].policy != *policy {
                return Err(crate::error::conflict("coordination policy changed; publish a new agent version"));
            }
            Ok(())
        },
        None => {
            if d.runs_of(workspace, agent) {
                return Err(crate::error::conflict("bind coordination before starting runs"));
            }
            let ghost before = d.coordination_policies@;
            d.coordination_policies.push(CoordinationBinding { workspace: ws, agent: agent.copy(), policy: *policy });
            proof {
                let n = before.len() as int;
                assert(d.coordination_policies@.drop_last() =~= before);
                assert(d.has_coordination(workspace@, *agent)) by {
                    assert(d.coordination_policies@[n].workspace@ == workspace@);
                }
                let j = d.coordination_index(workspace@, *agent);
                assert(j == n) by {
                    if j != n {
                        assert(d.coordination_policies@[j] == before[j]);
                    }
                }
            }
            Ok(())
        },
    }
}

/// The team task of a run owned by `actor`, if it was delegated as one.
pub fn team_task<'a>(d: &'a Data, actor: &Actor, id: u128) -> (r: Result<Option<&'a TeamTask>>)
    requires
        d.wf(),
    ensures
        r is Ok <==> d.owns(*actor, id),
        r is Err ==> r == Err::<Option<&'a TeamTask>, Error>(Error::NotFound),
        r matches Ok(t) ==> (t is Some <==> d.has_task(id)),
        r matches Ok(Some(t)) ==> *t == d.task(id),
{
    d.owned_run(actor, id)?;
    match d.find_task(id) {
        None => Ok(None),
        Some(i) => Ok(Some(&d.team_tasks[i])),
    }
}

/// The readiness of a run's prerequisites.
#[derive(Clone, Copy, Debug, PartialEq, Eq, Structural)]
pub enum DependencyState {
    Ready,
    Waiting,
    Failed(u128),
}

/// A prerequisite that decides the state on its own: not visible to the
/// actor, or failed or cancelled.
pub open spec fn decisive(d: Data, actor: Actor, dep: u128) -> bool {
    !d.owns(actor, dep) || d.run(dep).status is Failed || d.run(dep).status is Cancelled
}

/// The first decisive prerequisite, or -1.
pub open spec fn first_decisive(d: Data, actor: Actor, deps: Seq<u128>) -> int
    decreases deps.len(),
{
    if deps.len() == 0 {
        -1
    } else {
        let i = first_decisive(d, actor, deps.drop_last());
        if i >= 0 {
            i
        } else if decisive(d, actor, deps.last()) {
            deps.len() - 1
        } else {
            -1
        }
    }
}

proof fn lemma_first_decisive(d: Data, actor: Actor, deps: Seq<u128>)
    ensures
        -1 <= first_decisive(d, actor, deps) < deps.len(),
        first_decisive(d, actor, deps) >= 0 ==> decisive(d, actor, deps[first_decisive(d, actor, deps)]),
        first_decisive(d, actor, deps) == -1 ==> forall|k: int| 0 <= k < deps.len() ==> !decisive(d, actor, #[trigger] deps[k]),
    decreases deps.len(),
{
    if deps.len() > 0 {
        lemma_first_decisive(d, actor, deps.drop_last());
        assert forall|k: int| 0 <= k < deps.len() - 1 implies deps.drop_last()[k] == deps[k] by {}
    }
}

/// The state of a run's prerequisites, or `None` where a prerequisite (or the
/// run) is not visible to the actor. A stopped run waits; a run without a
/// task is ready.
pub open spec fn dependency_state(d: Data, actor: Actor, id: u128) -> Option<DependencyState> {
    if !d.owns(actor, id) {
        None
    } else if d.run(id).status.is_stopped() || !d.has_task(id) {
        if d.run(id).status.is_stopped() { Some(DependencyState::Waiting) } else { Some(DependencyState::Ready) }
    } else {
        let deps = d.task(id).dependencies@;
        let i = first_decisive(d, actor, deps);
        if i >= 0 {
            if !d.owns(actor, deps[i]) { None } else { Some(DependencyState::Failed(deps[i])) }
        } else if exists|k: int| 0 <= k < deps.len() && !(d.run(#[trigger] deps[k]).status is Completed) {
            Some(DependencyState::Waiting)
        } else {
            Some(DependencyState::Ready)
        }
    }
}

pub fn compute_dependency_state(d: &Data, actor: &Actor, id: u128) -> (r: Result<DependencyState>)
    requires
        d.wf(),
    ensures
        r is Err <==> dependency_state(*d, *actor, id) is None,
        r is Err ==> r == Err::<DependencyState, Error>(Error::NotFound),
        r matches Ok(s) ==> dependency_state(*d, *actor, id) == Some(s),
{
    let ri = d.owned_run(actor, id)?;
    if d.runs[ri].status.terminal() || d.runs[ri].status == RunStatus::Cancelling {
        return Ok(DependencyState::Waiting);
    }
    let ti = match d.find_task(id) {
        None => return Ok(DependencyState::Ready),
        Some(ti) => ti,
    };
    let deps = &d.team_tasks[ti].dependencies;
    proof {
        lemma_first_decisive(*d, *actor, deps@);
        assert(d.task(id).dependencies@ == deps@);
        assert(d.has_task(id));
        assert(!d.run(id).status.is_stopped());
    }
    let mut waiting = false;
    let mut k: usize = 0;
    while k < deps.len()
        invariant
            d.wf(),
            d.owns(*actor, id),
            !d.run(id).status.is_stopped(),
            d.has_task(id),
            d.task(id).dependencies@ == deps@,
            k <= deps@.len(),
            first_decisive(*d, *actor, deps@.take(k as int)) == -1,
            -1 <= first_decisive(*d, *actor, deps@) < deps@.len(),
            first_decisive(*d, *actor, deps@) >= 0 ==> decisive(*d, *actor, deps@[first_decisive(*d, *actor, deps@)]),
            first_decisive(*d, *actor, deps@) == -1 ==> forall|m: int| 0 <= m < deps@.len() ==> !decisive(*d, *actor, #[trigger] deps@[m]),
            waiting == exists|m: int| 0 <= m < k && !(d.run(#[trigger] deps@[m]).status is Completed),
        decreases deps@.len() - k,
    {
        proof {
            assert(deps@.take(k as int + 1).drop_last() =~= deps@.take(k as int));
        }
        let dep = deps[k];
        let found = match d.owned_run(actor, dep) {
            Err(_) => None,
            Ok(di) => Some(di),
        };
        match found {
            None => {
                proof {
                    assert(first_decisive(*d, *actor, deps@.take(k as int + 1)) == k);
                    lemma_decisive_prefix(*d, *actor, deps@, k as int + 1);
                }
                return Err(Error::NotFound);
            },
            Some(di) => {
                if d.runs[di].status == RunStatus::Failed || d.runs[di].status == RunStatus::Cancelled {
                    proof {
                        assert(first_decisive(*d, *actor, deps@.take(k as int + 1)) == k);
                        lemma_decisive_prefix(*d, *actor, deps@, k as int + 1);
                    }
                    return Ok(DependencyState::Failed(dep));
                }
                if d.runs[di].status != RunStatus::Completed {
                    waiting = true;
                }
            },
        }
        k = k + 1;
    }
    proof {
        assert(deps@.take(deps@.len() as int) =~= deps@);
    }
    if waiting {
        Ok(DependencyState::Waiting)
    } else {
        Ok(DependencyState::Ready)
    }
}

proof fn lemma_decisive_prefix(d: Data, actor: Actor, deps: Seq<u128>, n: int)
    requires
        0 <= n <= deps.len(),
        first_decisive(d, actor, deps.take(n)) >= 0,
    ensures
        first_decisive(d, actor, deps) == first_decisive(d, actor, deps.take(n)),
    decreases deps.len() - n,
{
    if n < deps.len() {
        assert(deps.take(n + 1).drop_last() =~= deps.take(n));
        lemma_decisive_prefix(d, actor, deps, n + 1);
    } else {
        assert(deps.take(n) =~= deps);
    }
}

/// Called before any effects of a step. A failed prerequisite settles the
/// unstarted dependent as failed; waiting prerequisites leave it queued
/// without consuming budget.
pub fn dependencies_ready(d: &mut Data, actor: &Actor, id: u128) -> (r: Result<bool>)
    requires
        old(d).wf(),
    ensures
        final(d).wf(),
        r is Err <==> dependency_state(*old(d), *actor, id) is None,
        r is Err ==> *final(d) == *old(d) && r == Err::<bool, Error>(Error::NotFound),
        dependency_state(*old(d), *actor, id) == Some(DependencyState::Ready) ==> r == Ok::<bool, Error>(true) && *final(d) == *old(d),
        dependency_state(*old(d), *actor, id) == Some(DependencyState::Waiting) ==> r == Ok::<bool, Error>(false) && *final(d) == *old(d),
        dependency_state(*old(d), *actor, id) matches Some(DependencyState::Failed(dep)) ==> {
            let ri = old(d).run_index(id);
            let run = old(d).runs@[ri];
            let run2 = final(d).runs@[ri];
            &&& r == Ok::<bool, Error>(false)
            &&& crate::runtime::only_run_changed(*old(d), *final(d), ri, run2)
            &&& run2 == (Run { status: RunStatus::Failed, reason: run2.reason, next_input: None,
                revision: run.revision.wrapping_add(1), ..run })
            &&& run2.reason matches Some(m) && m@ == "dependency "@ + uuid_string(dep) + " did not complete successfully"@
        },
{
    let state = compute_dependency_state(d, actor, id)?;
    match state {
        DependencyState::Ready => Ok(true),
        DependencyState::Waiting => Ok(false),
        DependencyState::Failed(dep) => {
            let ri = d.owned_run(actor, id)?;
            let ghost before = *d;
            let mut reason = text("dependency ");
            let name = uuid_text(dep);
            put(&mut reason, name.as_str());
            put(&mut reason, " did not complete successfully");
            d.runs[ri].status = RunStatus::Failed;
            d.runs[ri].reason = Some(reason);
            d.runs[ri].next_input = None;
            d.runs[ri].revision = d.runs[ri].revision.wrapping_add(1);
            proof {
                crate::runtime::lemma_update_run_wf(before, ri as int, d.runs@[ri as int]);
                assert(d.runs@ == before.runs@.update(ri as int, d.runs@[ri as int]));
            }
            let workspace = d.runs[ri].meta.workspace_id.clone();
            let mut payload = text("{\"status\":\"failed\",\"failed_dependency\":");
            let q = uuid_quote(dep);
            put(&mut payload, q.as_str());
            put(&mut payload, "}");
            d.event(id, &workspace, None, EventType::RunFinished, None, payload);
            Ok(false)
        },
    }
}

} // verus!
