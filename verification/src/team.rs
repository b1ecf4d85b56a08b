//! Delegating a task to a child run: admission, the immutable submission,
//! the parent link, the task graph and the narrowed budget commit together,
//! so no worker can observe an executable orphan child.
use vstd::prelude::*;
use crate::coordination::{options_valid, validate_options, CoordinationPolicy, DelegationOptions};
use crate::error::{invalid, text, Error, Result};
use crate::harness::{Checkpoint, Input};
use crate::json::{digest_text, put, put_decimal, put_quoted, text_digest};
use crate::models::{Actor, EventType, Limits, Metadata, OperationStatus, RunStatus, Usage, VersionRef, SCHEMA_VERSION};
use crate::primitives::{decimal, json_string, new_id, now, uuid_json, uuid_quote, uuid_string, uuid_text};
use crate::store::{binding_equals, same_binding, Data, ModelBudgetBinding, OperationRequest, Run, TeamTask};
use crate::submit::version_ref_json;
use crate::text::utf8_len;

verus! {

/// JSON of task keys, comma separated.
pub open spec fn keys_json(s: Seq<String>) -> Seq<char>
    decreases s.len(),
{
    if s.len() == 0 {
        Seq::empty()
    } else if s.len() == 1 {
        json_string(s[0]@)
    } else {
        keys_json(s.drop_last()) + ","@ + json_string(s.last()@)
    }
}

/// JSON of run identifiers, comma separated.
pub open spec fn ids_json(s: Seq<u128>) -> Seq<char>
    decreases s.len(),
{
    if s.len() == 0 {
        Seq::empty()
    } else if s.len() == 1 {
        uuid_json(s[0])
    } else {
        ids_json(s.drop_last()) + ","@ + uuid_json(s.last())
    }
}

pub open spec fn options_json(o: DelegationOptions) -> Seq<char> {
    "{\"task_key\":"@ + (match o.task_key { None => "null"@, Some(k) => json_string(k@) })
        + ",\"depends_on\":["@ + keys_json(o.depends_on@) + "],\"max_model_calls\":"@
        + (match o.max_model_calls { None => "null"@, Some(n) => decimal(n as nat) }) + "}"@
}

/// Identity of a delegation: SHA-256 of the JSON `[agent, input, options]`.
pub open spec fn delegation_digest(agent: VersionRef, input: Seq<char>, o: DelegationOptions) -> Seq<char> {
    text_digest("["@ + version_ref_json(agent) + ","@ + input + ","@ + options_json(o) + "]"@)
}

/// What a repetition compares: SHA-256 of the JSON `[agent, input, dependencies]`.
pub open spec fn repetition_digest(agent: VersionRef, input: Seq<char>, deps: Seq<u128>) -> Seq<char> {
    text_digest("["@ + version_ref_json(agent) + ","@ + input + ",["@ + ids_json(deps) + "]]"@)
}

fn write_keys(out: &mut String, v: &Vec<String>)
    ensures
        final(out)@ == old(out)@ + keys_json(v@),
{
    let ghost start = out@;
    let mut i: usize = 0;
    while i < v.len()
        invariant
            i <= v@.len(),
            out@ == start + keys_json(v@.take(i as int)),
        decreases v@.len() - i,
    {
        proof {
            assert(v@.take(i as int + 1).drop_last() =~= v@.take(i as int));
            if i == 0 {
                assert(v@.take(0) =~= Seq::<String>::empty());
            }
        }
        if i > 0 {
            put(out, ",");
        }
        put_quoted(out, v[i].as_str());
        i = i + 1;
    }
    proof {
        assert(v@.take(v@.len() as int) =~= v@);
    }
}

fn write_ids(out: &mut String, v: &Vec<u128>)
    ensures
        final(out)@ == old(out)@ + ids_json(v@),
{
    let ghost start = out@;
    let mut i: usize = 0;
    while i < v.len()
        invariant
            i <= v@.len(),
            out@ == start + ids_json(v@.take(i as int)),
        decreases v@.len() - i,
    {
        proof {
            assert(v@.take(i as int + 1).drop_last() =~= v@.take(i as int));
            if i == 0 {
                assert(v@.take(0) =~= Seq::<u128>::empty());
            }
        }
        if i > 0 {
            put(out, ",");
        }
        let q = uuid_quote(v[i]);
        put(out, q.as_str());
        i = i + 1;
    }
    proof {
        assert(v@.take(v@.len() as int) =~= v@);
    }
}

fn compute_delegation_digest(agent: &VersionRef, input: &String, o: &DelegationOptions) -> (r: String)
    ensures
        r@ == delegation_digest(*agent, input@, *o),
{
    let mut out = text("[");
    crate::submit::write_version_ref(&mut out, agent);
    put(&mut out, ",");
    put(&mut out, input.as_str());
    put(&mut out, ",");
    put(&mut out, "{\"task_key\":");
    match &o.task_key {
        None => put(&mut out, "null"),
        Some(k) => put_quoted(&mut out, k.as_str()),
    }
    put(&mut out, ",\"depends_on\":[");
    write_keys(&mut out, &o.depends_on);
    put(&mut out, "],\"max_model_calls\":");
    match o.max_model_calls {
        None => put(&mut out, "null"),
        Some(n) => put_decimal(&mut out, n as u64),
    }
    put(&mut out, "}");
    put(&mut out, "]");
    proof {
        assert(out@ =~= "["@ + version_ref_json(*agent) + ","@ + input@ + ","@ + options_json(*o) + "]"@);
    }
    digest_text(&out)
}

fn compute_repetition_digest(agent: &VersionRef, input: &String, deps: &Vec<u128>) -> (r: String)
    ensures
        r@ == repetition_digest(*agent, input@, deps@),
{
    let mut out = text("[");
    crate::submit::write_version_ref(&mut out, agent);
    put(&mut out, ",");
    put(&mut out, input.as_str());
    put(&mut out, ",[");
    write_ids(&mut out, deps);
    put(&mut out, "]]");
    proof {
        assert(out@ =~= "["@ + version_ref_json(*agent) + ","@ + input@ + ",["@ + ids_json(deps@) + "]]"@);
    }
    digest_text(&out)
}

/// The number of tasks delegated from run `parent`.
pub open spec fn count_children(s: Seq<TeamTask>, parent: u128) -> nat
    decreases s.len(),
{
    if s.len() == 0 { 0 } else { count_children(s.drop_last(), parent) + if s.last().parent_run == parent { 1nat } else { 0nat } }
}

/// The number of tasks in the team of root run `root`.
pub open spec fn count_team(s: Seq<TeamTask>, root: u128) -> nat
    decreases s.len(),
{
    if s.len() == 0 { 0 } else { count_team(s.drop_last(), root) + if s.last().root_run == root { 1nat } else { 0nat } }
}

/// The number of tasks from `parent` with repetition digest `rep`.
pub open spec fn count_repeats(s: Seq<TeamTask>, parent: u128, rep: Seq<char>) -> nat
    decreases s.len(),
{
    if s.len() == 0 {
        0
    } else {
        count_repeats(s.drop_last(), parent, rep) + if s.last().parent_run == parent && s.last().repetition_digest@ == rep { 1nat } else { 0nat }
    }
}

fn children_count(d: &Data, parent: u128) -> (r: usize)
    ensures
        r == count_children(d.team_tasks@, parent),
{
    let mut n: usize = 0;
    let mut i: usize = 0;
    while i < d.team_tasks.len()
        invariant
            i <= d.team_tasks@.len(),
            n == count_children(d.team_tasks@.take(i as int), parent),
            n <= i,
        decreases d.team_tasks@.len() - i,
    {
        proof {
            assert(d.team_tasks@.take(i as int + 1).drop_last() =~= d.team_tasks@.take(i as int));
        }
        if d.team_tasks[i].parent_run == parent {
            n = n + 1;
        }
        i = i + 1;
    }
    proof {
        assert(d.team_tasks@.take(i as int) =~= d.team_tasks@);
    }
    n
}

fn team_count(d: &Data, root: u128) -> (r: usize)
    ensures
        r == count_team(d.team_tasks@, root),
{
    let mut n: usize = 0;
    let mut i: usize = 0;
    while i < d.team_tasks.len()
        invariant
            i <= d.team_tasks@.len(),
            n == count_team(d.team_tasks@.take(i as int), root),
            n <= i,
        decreases d.team_tasks@.len() - i,
    {
        proof {
            assert(d.team_tasks@.take(i as int + 1).drop_last() =~= d.team_tasks@.take(i as int));
        }
        if d.team_tasks[i].root_run == root {
            n = n + 1;
        }
        i = i + 1;
    }
    proof {
        assert(d.team_tasks@.take(i as int) =~= d.team_tasks@);
    }
    n
}

fn repeat_count(d: &Data, parent: u128, rep: &String) -> (r: usize)
    ensures
        r == count_repeats(d.team_tasks@, parent, rep@),
{
    let mut n: usize = 0;
    let mut i: usize = 0;
    while i < d.team_tasks.len()
        invariant
            i <= d.team_tasks@.len(),
            n == count_repeats(d.team_tasks@.take(i as int), parent, rep@),
            n <= i,
        decreases d.team_tasks@.len() - i,
    {
        proof {
            assert(d.team_tasks@.take(i as int + 1).drop_last() =~= d.team_tasks@.take(i as int));
        }
        if d.team_tasks[i].parent_run == parent && d.team_tasks[i].repetition_digest == *rep {
            n = n + 1;
        }
        i = i + 1;
    }
    proof {
        assert(d.team_tasks@.take(i as int) =~= d.team_tasks@);
    }
    n
}

/// The first task delegated from operation `op`, if any.
pub open spec fn task_of_operation(s: Seq<TeamTask>, op: u128, i: int) -> bool {
    &&& 0 <= i < s.len() && s[i].parent_operation == op
    &&& forall|j: int| 0 <= j < i ==> s[j].parent_operation != op
}

fn find_by_operation(d: &Data, op: u128) -> (r: Option<usize>)
    ensures
        r matches Some(i) ==> task_of_operation(d.team_tasks@, op, i as int),
        r is None ==> forall|j: int| 0 <= j < d.team_tasks@.len() ==> d.team_tasks@[j].parent_operation != op,
{
    let mut i: usize = 0;
    while i < d.team_tasks.len()
        invariant
            i <= d.team_tasks@.len(),
            forall|j: int| 0 <= j < i ==> d.team_tasks@[j].parent_operation != op,
        decreases d.team_tasks@.len() - i,
    {
        if d.team_tasks[i].parent_operation == op {
            return Some(i);
        }
        i = i + 1;
    }
    None
}

/// The first task from `parent` named `key`, if any.
#[verifier::opaque]
pub open spec fn sibling_named(s: Seq<TeamTask>, parent: u128, key: Seq<char>, i: int) -> bool {
    &&& 0 <= i < s.len() && s[i].parent_run == parent && s[i].task_key@ == key
    &&& forall|j: int| 0 <= j < i ==> !(s[j].parent_run == parent && s[j].task_key@ == key)
}

pub open spec fn has_sibling_named(s: Seq<TeamTask>, parent: u128, key: Seq<char>) -> bool {
    exists|i: int| 0 <= i < s.len() && s[i].parent_run == parent && (#[trigger] s[i]).task_key@ == key
}

fn find_sibling(d: &Data, parent: u128, key: &str) -> (r: Option<usize>)
    ensures
        r matches Some(i) ==> sibling_named(d.team_tasks@, parent, key@, i as int),
        r is None <==> !has_sibling_named(d.team_tasks@, parent, key@),
{
    let mut i: usize = 0;
    while i < d.team_tasks.len()
        invariant
            i <= d.team_tasks@.len(),
            forall|j: int| 0 <= j < i ==> !(d.team_tasks@[j].parent_run == parent && d.team_tasks@[j].task_key@ == key@),
        decreases d.team_tasks@.len() - i,
    {
        if d.team_tasks[i].parent_run == parent && crate::text::str_equal(d.team_tasks[i].task_key.as_str(), key) {
            proof {
                assert(d.team_tasks@[i as int].task_key@ == key@);
                reveal(sibling_named);
            }
            return Some(i);
        }
        i = i + 1;
    }
    None
}

/// Insert an identifier into an ascending sequence.
fn insert_id(v: &mut Vec<u128>, x: u128)
    requires
        forall|a: int, b: int| 0 <= a < b < old(v)@.len() ==> old(v)@[a] < old(v)@[b],
        !old(v)@.contains(x),
    ensures
        forall|a: int, b: int| 0 <= a < b < final(v)@.len() ==> final(v)@[a] < final(v)@[b],
        final(v)@.len() == old(v)@.len() + 1,
        forall|y: u128| final(v)@.contains(y) <==> old(v)@.contains(y) || y == x,
{
    let mut i: usize = 0;
    while i < v.len() && v[i] < x
        invariant
            v@ == old(v)@,
            i <= v@.len(),
            forall|k: int| 0 <= k < i ==> v@[k] < x,
        decreases v@.len() - i,
    {
        i = i + 1;
    }
    let ghost before = v@;
    proof {
        if i < before.len() {
            assert(before[i as int] != x);
        }
    }
    v.insert(i, x);
    proof {
        assert(v@ =~= before.insert(i as int, x));
        assert forall|y: u128| v@.contains(y) <==> before.contains(y) || y == x by {
            if v@.contains(y) {
                let k = choose|k: int| 0 <= k < v@.len() && v@[k] == y;
                if k < i {
                    assert(before[k] == y);
                } else if k > i {
                    assert(before[k - 1] == y);
                }
            }
            if before.contains(y) {
                let k = choose|k: int| 0 <= k < before.len() && before[k] == y;
                if k < i {
                    assert(v@[k] == y);
                } else {
                    assert(v@[k + 1] == y);
                }
            }
            if y == x {
                assert(v@[i as int] == x);
            }
        }
    }
}

pub open spec fn min_u32(a: u32, b: u32) -> u32 {
    if a < b { a } else { b }
}

pub open spec fn min_u64(a: u64, b: u64) -> u64 {
    if a < b { a } else { b }
}

/// The limits of a delegated child: the agent's, narrowed by the parent's
/// coordination policy and by the delegation's own model-call cap.
pub open spec fn narrowed(l: Limits, p: CoordinationPolicy, cap: Option<u32>) -> Limits {
    Limits {
        max_model_calls: min_u32(min_u32(l.max_model_calls, p.child_max_model_calls), match cap { Some(c) => c, None => u32::MAX }),
        max_operations: min_u32(l.max_operations, p.child_max_operations),
        max_harness_steps: min_u64(l.max_harness_steps, p.child_max_harness_steps),
        ..l
    }
}

/// The task key of a delegation: the given one, or the text of its operation.
pub open spec fn task_key_of(o: DelegationOptions, op: u128) -> Seq<char> {
    match o.task_key {
        Some(k) => k@,
        None => uuid_string(op),
    }
}

/// The root of the team of run `parent`.
pub open spec fn team_root(d: Data, parent: u128) -> u128 {
    if d.has_task(parent) { d.task(parent).root_run } else { parent }
}

/// `src[k]` is the sibling that key `k` names, and `deps` holds exactly
/// their children, in ascending order.
pub open spec fn resolution(d: Data, parent: u128, keys: Seq<String>, deps: Seq<u128>, src: Seq<int>) -> bool {
    &&& src.len() == keys.len() && deps.len() == keys.len()
    &&& forall|a: int, b: int| 0 <= a < b < deps.len() ==> deps[a] < deps[b]
    &&& forall|j: int| 0 <= j < keys.len() ==> sibling_named(d.team_tasks@, parent, keys[j]@, #[trigger] src[j])
        && 0 <= src[j] < d.team_tasks@.len() && deps.contains(d.team_tasks@[src[j]].child_run)
    &&& forall|x: u128| deps.contains(x) ==> exists|j: int| 0 <= j < keys.len() && d.team_tasks@[#[trigger] src[j]].child_run == x
}

/// `deps` are the children of the siblings that `keys` name, each once, in
/// ascending order.
pub open spec fn resolved(d: Data, parent: u128, keys: Seq<String>, deps: Seq<u128>) -> bool {
    exists|src: Seq<int>| resolution(d, parent, keys, deps, src)
}

/// The admission rules of a new delegation from operation `po` of run
/// `parent`, under the coordination policies of the parent and the root.
pub open spec fn admitted(d: Data, actor: Actor, agent_ref: VersionRef, input: Seq<char>, po: u128,
    o: DelegationOptions, parent: u128) -> bool {
    let root = team_root(d, parent);
    let policy = d.coordination(actor.workspace_id@, d.run(parent).agent_ref);
    let root_policy = d.coordination(actor.workspace_id@, d.run(root).agent_ref);
    &&& !crate::delegation::stopped(d.run(parent).status)
    &&& d.operation(po).status == OperationStatus::Running
    &&& d.owns(actor, root) && !crate::delegation::stopped(d.run(root).status)
    &&& !has_sibling_named(d.team_tasks@, parent, task_key_of(o, po))
    &&& count_team(d.team_tasks@, root) < root_policy.max_children
    &&& count_children(d.team_tasks@, parent) < policy.max_children
    &&& d.has_agent(actor.workspace_id@, agent_ref)
    &&& utf8_len(input) <= d.agent(actor.workspace_id@, agent_ref).limits.max_payload_bytes
    &&& d.agent(actor.workspace_id@, agent_ref).input_schema matches Some(sc) ==> crate::definitions::schema_valid(sc@)
        && crate::definitions::json_schema_accepts(sc@, input)
}

/// The children of the siblings that `keys` name, each once, in ascending
/// order. A key that names no earlier sibling, or a repeated child, is
/// refused; a child that `actor` does not own is not found.
fn resolve_dependencies(d: &Data, actor: &Actor, parent: u128, keys: &Vec<String>) -> (r: Result<Vec<u128>>)
    requires
        d.wf(),
    ensures
        r matches Ok(deps) ==> resolved(*d, parent, keys@, deps@),
        r is Err ==> (r matches Err(Error::Invalid(_))) || r == Err::<Vec<u128>, Error>(Error::NotFound),
{
    let mut deps: Vec<u128> = Vec::new();
    let ghost mut src: Seq<int> = Seq::empty();
    let mut k: usize = 0;
    while k < keys.len()
        invariant
            d.wf(),
            k <= keys@.len(),
            deps@.len() == k,
            src.len() == k,
            forall|a: int, b: int| 0 <= a < b < deps@.len() ==> deps@[a] < deps@[b],
            forall|j: int| 0 <= j < k ==> sibling_named(d.team_tasks@, parent, keys@[j]@, #[trigger] src[j])
                && 0 <= src[j] < d.team_tasks@.len() && deps@.contains(d.team_tasks@[src[j]].child_run),
            forall|x: u128| deps@.contains(x) ==> exists|j: int| 0 <= j < k && d.team_tasks@[#[trigger] src[j]].child_run == x,
        decreases keys@.len() - k,
    {
        let si = match find_sibling(d, parent, keys[k].as_str()) {
            None => return Err(invalid("dependency must name an earlier task from this parent; forward references and cycles are prohibited")),
            Some(si) => si,
        };
        proof {
            reveal(sibling_named);
        }
        let child = d.team_tasks[si].child_run;
        d.owned_run(actor, child)?;
        let mut dup = false;
        let mut m: usize = 0;
        while m < deps.len()
            invariant
                m <= deps@.len(),
                dup == (exists|q: int| 0 <= q < m && deps@[q] == child),
            decreases deps@.len() - m,
        {
            if deps[m] == child {
                dup = true;
            }
            m = m + 1;
        }
        if dup {
            return Err(invalid("duplicate dependency"));
        }
        let ghost before = deps@;
        let ghost src0 = src;
        insert_id(&mut deps, child);
        proof {
            src = src0.push(si as int);
            assert forall|j: int| 0 <= j < k + 1 implies sibling_named(d.team_tasks@, parent, keys@[j]@, #[trigger] src[j])
                && 0 <= src[j] < d.team_tasks@.len() && deps@.contains(d.team_tasks@[src[j]].child_run) by {
                if j < k {
                    assert(src[j] == src0[j]);
                    assert(before.contains(d.team_tasks@[src0[j]].child_run));
                }
            }
            assert forall|x: u128| deps@.contains(x) implies exists|j: int| 0 <= j < k + 1 && d.team_tasks@[#[trigger] src[j]].child_run == x by {
                if x == child {
                    assert(src[k as int] == si);
                } else {
                    assert(before.contains(x));
                    let j = choose|j: int| 0 <= j < k && d.team_tasks@[#[trigger] src0[j]].child_run == x;
                    assert(src[j] == src0[j]);
                }
            }
        }
        k = k + 1;
    }
    proof {
        assert(resolution(*d, parent, keys@, deps@, src));
    }
    Ok(deps)
}

/// Delegate `input` to a child run of `agent_ref` from the running tool
/// operation `po` of a parent run owned by `actor`. Admission, the child run,
/// its parent link, its place in the task graph (its key and prerequisite
/// siblings) and its narrowed budget commit together. A repeated delegation
/// from the same operation returns its child when nothing changed.
/// `model_budget` is the executor's budget binding and `initial_state` the
/// agent loop's initial checkpoint.
#[verifier::rlimit(100)]
pub fn submit_delegated(
    d: &mut Data,
    actor: &Actor,
    agent_ref: VersionRef,
    input: String,
    po: u128,
    options: DelegationOptions,
    model_budget: Option<ModelBudgetBinding>,
    initial_state: Checkpoint,
) -> (r: Result<u128>)
    requires
        old(d).wf(),
    ensures
        final(d).wf(),
        r is Err ==> *final(d) == *old(d),
        !options_valid(options) ==> (r matches Err(Error::Invalid(_))),
        options_valid(options) && !old(d).has_operation(po) ==> r == Err::<u128, Error>(Error::NotFound),
        options_valid(options) && old(d).has_operation(po) && !(old(d).operation(po).request is Tool)
            ==> (r matches Err(Error::Invalid(_))),
        options_valid(options) && old(d).has_operation(po) && old(d).operation(po).request is Tool
            && !old(d).owns(*actor, old(d).operation(po).run_id) ==> r == Err::<u128, Error>(Error::NotFound),
        options_valid(options) && old(d).has_operation(po) && old(d).operation(po).request is Tool
            && old(d).owns(*actor, old(d).operation(po).run_id) ==> {
            let digest = delegation_digest(agent_ref, input@, options);
            let parent = old(d).operation(po).run_id;
            &&& forall|i: int| #[trigger] task_of_operation(old(d).team_tasks@, po, i) ==> {
                let t = old(d).team_tasks@[i];
                &&& t.input_digest@ != digest ==> (r matches Err(Error::Invalid(_)))
                &&& r is Ok ==> r == Ok::<u128, Error>(t.child_run) && *final(d) == *old(d) && t.input_digest@ == digest
                    && old(d).owns(*actor, t.child_run) && same_binding(old(d).run(t.child_run).model_budget, model_budget)
                &&& t.input_digest@ == digest && old(d).owns(*actor, t.child_run)
                    && same_binding(old(d).run(t.child_run).model_budget, model_budget) ==> r == Ok::<u128, Error>(t.child_run)
            }
            &&& (forall|j: int| 0 <= j < old(d).team_tasks@.len() ==> old(d).team_tasks@[j].parent_operation != po) ==> {
                &&& (crate::delegation::stopped(old(d).run(parent).status) || old(d).operation(po).status != OperationStatus::Running)
                    ==> (r matches Err(Error::Invalid(_)))
                &&& r matches Ok(id) ==> {
                    let policy = old(d).coordination(actor.workspace_id@, old(d).run(parent).agent_ref);
                    let agent = old(d).agent(actor.workspace_id@, agent_ref);
                    let run = final(d).runs@.last();
                    let task = final(d).team_tasks@.last();
                    &&& admitted(*old(d), *actor, agent_ref, input@, po, options, parent)
                    &&& !old(d).has_run(id)
                    &&& final(d).runs@.drop_last() == old(d).runs@
                    &&& run.meta.id == id && run.meta.workspace_id@ == actor.workspace_id@
                    &&& run.agent_ref.same(agent_ref) && run.parent_operation == Some(po)
                    &&& same_binding(run.model_budget, model_budget) && run.actor_id@ == actor.id@
                    &&& run.input@ == input@ && run.input_digest@ == digest && run.goal is None
                    &&& run.status == RunStatus::Queued && run.state == initial_state
                    &&& run.next_input matches Some(Input::Start { value }) && value@ == input@
                    &&& run.limits == narrowed(agent.limits, policy, options.max_model_calls)
                    &&& run.usage.zero() && run.revision == 0 && run.pending_operations@.len() == 0
                    &&& final(d).team_tasks@.drop_last() == old(d).team_tasks@
                    &&& task.parent_run == parent && task.root_run == team_root(*old(d), parent)
                    &&& task.child_run == id && task.parent_operation == po
                    &&& task.task_key@ == task_key_of(options, po)
                    &&& resolved(*old(d), parent, options.depends_on@, task.dependencies@)
                    &&& task.input_digest@ == digest
                    &&& task.repetition_digest@ == repetition_digest(agent_ref, input@, task.dependencies@)
                    &&& count_repeats(old(d).team_tasks@, parent, task.repetition_digest@) < policy.max_repeated_task
                    &&& final(d).operations == old(d).operations && final(d).agents == old(d).agents
                    &&& final(d).event_types(id) == seq![EventType::RunCreated]
                }
            }
        },
{
    validate_options(&options)?;
    let digest = compute_delegation_digest(&agent_ref, &input, &options);
    let oi = match d.find_operation(po) {
        None => return Err(Error::NotFound),
        Some(oi) => oi,
    };
    match &d.operations[oi].request {
        OperationRequest::Tool { .. } => {},
        _ => return Err(invalid("delegation requires a tool operation")),
    }
    let parent = d.operations[oi].run_id;
    let pi = d.owned_run(actor, parent)?;
    if let Some(ti) = find_by_operation(d, po) {
        if d.team_tasks[ti].input_digest != digest {
            return Err(invalid("delegation operation reused with changed input"));
        }
        let child = d.team_tasks[ti].child_run;
        let ci = d.owned_run(actor, child)?;
        if !binding_equals(&d.runs[ci].model_budget, &model_budget) {
            return Err(invalid("child budget binding changed"));
        }
        return Ok(child);
    }
    let status = d.runs[pi].status;
    if status.terminal() || status == RunStatus::Cancelling || d.operations[oi].status != OperationStatus::Running {
        return Err(invalid("delegation parent operation is not active"));
    }
    let policy = d.coordination_policy(actor.workspace_id.as_str(), &d.runs[pi].agent_ref);
    let root = match d.find_task(parent) {
        Some(ti) => d.team_tasks[ti].root_run,
        None => parent,
    };
    let ri = d.owned_run(actor, root)?;
    let root_status = d.runs[ri].status;
    if root_status.terminal() || root_status == RunStatus::Cancelling {
        return Err(invalid("delegation root is no longer active"));
    }
    let root_policy = d.coordination_policy(actor.workspace_id.as_str(), &d.runs[ri].agent_ref);
    let task_key = match &options.task_key {
        Some(k) => k.clone(),
        None => uuid_text(po),
    };
    if find_sibling(d, parent, task_key.as_str()).is_some() {
        return Err(invalid("task key already exists; join the existing run instead of redelegating"));
    }
    if team_count(d, root) >= root_policy.max_children || children_count(d, parent) >= policy.max_children {
        return Err(invalid("team delegation budget exhausted"));
    }
    let deps = resolve_dependencies(d, actor, parent, &options.depends_on)?;
    let rep = compute_repetition_digest(&agent_ref, &input, &deps);
    if repeat_count(d, parent, &rep) >= policy.max_repeated_task {
        return Err(invalid("repeated delegation made no new task progress; inspect existing child results or change the task"));
    }
    let ai = match d.find_agent(&actor.workspace_id, &agent_ref) {
        None => return Err(Error::NotFound),
        Some(ai) => ai,
    };
    if crate::text::byte_length(&input) > d.agents[ai].limits.max_payload_bytes {
        return Err(invalid("child input exceeds payload budget"));
    }
    match &d.agents[ai].input_schema {
        Some(sc) => crate::definitions::validate(sc.as_str(), input.as_str())?,
        None => {},
    }
    let base = d.agents[ai].limits.copy();
    let cap = match options.max_model_calls {
        Some(c) => c,
        None => u32::MAX,
    };
    let mut calls = if base.max_model_calls < policy.child_max_model_calls { base.max_model_calls } else { policy.child_max_model_calls };
    if cap < calls {
        calls = cap;
    }
    let limits = Limits {
        max_model_calls: calls,
        max_operations: if base.max_operations < policy.child_max_operations { base.max_operations } else { policy.child_max_operations },
        max_harness_steps: if base.max_harness_steps < policy.child_max_harness_steps { base.max_harness_steps } else { policy.child_max_harness_steps },
        ..base
    };
    let id = new_id();
    if d.find_run(id).is_some() || d.find_log(id).is_some() || d.find_task(id).is_some() {
        return Err(crate::error::conflict("run identifier already in use"));
    }
    let mut request_key = text("delegate:");
    let op_text = uuid_text(po);
    put(&mut request_key, op_text.as_str());
    let meta = Metadata { id, workspace_id: actor.workspace_id.clone(), schema_version: SCHEMA_VERSION, created_at: now() };
    let start = input.clone();
    let run = Run {
        meta,
        agent_ref,
        parent_operation: Some(po),
        model_budget,
        actor_id: actor.id.clone(),
        request_key: Some(request_key),
        input_digest: digest.clone(),
        input,
        goal: None,
        status: RunStatus::Queued,
        reason: None,
        wait: None,
        state: initial_state,
        pending_operations: Vec::new(),
        next_input: Some(Input::Start { value: start }),
        limits,
        usage: Usage::new(),
        result: None,
        assessment: None,
        verified_candidate_digest: None,
        revision: 0,
    };
    let task = TeamTask {
        parent_run: parent,
        root_run: root,
        child_run: id,
        parent_operation: po,
        task_key,
        dependencies: deps,
        input_digest: digest,
        repetition_digest: rep,
    };
    let ghost before = *d;
    d.runs.push(run);
    d.team_tasks.push(task);
    let ghost mid = *d;
    proof {
        assert(mid.runs@.drop_last() =~= before.runs@);
        assert(mid.team_tasks@.drop_last() =~= before.team_tasks@);
        assert(!mid.has_log(id));
        assert(mid.events_of(id) =~= Seq::<crate::store::Event>::empty());
        assert forall|a: int, b: int| 0 <= a < mid.team_tasks@.len() && 0 <= b < mid.team_tasks@.len() && a != b
            implies mid.team_tasks@[a].child_run != mid.team_tasks@[b].child_run by {
            if a < before.team_tasks@.len() && b < before.team_tasks@.len() {
                assert(mid.team_tasks@[a] == before.team_tasks@[a]);
                assert(mid.team_tasks@[b] == before.team_tasks@[b]);
            } else if a < before.team_tasks@.len() {
                assert(before.team_tasks@[a].child_run != id);
            } else {
                assert(before.team_tasks@[b].child_run != id);
            }
        }
        assert(team_root(before, parent) == root);
    }
    let workspace = actor.workspace_id.clone();
    d.event(id, &workspace, None, EventType::RunCreated, Some(actor.id.clone()), text("{}"));
    proof {
        assert(d.event_types(id) =~= seq![EventType::RunCreated]);
    }
    Ok(id)
}

} // verus!
