//! Explicit delegation to a child run: attaching a child to the operation of
//! its parent, and checking a parent's access to a child. A child never
//! becomes its own ancestor.
use vstd::prelude::*;
use crate::error::{conflict, invalid, text, Error, Result};
use crate::json::{digest_text, json_members, json_text, parse, parse_json, put, put_quoted, text_digest, write_json, Json};
use crate::models::{Effect, Execution, Tool, SCHEMA_VERSION};
use crate::primitives::json_string;
use crate::skills::text_lt;
use crate::submit::version_ref_json;
use crate::models::{Actor, RunStatus, VersionRef};
use crate::runtime::{count_true, only_run_changed};
use crate::scheduling::parent_run;
use crate::store::{Data, ModelBudgetBinding, Run};
use crate::harness::Checkpoint;
use crate::inspection::{inspect, shows_run, RunView};
use crate::primitives::{uuid_string, uuid_text};
use crate::text::{blank, is_blank};

verus! {

/// `path` leads from `start` upwards: each step goes from a stored run to the
/// run of its parent operation. Its last element need not be stored.
pub open spec fn reaches(d: Data, start: u128, path: Seq<u128>) -> bool {
    &&& path.len() > 0
    &&& path[0] == start
    &&& forall|k: int| 0 <= k < path.len() - 1 ==> d.has_run(#[trigger] path[k]) && parent_run(d, path[k]) == Some(path[k + 1])
}

/// `chain` is the whole ancestry of `start`, ending at a stored root run.
pub open spec fn lineage(d: Data, start: u128, chain: Seq<u128>) -> bool {
    &&& reaches(d, start, chain)
    &&& d.has_run(chain.last())
    &&& parent_run(d, chain.last()) is None
}

/// `target` is `start` or one of its ancestors.
pub open spec fn descends(d: Data, start: u128, target: u128) -> bool {
    exists|path: Seq<u128>| reaches(d, start, path) && path.last() == target
}

/// The run of a parent operation, when that operation is stored.
fn parent_of(d: &Data, ri: usize) -> (r: Option<u128>)
    requires
        d.wf(),
        ri < d.runs@.len(),
    ensures
        r == parent_run(*d, d.runs@[ri as int].meta.id),
{
    proof {
        let id = d.runs@[ri as int].meta.id;
        assert(d.has_run(id));
        assert(d.runs@[d.run_index(id)].meta.id == id);
    }
    match d.runs[ri].parent_operation {
        None => None,
        Some(op) => match d.find_operation(op) {
            None => None,
            Some(oi) => Some(d.operations[oi].run_id),
        },
    }
}

/// Walk the ancestry of `start` looking for `target`. `Ok(true)`: found.
/// `Ok(false)`: the whole ancestry ends at a root without it. An ancestor
/// that is not stored is not found; an ancestry that loops is a conflict.
#[verifier::rlimit(60)]
fn in_ancestry(d: &Data, start: u128, target: u128) -> (r: Result<bool>)
    requires
        d.wf(),
    ensures
        r == Ok::<bool, Error>(true) ==> descends(*d, start, target),
        r == Ok::<bool, Error>(false) ==> exists|chain: Seq<u128>| lineage(*d, start, chain) && !chain.contains(target),
        r == Ok::<bool, Error>(false) ==> !descends(*d, start, target),
        r is Err ==> forall|chain: Seq<u128>| !(lineage(*d, start, chain) && chain.no_duplicates()),
        r is Err ==> r == Err::<bool, Error>(Error::NotFound) || r matches Err(Error::Conflict(_)),
        r matches Err(Error::NotFound) ==> !descends(*d, start, target),
{
    let n = d.runs.len();
    let mut marked: Vec<bool> = Vec::new();
    let mut c: usize = 0;
    while c < n
        invariant
            n == d.runs@.len(),
            c <= n,
            marked@.len() == c,
            forall|x: int| 0 <= x < c ==> !marked@[x],
        decreases n - c,
    {
        marked.push(false);
        c = c + 1;
    }
    proof {
        crate::runtime::lemma_count_true_none(marked@);
    }
    let ghost mut visited: Seq<u128> = Seq::empty();
    let mut current = start;
    loop
        invariant
            d.wf(),
            n == d.runs@.len(),
            marked@.len() == n,
            visited.len() == count_true(marked@),
            visited.len() <= n,
            reaches(*d, start, visited.push(current)),
            !visited.contains(target),
            forall|k: int| 0 <= k < visited.len() ==> d.has_run(#[trigger] visited[k]),
            forall|x: int| 0 <= x < n ==> (marked@[x] <==> visited.contains(#[trigger] d.runs@[x].meta.id)),
            forall|path: Seq<u128>| reaches(*d, start, path) ==>
                forall|k: int| 0 <= k < path.len() && k <= visited.len() ==> #[trigger] path[k] == visited.push(current)[k],
        decreases n - visited.len(),
    {
        let ghost walked = visited.push(current);
        if current == target {
            proof {
                assert(walked.last() == target);
            }
            return Ok(true);
        }
        let ri = match d.find_run(current) {
            None => {
                proof {
                    assert forall|chain: Seq<u128>| !(lineage(*d, start, chain) && chain.no_duplicates()) by {
                        if lineage(*d, start, chain) {
                            let m = visited.len() as int;
                            if chain.len() - 1 <= m {
                                assert(chain[chain.len() - 1] == walked[chain.len() - 1]);
                                if chain.len() - 1 < m {
                                    assert(d.has_run(visited[chain.len() - 1]));
                                }
                            } else {
                                assert(chain[m] == walked[m]);
                                assert(d.has_run(chain[m]));
                            }
                        }
                    }
                    assert forall|path: Seq<u128>| reaches(*d, start, path) implies path.last() != target by {
                        let m = visited.len() as int;
                        if path.len() - 1 <= m {
                            assert(path[path.len() - 1] == walked[path.len() - 1]);
                            if path.len() - 1 < m {
                                assert(visited.contains(visited[path.len() - 1]));
                            }
                        } else {
                            assert(path[m] == walked[m]);
                            assert(d.has_run(path[m]));
                        }
                    }
                }
                return Err(Error::NotFound);
            },
            Some(ri) => ri,
        };
        if marked[ri] {
            proof {
                assert forall|chain: Seq<u128>| !(lineage(*d, start, chain) && chain.no_duplicates()) by {
                    if lineage(*d, start, chain) && chain.no_duplicates() {
                        let m = visited.len() as int;
                        assert(visited.contains(current));
                        let j = choose|j: int| 0 <= j < visited.len() && visited[j] == current;
                        if chain.len() - 1 <= m {
                            let l = chain.len() - 1;
                            assert(chain[l] == walked[l]);
                            if l < m {
                                assert(parent_run(*d, walked[l]) == Some(walked[l + 1]));
                            } else {
                                assert(walked[j] == current);
                                assert(parent_run(*d, walked[j]) == Some(walked[j + 1]));
                            }
                        } else {
                            assert(chain[m] == walked[m]);
                            assert(chain[j] == walked[j]);
                        }
                    }
                }
            }
            return Err(conflict("cyclic run ancestry"));
        }
        let parent = parent_of(d, ri);
        proof {
            assert(d.runs@[ri as int].meta.id == current);
        }
        match parent {
            None => {
                proof {
                    assert(lineage(*d, start, walked));
                    assert forall|path: Seq<u128>| reaches(*d, start, path) implies path.last() != target by {
                        let m = visited.len() as int;
                        if path.len() - 1 <= m {
                            assert(path[path.len() - 1] == walked[path.len() - 1]);
                            if path.len() - 1 < m {
                                assert(visited.contains(visited[path.len() - 1]));
                            }
                        } else {
                            assert(path[m] == walked[m]);
                            assert(parent_run(*d, path[m]) == Some(path[m + 1]));
                        }
                    }
                    assert(!walked.contains(target)) by {
                        if walked.contains(target) {
                            let j = choose|j: int| 0 <= j < walked.len() && walked[j] == target;
                            if j < visited.len() {
                                assert(visited.contains(target));
                            }
                        }
                    }
                }
                return Ok(false);
            },
            Some(p) => {
                proof {
                    crate::runtime::lemma_count_true_set(marked@, ri as int);
                    crate::runtime::lemma_count_true_bound(marked@.update(ri as int, true));
                }
                let ghost old_visited = visited;
                marked.set(ri, true);
                proof {
                    visited = walked;
                    assert(!visited.contains(target)) by {
                        if visited.contains(target) {
                            let j = choose|j: int| 0 <= j < visited.len() && visited[j] == target;
                            if j < old_visited.len() {
                                assert(old_visited.contains(target));
                            }
                        }
                    }
                    assert forall|k: int| 0 <= k < visited.len() implies d.has_run(#[trigger] visited[k]) by {
                        if k < old_visited.len() {
                            assert(visited[k] == old_visited[k]);
                        }
                    }
                    assert forall|x: int| 0 <= x < n implies (marked@[x] <==> visited.contains(#[trigger] d.runs@[x].meta.id)) by {
                        if x == ri {
                            assert(visited[visited.len() - 1] == current);
                        } else {
                            assert(d.runs@[x].meta.id != current);
                            if old_visited.contains(d.runs@[x].meta.id) {
                                let k = choose|k: int| 0 <= k < old_visited.len() && #[trigger] old_visited[k] == d.runs@[x].meta.id;
                                assert(visited[k] == old_visited[k]);
                            }
                            if visited.contains(d.runs@[x].meta.id) {
                                let k = choose|k: int| 0 <= k < visited.len() && #[trigger] visited[k] == d.runs@[x].meta.id;
                                assert(k < old_visited.len());
                                assert(old_visited[k] == visited[k]);
                            }
                        }
                    }
                    let w2 = visited.push(p);
                    assert forall|k: int| 0 <= k < w2.len() - 1 implies d.has_run(#[trigger] w2[k]) && parent_run(*d, w2[k]) == Some(w2[k + 1]) by {
                        if k < old_visited.len() {
                            assert(w2[k] == walked[k]);
                            assert(w2[k + 1] == walked[k + 1]);
                        }
                    }
                    assert(reaches(*d, start, w2));
                    assert forall|path: Seq<u128>| reaches(*d, start, path) implies
                        forall|k: int| 0 <= k < path.len() && k <= visited.len() ==> #[trigger] path[k] == w2[k] by {
                        assert forall|k: int| 0 <= k < path.len() && k <= visited.len() implies #[trigger] path[k] == w2[k] by {
                            let m = old_visited.len() as int;
                            if k <= m {
                                assert(path[k] == walked[k]);
                            } else {
                                assert(path[m] == walked[m]);
                                assert(parent_run(*d, path[m]) == Some(path[m + 1]));
                            }
                        }
                    }
                }
                current = p;
            },
        }
    }
}

/// Linking the child at `ci` to `po`, an operation of `p`, prefixes the child
/// to every ancestry of `p` that does not hold it.
proof fn lemma_link_lineage(old: Data, new: Data, ci: int, po: u128, p: u128, chain: Seq<u128>)
    requires
        old.wf(),
        new.wf(),
        0 <= ci < old.runs@.len(),
        old.has_operation(po),
        old.operation(po).run_id == p,
        only_run_changed(old, new, ci, Run { parent_operation: Some(po), ..new.runs@[ci] }),
        new.runs@[ci].meta.id == old.runs@[ci].meta.id,
        new.runs@[ci].parent_operation == Some(po),
        lineage(old, p, chain),
        chain.no_duplicates(),
        !chain.contains(old.runs@[ci].meta.id),
    ensures
        lineage(new, old.runs@[ci].meta.id, seq![old.runs@[ci].meta.id] + chain),
        (seq![old.runs@[ci].meta.id] + chain).no_duplicates(),
{
    let c = old.runs@[ci].meta.id;
    let full = seq![c] + chain;
    assert(old.has_run(c));
    assert(old.run_index(c) == ci) by {
        assert(old.runs@[old.run_index(c)].meta.id == c);
    }
    assert(new.has_run(c)) by {
        assert(new.runs@[ci].meta.id == c);
    }
    assert(new.run_index(c) == ci) by {
        assert(new.runs@[new.run_index(c)].meta.id == c);
    }
    assert forall|x: u128| x != c && old.has_run(x) implies new.has_run(x) && new.run(x) == old.run(x)
        && #[trigger] parent_run(new, x) == parent_run(old, x) by {
        let i = old.run_index(x);
        assert(old.runs@[i].meta.id == x);
        assert(i != ci);
        assert(new.runs@[i] == old.runs@[i]);
        assert(new.has_run(x));
        let j = new.run_index(x);
        assert(new.runs@[j].meta.id == x);
        assert(j == i);
    }
    assert(parent_run(new, c) == Some(p));
    assert forall|k: int| 0 <= k < full.len() - 1 implies new.has_run(#[trigger] full[k]) && parent_run(new, full[k]) == Some(full[k + 1]) by {
        if k == 0 {
            assert(full[1] == chain[0]);
        } else {
            assert(full[k] == chain[k - 1]);
            assert(full[k + 1] == chain[k]);
            assert(chain.contains(chain[k - 1]));
            assert(old.has_run(chain[k - 1]));
        }
    }
    assert(full.last() == chain.last());
    assert(chain.contains(chain.last()));
    assert forall|a: int, b: int| 0 <= a < full.len() && 0 <= b < full.len() && a != b implies full[a] != full[b] by {
        if a == 0 {
            assert(chain.contains(full[b]));
        } else if b == 0 {
            assert(chain.contains(full[a]));
        } else {
            assert(full[a] == chain[a - 1] && full[b] == chain[b - 1]);
        }
    }
}


/// The run stopped: it finished, or its cancellation was requested.
pub open spec fn stopped(s: RunStatus) -> bool {
    s.is_terminal() || s is Cancelling
}

/// Attach a freshly submitted child run to the operation that delegated it,
/// when parent and child share this store. With no such operation here (a
/// child in another store) nothing is linked and the result is `false`. A
/// stopped parent, a child that is already attached elsewhere or has started,
/// and a child that is an ancestor of the parent are refused. The ancestry
/// walk reports an ancestor that is not stored as not found and an ancestry
/// that loops as a conflict.
#[verifier::rlimit(60)]
pub fn link_child(d: &mut Data, actor: &Actor, child: u128, parent_operation: u128) -> (r: Result<bool>)
    requires
        old(d).wf(),
    ensures
        final(d).wf(),
        r is Err ==> *final(d) == *old(d),
        r == Ok::<bool, Error>(false) <==> !old(d).has_operation(parent_operation),
        r == Ok::<bool, Error>(false) ==> *final(d) == *old(d),
        r is Ok ==> final(d).submissions == old(d).submissions,
        r == Ok::<bool, Error>(true) ==> final(d).owns(*actor, child)
            && final(d).run(child).parent_operation == Some(parent_operation),
        old(d).has_operation(parent_operation) ==> {
            let p = old(d).operation(parent_operation).run_id;
            &&& !old(d).owns(*actor, p) ==> r == Err::<bool, Error>(Error::NotFound)
            &&& old(d).owns(*actor, p) && stopped(old(d).run(p).status) ==> (r matches Err(Error::Conflict(_)))
            &&& (r matches Err(Error::Invalid(_))) ==> descends(*old(d), p, child)
            &&& r == Ok::<bool, Error>(true) ==> {
                &&& old(d).owns(*actor, p) && !stopped(old(d).run(p).status)
                &&& old(d).owns(*actor, child)
                &&& exists|chain: Seq<u128>| lineage(*old(d), p, chain) && !chain.contains(child)
                &&& !descends(*old(d), p, child)
            }
            &&& old(d).owns(*actor, p) && !stopped(old(d).run(p).status) && !descends(*old(d), p, child)
                && (exists|chain: Seq<u128>| lineage(*old(d), p, chain) && chain.no_duplicates()) ==> {
                &&& !old(d).owns(*actor, child) ==> r == Err::<bool, Error>(Error::NotFound)
                &&& old(d).owns(*actor, child) ==> {
                    let c = old(d).run(child);
                    &&& c.parent_operation == Some(parent_operation) ==> r == Ok::<bool, Error>(true) && *final(d) == *old(d)
                    &&& c.parent_operation != Some(parent_operation) && (c.parent_operation is Some || c.state.step != 0)
                        ==> (r matches Err(Error::Conflict(_)))
                    &&& c.parent_operation is None && c.state.step == 0 ==> r == Ok::<bool, Error>(true)
                        && only_run_changed(*old(d), *final(d), old(d).run_index(child),
                            Run { parent_operation: Some(parent_operation), revision: c.revision.wrapping_add(1), ..c })
                        && final(d).logs == old(d).logs
                        && forall|chain: Seq<u128>| lineage(*old(d), p, chain) && chain.no_duplicates() ==>
                            lineage(*final(d), child, seq![child] + chain) && (seq![child] + chain).no_duplicates()
                }
            }
        },
{
    let oi = match d.find_operation(parent_operation) {
        None => return Ok(false),
        Some(oi) => oi,
    };
    let p = d.operations[oi].run_id;
    let pi = d.owned_run(actor, p)?;
    let status = d.runs[pi].status;
    if status.terminal() || status == RunStatus::Cancelling {
        return Err(conflict("parent stopped"));
    }
    if in_ancestry(d, p, child)? {
        return Err(invalid("delegation cycle"));
    }
    let ci = d.owned_run(actor, child)?;
    if d.runs[ci].parent_operation == Some(parent_operation) {
        proof {
            assert(d.run_index(child) == ci);
        }
        return Ok(true);
    }
    if d.runs[ci].parent_operation.is_some() || d.runs[ci].state.step != 0 {
        return Err(conflict("child already attached or started"));
    }
    let ghost before = *d;
    d.runs[ci].parent_operation = Some(parent_operation);
    d.runs[ci].revision = d.runs[ci].revision.wrapping_add(1);
    proof {
        crate::runtime::lemma_update_run_wf(before, ci as int, d.runs@[ci as int]);
        assert(d.runs@ == before.runs@.update(ci as int, d.runs@[ci as int]));
        assert forall|chain: Seq<u128>| lineage(before, p, chain) && chain.no_duplicates() implies
            lineage(*d, child, seq![child] + chain) && (seq![child] + chain).no_duplicates() by {
            assert(!chain.contains(child)) by {
                if chain.contains(child) {
                    let k = choose|k: int| 0 <= k < chain.len() && chain[k] == child;
                    assert(reaches(before, p, chain.take(k + 1)));
                    assert(chain.take(k + 1).last() == child);
                }
            }
            lemma_link_lineage(before, *d, ci as int, parent_operation, p, chain);
        }
        assert(d.runs@[ci as int].meta.id == child);
        assert(d.run_index(child) == ci);
    }
    Ok(true)
}

/// A parent may continue or inspect a child only through an operation of the
/// run that delegated it, and only for the expected agent version. An unowned
/// child or caller run is not found; any other mismatch is denied.
pub fn validate_child_access(d: &Data, actor: &Actor, child: u128, caller_operation: u128, expected_agent: &VersionRef) -> (r: Result<()>)
    requires
        d.wf(),
    ensures
        !d.owns(*actor, child) ==> r == Err::<(), Error>(Error::NotFound),
        r is Ok <==> {
            &&& d.owns(*actor, child)
            &&& d.run(child).parent_operation is Some
            &&& d.has_operation(d.run(child).parent_operation->0)
            &&& d.has_operation(caller_operation)
            &&& d.owns(*actor, d.operation(caller_operation).run_id)
            &&& d.operation(d.run(child).parent_operation->0).run_id == d.operation(caller_operation).run_id
            &&& d.run(child).agent_ref.same(*expected_agent)
        },
        r is Err ==> r == Err::<(), Error>(Error::NotFound) || r == Err::<(), Error>(Error::Denied),
{
    let ci = d.owned_run(actor, child)?;
    let origin = match d.runs[ci].parent_operation {
        None => return Err(Error::Denied),
        Some(op) => match d.find_operation(op) {
            None => return Err(Error::Denied),
            Some(oi) => d.operations[oi].run_id,
        },
    };
    let caller = match d.find_operation(caller_operation) {
        None => return Err(Error::Denied),
        Some(oi) => d.operations[oi].run_id,
    };
    d.owned_run(actor, caller)?;
    if origin != caller || !d.runs[ci].agent_ref.equals(expected_agent) {
        return Err(Error::Denied);
    }
    Ok(())
}


pub open spec fn actor_json(a: Actor) -> Seq<char> {
    "{\"workspace_id\":"@ + json_string(a.workspace_id@) + ",\"id\":"@ + json_string(a.id@) + "}"@
}

/// The executor key of the tools that delegate to `agent`: "hudson.delegate."
/// and the digest of the JSON `[actor, agent, name, description]`, with
/// "temporal" last when children run deferred.
pub open spec fn delegate_key(actor: Actor, agent: VersionRef, name: Seq<char>, description: Seq<char>, deferred: bool) -> Seq<char> {
    "hudson.delegate."@ + text_digest("["@ + actor_json(actor) + ","@ + version_ref_json(agent) + ","@ + json_string(name)
        + ","@ + json_string(description) + (if deferred { ","@ + json_string("temporal"@) } else { Seq::empty() }) + "]"@)
}

/// The task schema of a child without an input schema: a text of 1 to 16384
/// characters.
pub open spec fn default_task_schema() -> Seq<char> {
    "{\"maxLength\":16384,\"minLength\":1,\"type\":\"string\"}"@
}

/// The first member position, from `i`, whose key is not below "$id".
pub open spec fn id_slot(m: Seq<(String, Json)>, i: int) -> int
    decreases m.len() - i,
{
    if i < 0 || i >= m.len() || !text_lt(m[i].0@, "$id"@) {
        i
    } else {
        id_slot(m, i + 1)
    }
}

pub open spec fn has_member(m: Seq<(String, Json)>, key: Seq<char>) -> bool {
    exists|i: int| 0 <= i < m.len() && m[i].0@ == key
}

/// The members of an object with an "$id" member inserted at position `p`.
pub open spec fn members_with_id(m: Seq<(String, Json)>, p: int, id: Seq<char>) -> Seq<char> {
    let member = json_string("$id"@) + ":"@ + json_string(id);
    let before = json_members(m.take(p));
    let after = json_members(m.skip(p));
    (if p == 0 { member } else { before + ","@ + member }) + (if p < m.len() { ","@ + after } else { Seq::empty() })
}

/// A child's input schema as the delegation tool's task: its own document,
/// with "$id" set to "urn:hudson:task:" and the digest of the document when
/// it is an object without one, so that its references resolve within it.
pub open spec fn task_schema_text(schema: Seq<char>) -> Option<Seq<char>> {
    match parse_json(schema) {
        None => None,
        Some(j) => Some(match j {
            Json::Object(m) => if has_member(m@, "$id"@) {
                json_text(j)
            } else {
                "{"@ + members_with_id(m@, id_slot(m@, 0), "urn:hudson:task:"@ + text_digest(json_text(j))) + "}"@
            },
            _ => json_text(j),
        }),
    }
}

pub open spec fn join_schema() -> Seq<char> {
    "{\"additionalProperties\":false,\"properties\":{\"run_id\":{\"format\":\"uuid\",\"type\":\"string\"}},\"required\":[\"run_id\"],\"type\":\"object\"}"@
}

pub open spec fn delegate_schema(task: Seq<char>) -> Seq<char> {
    "{\"additionalProperties\":false,\"properties\":{\"task\":"@ + task + "},\"required\":[\"task\"],\"type\":\"object\"}"@
}

/// Append the members of `m` from `from` to `to`.
fn write_members(out: &mut String, m: &Vec<(String, Json)>, from: usize, to: usize)
    requires
        from <= to <= m@.len(),
    ensures
        final(out)@ == old(out)@ + json_members(m@.subrange(from as int, to as int)),
{
    let ghost start = out@;
    let mut k = from;
    proof {
        assert(m@.subrange(from as int, from as int) =~= Seq::<(String, Json)>::empty());
    }
    while k < to
        invariant
            from <= k <= to <= m@.len(),
            out@ == start + json_members(m@.subrange(from as int, k as int)),
        decreases to - k,
    {
        let ghost before = out@;
        if k > from {
            put(out, ",");
        }
        put_quoted(out, m[k].0.as_str());
        put(out, ":");
        write_json(out, &m[k].1);
        proof {
            let t = m@.subrange(from as int, k as int + 1);
            assert(t.drop_last() =~= m@.subrange(from as int, k as int));
            assert(t.last() == m@[k as int]);
            assert(out@ =~= start + json_members(t));
        }
        k = k + 1;
    }
}

fn find_member(m: &Vec<(String, Json)>, key: &str) -> (r: bool)
    ensures
        r == has_member(m@, key@),
{
    let mut i: usize = 0;
    while i < m.len()
        invariant
            i <= m@.len(),
            forall|j: int| 0 <= j < i ==> m@[j].0@ != key@,
        decreases m@.len() - i,
    {
        if crate::text::str_equal(m[i].0.as_str(), key) {
            return true;
        }
        i = i + 1;
    }
    false
}

fn task_schema(schema: &String) -> (r: Option<String>)
    ensures
        match r {
            Some(t) => task_schema_text(schema@) == Some(t@),
            None => task_schema_text(schema@) is None,
        },
{
    let j = match parse(schema.as_str()) {
        None => return None,
        Some(j) => j,
    };
    let mut whole = String::new();
    write_json(&mut whole, &j);
    match &j {
        Json::Object(m) => {
            if find_member(m, "$id") {
                return Some(whole);
            }
            let mut p: usize = 0;
            while p < m.len() && crate::skills::text_less(m[p].0.as_str(), "$id")
                invariant
                    p <= m@.len(),
                    id_slot(m@, p as int) == id_slot(m@, 0),
                decreases m@.len() - p,
            {
                p = p + 1;
            }
            let mut id = text("urn:hudson:task:");
            let dg = digest_text(&whole);
            id.append(dg.as_str());
            let mut out = text("{");
            let ghost start = out@;
            if p > 0 {
                write_members(&mut out, m, 0, p);
                put(&mut out, ",");
            }
            put_quoted(&mut out, "$id");
            put(&mut out, ":");
            put_quoted(&mut out, id.as_str());
            if p < m.len() {
                put(&mut out, ",");
                write_members(&mut out, m, p, m.len());
            }
            put(&mut out, "}");
            proof {
                assert(m@.subrange(0, p as int) =~= m@.take(p as int));
                assert(m@.subrange(p as int, m@.len() as int) =~= m@.skip(p as int));
                assert(out@ =~= "{"@ + members_with_id(m@, id_slot(m@, 0), "urn:hudson:task:"@ + text_digest(json_text(j))) + "}"@);
            }
            Some(out)
        },
        _ => Some(whole),
    }
}

/// The delegate and join tool records through which a parent calls the
/// specialist `agent` of `actor`'s workspace, under `policy`. The delegate
/// tool takes the task (the child's input schema, or else a text); the join
/// tool takes an existing child run's identifier. Both run registered
/// executors whose keys derive from the owner, agent, name, description and
/// whether children run deferred, and both may write (delegation can cause
/// child writes). A child that is not published is not found.
pub fn delegation_tools(d: &Data, actor: &Actor, agent: &VersionRef, name: &str, description: &str, policy: &str, deferred: bool)
    -> (r: Result<(Tool, Tool)>)
    requires
        d.wf(),
    ensures
        !d.has_agent(actor.workspace_id@, *agent) ==> r == Err::<(Tool, Tool), Error>(Error::NotFound),
        d.has_agent(actor.workspace_id@, *agent) ==> {
            let child = d.agent(actor.workspace_id@, *agent);
            let key = delegate_key(*actor, *agent, name@, description@, deferred);
            let task = match child.input_schema {
                None => Some(default_task_schema()),
                Some(s) => task_schema_text(s@),
            };
            &&& task is None ==> (r matches Err(Error::Invalid(_)))
            &&& task matches Some(t) ==> (r matches Ok((delegate, join)) && {
                &&& delegate.id@ == key && delegate.workspace_id@ == actor.workspace_id@ && delegate.version == 1
                &&& delegate.schema_version == SCHEMA_VERSION && delegate.name@ == name@ && delegate.description@ == description@
                &&& delegate.input_schema@ == delegate_schema(t) && delegate.output_schema is None
                &&& delegate.execution matches Execution::Registered { key: k } && k@ == key
                &&& delegate.credential_ref is None && delegate.policy_ref@ == policy@
                &&& delegate.effect == Effect::Write && delegate.created_at == 0
                &&& join.id@ == key + ".join"@ && join.workspace_id@ == actor.workspace_id@ && join.version == 1
                &&& join.schema_version == SCHEMA_VERSION && join.name@ == "join_"@ + name@
                &&& join.description@ == "Continue or inspect an existing child run from this parent. Do not submit the task again."@
                &&& join.input_schema@ == join_schema() && join.output_schema is None
                &&& join.execution matches Execution::Registered { key: k } && k@ == key + ".join"@
                &&& join.credential_ref is None && join.policy_ref@ == policy@
                &&& join.effect == Effect::Write && join.created_at == 0
            })
        },
{
    let ai = match d.find_agent(&actor.workspace_id, agent) {
        None => return Err(Error::NotFound),
        Some(ai) => ai,
    };
    let task = match &d.agents[ai].input_schema {
        None => text("{\"maxLength\":16384,\"minLength\":1,\"type\":\"string\"}"),
        Some(s) => match task_schema(s) {
            None => return Err(invalid("child input schema is not JSON")),
            Some(t) => t,
        },
    };
    let mut raw = text("[");
    put(&mut raw, "{\"workspace_id\":");
    put_quoted(&mut raw, actor.workspace_id.as_str());
    put(&mut raw, ",\"id\":");
    put_quoted(&mut raw, actor.id.as_str());
    put(&mut raw, "}");
    put(&mut raw, ",");
    crate::submit::write_version_ref(&mut raw, agent);
    put(&mut raw, ",");
    put_quoted(&mut raw, name);
    put(&mut raw, ",");
    put_quoted(&mut raw, description);
    let ghost mid = raw@;
    if deferred {
        put(&mut raw, ",");
        put_quoted(&mut raw, "temporal");
    }
    put(&mut raw, "]");
    proof {
        assert(mid =~= "["@ + actor_json(*actor) + ","@ + version_ref_json(*agent) + ","@ + json_string(name@) + ","@ + json_string(description@));
        assert(raw@ =~= "["@ + actor_json(*actor) + ","@ + version_ref_json(*agent) + ","@ + json_string(name@)
            + ","@ + json_string(description@) + (if deferred { ","@ + json_string("temporal"@) } else { Seq::empty() }) + "]"@);
    }
    let mut key = text("hudson.delegate.");
    let dg = digest_text(&raw);
    key.append(dg.as_str());
    let mut schema = text("{\"additionalProperties\":false,\"properties\":{\"task\":");
    schema.append(task.as_str());
    schema.append("},\"required\":[\"task\"],\"type\":\"object\"}");
    let mut join_key = key.clone();
    join_key.append(".join");
    let mut join_name = text("join_");
    join_name.append(name);
    let delegate = Tool {
        id: key.clone(),
        workspace_id: actor.workspace_id.clone(),
        version: 1,
        schema_version: SCHEMA_VERSION,
        name: text(name),
        description: text(description),
        input_schema: schema,
        output_schema: None,
        execution: Execution::Registered { key },
        credential_ref: None,
        policy_ref: text(policy),
        effect: Effect::Write,
        created_at: 0,
    };
    let join = Tool {
        id: join_key.clone(),
        workspace_id: actor.workspace_id.clone(),
        version: 1,
        schema_version: SCHEMA_VERSION,
        name: join_name,
        description: text("Continue or inspect an existing child run from this parent. Do not submit the task again."),
        input_schema: text("{\"additionalProperties\":false,\"properties\":{\"run_id\":{\"format\":\"uuid\",\"type\":\"string\"}},\"required\":[\"run_id\"],\"type\":\"object\"}"),
        output_schema: None,
        execution: Execution::Registered { key: join_key },
        credential_ref: None,
        policy_ref: text(policy),
        effect: Effect::Write,
        created_at: 0,
    };
    Ok((delegate, join))
}

/// The request key of the child run that operation `op` delegates.
pub open spec fn delegation_key(op: u128) -> Seq<char> {
    "delegate:"@ + uuid_string(op)
}

/// The task is a JSON string of blank text.
pub open spec fn blank_text_task(task: Seq<char>) -> bool {
    parse_json(task) matches Some(Json::Str(t)) && blank(t@)
}

/// Delegate `task` (JSON text) to a child run of `agent`, from operation
/// `operation_id` of a parent run. A child agent without an input schema takes
/// a text task (`default_text_task`), which must not be blank. The child is
/// submitted under the key `delegate:<operation id>`, so a repeated delegation
/// returns the same child, and is then attached to the delegating operation
/// when that operation is stored here. When the attachment is refused, the
/// child's cancellation is requested and the delegation conflicts.
pub fn delegate(
    d: &mut Data,
    actor: &Actor,
    agent: VersionRef,
    task: String,
    default_text_task: bool,
    operation_id: u128,
    model_budget: Option<ModelBudgetBinding>,
    initial_state: Checkpoint,
) -> (r: Result<u128>)
    requires
        old(d).wf(),
    ensures
        final(d).wf(),
        default_text_task && blank_text_task(task@) ==> (r matches Err(Error::Invalid(_))) && *final(d) == *old(d),
        r is Err ==> *final(d) == *old(d) || ((r matches Err(Error::Conflict(_)))
            && final(d).has_submission(actor.workspace_id@, actor.id@, delegation_key(operation_id))),
        r matches Ok(id) ==> {
            &&& !(default_text_task && blank_text_task(task@))
            &&& final(d).has_submission(actor.workspace_id@, actor.id@, delegation_key(operation_id))
            &&& final(d).submitted(actor.workspace_id@, actor.id@, delegation_key(operation_id)) == id
            &&& old(d).has_operation(operation_id) ==> final(d).owns(*actor, id)
                && final(d).run(id).parent_operation == Some(operation_id)
        },
{
    if default_text_task {
        match parse(task.as_str()) {
            Some(Json::Str(t)) => {
                if is_blank(t.as_str()) {
                    return Err(invalid("subagent task is empty"));
                }
            },
            _ => {},
        }
    }
    let mut key = text("delegate:");
    let op_text = uuid_text(operation_id);
    put(&mut key, op_text.as_str());
    let ghost k = key@;
    let id = crate::submit::submit_scheduled(d, actor, agent, task, Some(key), None, None, model_budget, initial_state)?;
    let ghost submitted = *d;
    proof {
        assert(k == delegation_key(operation_id));
        assert(submitted.has_submission(actor.workspace_id@, actor.id@, k));
        assert(submitted.submitted(actor.workspace_id@, actor.id@, k) == id);
        assert(submitted.operations == old(d).operations);
    }
    match link_child(d, actor, id, operation_id) {
        Ok(linked) => {
            proof {
                assert(submitted.has_operation(operation_id) == old(d).has_operation(operation_id));
                if old(d).has_operation(operation_id) {
                    assert(linked);
                    assert(d.owns(*actor, id));
                }
                assert(!(default_text_task && blank_text_task(task@)));
            }
            assert(d.submissions == submitted.submissions);
            assert(d.has_submission(actor.workspace_id@, actor.id@, k));
            assert(d.submitted(actor.workspace_id@, actor.id@, k) == id);
        },
        Err(_) => {
            let _ = crate::cancellation::cancel_tree(d, actor, id);
            return Err(conflict("child run could not attach to an active parent"));
        },
    }
    Ok(id)
}

/// Continue or inspect a child run from its parent: the child must have been
/// delegated by the run of `caller_operation`, for agent `agent`. Returns the
/// child's view.
pub fn join_delegate(d: &Data, actor: &Actor, child: u128, caller_operation: u128, agent: &VersionRef) -> (r: Result<RunView>)
    requires
        d.wf(),
    ensures
        r is Ok <==> {
            &&& d.owns(*actor, child)
            &&& d.run(child).parent_operation is Some
            &&& d.has_operation(d.run(child).parent_operation->0)
            &&& d.has_operation(caller_operation)
            &&& d.owns(*actor, d.operation(caller_operation).run_id)
            &&& d.operation(d.run(child).parent_operation->0).run_id == d.operation(caller_operation).run_id
            &&& d.run(child).agent_ref.same(*agent)
        },
        r is Err ==> r == Err::<RunView, Error>(Error::NotFound) || r == Err::<RunView, Error>(Error::Denied),
        !d.owns(*actor, child) ==> r == Err::<RunView, Error>(Error::NotFound),
        r matches Ok(v) ==> shows_run(v, d.run(child)),
{
    validate_child_access(d, actor, child, caller_operation, agent)?;
    inspect(d, actor, child)
}

} // verus!
