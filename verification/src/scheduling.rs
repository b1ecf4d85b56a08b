//! Durable scheduling intent. Remote schedulers acknowledge only after they
//! accept the stable run identity; retrying publication must not replay
//! execution.
use vstd::prelude::*;
use crate::error::{conflict, invalid, Error, Result};
use crate::models::{Actor, VersionRef};
use crate::store::{Data, ScheduleRequest};
use crate::text::{blank, is_blank, utf8_len};

pub use crate::store::ScheduleTarget;

verus! {

/// A scheduler or queue name: not blank, at most 256 bytes.
pub open spec fn name_valid(s: Seq<char>) -> bool {
    !blank(s) && utf8_len(s) <= 256
}

pub open spec fn target_valid(t: ScheduleTarget) -> bool {
    name_valid(t.scheduler@) && name_valid(t.task_queue@)
}

pub open spec fn same_target(a: ScheduleTarget, b: ScheduleTarget) -> bool {
    a.scheduler@ == b.scheduler@ && a.task_queue@ == b.task_queue@
}

pub fn target_equals(a: &ScheduleTarget, b: &ScheduleTarget) -> (r: bool)
    ensures
        r == same_target(*a, *b),
{
    a.scheduler == b.scheduler && a.task_queue == b.task_queue
}

fn name_ok(s: &String) -> (r: bool)
    ensures
        r == name_valid(s@),
{
    !is_blank(s.as_str()) && crate::text::byte_length(s) <= 256
}

impl ScheduleTarget {
    pub fn validate(&self) -> (r: Result<()>)
        ensures
            r is Ok <==> target_valid(*self),
            r is Err ==> r matches Err(Error::Invalid(_)),
    {
        if !name_ok(&self.scheduler) || !name_ok(&self.task_queue) {
            return Err(invalid("invalid scheduling target"));
        }
        Ok(())
    }

    pub fn copy(&self) -> (r: ScheduleTarget)
        ensures
            same_target(r, *self),
    {
        ScheduleTarget { scheduler: self.scheduler.clone(), task_queue: self.task_queue.clone() }
    }
}

impl Data {
    pub open spec fn has_schedule(&self, run: u128) -> bool {
        exists|i: int| 0 <= i < self.schedule_requests@.len() && self.schedule_requests@[i].run_id == run
    }

    pub open spec fn schedule_index(&self, run: u128) -> int {
        choose|i: int| 0 <= i < self.schedule_requests@.len() && self.schedule_requests@[i].run_id == run
    }

    /// The scheduling target recorded for a run, if any.
    pub open spec fn schedule_of(&self, run: u128) -> Option<ScheduleTarget> {
        if self.has_schedule(run) {
            Some(self.schedule_requests@[self.schedule_index(run)].target)
        } else {
            None
        }
    }

    pub fn find_schedule(&self, run: u128) -> (r: Option<usize>)
        requires
            self.wf(),
        ensures
            r is Some <==> self.has_schedule(run),
            r matches Some(i) ==> i == self.schedule_index(run) && i < self.schedule_requests@.len(),
    {
        let mut i: usize = 0;
        while i < self.schedule_requests.len()
            invariant
                self.wf(),
                i <= self.schedule_requests@.len(),
                forall|k: int| 0 <= k < i ==> self.schedule_requests@[k].run_id != run,
            decreases self.schedule_requests@.len() - i,
        {
            if self.schedule_requests[i].run_id == run {
                assert(self.has_schedule(run));
                let ghost j = self.schedule_index(run);
                assert(self.schedule_requests@[i as int].run_id == run);
                assert(j == i);
                return Some(i);
            }
            i = i + 1;
        }
        None
    }
}

/// Both absent, or both present and equal.
pub open spec fn same_optional_target(a: Option<ScheduleTarget>, b: Option<ScheduleTarget>) -> bool {
    match (a, b) {
        (None, None) => true,
        (Some(x), Some(y)) => same_target(x, y),
        _ => false,
    }
}

pub fn optional_target_equals(a: Option<&ScheduleTarget>, b: Option<&ScheduleTarget>) -> (r: bool)
    ensures
        r == same_optional_target(match a { Some(x) => Some(*x), None => None }, match b { Some(x) => Some(*x), None => None }),
{
    match (a, b) {
        (None, None) => true,
        (Some(x), Some(y)) => target_equals(x, y),
        _ => false,
    }
}

/// The run that `run`'s parent operation belongs to, if it has a parent.
pub open spec fn parent_run(d: Data, run: u128) -> Option<u128> {
    match d.run(run).parent_operation {
        None => None,
        Some(op) => if d.has_operation(op) { Some(d.operation(op).run_id) } else { None },
    }
}

/// `chain` leads from `id` up to a root run through parent operations, and
/// every run on it is owned by `actor`.
pub open spec fn ancestry(d: Data, actor: Actor, id: u128, chain: Seq<u128>) -> bool {
    &&& chain.len() > 0
    &&& chain[0] == id
    &&& forall|k: int| 0 <= k < chain.len() ==> d.owns(actor, #[trigger] chain[k])
    &&& forall|k: int| 0 <= k < chain.len() - 1 ==> d.run(#[trigger] chain[k]).parent_operation is Some
        && d.has_operation(d.run(chain[k]).parent_operation->0)
        && d.operation(d.run(chain[k]).parent_operation->0).run_id == chain[k + 1]
    &&& d.run(chain.last()).parent_operation is None
}

/// Check that a run, or the root of delegated work, belongs to the execution
/// host that `target` names (none: the run was submitted without one). Also
/// required before accepting controls from a scheduling-only host.
#[verifier::rlimit(40)]
pub fn validate_schedule(d: &Data, actor: &Actor, id: u128, target: Option<&ScheduleTarget>) -> (r: Result<()>)
    requires
        d.wf(),
    ensures
        !d.owns(*actor, id) ==> r == Err::<(), Error>(Error::NotFound),
        r is Ok ==> exists|chain: Seq<u128>| ancestry(*d, *actor, id, chain)
            && same_optional_target(d.schedule_of(chain.last()), match target { Some(t) => Some(*t), None => None }),
        forall|chain: Seq<u128>| ancestry(*d, *actor, id, chain) && chain.no_duplicates() ==> (r is Ok <==>
            same_optional_target(d.schedule_of(chain.last()), match target { Some(t) => Some(*t), None => None })),
{
    let n = d.runs.len();
    let mut marked: Vec<bool> = Vec::new();
    let mut c: usize = 0;
    while c < n
        invariant
            n == d.runs@.len(),
            c <= n,
            marked@.len() == c,
            forall|x: int| 0 <= x < c ==> !marked@[x],
        decreases n - c,
    {
        marked.push(false);
        c = c + 1;
    }
    proof {
        crate::runtime::lemma_count_true_none(marked@);
    }
    let mut visited: Vec<u128> = Vec::new();
    let mut current = id;
    loop
        invariant
            d.wf(),
            n == d.runs@.len(),
            marked@.len() == n,
            visited@.len() == crate::runtime::count_true(marked@),
            visited@.len() <= n,
            visited@.len() > 0 ==> visited@[0] == id,
            visited@.len() == 0 ==> current == id,
            forall|k: int| 0 <= k < visited@.len() ==> d.owns(*actor, #[trigger] visited@[k]),
            forall|k: int| 0 <= k < visited@.len() ==> parent_run(*d, #[trigger] visited@[k]) is Some,
            forall|k: int| 0 <= k < visited@.len() - 1 ==> parent_run(*d, #[trigger] visited@[k]) == Some(visited@[k + 1]),
            visited@.len() > 0 ==> parent_run(*d, visited@.last()) == Some(current),
            forall|x: int| 0 <= x < n ==> (marked@[x] <==> visited@.contains(#[trigger] d.runs@[x].meta.id)),
            forall|chain: Seq<u128>| ancestry(*d, *actor, id, chain) && chain.no_duplicates() ==>
                visited@.len() < chain.len() && visited@ == chain.take(visited@.len() as int)
                && current == chain[visited@.len() as int],
        decreases n - visited@.len(),
    {
        let ri = d.owned_run(actor, current)?;
        if marked[ri] {
            proof {
                assert forall|chain: Seq<u128>| ancestry(*d, *actor, id, chain) && chain.no_duplicates() implies false by {
                    assert(visited@.contains(current));
                    let k = choose|k: int| 0 <= k < visited@.len() && visited@[k] == current;
                    assert(chain[k] == visited@[k]);
                    assert(chain[visited@.len() as int] == current);
                }
            }
            return Err(conflict("cyclic run ancestry"));
        }
        let parent = match d.runs[ri].parent_operation {
            None => {
                let ghost v = visited@.push(current);
                proof {
                    assert(d.run(current).parent_operation is None);
                    assert forall|k: int| 0 <= k < v.len() implies d.owns(*actor, #[trigger] v[k]) by {
                        if k < visited@.len() {
                            assert(v[k] == visited@[k]);
                        }
                    }
                    assert forall|k: int| 0 <= k < v.len() - 1 implies d.run(#[trigger] v[k]).parent_operation is Some
                        && d.has_operation(d.run(v[k]).parent_operation->0)
                        && d.operation(d.run(v[k]).parent_operation->0).run_id == v[k + 1] by {
                        assert(v[k] == visited@[k]);
                        assert(parent_run(*d, visited@[k]) is Some);
                        if k < visited@.len() - 1 {
                            assert(parent_run(*d, visited@[k]) == Some(visited@[k + 1]));
                        }
                    }
                    assert(ancestry(*d, *actor, id, v));
                    assert forall|chain: Seq<u128>| ancestry(*d, *actor, id, chain) && chain.no_duplicates() implies chain == v by {
                        assert(chain.take(visited@.len() as int) == visited@);
                        assert(chain[visited@.len() as int] == current);
                        if chain.len() > v.len() {
                            assert(d.run(chain[visited@.len() as int]).parent_operation is Some);
                        }
                        assert(chain =~= v);
                    }
                }
                let found = match d.find_schedule(current) {
                    None => None,
                    Some(si) => Some(&d.schedule_requests[si].target),
                };
                if optional_target_equals(found, target) {
                    return Ok(());
                }
                return Err(conflict("run belongs to a different execution host"));
            },
            Some(op) => match d.find_operation(op) {
                None => {
                    proof {
                        assert forall|chain: Seq<u128>| ancestry(*d, *actor, id, chain) && chain.no_duplicates() implies false by {
                            assert(chain[visited@.len() as int] == current);
                            if visited@.len() < chain.len() - 1 {
                                assert(d.run(chain[visited@.len() as int]).parent_operation is Some);
                            } else {
                                assert(chain.last() == current);
                            }
                        }
                    }
                    return Err(Error::NotFound);
                },
                Some(oi) => d.operations[oi].run_id,
            },
        };
        proof {
            crate::runtime::lemma_count_true_set(marked@, ri as int);
            crate::runtime::lemma_count_true_bound(marked@.update(ri as int, true));
        }
        let ghost old_visited = visited@;
        marked.set(ri, true);
        visited.push(current);
        proof {
            assert(parent_run(*d, current) == Some(parent));
            assert forall|x: int| 0 <= x < n implies (marked@[x] <==> visited@.contains(#[trigger] d.runs@[x].meta.id)) by {
                if x == ri {
                    assert(visited@[visited@.len() - 1] == current);
                } else {
                    assert(d.runs@[x].meta.id != current);
                    if old_visited.contains(d.runs@[x].meta.id) {
                        let k = choose|k: int| 0 <= k < old_visited.len() && #[trigger] old_visited[k] == d.runs@[x].meta.id;
                        assert(visited@[k] == old_visited[k]);
                    }
                    if visited@.contains(d.runs@[x].meta.id) {
                        let k = choose|k: int| 0 <= k < visited@.len() && #[trigger] visited@[k] == d.runs@[x].meta.id;
                        assert(k < old_visited.len());
                        assert(old_visited[k] == visited@[k]);
                    }
                }
            }
            assert forall|k: int| 0 <= k < visited@.len() implies d.owns(*actor, #[trigger] visited@[k]) by {
                if k < old_visited.len() {
                    assert(visited@[k] == old_visited[k]);
                }
            }
            assert forall|k: int| 0 <= k < visited@.len() implies parent_run(*d, #[trigger] visited@[k]) is Some by {
                if k < old_visited.len() {
                    assert(visited@[k] == old_visited[k]);
                }
            }
            assert forall|k: int| 0 <= k < visited@.len() - 1 implies parent_run(*d, #[trigger] visited@[k]) == Some(visited@[k + 1]) by {
                assert(visited@[k] == old_visited[k]);
                if k < old_visited.len() - 1 {
                    assert(visited@[k + 1] == old_visited[k + 1]);
                }
            }
            assert forall|chain: Seq<u128>| ancestry(*d, *actor, id, chain) && chain.no_duplicates() implies
                visited@.len() < chain.len() && visited@ == chain.take(visited@.len() as int)
                && parent == chain[visited@.len() as int] by {
                let m = old_visited.len() as int;
                assert(chain[m] == current);
                if m == chain.len() - 1 {
                    assert(chain.last() == current);
                    assert(d.run(current).parent_operation is Some);
                }
                assert(d.run(chain[m]).parent_operation is Some);
                assert(d.operation(d.run(chain[m]).parent_operation->0).run_id == chain[m + 1]);
                assert(visited@ =~= chain.take(m + 1));
            }
        }
        current = parent;
    }
}

/// The root of a run: the run reached through parent operations that has
/// none, with every run on the way owned by `actor`. A parent operation that
/// is not stored is not found; an ancestry that loops is a conflict.
#[verifier::rlimit(40)]
pub fn root_run(d: &Data, actor: &Actor, id: u128) -> (r: Result<u128>)
    requires
        d.wf(),
    ensures
        !d.owns(*actor, id) ==> r == Err::<u128, Error>(Error::NotFound),
        r matches Ok(root) ==> exists|chain: Seq<u128>| ancestry(*d, *actor, id, chain) && chain.last() == root,
        forall|chain: Seq<u128>| ancestry(*d, *actor, id, chain) && chain.no_duplicates() ==> r == Ok::<u128, Error>(chain.last()),
        r is Err ==> r == Err::<u128, Error>(Error::NotFound) || (r matches Err(Error::Conflict(_))),
{
    let n = d.runs.len();
    let mut marked: Vec<bool> = Vec::new();
    let mut c: usize = 0;
    while c < n
        invariant
            n == d.runs@.len(),
            c <= n,
            marked@.len() == c,
            forall|x: int| 0 <= x < c ==> !marked@[x],
        decreases n - c,
    {
        marked.push(false);
        c = c + 1;
    }
    proof {
        crate::runtime::lemma_count_true_none(marked@);
    }
    let mut visited: Vec<u128> = Vec::new();
    let mut current = id;
    loop
        invariant
            d.wf(),
            n == d.runs@.len(),
            marked@.len() == n,
            visited@.len() == crate::runtime::count_true(marked@),
            visited@.len() <= n,
            visited@.len() > 0 ==> visited@[0] == id,
            visited@.len() == 0 ==> current == id,
            forall|k: int| 0 <= k < visited@.len() ==> d.owns(*actor, #[trigger] visited@[k]),
            forall|k: int| 0 <= k < visited@.len() ==> parent_run(*d, #[trigger] visited@[k]) is Some,
            forall|k: int| 0 <= k < visited@.len() - 1 ==> parent_run(*d, #[trigger] visited@[k]) == Some(visited@[k + 1]),
            visited@.len() > 0 ==> parent_run(*d, visited@.last()) == Some(current),
            forall|x: int| 0 <= x < n ==> (marked@[x] <==> visited@.contains(#[trigger] d.runs@[x].meta.id)),
            forall|chain: Seq<u128>| ancestry(*d, *actor, id, chain) && chain.no_duplicates() ==>
                visited@.len() < chain.len() && visited@ == chain.take(visited@.len() as int)
                && current == chain[visited@.len() as int],
        decreases n - visited@.len(),
    {
        let ri = d.owned_run(actor, current)?;
        if marked[ri] {
            proof {
                assert forall|chain: Seq<u128>| ancestry(*d, *actor, id, chain) && chain.no_duplicates() implies false by {
                    assert(visited@.contains(current));
                    let k = choose|k: int| 0 <= k < visited@.len() && visited@[k] == current;
                    assert(chain[k] == visited@[k]);
                    assert(chain[visited@.len() as int] == current);
                }
            }
            return Err(conflict("cyclic run ancestry"));
        }
        let parent = match d.runs[ri].parent_operation {
            None => {
                let ghost v = visited@.push(current);
                proof {
                    assert(d.run(current).parent_operation is None);
                    assert forall|k: int| 0 <= k < v.len() implies d.owns(*actor, #[trigger] v[k]) by {
                        if k < visited@.len() {
                            assert(v[k] == visited@[k]);
                        }
                    }
                    assert forall|k: int| 0 <= k < v.len() - 1 implies d.run(#[trigger] v[k]).parent_operation is Some
                        && d.has_operation(d.run(v[k]).parent_operation->0)
                        && d.operation(d.run(v[k]).parent_operation->0).run_id == v[k + 1] by {
                        assert(v[k] == visited@[k]);
                        assert(parent_run(*d, visited@[k]) is Some);
                        if k < visited@.len() - 1 {
                            assert(parent_run(*d, visited@[k]) == Some(visited@[k + 1]));
                        }
                    }
                    assert(ancestry(*d, *actor, id, v));
                    assert forall|chain: Seq<u128>| ancestry(*d, *actor, id, chain) && chain.no_duplicates() implies chain == v by {
                        assert(chain.take(visited@.len() as int) == visited@);
                        assert(chain[visited@.len() as int] == current);
                        if chain.len() > v.len() {
                            assert(d.run(chain[visited@.len() as int]).parent_operation is Some);
                        }
                        assert(chain =~= v);
                    }
                }
                proof {
                    assert(v.last() == current);
                }
                return Ok(current);
            },
            Some(op) => match d.find_operation(op) {
                None => {
                    proof {
                        assert forall|chain: Seq<u128>| ancestry(*d, *actor, id, chain) && chain.no_duplicates() implies false by {
                            assert(chain[visited@.len() as int] == current);
                            if visited@.len() < chain.len() - 1 {
                                assert(d.run(chain[visited@.len() as int]).parent_operation is Some);
                            } else {
                                assert(chain.last() == current);
                            }
                        }
                    }
                    return Err(Error::NotFound);
                },
                Some(oi) => d.operations[oi].run_id,
            },
        };
        proof {
            crate::runtime::lemma_count_true_set(marked@, ri as int);
            crate::runtime::lemma_count_true_bound(marked@.update(ri as int, true));
        }
        let ghost old_visited = visited@;
        marked.set(ri, true);
        visited.push(current);
        proof {
            assert(parent_run(*d, current) == Some(parent));
            assert forall|x: int| 0 <= x < n implies (marked@[x] <==> visited@.contains(#[trigger] d.runs@[x].meta.id)) by {
                if x == ri {
                    assert(visited@[visited@.len() - 1] == current);
                } else {
                    assert(d.runs@[x].meta.id != current);
                    if old_visited.contains(d.runs@[x].meta.id) {
                        let k = choose|k: int| 0 <= k < old_visited.len() && #[trigger] old_visited[k] == d.runs@[x].meta.id;
                        assert(visited@[k] == old_visited[k]);
                    }
                    if visited@.contains(d.runs@[x].meta.id) {
                        let k = choose|k: int| 0 <= k < visited@.len() && #[trigger] visited@[k] == d.runs@[x].meta.id;
                        assert(k < old_visited.len());
                        assert(old_visited[k] == visited@[k]);
                    }
                }
            }
            assert forall|k: int| 0 <= k < visited@.len() implies d.owns(*actor, #[trigger] visited@[k]) by {
                if k < old_visited.len() {
                    assert(visited@[k] == old_visited[k]);
                }
            }
            assert forall|k: int| 0 <= k < visited@.len() implies parent_run(*d, #[trigger] visited@[k]) is Some by {
                if k < old_visited.len() {
                    assert(visited@[k] == old_visited[k]);
                }
            }
            assert forall|k: int| 0 <= k < visited@.len() - 1 implies parent_run(*d, #[trigger] visited@[k]) == Some(visited@[k + 1]) by {
                assert(visited@[k] == old_visited[k]);
                if k < old_visited.len() - 1 {
                    assert(visited@[k + 1] == old_visited[k + 1]);
                }
            }
            assert forall|chain: Seq<u128>| ancestry(*d, *actor, id, chain) && chain.no_duplicates() implies
                visited@.len() < chain.len() && visited@ == chain.take(visited@.len() as int)
                && parent == chain[visited@.len() as int] by {
                let m = old_visited.len() as int;
                assert(chain[m] == current);
                if m == chain.len() - 1 {
                    assert(chain.last() == current);
                    assert(d.run(current).parent_operation is Some);
                }
                assert(d.run(chain[m]).parent_operation is Some);
                assert(d.operation(d.run(chain[m]).parent_operation->0).run_id == chain[m + 1]);
                assert(visited@ =~= chain.take(m + 1));
            }
        }
        current = parent;
    }
}

/// The last attempt of the scheduling request of run `id`.
pub open spec fn attempted(d: Data, id: u128) -> u64 {
    d.schedule_requests@[d.schedule_index(id)].last_attempt
}

/// A listing hands out untouched work first: earlier entries were attempted
/// no later than later ones (and, at equal attempts, were created no later);
/// an eligible request left out of a full listing was attempted no earlier
/// than the last one listed.
pub open spec fn least_attempted_first(d: Data, actor: Actor, agent: VersionRef, target: ScheduleTarget, v: Seq<u128>) -> bool {
    &&& forall|a: int, b: int| 0 <= a < b < v.len() ==> attempted(d, #[trigger] v[a]) <= attempted(d, #[trigger] v[b])
        && (attempted(d, v[a]) == attempted(d, v[b]) ==> d.run(v[a]).meta.created_at <= d.run(v[b]).meta.created_at)
        && (attempted(d, v[a]) == attempted(d, v[b]) && d.run(v[a]).meta.created_at == d.run(v[b]).meta.created_at
            ==> v[a] < v[b])
    &&& forall|i: int| 0 <= i < d.schedule_requests@.len() && eligible(d, actor, agent, target, i)
        && !v.contains(#[trigger] d.schedule_requests@[i].run_id) ==> v.len() > 0
            && attempted(d, v.last()) <= d.schedule_requests@[i].last_attempt
            && (attempted(d, v.last()) == d.schedule_requests@[i].last_attempt
                ==> d.run(v.last()).meta.created_at <= d.run(d.schedule_requests@[i].run_id).meta.created_at)
}

/// A listing ordered by scheduling key, in which every eligible request left
/// out comes after the last one listed, hands out the least recently
/// attempted work first.
pub proof fn pending_order_is_least_attempted_first(d: Data, actor: Actor, agent: VersionRef, target: ScheduleTarget, limit: usize, v: Seq<u128>)
    requires
        forall|k: int| 0 <= k < v.len() ==> d.has_schedule(#[trigger] v[k]),
        forall|a: int, b: int| 0 <= a < b < v.len() ==>
            key_lt(rkey(d, d.schedule_index(#[trigger] v[a])), rkey(d, d.schedule_index(#[trigger] v[b]))),
        forall|i: int| 0 <= i < d.schedule_requests@.len() && eligible(d, actor, agent, target, i) ==>
            v.contains(#[trigger] d.schedule_requests@[i].run_id)
            || (v.len() == limit && key_lt(rkey(d, d.schedule_index(v.last())), rkey(d, i))),
        limit >= 1,
    ensures
        least_attempted_first(d, actor, agent, target, v),
{
    assert forall|a: int, b: int| 0 <= a < b < v.len() implies attempted(d, #[trigger] v[a]) <= attempted(d, #[trigger] v[b])
        && (attempted(d, v[a]) == attempted(d, v[b]) ==> d.run(v[a]).meta.created_at <= d.run(v[b]).meta.created_at)
        && (attempted(d, v[a]) == attempted(d, v[b]) && d.run(v[a]).meta.created_at == d.run(v[b]).meta.created_at
            ==> v[a] < v[b]) by {
        let ia = d.schedule_index(v[a]);
        let ib = d.schedule_index(v[b]);
        assert(key_lt(rkey(d, ia), rkey(d, ib)));
        assert(d.schedule_requests@[ia].run_id == v[a]);
        assert(d.schedule_requests@[ib].run_id == v[b]);
    }
}

/// Order of scheduling keys (last attempt, creation time, run): lexicographic.
pub open spec fn key_lt(a: (u64, u64, u128), b: (u64, u64, u128)) -> bool {
    ||| a.0 < b.0
    ||| a.0 == b.0 && a.1 < b.1
    ||| a.0 == b.0 && a.1 == b.1 && a.2 < b.2
}

fn key_less(a: (u64, u64, u128), b: (u64, u64, u128)) -> (r: bool)
    ensures
        r == key_lt(a, b),
{
    a.0 < b.0 || (a.0 == b.0 && (a.1 < b.1 || (a.1 == b.1 && a.2 < b.2)))
}

/// The request at `i` is an unacknowledged root run of `agent` for `target`,
/// owned by `actor` and not finished.
pub open spec fn eligible(d: Data, actor: Actor, agent: VersionRef, target: ScheduleTarget, i: int) -> bool {
    let q = d.schedule_requests@[i];
    &&& !q.acknowledged
    &&& same_target(q.target, target)
    &&& d.owns(actor, q.run_id)
    &&& d.run(q.run_id).agent_ref.same(agent)
    &&& d.run(q.run_id).parent_operation is None
    &&& !d.run(q.run_id).status.is_terminal()
}

/// The scheduling key of the request at `i`.
pub open spec fn rkey(d: Data, i: int) -> (u64, u64, u128) {
    let q = d.schedule_requests@[i];
    (q.last_attempt, d.run(q.run_id).meta.created_at, q.run_id)
}

fn eligible_key(d: &Data, actor: &Actor, agent: &VersionRef, target: &ScheduleTarget, j: usize) -> (r: Option<(u64, u64, u128)>)
    requires
        d.wf(),
        j < d.schedule_requests@.len(),
    ensures
        r is Some <==> eligible(*d, *actor, *agent, *target, j as int),
        r matches Some(k) ==> k == rkey(*d, j as int),
{
    let q = &d.schedule_requests[j];
    if q.acknowledged || !target_equals(&q.target, target) {
        return None;
    }
    let ri = match d.owned_run(actor, q.run_id) {
        Err(_) => return None,
        Ok(ri) => ri,
    };
    let run = &d.runs[ri];
    if !run.agent_ref.equals(agent) || run.parent_operation.is_some() || run.status.terminal() {
        return None;
    }
    Some((q.last_attempt, run.meta.created_at, q.run_id))
}

proof fn lemma_schedule_index(d: Data, i: int)
    requires
        d.wf(),
        0 <= i < d.schedule_requests@.len(),
    ensures
        d.has_schedule(d.schedule_requests@[i].run_id),
        d.schedule_index(d.schedule_requests@[i].run_id) == i,
{
    let id = d.schedule_requests@[i].run_id;
    assert(d.has_schedule(id));
    let j = d.schedule_index(id);
    assert(d.schedule_requests@[j].run_id == id);
}

/// The explicitly scheduled root runs of `agent` that wait for `target`,
/// owned by `actor`: at most `limit` of them, those with the smallest keys
/// (least recently attempted first, then oldest), in key order.
#[verifier::rlimit(60)]
pub fn pending_schedules(d: &Data, actor: &Actor, agent: &VersionRef, target: &ScheduleTarget, limit: usize) -> (r: Result<Vec<u128>>)
    requires
        d.wf(),
    ensures
        !target_valid(*target) ==> r matches Err(Error::Invalid(_)),
        target_valid(*target) && !(1 <= limit <= 100) ==> r matches Err(Error::Invalid(_)),
        r is Ok <==> target_valid(*target) && 1 <= limit <= 100,
        r matches Ok(v) ==> {
            &&& v@.len() <= limit
            &&& forall|k: int| 0 <= k < v@.len() ==> d.has_schedule(#[trigger] v@[k])
                && eligible(*d, *actor, *agent, *target, d.schedule_index(v@[k]))
            &&& forall|a: int, b: int| 0 <= a < b < v@.len() ==>
                key_lt(rkey(*d, d.schedule_index(#[trigger] v@[a])), rkey(*d, d.schedule_index(#[trigger] v@[b])))
            &&& forall|i: int| 0 <= i < d.schedule_requests@.len() && eligible(*d, *actor, *agent, *target, i) ==>
                v@.contains(#[trigger] d.schedule_requests@[i].run_id)
                || (v@.len() == limit && key_lt(rkey(*d, d.schedule_index(v@.last())), rkey(*d, i)))
            &&& least_attempted_first(*d, *actor, *agent, *target, v@)
        },
{
    target.validate()?;
    if !(1 <= limit && limit <= 100) {
        return Err(invalid("scheduling batch must contain 1 to 100 runs"));
    }
    let m = d.schedule_requests.len();
    let mut v: Vec<u128> = Vec::new();
    let mut last: Option<(u64, u64, u128)> = None;
    while v.len() < limit
        invariant
            d.wf(),
            m == d.schedule_requests@.len(),
            1 <= limit,
            v@.len() <= limit,
            forall|k: int| 0 <= k < v@.len() ==> d.has_schedule(#[trigger] v@[k])
                && eligible(*d, *actor, *agent, *target, d.schedule_index(v@[k])),
            forall|a: int, b: int| 0 <= a < b < v@.len() ==>
                key_lt(rkey(*d, d.schedule_index(#[trigger] v@[a])), rkey(*d, d.schedule_index(#[trigger] v@[b]))),
            v@.len() == 0 <==> last is None,
            last matches Some(lk) ==> lk == rkey(*d, d.schedule_index(v@.last())),
            forall|i: int| 0 <= i < m && eligible(*d, *actor, *agent, *target, i) && (last matches Some(lk) && !key_lt(lk, rkey(*d, i)))
                ==> v@.contains(#[trigger] d.schedule_requests@[i].run_id),
        ensures
            forall|i: int| 0 <= i < m && eligible(*d, *actor, *agent, *target, i) ==>
                v@.contains(#[trigger] d.schedule_requests@[i].run_id)
                || (v@.len() == limit && key_lt(rkey(*d, d.schedule_index(v@.last())), rkey(*d, i))),
        decreases limit - v@.len(),
    {
        let mut best: Option<(usize, (u64, u64, u128))> = None;
        let mut j: usize = 0;
        while j < m
            invariant
                d.wf(),
                m == d.schedule_requests@.len(),
                j <= m,
                best matches Some((b, bk)) ==> b < m && eligible(*d, *actor, *agent, *target, b as int)
                    && bk == rkey(*d, b as int)
                    && (last matches Some(lk) ==> key_lt(lk, bk))
                    && forall|i: int| 0 <= i < j && eligible(*d, *actor, *agent, *target, i)
                        && (last matches Some(lk) ==> key_lt(lk, rkey(*d, i))) ==> !key_lt(rkey(*d, i), bk),
                best is None ==> forall|i: int| 0 <= i < j && eligible(*d, *actor, *agent, *target, i)
                    ==> !(last matches Some(lk) ==> key_lt(lk, rkey(*d, i))),
            decreases m - j,
        {
            match eligible_key(d, actor, agent, target, j) {
                None => {},
                Some(k) => {
                    let after = match last {
                        None => true,
                        Some(lk) => key_less(lk, k),
                    };
                    if after {
                        let better = match best {
                            None => true,
                            Some((_, bk)) => key_less(k, bk),
                        };
                        if better {
                            best = Some((j, k));
                        }
                    }
                },
            }
            j = j + 1;
        }
        match best {
            None => {
                proof {
                    assert forall|i: int| 0 <= i < m && eligible(*d, *actor, *agent, *target, i) implies
                        v@.contains(#[trigger] d.schedule_requests@[i].run_id) by {
                        assert(!(last matches Some(lk) ==> key_lt(lk, rkey(*d, i))));
                    }
                }
                break;
            },
            Some((b, bk)) => {
                proof {
                    lemma_schedule_index(*d, b as int);
                }
                let ghost old_v = v@;
                let ghost old_last = last;
                v.push(d.schedule_requests[b].run_id);
                last = Some(bk);
                proof {
                    let id = d.schedule_requests@[b as int].run_id;
                    assert(v@.last() == id);
                    assert forall|k: int| 0 <= k < v@.len() implies d.has_schedule(#[trigger] v@[k])
                        && eligible(*d, *actor, *agent, *target, d.schedule_index(v@[k])) by {
                        if k < old_v.len() {
                            assert(v@[k] == old_v[k]);
                        }
                    }
                    assert forall|a: int, c: int| 0 <= a < c < v@.len() implies
                        key_lt(rkey(*d, d.schedule_index(#[trigger] v@[a])), rkey(*d, d.schedule_index(#[trigger] v@[c]))) by {
                        assert(v@[a] == old_v[a]);
                        if c < old_v.len() {
                            assert(v@[c] == old_v[c]);
                        } else {
                            if old_v.len() > 0 {
                                assert(old_v.last() == old_v[old_v.len() - 1]);
                                if a < old_v.len() - 1 {
                                    assert(key_lt(rkey(*d, d.schedule_index(old_v[a])), rkey(*d, d.schedule_index(old_v[old_v.len() - 1]))));
                                }
                            }
                        }
                    }
                    assert forall|i: int| 0 <= i < m && eligible(*d, *actor, *agent, *target, i) && !key_lt(bk, rkey(*d, i))
                        implies v@.contains(#[trigger] d.schedule_requests@[i].run_id) by {
                        let qi = d.schedule_requests@[i].run_id;
                        let in_old = match old_last { Some(lk) => !key_lt(lk, rkey(*d, i)), None => false };
                        if i == b {
                            assert(v@[v@.len() - 1] == qi);
                        } else {
                            assert(qi != id);
                            if !in_old {
                                assert(!key_lt(rkey(*d, i), bk));
                                assert(rkey(*d, i).2 == qi);
                                assert(bk.2 == id);
                                assert(false);
                            } else {
                                assert(old_v.contains(qi));
                                let k = choose|k: int| 0 <= k < old_v.len() && old_v[k] == qi;
                                assert(v@[k] == qi);
                            }
                        }
                    }
                }
            },
        }
    }
    proof {
        pending_order_is_least_attempted_first(*d, *actor, *agent, *target, limit, v@);
    }
    Ok(v)
}

/// The tables other than the scheduling requests are unchanged.
pub open spec fn only_schedules_changed(old: Data, new: Data) -> bool {
    &&& new.runs == old.runs && new.operations == old.operations && new.logs == old.logs
    &&& new.agents == old.agents && new.tools == old.tools && new.policies == old.policies
    &&& new.submissions == old.submissions && new.inputs == old.inputs
    &&& new.model_budgets == old.model_budgets && new.team_tasks == old.team_tasks
    &&& new.schedule_requests@.len() == old.schedule_requests@.len()
}

/// The request of a run owned by `actor`, for `target`.
pub open spec fn schedule_matches(d: Data, actor: Actor, id: u128, target: ScheduleTarget) -> bool {
    &&& d.owns(actor, id)
    &&& d.has_schedule(id)
    &&& same_target(d.schedule_requests@[d.schedule_index(id)].target, target)
}

fn locate_schedule(d: &Data, actor: &Actor, id: u128, target: &ScheduleTarget) -> (r: Result<usize>)
    requires
        d.wf(),
    ensures
        r is Ok <==> schedule_matches(*d, *actor, id, *target),
        !d.owns(*actor, id) || !d.has_schedule(id) ==> r == Err::<usize, Error>(Error::NotFound),
        d.owns(*actor, id) && d.has_schedule(id) && !schedule_matches(*d, *actor, id, *target) ==> r matches Err(Error::Conflict(_)),
        r matches Ok(i) ==> i == d.schedule_index(id) && i < d.schedule_requests@.len(),
{
    d.owned_run(actor, id)?;
    let i = match d.find_schedule(id) {
        None => return Err(Error::NotFound),
        Some(i) => i,
    };
    if !target_equals(&d.schedule_requests[i].target, target) {
        return Err(conflict("scheduling target changed"));
    }
    Ok(i)
}

/// Rotate an attempted request behind untouched work: its last attempt is now.
pub fn record_schedule_attempt(d: &mut Data, actor: &Actor, id: u128, target: &ScheduleTarget) -> (r: Result<()>)
    requires
        old(d).wf(),
    ensures
        final(d).wf(),
        r is Err ==> *final(d) == *old(d),
        r is Ok <==> schedule_matches(*old(d), *actor, id, *target),
        !old(d).owns(*actor, id) || !old(d).has_schedule(id) ==> r == Err::<(), Error>(Error::NotFound),
        r is Ok ==> {
            let i = old(d).schedule_index(id);
            let q = old(d).schedule_requests@[i];
            &&& only_schedules_changed(*old(d), *final(d))
            &&& final(d).schedule_requests@ == old(d).schedule_requests@.update(i,
                ScheduleRequest { last_attempt: final(d).schedule_requests@[i].last_attempt, ..q })
        },
{
    let i = locate_schedule(d, actor, id, target)?;
    let at = crate::primitives::now();
    d.schedule_requests[i].last_attempt = at;
    Ok(())
}

/// Trusted scheduler receipt, never exposed as a model tool.
pub fn acknowledge_schedule(d: &mut Data, actor: &Actor, id: u128, target: &ScheduleTarget) -> (r: Result<()>)
    requires
        old(d).wf(),
    ensures
        final(d).wf(),
        r is Err ==> *final(d) == *old(d),
        r is Ok <==> schedule_matches(*old(d), *actor, id, *target),
        !old(d).owns(*actor, id) || !old(d).has_schedule(id) ==> r == Err::<(), Error>(Error::NotFound),
        r is Ok ==> {
            let i = old(d).schedule_index(id);
            let q = old(d).schedule_requests@[i];
            &&& only_schedules_changed(*old(d), *final(d))
            &&& final(d).schedule_requests@ == old(d).schedule_requests@.update(i, ScheduleRequest { acknowledged: true, ..q })
        },
{
    let i = locate_schedule(d, actor, id, target)?;
    d.schedule_requests[i].acknowledged = true;
    Ok(())
}

} // verus!
