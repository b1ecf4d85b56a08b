//! Memory recall: which records a query may return, and how many of the
//! ranked ones fit in a reply. Ranking itself is a floating-point score that
//! the host computes.
use vstd::prelude::*;
use crate::error::{invalid, Error, Result};
use crate::memory::{belongs, scope_valid, validate_scope, MemoryRecord, MemoryScope};
use crate::models::Actor;
use crate::store::Data;
use crate::text::utf8_len;

verus! {

/// The most bytes of records that one recall returns, counting the enclosing brackets.
pub const RECALL_BYTES: usize = 32768;

/// A record a recall may return: the actor's own, in the scope, not deleted
/// and not superseded.
pub open spec fn recallable(m: MemoryRecord, actor: Actor, scope: MemoryScope) -> bool {
    belongs(m, actor, scope) && !m.deleted && m.superseded_by is None
}

/// The two term lists share a term.
pub open spec fn shares_term(a: Seq<String>, b: Seq<String>) -> bool {
    exists|i: int, j: int| 0 <= i < a.len() && 0 <= j < b.len() && (#[trigger] a[i])@ == (#[trigger] b[j])@
}

/// A recall request is within bounds: a valid scope, a query of at most 8 KiB
/// and a limit of 1 to 20 records.
pub fn validate_recall(scope: &MemoryScope, query: &str, limit: usize) -> (r: Result<()>)
    ensures
        r is Ok <==> scope_valid(*scope) && utf8_len(query@) <= 8192 && 1 <= limit <= 20,
        r is Err ==> (r matches Err(Error::Invalid(_))),
{
    validate_scope(scope)?;
    let q = crate::error::text(query);
    if crate::text::byte_length(&q) > 8192 || limit < 1 || limit > 20 {
        return Err(invalid("memory query exceeds bounds"));
    }
    Ok(())
}

fn share(a: &Vec<String>, b: &Vec<String>) -> (r: bool)
    ensures
        r == shares_term(a@, b@),
{
    let mut i: usize = 0;
    while i < a.len()
        invariant
            i <= a@.len(),
            forall|x: int, y: int| 0 <= x < i && 0 <= y < b@.len() ==> (#[trigger] a@[x])@ != (#[trigger] b@[y])@,
        decreases a@.len() - i,
    {
        let mut j: usize = 0;
        while j < b.len()
            invariant
                i < a@.len(),
                j <= b@.len(),
                forall|y: int| 0 <= y < j ==> a@[i as int]@ != (#[trigger] b@[y])@,
            decreases b@.len() - j,
        {
            if a[i] == b[j] {
                assert(a@[i as int]@ == b@[j as int]@);
                return true;
            }
            j = j + 1;
        }
        i = i + 1;
    }
    false
}

/// The identifiers, in store order, of the first `k` records that the actor
/// may recall and that share a term with the query.
pub open spec fn candidate_ids(ms: Seq<MemoryRecord>, terms: Seq<Vec<String>>, actor: Actor, scope: MemoryScope,
    query: Seq<String>, k: nat) -> Seq<u128>
    decreases k,
{
    if k == 0 || k > ms.len() {
        Seq::empty()
    } else {
        let prev = candidate_ids(ms, terms, actor, scope, query, (k - 1) as nat);
        if recallable(ms[k - 1], actor, scope) && shares_term(query, terms[k - 1]@) {
            prev.push(ms[k - 1].id)
        } else {
            prev
        }
    }
}

/// A record of the actor's workspace, actor and scope, neither deleted nor
/// superseded, whose terms `t` share one with the query.
pub open spec fn live_match(m: MemoryRecord, actor: Actor, scope: MemoryScope, query: Seq<String>, t: Seq<String>) -> bool {
    &&& m.workspace_id@ == actor.workspace_id@ && m.actor_id@ == actor.id@ && m.scope@ == scope.name@
    &&& !m.deleted && m.superseded_by is None
    &&& shares_term(query, t)
}

/// `id` names one of the records `ms` that is a live match.
pub open spec fn names_live_match(ms: Seq<MemoryRecord>, terms: Seq<Vec<String>>, actor: Actor, scope: MemoryScope,
    query: Seq<String>, id: u128) -> bool {
    exists|j: int| 0 <= j < ms.len() && ms[j].id == id && #[trigger] live_match(ms[j], actor, scope, query, terms[j]@)
}

/// Every identifier returned names a live match, and every live match is returned.
pub open spec fn recalls_exactly(ms: Seq<MemoryRecord>, terms: Seq<Vec<String>>, actor: Actor, scope: MemoryScope,
    query: Seq<String>, r: Seq<u128>) -> bool {
    &&& forall|k: int| 0 <= k < r.len() ==> names_live_match(ms, terms, actor, scope, query, #[trigger] r[k])
    &&& forall|j: int| 0 <= j < ms.len() && #[trigger] live_match(ms[j], actor, scope, query, terms[j]@) ==> r.contains(ms[j].id)
}

/// Recall never returns a deleted or superseded memory, nor one of another
/// workspace, actor or scope, and returns every live one that matches.
pub proof fn recall_returns_only_live_matching_memories(ms: Seq<MemoryRecord>, terms: Seq<Vec<String>>, actor: Actor,
    scope: MemoryScope, query: Seq<String>, k: nat)
    requires
        k <= ms.len(),
    ensures
        recalls_exactly(ms.take(k as int), terms, actor, scope, query, candidate_ids(ms, terms, actor, scope, query, k)),
    decreases k,
{
    let cur = candidate_ids(ms, terms, actor, scope, query, k);
    let t = ms.take(k as int);
    if k > 0 {
        recall_returns_only_live_matching_memories(ms, terms, actor, scope, query, (k - 1) as nat);
        let prev = candidate_ids(ms, terms, actor, scope, query, (k - 1) as nat);
        let p = ms.take(k - 1);
        assert forall|i: int| 0 <= i < cur.len() implies names_live_match(t, terms, actor, scope, query, #[trigger] cur[i]) by {
            if i < prev.len() {
                assert(cur[i] == prev[i]);
                assert(names_live_match(p, terms, actor, scope, query, prev[i]));
                let j = choose|j: int| 0 <= j < p.len() && p[j].id == prev[i] && #[trigger] live_match(p[j], actor, scope, query, terms[j]@);
                assert(t[j] == p[j]);
                assert(live_match(t[j], actor, scope, query, terms[j]@));
            } else {
                assert(t[k - 1] == ms[k - 1]);
                assert(live_match(t[k - 1], actor, scope, query, terms[k - 1]@));
            }
        }
        assert forall|j: int| 0 <= j < t.len() && #[trigger] live_match(t[j], actor, scope, query, terms[j]@)
            implies cur.contains(t[j].id) by {
            if j < k - 1 {
                assert(p[j] == t[j]);
                assert(live_match(p[j], actor, scope, query, terms[j]@));
                assert(prev.contains(p[j].id));
                let i = choose|i: int| 0 <= i < prev.len() && prev[i] == p[j].id;
                assert(cur[i] == prev[i]);
            } else {
                assert(t[j] == ms[k - 1]);
                assert(cur[cur.len() - 1] == ms[k - 1].id);
            }
        }
    } else {
        assert(cur =~= Seq::<u128>::empty());
        assert(t =~= Seq::<MemoryRecord>::empty());
    }
}

/// The identifiers of the records that a query with terms `query` may
/// return, in store order: those the actor may recall that share a term with
/// the query. `record_terms[k]` holds the terms of the text of record `k`.
pub fn recall_candidates(d: &Data, actor: &Actor, scope: &MemoryScope, query: &Vec<String>, record_terms: &Vec<Vec<String>>)
    -> (r: Vec<u128>)
    requires
        record_terms@.len() == d.memories@.len(),
    ensures
        r@ == candidate_ids(d.memories@, record_terms@, *actor, *scope, query@, d.memories@.len()),
        recalls_exactly(d.memories@, record_terms@, *actor, *scope, query@, r@),
{
    let mut r: Vec<u128> = Vec::new();
    let mut k: usize = 0;
    while k < d.memories.len()
        invariant
            record_terms@.len() == d.memories@.len(),
            k <= d.memories@.len(),
            r@ == candidate_ids(d.memories@, record_terms@, *actor, *scope, query@, k as nat),
        decreases d.memories@.len() - k,
    {
        let m = &d.memories[k];
        let ok = m.workspace_id == actor.workspace_id && m.actor_id == actor.id && m.scope == scope.name && !m.deleted
            && m.superseded_by.is_none() && share(query, &record_terms[k]);
        if ok {
            r.push(m.id);
        }
        k = k + 1;
    }
    proof {
        recall_returns_only_live_matching_memories(d.memories@, record_terms@, *actor, *scope, query@, d.memories@.len());
        assert(d.memories@.take(d.memories@.len() as int) =~= d.memories@);
    }
    r
}

/// Greedy selection over ranked records of these serialized sizes: a record
/// is taken when it still fits in the reply (each costs its size and a
/// separator) and fewer than `limit` were taken. Returns the taken positions
/// and the bytes used.
pub open spec fn fitting(sizes: Seq<usize>, limit: nat, k: nat) -> (Seq<usize>, int)
    decreases k,
{
    if k == 0 || k > sizes.len() {
        (Seq::empty(), 2)
    } else {
        let (taken, bytes) = fitting(sizes, limit, (k - 1) as nat);
        let size = sizes[k - 1];
        if taken.len() < limit && bytes + size + 1 <= RECALL_BYTES {
            (taken.push((k - 1) as usize), bytes + size + 1)
        } else {
            (taken, bytes)
        }
    }
}

/// Which of the ranked records (by their serialized sizes, best first) a
/// recall returns: see `fitting`.
pub fn select_within_budget(sizes: &Vec<usize>, limit: usize) -> (r: Vec<usize>)
    ensures
        r@ == fitting(sizes@, limit as nat, sizes@.len()).0,
{
    let mut r: Vec<usize> = Vec::new();
    let mut bytes: usize = 2;
    let mut k: usize = 0;
    while k < sizes.len()
        invariant
            k <= sizes@.len(),
            (r@, bytes as int) == fitting(sizes@, limit as nat, k as nat),
            2 <= bytes <= RECALL_BYTES,
        decreases sizes@.len() - k,
    {
        let size = sizes[k];
        if r.len() < limit && size < RECALL_BYTES && bytes + size + 1 <= RECALL_BYTES {
            r.push(k);
            bytes = bytes + size + 1;
        }
        k = k + 1;
    }
    r
}

} // verus!
