//! Cancelling a whole run tree: request, then settle every run.
use vstd::prelude::*;
use crate::error::{Error, Result};
use crate::models::{Actor, OperationStatus, WaitReason};
use crate::runtime::{cancel, cancel_requested, cancellation_finished, cancellable, children_owned, finish_cancellation,
    pending_stored, run_tree, unresolved};
use crate::store::{Data, Operation, Run};

verus! {

/// The operation has not started: it may still be cancelled.
pub open spec fn unstarted(s: OperationStatus) -> bool {
    s is Pending || s is WaitingApproval
}

/// Every stored run has all its pending operations stored.
pub open spec fn all_pending_stored(d: Data) -> bool {
    forall|c: int| 0 <= c < d.runs@.len() ==> pending_stored(d, #[trigger] d.runs@[c])
}

/// `now` differs from `before` at most in status, wait, next input and revision.
pub open spec fn same_run_but_state(before: Run, now: Run) -> bool {
    now == (Run { status: now.status, wait: now.wait, next_input: now.next_input, revision: now.revision, ..before })
}

/// An operation is unchanged, or was unstarted and is now cancelled.
pub open spec fn cancelled_or_kept(before: Operation, now: Operation) -> bool {
    now == before || (unstarted(before.status)
        && now == (Operation { status: OperationStatus::Cancelled, revision: now.revision, ..before }))
}

/// Operation `o` of `run` is still in flight, or started a child run.
pub open spec fn in_flight(d: Data, run: Run, o: u128) -> bool {
    ||| exists|k: int| 0 <= k < run.pending_operations@.len() && #[trigger] run.pending_operations@[k] == o
        && d.has_operation(o) && (d.operation(o).status is Running || d.operation(o).status is Unknown)
    ||| exists|c: int| 0 <= c < d.runs@.len() && (#[trigger] d.runs@[c]).parent_operation == Some(o)
        && d.has_operation(o) && d.operation(o).run_id == run.meta.id
}

/// The run waits to reconcile an operation that is in flight or started a child.
pub open spec fn reconciling(d: Data, run: Run) -> bool {
    match run.wait {
        Some(WaitReason::Reconciliation { operation_id }) => in_flight(d, run, operation_id),
        _ => false,
    }
}

/// A run of a cancelled tree after settling: cancelled, or still cancelling
/// while it waits to reconcile an operation in flight or one that started a
/// child run; none of its operations is left unstarted.
pub open spec fn settled(d: Data, before: Run, now: Run) -> bool {
    &&& !before.status.is_stopped() ==> now.next_input is None
    &&& (now.status is Cancelled && now.wait is None) || (now.status is Cancelling && reconciling(d, now))
    &&& forall|k: int| 0 <= k < now.pending_operations@.len() ==> d.has_operation(#[trigger] now.pending_operations@[k])
        && !unstarted(d.operation(now.pending_operations@[k]).status)
}

/// The run at index `c` after cancelling `tree`, whose runs from position `k`
/// on have been settled.
pub open spec fn tree_progress(o: Data, d: Data, tree: Seq<u128>, k: int, c: int) -> bool {
    let before = o.runs@[c];
    let now = d.runs@[c];
    &&& same_run_but_state(before, now)
    &&& if !tree.contains(before.meta.id) || before.status.is_terminal() {
        now == before
    } else if !tree.subrange(k, tree.len() as int).contains(before.meta.id) {
        now == cancel_requested(before)
    } else {
        settled(d, before, now)
    }
}

/// The run at index `c` after cancelling and settling all of `tree`.
pub open spec fn tree_settled(o: Data, d: Data, tree: Seq<u128>, c: int) -> bool {
    let before = o.runs@[c];
    let now = d.runs@[c];
    &&& same_run_but_state(before, now)
    &&& if !tree.contains(before.meta.id) || before.status.is_terminal() {
        now == before
    } else {
        settled(d, before, now)
    }
}

#[verifier::rlimit(80)]
proof fn lemma_settle_step(o: Data, before: Data, after: Data, actor: Actor, t: u128, tree: Seq<u128>, k: int)
    requires
        o.wf(),
        before.wf(),
        after.wf(),
        0 < k <= tree.len(),
        tree.no_duplicates(),
        tree[k - 1] == t,
        o.runs@.len() == before.runs@.len(),
        o.has_run(t),
        before.owns(actor, t),
        forall|c: int| 0 <= c < o.runs@.len() ==> #[trigger] tree_progress(o, before, tree, k, c),
        cancellation_finished(before, after, actor, t, Ok(())),
    ensures
        after.runs@.len() == before.runs@.len(),
        after.operations@.len() == before.operations@.len(),
        forall|j: int| 0 <= j < before.operations@.len() ==> #[trigger] cancelled_or_kept(before.operations@[j], after.operations@[j]),
        forall|c: int| 0 <= c < o.runs@.len() ==> #[trigger] tree_progress(o, after, tree, k - 1, c),
{
    let ci = o.run_index(t);
    let run = before.run(t);
    let sub0 = tree.subrange(k, tree.len() as int);
    let sub1 = tree.subrange(k - 1, tree.len() as int);
    assert(tree_progress(o, before, tree, k, ci));
    assert(before.runs@[ci].meta.id == t);
    assert(before.run_index(t) == ci);
    assert(!sub0.contains(t)) by {
        if sub0.contains(t) {
            let m = choose|m: int| 0 <= m < sub0.len() && #[trigger] sub0[m] == t;
            assert(tree[k + m] == tree[k - 1]);
        }
    }
    assert(sub1[0] == t);
    assert(tree.contains(t)) by { assert(tree[k - 1] == t); }
    if !(run.status is Cancelling) {
        assert(after == before);
        assert forall|c: int| 0 <= c < o.runs@.len() implies #[trigger] tree_progress(o, after, tree, k - 1, c) by {
            let b = o.runs@[c];
            assert(tree_progress(o, before, tree, k, c));
            if c == ci {
                assert(b.status.is_terminal());
            } else {
                assert(b.meta.id != t);
                assert(sub1.contains(b.meta.id) == sub0.contains(b.meta.id)) by {
                    if sub1.contains(b.meta.id) {
                        let m = choose|m: int| 0 <= m < sub1.len() && #[trigger] sub1[m] == b.meta.id;
                        assert(m != 0);
                        assert(sub0[m - 1] == b.meta.id);
                    }
                    if sub0.contains(b.meta.id) {
                        let m = choose|m: int| 0 <= m < sub0.len() && #[trigger] sub0[m] == b.meta.id;
                        assert(sub1[m + 1] == b.meta.id);
                    }
                }
            }
        }
        assert forall|j: int| 0 <= j < before.operations@.len() implies #[trigger] cancelled_or_kept(before.operations@[j], after.operations@[j]) by {}
    } else {
        let run2 = after.runs@[ci];
        assert(pending_stored(before, run));
        assert forall|j: int| 0 <= j < before.operations@.len() implies #[trigger] cancelled_or_kept(before.operations@[j], after.operations@[j]) by {
            assert(after.operations@[j] == if cancellable(before, run, j) {
                Operation { status: OperationStatus::Cancelled, revision: before.operations@[j].revision.wrapping_add(1), ..before.operations@[j] }
            } else {
                before.operations@[j]
            });
        }
        // Operations keep their identity and run; started ones are untouched.
        assert forall|x: u128| before.has_operation(x) implies after.has_operation(x) && #[trigger] after.operation_index(x) == before.operation_index(x)
            && after.operation(x).run_id == before.operation(x).run_id
            && (!unstarted(before.operation(x).status) ==> after.operation(x) == before.operation(x)) by {
            let j = before.operation_index(x);
            assert(cancelled_or_kept(before.operations@[j], after.operations@[j]));
            assert(after.operations@[j].meta.id == x);
            assert(after.has_operation(x));
        }
        assert forall|x: u128| #[trigger] after.has_operation(x) implies before.has_operation(x) by {
            let j = after.operation_index(x);
            assert(cancelled_or_kept(before.operations@[j], after.operations@[j]));
        }
        assert forall|c: int| 0 <= c < after.runs@.len() implies #[trigger] after.runs@[c].parent_operation == before.runs@[c].parent_operation by {}
        assert forall|c: int| 0 <= c < o.runs@.len() implies #[trigger] tree_progress(o, after, tree, k - 1, c) by {
            let b = o.runs@[c];
            assert(tree_progress(o, before, tree, k, c));
            if c == ci {
                assert(!b.status.is_terminal());
                assert(run == cancel_requested(b));
                assert(sub1.contains(t));
                assert forall|q: int| 0 <= q < run2.pending_operations@.len() implies after.has_operation(#[trigger] run2.pending_operations@[q])
                    && !unstarted(after.operation(run2.pending_operations@[q]).status) by {
                    let x = run.pending_operations@[q];
                    assert(before.has_operation(x));
                    let j = before.operation_index(x);
                    if unstarted(before.operations@[j].status) {
                        assert(cancellable(before, run, j));
                    }
                }
                if exists|x: u128| unresolved(before, run, x) {
                    let x = choose|x: u128| run2.wait == Some(WaitReason::Reconciliation { operation_id: x }) && unresolved(before, run, x);
                    if exists|q: int| 0 <= q < run.pending_operations@.len() && #[trigger] run.pending_operations@[q] == x
                        && before.has_operation(x) && (before.operation(x).status is Running || before.operation(x).status is Unknown) {
                        let q = choose|q: int| 0 <= q < run.pending_operations@.len() && #[trigger] run.pending_operations@[q] == x
                            && before.has_operation(x) && (before.operation(x).status is Running || before.operation(x).status is Unknown);
                        assert(run2.pending_operations@[q] == x);
                    } else {
                        let w = choose|w: int| 0 <= w < before.runs@.len() && !(#[trigger] before.runs@[w]).status.is_terminal()
                            && before.runs@[w].parent_operation == Some(x) && before.has_operation(x)
                            && before.operation(x).run_id == run.meta.id;
                        assert(after.runs@[w].parent_operation == Some(x));
                    }
                }
                assert(settled(after, b, run2));
            } else {
                assert(b.meta.id != t);
                assert(after.runs@[c] == before.runs@[c]);
                assert(sub1.contains(b.meta.id) == sub0.contains(b.meta.id)) by {
                    if sub1.contains(b.meta.id) {
                        let m = choose|m: int| 0 <= m < sub1.len() && #[trigger] sub1[m] == b.meta.id;
                        assert(m != 0);
                        assert(sub0[m - 1] == b.meta.id);
                    }
                    if sub0.contains(b.meta.id) {
                        let m = choose|m: int| 0 <= m < sub0.len() && #[trigger] sub0[m] == b.meta.id;
                        assert(sub1[m + 1] == b.meta.id);
                    }
                }
                if tree.contains(b.meta.id) && !b.status.is_terminal() && sub0.contains(b.meta.id) {
                    let now = before.runs@[c];
                    assert(settled(before, b, now));
                    match now.wait {
                        Some(WaitReason::Reconciliation { operation_id: x }) => {
                            if now.status is Cancelling {
                                if exists|q: int| 0 <= q < now.pending_operations@.len() && #[trigger] now.pending_operations@[q] == x
                                    && before.has_operation(x) && (before.operation(x).status is Running || before.operation(x).status is Unknown) {
                                    let q = choose|q: int| 0 <= q < now.pending_operations@.len() && #[trigger] now.pending_operations@[q] == x
                                        && before.has_operation(x) && (before.operation(x).status is Running || before.operation(x).status is Unknown);
                                    assert(now.pending_operations@[q] == x);
                                } else {
                                    let w = choose|w: int| 0 <= w < before.runs@.len() && (#[trigger] before.runs@[w]).parent_operation == Some(x)
                                        && before.has_operation(x) && before.operation(x).run_id == now.meta.id;
                                    assert(after.runs@[w].parent_operation == Some(x));
                                }
                            }
                        },
                        _ => {},
                    }
                    assert forall|q: int| 0 <= q < now.pending_operations@.len() implies after.has_operation(#[trigger] now.pending_operations@[q])
                        && !unstarted(after.operation(now.pending_operations@[q]).status) by {
                        assert(before.has_operation(now.pending_operations@[q]));
                    }
                    assert(settled(after, b, now));
                }
            }
        }
    }
}

/// Cancel a run and all its descendants, then settle every run of the tree,
/// in the reverse of the tree order: unstarted operations are cancelled, and a
/// run ends cancelled unless an operation in flight or a live child keeps it
/// waiting for reconciliation. Returns the tree, root first.
#[verifier::rlimit(80)]
pub fn cancel_tree(d: &mut Data, actor: &Actor, id: u128) -> (r: Result<Vec<u128>>)
    requires
        old(d).wf(),
    ensures
        final(d).wf(),
        !old(d).owns(*actor, id) ==> r == Err::<Vec<u128>, Error>(Error::NotFound) && *final(d) == *old(d),
        r is Err ==> r == Err::<Vec<u128>, Error>(Error::NotFound),
        final(d).submissions == old(d).submissions,
        old(d).owns(*actor, id) && children_owned(*old(d), *actor) && all_pending_stored(*old(d)) ==> r is Ok,
        r matches Ok(tree) ==> {
            &&& run_tree(*old(d), *actor, id, tree@)
            &&& final(d).runs@.len() == old(d).runs@.len()
            &&& forall|c: int| 0 <= c < old(d).runs@.len() ==> #[trigger] tree_settled(*old(d), *final(d), tree@, c)
            &&& final(d).operations@.len() == old(d).operations@.len()
            &&& forall|j: int| 0 <= j < old(d).operations@.len()
                ==> #[trigger] cancelled_or_kept(old(d).operations@[j], final(d).operations@[j])
        },
{
    let tree = cancel(d, actor, id)?;
    let ghost o = *old(d);
    let ghost mid = *d;
    proof {
        assert forall|c: int| 0 <= c < o.runs@.len() implies #[trigger] tree_progress(o, *d, tree@, tree@.len() as int, c) by {
            assert(tree@.subrange(tree@.len() as int, tree@.len() as int) =~= Seq::<u128>::empty());
            assert(!tree@.subrange(tree@.len() as int, tree@.len() as int).contains(o.runs@[c].meta.id));
        }
    }
    let mut k: usize = tree.len();
    while k > 0
        invariant
            d.wf(),
            o == *old(d),
            o.wf(),
            run_tree(o, *actor, id, tree@),
            k <= tree@.len(),
            d.runs@.len() == o.runs@.len(),
            d.submissions == o.submissions,
            d.operations@.len() == o.operations@.len(),
            forall|j: int| 0 <= j < o.operations@.len() ==> #[trigger] cancelled_or_kept(o.operations@[j], d.operations@[j]),
            forall|c: int| 0 <= c < o.runs@.len() ==> #[trigger] tree_progress(o, *d, tree@, k as int, c),
        decreases k,
    {
        let t = tree[k - 1];
        let ghost before = *d;
        let ghost ci = o.run_index(t);
        proof {
            assert(o.owns(*actor, tree@[k - 1]));
            assert(tree_progress(o, before, tree@, k as int, ci));
            assert(before.runs@[ci].meta.id == t);
            assert(before.run_index(t) == ci);
            assert(before.owns(*actor, t));
        }
        let res = finish_cancellation(d, actor, t);
        if res.is_err() {
            proof {
                let run = before.run(t);
                assert(run.status is Cancelling);
                assert(!pending_stored(before, run));
                assert(!all_pending_stored(o)) by {
                    if all_pending_stored(o) {
                        assert(pending_stored(o, o.runs@[ci]));
                        assert forall|q: int| 0 <= q < run.pending_operations@.len() implies before.has_operation(
                            #[trigger] run.pending_operations@[q]) by {
                            let x = run.pending_operations@[q];
                            assert(o.has_operation(x));
                            let j = o.operation_index(x);
                            assert(cancelled_or_kept(o.operations@[j], before.operations@[j]));
                            assert(before.operations@[j].meta.id == x);
                        }
                    }
                }
            }
            return Err(Error::NotFound);
        }
        proof {
            lemma_settle_step(o, before, *d, *actor, t, tree@, k as int);
            assert forall|j: int| 0 <= j < o.operations@.len() implies #[trigger] cancelled_or_kept(o.operations@[j], d.operations@[j]) by {
                assert(cancelled_or_kept(o.operations@[j], before.operations@[j]));
                assert(cancelled_or_kept(before.operations@[j], d.operations@[j]));
            }
        }
        k = k - 1;
    }
    proof {
        assert(tree@.subrange(0, tree@.len() as int) =~= tree@);
        assert forall|c: int| 0 <= c < o.runs@.len() implies #[trigger] tree_settled(o, *d, tree@, c) by {
            assert(tree_progress(o, *d, tree@, 0, c));
        }
    }
    Ok(tree)
}

} // verus!
